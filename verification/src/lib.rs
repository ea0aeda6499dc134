//! Resolution pipeline for a code-to-image renderer: it turns partially
//! specified user inputs (an optional file extension, an optional named
//! theme, an optional highlight-rule string, an optional format name) into a
//! fully resolved rendering configuration, failing predictably when inputs
//! are ambiguous or unsupported.
pub mod color;
pub mod error;
pub mod format;
pub mod render;
pub mod resolve;
pub mod serial;
pub mod syntax;
pub mod text;
pub mod theme;
