//! Error kinds of the resolution pipeline. Every resolver fails fast: the
//! first error aborts resolution and no partial configuration is used.
use vstd::prelude::*;

use crate::theme::ThemeParseError;

verus! {

/// No grammar matches the given extension, or no first-line pattern matches
/// the content's first line.
#[derive(Clone, Copy, PartialEq, Eq, Structural, Debug)]
pub struct SyntaxNotFound;

/// A format name that no image-format tag answers to. The offending name is
/// kept for diagnostics.
#[derive(Clone, Debug)]
pub struct UnsupportedFormat {
    pub name: String,
}

/// A named theme missing from both the built-in table and the external
/// loader. Resolution only defers to the loader (`ThemeChoice::External`);
/// the caller that performs the load reports this kind on its failure.
#[derive(Clone, Debug)]
pub struct ThemeLoadError {
    pub name: String,
}

/// The first failure of the resolution pass, one variant per resolver.
#[derive(Clone, Debug)]
pub enum ResolveError {
    /// The syntax resolver found no grammar.
    SyntaxNotFound(SyntaxNotFound),
    /// The mini-language string was malformed.
    ThemeParse(ThemeParseError),
    /// An explicit format name was not recognized.
    UnsupportedFormat(UnsupportedFormat),
}

} // verus!
