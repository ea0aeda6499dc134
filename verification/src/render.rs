//! The resolution phase of the render orchestrator: composes the resolved
//! syntax, theme and format into one configuration, propagating the first
//! failure unmodified — no partial configuration is ever used.
use vstd::prelude::*;

use syntect::parsing::SyntaxReference;
use syntect::parsing::SyntaxSet;

use crate::error::ResolveError;
use crate::format::ImageFormatTag;
use crate::format::format_of_name;
use crate::format::resolve_format;
use crate::resolve::ThemeChoice;
use crate::resolve::ThemeChoiceV;
use crate::resolve::ThemeRegistry;
use crate::resolve::choose_theme;
use crate::resolve::opt_str_view;
use crate::resolve::resolve_theme;
use crate::syntax::first_line_patterns_ok;
use crate::syntax::has_syntax_for_extension;
use crate::syntax::has_syntax_for_first_line;
use crate::syntax::resolve_syntax;
use crate::text::first_line_of;
use crate::theme::ThemeErrV;

verus! {

/// The fully resolved bundle the rendering collaborator consumes:
/// constructed once per invocation and never mutated afterwards.
#[derive(Debug)]
pub struct RenderConfig<'a> {
    pub content: String,
    pub syntax: &'a SyntaxReference,
    pub theme: ThemeChoice,
    pub format: ImageFormatTag,
    pub copy: bool,
    pub output: String,
}

/// Whether the syntax resolution of `resolve_syntax` succeeds on these
/// inputs: by extension lookup when one is present, else by the content's
/// first line.
pub open spec fn syntax_ok(ss: SyntaxSet, content: Seq<char>, extension: Option<Seq<char>>) -> bool {
    match extension {
        Some(e) => has_syntax_for_extension(ss, e),
        None => has_syntax_for_first_line(ss, first_line_of(content)),
    }
}

/// Runs the three resolvers in order — syntax, theme, format — and bundles
/// their results; the first failure aborts resolution and is returned
/// unmodified. Without an extension the content's first line is sniffed, so
/// the set's first-line patterns must then be known to compile — a set from
/// `load_default_syntaxes` is.
pub fn resolve_all<'a>(
    ss: &'a SyntaxSet,
    registry: &ThemeRegistry,
    content: String,
    extension: &Option<String>,
    vim_theme: &Option<String>,
    named_theme: &Option<String>,
    format_name: &Option<String>,
    copy: bool,
    output: String,
) -> (r: Result<RenderConfig<'a>, ResolveError>)
    requires
        extension is None ==> first_line_patterns_ok(*ss),
    ensures
        match r {
            Ok(cfg) => {
                &&& syntax_ok(*ss, content@, opt_str_view(*extension))
                &&& choose_theme(opt_str_view(*vim_theme), opt_str_view(*named_theme), registry@)
                    == Ok::<ThemeChoiceV, ThemeErrV>(cfg.theme@)
                &&& (match format_name {
                    Some(n) => format_of_name(n@) == Some(cfg.format),
                    None => cfg.format == ImageFormatTag::Png,
                })
                &&& cfg.content@ == content@
                &&& cfg.copy == copy
                &&& cfg.output@ == output@
            },
            Err(e) => match e {
                ResolveError::SyntaxNotFound(_) => !syntax_ok(*ss, content@, opt_str_view(*extension)),
                ResolveError::ThemeParse(pe) => syntax_ok(*ss, content@, opt_str_view(*extension))
                    && choose_theme(opt_str_view(*vim_theme), opt_str_view(*named_theme), registry@)
                    == Err::<ThemeChoiceV, ThemeErrV>(pe@),
                ResolveError::UnsupportedFormat(uf) => syntax_ok(*ss, content@, opt_str_view(*extension))
                    && choose_theme(opt_str_view(*vim_theme), opt_str_view(*named_theme), registry@) is Ok
                    && (match format_name {
                        Some(n) => format_of_name(n@) is None && uf.name@ == n@,
                        None => false,
                    }),
            },
        },
{
    let syntax = match resolve_syntax(ss, content.as_str(), extension) {
        Ok(s) => s,
        Err(e) => {
            return Err(ResolveError::SyntaxNotFound(e));
        },
    };
    let theme = match resolve_theme(vim_theme, named_theme, registry) {
        Ok(c) => c,
        Err(e) => {
            return Err(ResolveError::ThemeParse(e));
        },
    };
    let format = match resolve_format(format_name) {
        Ok(f) => f,
        Err(e) => {
            return Err(ResolveError::UnsupportedFormat(e));
        },
    };
    Ok(RenderConfig { content, syntax, theme, format, copy, output })
}

} // verus!
