//! The syntax resolver: selects a grammar from syntect's registry, by
//! extension lookup when an extension was supplied, else by matching the
//! content's first line. An extension lookup that misses fails: first-line
//! sniffing is never attempted as a fallback. The case handling of the
//! extension lookup is the registry collaborator's own.
use vstd::prelude::*;

use syntect::parsing::SyntaxReference;
use syntect::parsing::SyntaxSet;

use crate::error::SyntaxNotFound;
use crate::text::first_line;
use crate::text::first_line_of;

verus! {

#[verifier::external_type_specification]
#[verifier::external_body]
pub struct ExSyntaxSet(SyntaxSet);

#[verifier::external_type_specification]
#[verifier::external_body]
pub struct ExSyntaxReference(SyntaxReference);

/// Whether some grammar of the set declares the given file extension.
pub uninterp spec fn has_syntax_for_extension(ss: SyntaxSet, ext: Seq<char>) -> bool;

/// Whether some grammar of the set has a first-line pattern matching the
/// given line.
pub uninterp spec fn has_syntax_for_first_line(ss: SyntaxSet, line: Seq<char>) -> bool;

/// Whether every first-line pattern of the set's grammars compiles. The
/// registry compiles these patterns lazily at the first sniff and aborts on
/// one that does not compile, so first-line sniffing demands this of the
/// set; the constructor below establishes it.
pub uninterp spec fn first_line_patterns_ok(ss: SyntaxSet) -> bool;

/// Relies on syntect's `SyntaxSet::load_defaults_newlines`: the bundled
/// grammar registry, whose first-line patterns all compile under the regex
/// engine of this build (the tests sniff an unmatchable line, which
/// compiles every one of them).
#[verifier::external_body]
pub fn load_default_syntaxes() -> (r: SyntaxSet)
    ensures
        first_line_patterns_ok(r),
{
    SyntaxSet::load_defaults_newlines()
}

/// Relies on syntect's `SyntaxSet::find_syntax_by_extension`: a pure lookup
/// over the set's grammars by their declared file extensions, a function of
/// the set and the extension alone.
#[verifier::external_body]
fn find_by_extension<'a>(ss: &'a SyntaxSet, ext: &str) -> (r: Option<&'a SyntaxReference>)
    ensures
        r is Some == has_syntax_for_extension(*ss, ext@),
{
    ss.find_syntax_by_extension(ext)
}

/// Relies on syntect's `SyntaxSet::find_syntax_by_first_line`: tries each
/// grammar's first-line pattern against the given line, a function of the
/// set and the line alone (a pattern failing at match time counts as no
/// match). It aborts on a pattern that does not compile, so the set's
/// patterns are required to.
#[verifier::external_body]
fn find_by_first_line<'a>(ss: &'a SyntaxSet, line: &str) -> (r: Option<&'a SyntaxReference>)
    requires
        first_line_patterns_ok(*ss),
    ensures
        r is Some == has_syntax_for_first_line(*ss, line@),
{
    ss.find_syntax_by_first_line(line)
}

/// Selects a grammar for the content. With an extension present, only the
/// extension lookup runs, and a miss is an error — first-line sniffing is
/// never attempted in that case, even though it might have matched. With no
/// extension, only the content's first line (the text before the first
/// newline, or all of it) is inspected, which is why the set's first-line
/// patterns must be known to compile in that case.
pub fn resolve_syntax<'a>(ss: &'a SyntaxSet, content: &str, extension: &Option<String>) -> (r:
    Result<&'a SyntaxReference, SyntaxNotFound>)
    requires
        extension is None ==> first_line_patterns_ok(*ss),
    ensures
        match extension {
            Some(e) => r is Ok == has_syntax_for_extension(*ss, e@),
            None => r is Ok == has_syntax_for_first_line(*ss, first_line_of(content@)),
        },
{
    match extension {
        Some(e) => {
            match find_by_extension(ss, e.as_str()) {
                Some(s) => Ok(s),
                None => Err(SyntaxNotFound),
            }
        },
        None => {
            let line = first_line(content);
            match find_by_first_line(ss, line.as_str()) {
                Some(s) => Ok(s),
                None => Err(SyntaxNotFound),
            }
        },
    }
}

} // verus!
