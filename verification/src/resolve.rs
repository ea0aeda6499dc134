//! The theme resolver: strict first-match precedence between a mini-language
//! string, a named built-in theme, and a fixed default name. A registry miss
//! for a name is not fatal: the choice falls back to an external theme
//! resource of that name, whose loading is the caller's outside work.
use vstd::prelude::*;

use crate::theme::Theme;
use crate::theme::ThemeV;
use crate::theme::ThemeErrV;
use crate::theme::ThemeParseError;
use crate::theme::theme_from_vim;
use crate::theme::vim_theme_spec;

verus! {

/// The names of the themes the built-in table holds, loaded once at startup
/// and passed by reference into the resolver.
pub struct ThemeRegistry {
    pub names: Vec<String>,
}

/// The views of the registry's names.
pub open spec fn name_views(names: Seq<String>) -> Seq<Seq<char>> {
    names.map_values(|s: String| s@)
}

impl View for ThemeRegistry {
    type V = Seq<Seq<char>>;

    open spec fn view(&self) -> Seq<Seq<char>> {
        name_views(self.names@)
    }
}

/// How the theme was chosen: synthesized from a mini-language string, found
/// in the built-in table under a name, or to be loaded as an external
/// resource of a name the table lacks.
#[derive(Debug)]
pub enum ThemeChoice {
    Synthesized(Theme),
    Builtin(String),
    External(String),
}

/// Mathematical view of a `ThemeChoice`.
pub enum ThemeChoiceV {
    Synthesized(ThemeV),
    Builtin(Seq<char>),
    External(Seq<char>),
}

impl View for ThemeChoice {
    type V = ThemeChoiceV;

    open spec fn view(&self) -> ThemeChoiceV {
        match self {
            ThemeChoice::Synthesized(t) => ThemeChoiceV::Synthesized(t@),
            ThemeChoice::Builtin(n) => ThemeChoiceV::Builtin(n@),
            ThemeChoice::External(n) => ThemeChoiceV::External(n@),
        }
    }
}

/// The view of an optional string.
pub open spec fn opt_str_view(o: Option<String>) -> Option<Seq<char>> {
    match o {
        Some(s) => Some(s@),
        None => None,
    }
}

/// The theme name used when none was given.
pub open spec fn default_theme_name() -> Seq<char> {
    "base16-ocean.dark"@
}

pub open spec fn registry_has(names: Seq<Seq<char>>, name: Seq<char>) -> bool {
    exists|i: int| 0 <= i < names.len() && names[i] == name
}

/// The resolver's precedence, strictly first-match: a present mini-language
/// string decides alone (the named theme is ignored entirely); else a
/// present name is looked up, a miss falling back to an external resource;
/// else the fixed default name goes through the same lookup-then-fallback.
pub open spec fn choose_theme(vim: Option<Seq<char>>, named: Option<Seq<char>>, names: Seq<Seq<char>>) -> Result<ThemeChoiceV, ThemeErrV> {
    if vim is Some {
        match vim_theme_spec(vim->Some_0) {
            Ok(t) => Ok(ThemeChoiceV::Synthesized(t)),
            Err(e) => Err(e),
        }
    } else {
        let name = if named is Some {
            named->Some_0
        } else {
            default_theme_name()
        };
        if registry_has(names, name) {
            Ok(ThemeChoiceV::Builtin(name))
        } else {
            Ok(ThemeChoiceV::External(name))
        }
    }
}

/// A mini-language string decides alone: with one present, the named theme
/// has no effect on the resolution whatsoever.
pub proof fn lemma_vim_spec_ignores_named(vim: Seq<char>, named1: Option<Seq<char>>, named2: Option<Seq<char>>, names: Seq<Seq<char>>)
    ensures
        choose_theme(Some(vim), named1, names) == choose_theme(Some(vim), named2, names),
{
}

/// Whether the registry holds a theme of this name.
pub fn registry_contains(registry: &ThemeRegistry, name: &String) -> (r: bool)
    ensures
        r == registry_has(registry@, name@),
{
    let mut i: usize = 0;
    while i < registry.names.len()
        invariant
            0 <= i <= registry.names@.len(),
            forall|j: int| 0 <= j < i ==> name_views(registry.names@)[j] != name@,
        decreases registry.names@.len() - i,
    {
        if registry.names[i] == *name {
            assert(name_views(registry.names@)[i as int] == name@);
            return true;
        }
        assert(name_views(registry.names@)[i as int] != name@);
        i += 1;
    }
    false
}

/// Resolves the theme with fixed precedence: a present mini-language string
/// is interpreted (its parse error propagates; the named theme is ignored);
/// else the given or default name is looked up in the registry, a miss
/// falling back to an external resource of that name.
pub fn resolve_theme(vim_spec: &Option<String>, named: &Option<String>, registry: &ThemeRegistry) -> (r: Result<ThemeChoice, ThemeParseError>)
    ensures
        match r {
            Ok(c) => choose_theme(opt_str_view(*vim_spec), opt_str_view(*named), registry@)
                == Ok::<ThemeChoiceV, ThemeErrV>(c@),
            Err(e) => choose_theme(opt_str_view(*vim_spec), opt_str_view(*named), registry@)
                == Err::<ThemeChoiceV, ThemeErrV>(e@),
        },
{
    match vim_spec {
        Some(v) => match theme_from_vim(v.as_str()) {
            Ok(t) => Ok(ThemeChoice::Synthesized(t)),
            Err(e) => Err(e),
        },
        None => {
            let name: String = match named {
                Some(n) => n.clone(),
                None => String::from_str("base16-ocean.dark"),
            };
            proof {
                if named is None {
                    assert(name@ == default_theme_name());
                }
            }
            if registry_contains(registry, &name) {
                Ok(ThemeChoice::Builtin(name))
            } else {
                Ok(ThemeChoice::External(name))
            }
        },
    }
}

} // verus!
