//! The theme mini-language: a semicolon-separated list of highlight rules,
//! each `name,foreground,background,flags,reserved`, interpreted into a
//! structured theme. The rule named `Normal` sets the theme's default
//! colors; later rules for the same scope overwrite earlier ones; malformed
//! hex colors fail the whole parse with the offending rule's 1-based index.
use vstd::prelude::*;

use crate::color::Color;
use crate::color::parse_color_field;
use crate::color::parse_color_chars;
use crate::text::split_on;
use crate::text::split_chars;
use crate::text::views;
use crate::text::has_sub;
use crate::text::contains_sub;
use crate::text::str_to_chars;
use crate::text::chars_to_string;
use crate::text::chars_eq;

verus! {

/// Style flags a rule may carry in its fourth field. Unknown tokens in that
/// field are ignored rather than rejected.
#[derive(Clone, Copy, PartialEq, Eq, Structural, Debug)]
pub struct StyleFlags {
    pub bold: bool,
    pub italic: bool,
    pub underline: bool,
    pub undercurl: bool,
    pub nocombine: bool,
}

impl StyleFlags {
    /// No flag set.
    pub open spec fn none_spec() -> StyleFlags {
        StyleFlags { bold: false, italic: false, underline: false, undercurl: false, nocombine: false }
    }

    /// Returns the empty flag set.
    pub fn none() -> (r: StyleFlags)
        ensures
            r == StyleFlags::none_spec(),
    {
        StyleFlags { bold: false, italic: false, underline: false, undercurl: false, nocombine: false }
    }
}

/// Which color field of a rule was malformed.
#[derive(Clone, Copy, PartialEq, Eq, Structural, Debug)]
pub enum ColorField {
    Foreground,
    Background,
}

/// A failed mini-language parse: the 1-based index of the offending rule
/// and the field that was malformed. A partial theme is never returned.
#[derive(Clone, Copy, PartialEq, Eq, Structural, Debug)]
pub struct ThemeParseError {
    pub rule_index: usize,
    pub reason: ColorField,
}

/// Mathematical view of a `ThemeParseError`.
pub struct ThemeErrV {
    pub rule_index: int,
    pub reason: ColorField,
}

impl View for ThemeParseError {
    type V = ThemeErrV;

    open spec fn view(&self) -> ThemeErrV {
        ThemeErrV { rule_index: self.rule_index as int, reason: self.reason }
    }
}

/// The resolved style of one named scope.
#[derive(Clone, Debug)]
pub struct ScopeStyle {
    pub name: String,
    pub foreground: Option<Color>,
    pub background: Option<Color>,
    pub flags: StyleFlags,
}

/// Mathematical view of a `ScopeStyle`.
pub struct ScopeStyleV {
    pub name: Seq<char>,
    pub foreground: Option<Color>,
    pub background: Option<Color>,
    pub flags: StyleFlags,
}

impl View for ScopeStyle {
    type V = ScopeStyleV;

    open spec fn view(&self) -> ScopeStyleV {
        ScopeStyleV {
            name: self.name@,
            foreground: self.foreground,
            background: self.background,
            flags: self.flags,
        }
    }
}

/// Where a theme came from: the fixed built-in table, or a fresh
/// mini-language interpretation.
#[derive(Clone, Copy, PartialEq, Eq, Structural, Debug)]
pub enum Provenance {
    Builtin,
    Synthesized,
}

/// An ordered collection of scope styles plus default colors. Scope names
/// are unique: a later rule for the same scope overwrites the earlier entry
/// in place.
#[derive(Clone, Debug)]
pub struct Theme {
    pub scopes: Vec<ScopeStyle>,
    pub foreground: Option<Color>,
    pub background: Option<Color>,
    pub provenance: Provenance,
}

/// Mathematical view of a `Theme`.
pub struct ThemeV {
    pub scopes: Seq<ScopeStyleV>,
    pub foreground: Option<Color>,
    pub background: Option<Color>,
    pub provenance: Provenance,
}

/// The views of a sequence of scope styles.
pub open spec fn scope_views(ss: Seq<ScopeStyle>) -> Seq<ScopeStyleV> {
    ss.map_values(|s: ScopeStyle| s@)
}

impl View for Theme {
    type V = ThemeV;

    open spec fn view(&self) -> ThemeV {
        ThemeV {
            scopes: scope_views(self.scopes@),
            foreground: self.foreground,
            background: self.background,
            provenance: self.provenance,
        }
    }
}

/// The theme a parse starts from: no scopes, no default colors.
pub open spec fn empty_theme() -> ThemeV {
    ThemeV {
        scopes: Seq::empty(),
        foreground: None,
        background: None,
        provenance: Provenance::Synthesized,
    }
}

/// The flags denoted by a rule's flags field: each known token counts if it
/// occurs anywhere in the field; anything else is ignored.
pub open spec fn flags_of_field(f: Seq<char>) -> StyleFlags {
    StyleFlags {
        bold: has_sub(f, "bold"@),
        italic: has_sub(f, "italic"@),
        underline: has_sub(f, "underline"@),
        undercurl: has_sub(f, "undercurl"@),
        nocombine: has_sub(f, "nocombine"@),
    }
}

/// Field `i` of a rule's field list; a missing trailing field reads as
/// empty (unset).
pub open spec fn field_at(fs: Seq<Seq<char>>, i: int) -> Seq<char> {
    if 0 <= i < fs.len() {
        fs[i]
    } else {
        Seq::empty()
    }
}

pub open spec fn rule_fields(r: Seq<char>) -> Seq<Seq<char>> {
    split_on(r, ',')
}

pub open spec fn rule_name(r: Seq<char>) -> Seq<char> {
    field_at(rule_fields(r), 0)
}

pub open spec fn rule_fg(r: Seq<char>) -> Option<Option<Color>> {
    parse_color_field(field_at(rule_fields(r), 1))
}

pub open spec fn rule_bg(r: Seq<char>) -> Option<Option<Color>> {
    parse_color_field(field_at(rule_fields(r), 2))
}

/// A rule parses iff both of its color fields do.
pub open spec fn rule_ok(r: Seq<char>) -> bool {
    rule_fg(r) is Some && rule_bg(r) is Some
}

/// Which field a malformed rule fails on: the foreground is checked first.
pub open spec fn rule_reason(r: Seq<char>) -> ColorField {
    if rule_fg(r) is None {
        ColorField::Foreground
    } else {
        ColorField::Background
    }
}

/// The scope style a well-formed rule denotes.
pub open spec fn rule_style(r: Seq<char>) -> ScopeStyleV {
    ScopeStyleV {
        name: rule_name(r),
        foreground: rule_fg(r)->Some_0,
        background: rule_bg(r)->Some_0,
        flags: flags_of_field(field_at(rule_fields(r), 3)),
    }
}

/// Index of the first scope with the given name, or -1.
pub open spec fn find_scope(scopes: Seq<ScopeStyleV>, name: Seq<char>) -> int
    decreases scopes.len(),
{
    if scopes.len() == 0 {
        -1
    } else if scopes[0].name == name {
        0
    } else if find_scope(scopes.drop_first(), name) < 0 {
        -1
    } else {
        find_scope(scopes.drop_first(), name) + 1
    }
}

pub proof fn lemma_find_scope(scopes: Seq<ScopeStyleV>, name: Seq<char>)
    ensures
        find_scope(scopes, name) >= 0 ==> 0 <= find_scope(scopes, name) < scopes.len()
            && scopes[find_scope(scopes, name)].name == name,
        find_scope(scopes, name) < 0 ==> forall|j: int| 0 <= j < scopes.len()
            ==> (#[trigger] scopes[j]).name != name,
    decreases scopes.len(),
{
    if scopes.len() == 0 {
    } else if scopes[0].name == name {
    } else {
        lemma_find_scope(scopes.drop_first(), name);
        assert(forall|j: int| 1 <= j < scopes.len() ==> scopes[j] == scopes.drop_first()[j - 1]);
    }
}

pub proof fn lemma_find_scope_is(scopes: Seq<ScopeStyleV>, name: Seq<char>, k: int)
    requires
        0 <= k < scopes.len(),
        scopes[k].name == name,
        forall|j: int| 0 <= j < k ==> (#[trigger] scopes[j]).name != name,
    ensures
        find_scope(scopes, name) == k,
    decreases scopes.len(),
{
    if k == 0 {
    } else {
        assert(forall|j: int| 0 <= j < k - 1 ==> scopes.drop_first()[j] == scopes[j + 1]);
        lemma_find_scope_is(scopes.drop_first(), name, k - 1);
    }
}

pub proof fn lemma_find_scope_none(scopes: Seq<ScopeStyleV>, name: Seq<char>)
    requires
        forall|j: int| 0 <= j < scopes.len() ==> (#[trigger] scopes[j]).name != name,
    ensures
        find_scope(scopes, name) == -1,
    decreases scopes.len(),
{
    if scopes.len() == 0 {
    } else {
        assert(forall|j: int| 0 <= j < scopes.len() - 1 ==> scopes.drop_first()[j] == scopes[j + 1]);
        lemma_find_scope_none(scopes.drop_first(), name);
    }
}

/// Inserts a scope style, overwriting in place the entry with the same
/// name if one exists: this is the mini-language's "last rule wins".
pub open spec fn upsert_scope(scopes: Seq<ScopeStyleV>, entry: ScopeStyleV) -> Seq<ScopeStyleV> {
    let i = find_scope(scopes, entry.name);
    if 0 <= i < scopes.len() {
        scopes.update(i, entry)
    } else {
        scopes.push(entry)
    }
}

/// The effect of one well-formed rule: `Normal` sets the default colors;
/// any other name upserts a scope entry.
pub open spec fn apply_rule(t: ThemeV, r: Seq<char>) -> ThemeV {
    let st = rule_style(r);
    if st.name == "Normal"@ {
        ThemeV {
            scopes: t.scopes,
            foreground: st.foreground,
            background: st.background,
            provenance: t.provenance,
        }
    } else {
        ThemeV {
            scopes: upsert_scope(t.scopes, st),
            foreground: t.foreground,
            background: t.background,
            provenance: t.provenance,
        }
    }
}

/// Folds the rules from index `i` on into `t`, stopping at the first
/// malformed rule with its 1-based index.
pub open spec fn parse_rules_from(rules: Seq<Seq<char>>, i: int, t: ThemeV) -> Result<ThemeV, ThemeErrV>
    decreases rules.len() - i,
{
    if i < 0 || i >= rules.len() {
        Ok(t)
    } else if !rule_ok(rules[i]) {
        Err(ThemeErrV { rule_index: i + 1, reason: rule_reason(rules[i]) })
    } else {
        parse_rules_from(rules, i + 1, apply_rule(t, rules[i]))
    }
}

/// What a whole mini-language string denotes: the fold of its
/// semicolon-separated rules over the empty theme.
pub open spec fn vim_theme_spec(s: Seq<char>) -> Result<ThemeV, ThemeErrV> {
    parse_rules_from(split_on(s, ';'), 0, empty_theme())
}

/// Parses the color at field `i`, a missing field meaning unset.
fn parse_field_color(fields: &Vec<Vec<char>>, i: usize) -> (r: Option<Option<Color>>)
    ensures
        r == parse_color_field(field_at(views(fields@), i as int)),
{
    if i < fields.len() {
        parse_color_chars(fields[i].as_slice())
    } else {
        Some(None)
    }
}

/// Reads the flags at field `i`, a missing field meaning none.
fn parse_field_flags(fields: &Vec<Vec<char>>, i: usize) -> (r: StyleFlags)
    ensures
        r == flags_of_field(field_at(views(fields@), i as int)),
{
    proof {
        reveal_strlit("bold");
        reveal_strlit("italic");
        reveal_strlit("underline");
        reveal_strlit("undercurl");
        reveal_strlit("nocombine");
    }
    if i < fields.len() {
        let f = &fields[i];
        let bold = str_to_chars("bold");
        let italic = str_to_chars("italic");
        let underline = str_to_chars("underline");
        let undercurl = str_to_chars("undercurl");
        let nocombine = str_to_chars("nocombine");
        StyleFlags {
            bold: contains_sub(f, &bold),
            italic: contains_sub(f, &italic),
            underline: contains_sub(f, &underline),
            undercurl: contains_sub(f, &undercurl),
            nocombine: contains_sub(f, &nocombine),
        }
    } else {
        StyleFlags::none()
    }
}

fn find_scope_index(scopes: &Vec<ScopeStyle>, name: &String) -> (r: Option<usize>)
    ensures
        match r {
            Some(j) => j < scopes@.len() && find_scope(scope_views(scopes@), name@) == j as int,
            None => find_scope(scope_views(scopes@), name@) == -1,
        },
{
    let mut j: usize = 0;
    while j < scopes.len()
        invariant
            0 <= j <= scopes@.len(),
            forall|k: int| 0 <= k < j ==> (#[trigger] scope_views(scopes@)[k]).name != name@,
        decreases scopes@.len() - j,
    {
        if scopes[j].name == *name {
            proof {
                assert(scope_views(scopes@)[j as int].name == name@);
                lemma_find_scope_is(scope_views(scopes@), name@, j as int);
            }
            return Some(j);
        }
        assert(scope_views(scopes@)[j as int].name != name@);
        j += 1;
    }
    proof {
        lemma_find_scope_none(scope_views(scopes@), name@);
    }
    None
}

/// Adds one scope style, overwriting the entry of the same name in place
/// if there is one.
fn upsert(scopes: &mut Vec<ScopeStyle>, entry: ScopeStyle)
    ensures
        scope_views(final(scopes)@) == upsert_scope(scope_views(old(scopes)@), entry@),
{
    let found = find_scope_index(scopes, &entry.name);
    match found {
        Some(j) => {
            let ghost before = scopes@;
            scopes[j] = entry;
            proof {
                assert(scope_views(scopes@) =~= scope_views(before).update(j as int, scopes@[j as int]@));
            }
        }
        None => {
            let ghost before = scopes@;
            scopes.push(entry);
            proof {
                assert(scope_views(scopes@) =~= scope_views(before).push(scopes@[before.len() as int]@));
            }
        }
    }
}

/// Interprets a whole mini-language string: returns the synthesized theme,
/// or the first malformed rule's 1-based index and offending field.
pub fn theme_from_vim(s: &str) -> (r: Result<Theme, ThemeParseError>)
    ensures
        match r {
            Ok(t) => vim_theme_spec(s@) == Ok::<ThemeV, ThemeErrV>(t@),
            Err(e) => vim_theme_spec(s@) == Err::<ThemeV, ThemeErrV>(e@),
        },
{
    let chars = str_to_chars(s);
    let rules = split_chars(&chars, ';');
    let ghost rs = split_on(s@, ';');
    let mut theme = Theme {
        scopes: Vec::new(),
        foreground: None,
        background: None,
        provenance: Provenance::Synthesized,
    };
    proof {
        assert(scope_views(theme.scopes@) =~= Seq::<ScopeStyleV>::empty());
        assert(theme@ == empty_theme());
    }
    let normal = str_to_chars("Normal");
    let mut i: usize = 0;
    while i < rules.len()
        invariant
            views(rules@) == rs,
            rs == split_on(s@, ';'),
            normal@ == "Normal"@,
            0 <= i <= rules@.len(),
            parse_rules_from(rs, 0, empty_theme()) == parse_rules_from(rs, i as int, theme@),
        decreases rules@.len() - i,
    {
        let ghost t0 = theme@;
        let ghost rv = rs[i as int];
        proof {
            assert(rules@[i as int]@ == views(rules@)[i as int]);
        }
        let fields = split_chars(&rules[i], ',');
        assert(views(fields@) == rule_fields(rv));
        assert(views(fields@).len() >= 1);
        let fg = match parse_field_color(&fields, 1) {
            Some(c) => c,
            None => {
                return Err(ThemeParseError { rule_index: i + 1, reason: ColorField::Foreground });
            },
        };
        let bg = match parse_field_color(&fields, 2) {
            Some(c) => c,
            None => {
                return Err(ThemeParseError { rule_index: i + 1, reason: ColorField::Background });
            },
        };
        let flags = parse_field_flags(&fields, 3);
        assert(rule_ok(rv));
        if chars_eq(&fields[0], &normal) {
            theme.foreground = fg;
            theme.background = bg;
            assert(theme@ == apply_rule(t0, rv));
        } else {
            let name = chars_to_string(&fields[0]);
            let entry = ScopeStyle { name, foreground: fg, background: bg, flags };
            assert(entry@ == rule_style(rv));
            upsert(&mut theme.scopes, entry);
            assert(theme@ == apply_rule(t0, rv));
        }
        i += 1;
    }
    Ok(theme)
}

} // verus!
