//! Serialization of a synthesized theme back into the mini-language, and
//! the round-trip law: interpreting a serialized theme yields the theme
//! back, field for field — explicitly set fields are preserved, and unset
//! fields never come back as a concrete color.
use vstd::prelude::*;

use crate::color::Color;
use crate::color::color_of_hex;
use crate::color::hex_body;
use crate::color::hex_pair_val;
use crate::color::hex_val;
use crate::color::is_hex_digit;
use crate::color::parse_color_field;
use crate::color::valid_hex_color;
use crate::text::char_free;
use crate::text::chars_to_string;
use crate::text::has_sub;
use crate::text::join;
use crate::text::lemma_char_free_concat;
use crate::text::lemma_char_free_iff;
use crate::text::lemma_has_sub_concat_sep;
use crate::text::lemma_has_sub_iff;
use crate::text::lemma_split_join;
use crate::text::lemma_split_pieces_free;
use crate::text::split_on;
use crate::text::str_to_chars;
use crate::text::views;
use crate::theme::Provenance;
use crate::theme::ScopeStyleV;
use crate::theme::StyleFlags;
use crate::theme::Theme;
use crate::theme::ThemeErrV;
use crate::theme::ThemeV;
use crate::theme::apply_rule;
use crate::theme::empty_theme;
use crate::theme::field_at;
use crate::theme::flags_of_field;
use crate::theme::lemma_find_scope;
use crate::theme::lemma_find_scope_none;
use crate::theme::find_scope;
use crate::theme::parse_rules_from;
use crate::theme::rule_fields;
use crate::theme::rule_name;
use crate::theme::rule_ok;
use crate::theme::rule_style;
use crate::theme::vim_theme_spec;

verus! {

/// The lowercase hex digit denoting a value below sixteen.
pub open spec fn hex_char_of(v: int) -> char {
    if v == 0 { '0' }
    else if v == 1 { '1' }
    else if v == 2 { '2' }
    else if v == 3 { '3' }
    else if v == 4 { '4' }
    else if v == 5 { '5' }
    else if v == 6 { '6' }
    else if v == 7 { '7' }
    else if v == 8 { '8' }
    else if v == 9 { '9' }
    else if v == 10 { 'a' }
    else if v == 11 { 'b' }
    else if v == 12 { 'c' }
    else if v == 13 { 'd' }
    else if v == 14 { 'e' }
    else { 'f' }
}

proof fn lemma_hex_char(v: int)
    requires
        0 <= v < 16,
    ensures
        is_hex_digit(hex_char_of(v)),
        hex_val(hex_char_of(v)) == v,
        hex_char_of(v) != ',',
        hex_char_of(v) != ';',
{
}

/// The text of one color field: empty for unset, else `#` and six
/// lowercase hex digits. An unset field thus never serializes as a
/// concrete color.
pub open spec fn color_field_chars(c: Option<Color>) -> Seq<char> {
    match c {
        None => Seq::empty(),
        Some(col) => seq![
            '#',
            hex_char_of(col.r as int / 16),
            hex_char_of(col.r as int % 16),
            hex_char_of(col.g as int / 16),
            hex_char_of(col.g as int % 16),
            hex_char_of(col.b as int / 16),
            hex_char_of(col.b as int % 16),
        ],
    }
}

proof fn lemma_color_field_round_trip(c: Option<Color>)
    ensures
        parse_color_field(color_field_chars(c)) == Some(c),
        char_free(color_field_chars(c), ','),
        char_free(color_field_chars(c), ';'),
        char_free(color_field_chars(c), ' '),
{
    let s = color_field_chars(c);
    match c {
        None => {
            lemma_char_free_iff(s, ',');
            lemma_char_free_iff(s, ';');
            lemma_char_free_iff(s, ' ');
        },
        Some(col) => {
            lemma_hex_char(col.r as int / 16);
            lemma_hex_char(col.r as int % 16);
            lemma_hex_char(col.g as int / 16);
            lemma_hex_char(col.g as int % 16);
            lemma_hex_char(col.b as int / 16);
            lemma_hex_char(col.b as int % 16);
            assert(s.len() == 7);
            assert(s[0] == '#');
            let t = hex_body(s);
            assert(t =~= s.drop_first());
            assert(t.len() == 6);
            assert forall|i: int| 0 <= i < 6 implies is_hex_digit(#[trigger] t[i]) by {
                assert(t[i] == s[i + 1]);
            }
            assert(valid_hex_color(s));
            vstd::arithmetic::div_mod::lemma_fundamental_div_mod(col.r as int, 16);
            vstd::arithmetic::div_mod::lemma_fundamental_div_mod(col.g as int, 16);
            vstd::arithmetic::div_mod::lemma_fundamental_div_mod(col.b as int, 16);
            assert(hex_pair_val(t[0], t[1]) == col.r as int);
            assert(hex_pair_val(t[2], t[3]) == col.g as int);
            assert(hex_pair_val(t[4], t[5]) == col.b as int);
            assert(color_of_hex(s) == col);
            lemma_char_free_iff(s, ',');
            lemma_char_free_iff(s, ';');
            lemma_char_free_iff(s, ' ');
            assert forall|j: int| 0 <= j < s.len() implies s[j] != ',' && s[j] != ';' && s[j]
                != ' ' by {
                if j == 0 {
                } else {
                    assert(is_hex_digit(s[j]));
                }
            }
        },
    }
}

/// A token's text when its flag is set, nothing otherwise.
pub open spec fn flag_block(c: bool, tok: Seq<char>) -> Seq<char> {
    if c {
        tok
    } else {
        Seq::empty()
    }
}

/// The flags field: the set flags' tokens, each with a trailing space.
pub open spec fn flags_chars(f: StyleFlags) -> Seq<char> {
    flag_block(f.bold, seq!['b', 'o', 'l', 'd', ' '])
    + flag_block(f.italic, seq!['i', 't', 'a', 'l', 'i', 'c', ' '])
    + flag_block(f.underline, seq!['u', 'n', 'd', 'e', 'r', 'l', 'i', 'n', 'e', ' '])
    + flag_block(f.undercurl, seq!['u', 'n', 'd', 'e', 'r', 'c', 'u', 'r', 'l', ' '])
    + flag_block(f.nocombine, seq!['n', 'o', 'c', 'o', 'm', 'b', 'i', 'n', 'e', ' '])
}

/// Empty, or ending with a space: what each flag block satisfies.
spec fn ends_space(s: Seq<char>) -> bool {
    s.len() == 0 || s.last() == ' '
}

proof fn lemma_ends_space_concat(a: Seq<char>, b: Seq<char>)
    requires
        ends_space(a),
        ends_space(b),
    ensures
        ends_space(a + b),
{
    if b.len() == 0 {
        assert(a + b =~= a);
    } else {
        assert((a + b).last() == b.last());
    }
}

/// No occurrence of a space-free needle in a hay of space-terminated
/// blocks escapes its block.
proof fn lemma_block_sub(a: Seq<char>, c: bool, tok: Seq<char>, n: Seq<char>)
    requires
        ends_space(a),
        n.len() > 0,
        char_free(n, ' '),
    ensures
        has_sub(a + flag_block(c, tok), n) == (has_sub(a, n) || (c && has_sub(tok, n))),
{
    lemma_has_sub_concat_sep(a, flag_block(c, tok), n, ' ');
    if !c {
        lemma_has_sub_iff(flag_block(c, tok), n);
    }
}

proof fn lemma_no_sub_by_char(h: Seq<char>, n: Seq<char>, k: int)
    requires
        0 <= k < n.len(),
        char_free(h, n[k]),
    ensures
        !has_sub(h, n),
{
    lemma_has_sub_iff(h, n);
    lemma_char_free_iff(h, n[k]);
    if has_sub(h, n) {
        let i0 = choose|i: int|
            0 <= i <= h.len() - n.len() && #[trigger] h.subrange(i, i + n.len() as int) == n;
        assert(h.subrange(i0, i0 + n.len() as int)[k] == h[i0 + k]);
        assert(false);
    }
}

proof fn lemma_sub_at_front(h: Seq<char>, n: Seq<char>)
    requires
        n.len() <= h.len(),
        h.subrange(0, n.len() as int) == n,
    ensures
        has_sub(h, n),
{
    lemma_has_sub_iff(h, n);
    assert(h.subrange(0, 0 + n.len() as int) == n);
}

/// Interpreting a serialized flags field recovers exactly the flags.
proof fn lemma_flags_round_trip(f: StyleFlags)
    ensures
        flags_of_field(flags_chars(f)) == f,
        char_free(flags_chars(f), ','),
        char_free(flags_chars(f), ';'),
    decreases 0int,
{
    reveal_strlit("bold");
    reveal_strlit("italic");
    reveal_strlit("underline");
    reveal_strlit("undercurl");
    reveal_strlit("nocombine");
    let bt = seq!['b', 'o', 'l', 'd', ' '];
    let it = seq!['i', 't', 'a', 'l', 'i', 'c', ' '];
    let ut = seq!['u', 'n', 'd', 'e', 'r', 'l', 'i', 'n', 'e', ' '];
    let ct = seq!['u', 'n', 'd', 'e', 'r', 'c', 'u', 'r', 'l', ' '];
    let nt = seq!['n', 'o', 'c', 'o', 'm', 'b', 'i', 'n', 'e', ' '];
    assert("bold"@ =~= bt.take(4));
    assert("italic"@ =~= it.take(6));
    assert("underline"@ =~= ut.take(9));
    assert("undercurl"@ =~= ct.take(9));
    assert("nocombine"@ =~= nt.take(9));
    let b1 = flag_block(f.bold, bt);
    let b2 = flag_block(f.italic, it);
    let b3 = flag_block(f.underline, ut);
    let b4 = flag_block(f.undercurl, ct);
    let b5 = flag_block(f.nocombine, nt);
    lemma_ends_space_concat(b1, b2);
    lemma_ends_space_concat(b1 + b2, b3);
    lemma_ends_space_concat(b1 + b2 + b3, b4);
    let needles = seq!["bold"@, "italic"@, "underline"@, "undercurl"@, "nocombine"@];
    assert forall|x: int| 0 <= x < 5 implies {
        let n = #[trigger] needles[x];
        n.len() > 0 && char_free(n, ' ') && char_free(n, ',') && char_free(n, ';')
    } by {
        let n = needles[x];
        lemma_char_free_iff(n, ' ');
        lemma_char_free_iff(n, ',');
        lemma_char_free_iff(n, ';');
    }
    assert forall|x: int| 0 <= x < 5 implies has_sub(
        flags_chars(f),
        #[trigger] needles[x],
    ) == (has_sub(b1, needles[x]) || has_sub(b2, needles[x]) || has_sub(b3, needles[x])
        || has_sub(b4, needles[x]) || has_sub(b5, needles[x])) by {
        let n = needles[x];
        lemma_block_sub(b1 + b2 + b3 + b4, f.nocombine, nt, n);
        lemma_block_sub(b1 + b2 + b3, f.undercurl, ct, n);
        lemma_block_sub(b1 + b2, f.underline, ut, n);
        lemma_block_sub(b1, f.italic, it, n);
        lemma_has_sub_iff(b1, n);
        if f.bold {
            assert(has_sub(b1, n) == has_sub(bt, n));
        }
    }
    // each token occurs in its own block alone
    lemma_sub_at_front(bt, "bold"@);
    lemma_sub_at_front(it, "italic"@);
    lemma_sub_at_front(ut, "underline"@);
    lemma_sub_at_front(ct, "undercurl"@);
    lemma_sub_at_front(nt, "nocombine"@);
    lemma_char_free_iff(it, 'b');
    lemma_char_free_iff(ut, 'b');
    lemma_char_free_iff(ct, 'b');
    lemma_char_free_iff(nt, 'd');
    lemma_no_sub_by_char(it, "bold"@, 0);
    lemma_no_sub_by_char(ut, "bold"@, 0);
    lemma_no_sub_by_char(ct, "bold"@, 0);
    lemma_no_sub_by_char(nt, "bold"@, 3);
    lemma_char_free_iff(bt, 't');
    lemma_char_free_iff(ut, 't');
    lemma_char_free_iff(ct, 't');
    lemma_char_free_iff(nt, 't');
    lemma_no_sub_by_char(bt, "italic"@, 1);
    lemma_no_sub_by_char(ut, "italic"@, 1);
    lemma_no_sub_by_char(ct, "italic"@, 1);
    lemma_no_sub_by_char(nt, "italic"@, 1);
    lemma_char_free_iff(bt, 'u');
    lemma_char_free_iff(it, 'u');
    lemma_char_free_iff(ct, 'i');
    lemma_char_free_iff(nt, 'u');
    lemma_no_sub_by_char(bt, "underline"@, 0);
    lemma_no_sub_by_char(it, "underline"@, 0);
    lemma_no_sub_by_char(ct, "underline"@, 6);
    lemma_no_sub_by_char(nt, "underline"@, 0);
    lemma_char_free_iff(ut, 'c');
    lemma_no_sub_by_char(bt, "undercurl"@, 0);
    lemma_no_sub_by_char(it, "undercurl"@, 0);
    lemma_no_sub_by_char(ut, "undercurl"@, 5);
    lemma_no_sub_by_char(nt, "undercurl"@, 0);
    lemma_char_free_iff(bt, 'n');
    lemma_char_free_iff(it, 'n');
    lemma_char_free_iff(ut, 'o');
    lemma_char_free_iff(ct, 'o');
    lemma_no_sub_by_char(bt, "nocombine"@, 0);
    lemma_no_sub_by_char(it, "nocombine"@, 0);
    lemma_no_sub_by_char(ut, "nocombine"@, 1);
    lemma_no_sub_by_char(ct, "nocombine"@, 1);
    // empty blocks hold nothing
    assert forall|x: int| 0 <= x < 5 implies !has_sub(Seq::<char>::empty(), #[trigger] needles[x]) by {
        lemma_has_sub_iff(Seq::<char>::empty(), needles[x]);
    }
    assert(has_sub(flags_chars(f), "bold"@) == f.bold);
    assert(has_sub(flags_chars(f), "italic"@) == f.italic);
    assert(has_sub(flags_chars(f), "underline"@) == f.underline);
    assert(has_sub(flags_chars(f), "undercurl"@) == f.undercurl);
    assert(has_sub(flags_chars(f), "nocombine"@) == f.nocombine);
    // separator freedom
    assert forall|s: Seq<char>| s == bt || s == it || s == ut || s == ct || s == nt implies #[trigger] char_free(s, ',') && char_free(s, ';') by {
        lemma_char_free_iff(s, ',');
        lemma_char_free_iff(s, ';');
    }
    lemma_char_free_concat(b1, b2, ',');
    lemma_char_free_concat(b1 + b2, b3, ',');
    lemma_char_free_concat(b1 + b2 + b3, b4, ',');
    lemma_char_free_concat(b1 + b2 + b3 + b4, b5, ',');
    lemma_char_free_concat(b1, b2, ';');
    lemma_char_free_concat(b1 + b2, b3, ';');
    lemma_char_free_concat(b1 + b2 + b3, b4, ';');
    lemma_char_free_concat(b1 + b2 + b3 + b4, b5, ';');
    lemma_char_free_iff(Seq::<char>::empty(), ',');
    lemma_char_free_iff(Seq::<char>::empty(), ';');
}

/// The four serialized fields of a scope rule.
pub open spec fn rule_pieces(st: ScopeStyleV) -> Seq<Seq<char>> {
    seq![
        st.name,
        color_field_chars(st.foreground),
        color_field_chars(st.background),
        flags_chars(st.flags),
    ]
}

/// The serialized text of one scope rule.
pub open spec fn rule_chars(st: ScopeStyleV) -> Seq<char> {
    join(rule_pieces(st), ',')
}

proof fn lemma_rule_round_trip(st: ScopeStyleV)
    requires
        char_free(st.name, ','),
        char_free(st.name, ';'),
    ensures
        rule_ok(rule_chars(st)),
        rule_name(rule_chars(st)) == st.name,
        rule_style(rule_chars(st)) == st,
        char_free(rule_chars(st), ';'),
{
    let ps = rule_pieces(st);
    lemma_color_field_round_trip(st.foreground);
    lemma_color_field_round_trip(st.background);
    lemma_flags_round_trip(st.flags);
    lemma_split_join(ps, ',');
    assert(rule_fields(rule_chars(st)) == ps);
    assert(field_at(ps, 0) == st.name);
    assert(field_at(ps, 1) == color_field_chars(st.foreground));
    assert(field_at(ps, 2) == color_field_chars(st.background));
    assert(field_at(ps, 3) == flags_chars(st.flags));
    // the join of semicolon-free pieces with ',' is semicolon-free
    let s = rule_chars(st);
    assert(s == ps[0] + seq![','] + join(ps.drop_first(), ','));
    assert(ps.drop_first() =~= seq![ps[1], ps[2], ps[3]]);
    assert(seq![ps[1], ps[2], ps[3]].drop_first() =~= seq![ps[2], ps[3]]);
    assert(seq![ps[2], ps[3]].drop_first() =~= seq![ps[3]]);
    assert(join(seq![ps[1], ps[2], ps[3]], ',') == ps[1] + seq![','] + join(
        seq![ps[2], ps[3]],
        ',',
    ));
    assert(join(seq![ps[2], ps[3]], ',') == ps[2] + seq![','] + join(seq![ps[3]], ','));
    assert(join(seq![ps[3]], ',') == ps[3]);
    lemma_char_free_iff(seq![','], ';');
    lemma_char_free_concat(ps[2], seq![','], ';');
    lemma_char_free_concat(ps[2] + seq![','], ps[3], ';');
    lemma_char_free_concat(ps[1], seq![','], ';');
    lemma_char_free_concat(ps[1] + seq![','], ps[2] + seq![','] + ps[3], ';');
    lemma_char_free_concat(ps[0], seq![','], ';');
    lemma_char_free_concat(ps[0] + seq![','], ps[1] + seq![','] + (ps[2] + seq![','] + ps[3]), ';');
    assert(s =~= ps[0] + seq![','] + (ps[1] + seq![','] + (ps[2] + seq![','] + ps[3])));
}

/// The serialized default-color rule: `Normal,<fg>,<bg>,`.
pub open spec fn normal_pieces(t: ThemeV) -> Seq<Seq<char>> {
    seq![
        "Normal"@,
        color_field_chars(t.foreground),
        color_field_chars(t.background),
        Seq::empty(),
    ]
}

/// The serialized rules of a theme: the default-color rule first, then one
/// rule per scope, in order.
pub open spec fn vim_rules(t: ThemeV) -> Seq<Seq<char>> {
    seq![join(normal_pieces(t), ',')] + t.scopes.map_values(|s: ScopeStyleV| rule_chars(s))
}

/// The whole serialized mini-language text of a theme.
pub open spec fn vim_of_theme(t: ThemeV) -> Seq<char> {
    join(vim_rules(t), ';')
}

/// Scope entries with names that are unique, contain no separator, and are
/// not the reserved `Normal` — what every parse produces.
pub open spec fn wf_scopes(scopes: Seq<ScopeStyleV>) -> bool {
    &&& (forall|i: int| 0 <= i < scopes.len() ==> char_free((#[trigger] scopes[i]).name, ',')
        && char_free(scopes[i].name, ';') && scopes[i].name != "Normal"@)
    &&& (forall|i: int, j: int| 0 <= i < j < scopes.len() ==> (#[trigger] scopes[i]).name
        != (#[trigger] scopes[j]).name)
}

/// A theme the serializer round-trips: synthesized, with well-formed scope
/// entries.
pub open spec fn serializable(t: ThemeV) -> bool {
    t.provenance == Provenance::Synthesized && wf_scopes(t.scopes)
}

proof fn lemma_parse_scopes(rules: Seq<Seq<char>>, base: int, scopes: Seq<ScopeStyleV>, i: int, acc: ThemeV)
    requires
        0 <= base,
        0 <= i <= scopes.len(),
        base + scopes.len() == rules.len(),
        rules.skip(base) == scopes.map_values(|s: ScopeStyleV| rule_chars(s)),
        forall|x: int| 0 <= x < scopes.len() ==> char_free((#[trigger] scopes[x]).name, ',')
            && char_free(scopes[x].name, ';') && scopes[x].name != "Normal"@,
        forall|x: int, y: int| 0 <= x < y < scopes.len() ==> (#[trigger] scopes[x]).name
            != (#[trigger] scopes[y]).name,
        acc.scopes == scopes.take(i),
    ensures
        parse_rules_from(rules, base + i, acc) == Ok::<ThemeV, ThemeErrV>(
            ThemeV {
                scopes,
                foreground: acc.foreground,
                background: acc.background,
                provenance: acc.provenance,
            },
        ),
    decreases scopes.len() - i,
{
    if i == scopes.len() {
        assert(scopes.take(i) =~= scopes);
        assert(acc == ThemeV {
            scopes,
            foreground: acc.foreground,
            background: acc.background,
            provenance: acc.provenance,
        });
    } else {
        let r = rules[base + i];
        assert(r == rules.skip(base)[i]);
        assert(r == rule_chars(scopes[i]));
        lemma_rule_round_trip(scopes[i]);
        assert forall|j: int| 0 <= j < acc.scopes.len() implies (#[trigger] acc.scopes[j]).name
            != scopes[i].name by {
            assert(acc.scopes[j] == scopes[j]);
        }
        lemma_find_scope_none(acc.scopes, scopes[i].name);
        let acc2 = apply_rule(acc, r);
        assert(acc2.scopes =~= scopes.take(i + 1));
        lemma_parse_scopes(rules, base, scopes, i + 1, acc2);
    }
}

proof fn lemma_join_snoc(qs: Seq<Seq<char>>, p: Seq<char>, sep: char)
    requires
        qs.len() >= 1,
    ensures
        join(qs.push(p), sep) == join(qs, sep) + seq![sep] + p,
    decreases qs.len(),
{
    if qs.len() == 1 {
        assert(qs.push(p).drop_first() =~= seq![p]);
        assert(join(qs.push(p), sep) == qs[0] + seq![sep] + join(seq![p], sep));
    } else {
        assert(qs.push(p).drop_first() =~= qs.drop_first().push(p));
        lemma_join_snoc(qs.drop_first(), p, sep);
        assert(join(qs.push(p), sep) =~= join(qs, sep) + seq![sep] + p);
    }
}

/// Joins the pieces with the separator between them.
pub fn join_exec(ps: &Vec<Vec<char>>, sep: char) -> (r: Vec<char>)
    requires
        ps@.len() >= 1,
    ensures
        r@ == join(views(ps@), sep),
{
    let mut out: Vec<char> = Vec::new();
    let mut i: usize = 0;
    proof {
        assert(views(ps@).take(0) =~= Seq::<Seq<char>>::empty());
    }
    while i < ps.len()
        invariant
            0 <= i <= ps@.len(),
            out@ == join(views(ps@).take(i as int), sep),
        decreases ps@.len() - i,
    {
        let ghost prefix = views(ps@).take(i as int);
        if i > 0 {
            out.push(sep);
        }
        let piece = &ps[i];
        let mut j: usize = 0;
        while j < piece.len()
            invariant
                0 <= j <= piece@.len(),
                piece@ == views(ps@)[i as int],
                i < ps@.len(),
                out@ == (if i == 0 {
                    piece@.take(j as int)
                } else {
                    join(prefix, sep) + seq![sep] + piece@.take(j as int)
                }),
            decreases piece@.len() - j,
        {
            out.push(piece[j]);
            assert(piece@.take(j + 1 as int) =~= piece@.take(j as int).push(piece@[j as int]));
            j += 1;
        }
        proof {
            assert(piece@.take(piece@.len() as int) =~= piece@);
            assert(views(ps@).take(i + 1 as int) =~= prefix.push(piece@));
            if i == 0 {
                assert(views(ps@).take(1) =~= seq![views(ps@)[0]]);
            } else {
                lemma_join_snoc(prefix, piece@, sep);
            }
        }
        i += 1;
    }
    proof {
        assert(views(ps@).take(ps@.len() as int) =~= views(ps@));
    }
    out
}

fn hex_char_exec(v: u8) -> (r: char)
    requires
        v < 16,
    ensures
        r == hex_char_of(v as int),
{
    if v == 0 { '0' }
    else if v == 1 { '1' }
    else if v == 2 { '2' }
    else if v == 3 { '3' }
    else if v == 4 { '4' }
    else if v == 5 { '5' }
    else if v == 6 { '6' }
    else if v == 7 { '7' }
    else if v == 8 { '8' }
    else if v == 9 { '9' }
    else if v == 10 { 'a' }
    else if v == 11 { 'b' }
    else if v == 12 { 'c' }
    else if v == 13 { 'd' }
    else if v == 14 { 'e' }
    else { 'f' }
}

/// Serializes one color field.
fn color_chars_exec(c: Option<Color>) -> (r: Vec<char>)
    ensures
        r@ == color_field_chars(c),
{
    match c {
        None => Vec::new(),
        Some(col) => {
            let mut v: Vec<char> = Vec::new();
            v.push('#');
            v.push(hex_char_exec(col.r / 16));
            v.push(hex_char_exec(col.r % 16));
            v.push(hex_char_exec(col.g / 16));
            v.push(hex_char_exec(col.g % 16));
            v.push(hex_char_exec(col.b / 16));
            v.push(hex_char_exec(col.b % 16));
            proof {
                assert(v@ =~= color_field_chars(Some(col)));
            }
            v
        },
    }
}

/// Serializes the flags field: each set flag's token, space-terminated.
fn flags_chars_exec(f: StyleFlags) -> (r: Vec<char>)
    ensures
        r@ == flags_chars(f),
{
    proof {
        reveal_strlit("bold ");
        reveal_strlit("italic ");
        reveal_strlit("underline ");
        reveal_strlit("undercurl ");
        reveal_strlit("nocombine ");
    }
    let mut out: Vec<char> = Vec::new();
    if f.bold {
        let mut tok = str_to_chars("bold ");
        assert(tok@ =~= seq!['b', 'o', 'l', 'd', ' ']);
        out.append(&mut tok);
    }
    let ghost b1 = flag_block(f.bold, seq!['b', 'o', 'l', 'd', ' ']);
    proof {
        assert(out@ =~= b1);
    }
    if f.italic {
        let mut tok = str_to_chars("italic ");
        assert(tok@ =~= seq!['i', 't', 'a', 'l', 'i', 'c', ' ']);
        out.append(&mut tok);
    }
    let ghost b2 = b1 + flag_block(f.italic, seq!['i', 't', 'a', 'l', 'i', 'c', ' ']);
    proof {
        assert(out@ =~= b2);
    }
    if f.underline {
        let mut tok = str_to_chars("underline ");
        assert(tok@ =~= seq!['u', 'n', 'd', 'e', 'r', 'l', 'i', 'n', 'e', ' ']);
        out.append(&mut tok);
    }
    let ghost b3 = b2 + flag_block(f.underline, seq!['u', 'n', 'd', 'e', 'r', 'l', 'i', 'n', 'e', ' ']);
    proof {
        assert(out@ =~= b3);
    }
    if f.undercurl {
        let mut tok = str_to_chars("undercurl ");
        assert(tok@ =~= seq!['u', 'n', 'd', 'e', 'r', 'c', 'u', 'r', 'l', ' ']);
        out.append(&mut tok);
    }
    let ghost b4 = b3 + flag_block(f.undercurl, seq!['u', 'n', 'd', 'e', 'r', 'c', 'u', 'r', 'l', ' ']);
    proof {
        assert(out@ =~= b4);
    }
    if f.nocombine {
        let mut tok = str_to_chars("nocombine ");
        assert(tok@ =~= seq!['n', 'o', 'c', 'o', 'm', 'b', 'i', 'n', 'e', ' ']);
        out.append(&mut tok);
    }
    proof {
        assert(out@ =~= flags_chars(f));
    }
    out
}

/// Serializes a theme into the mini-language: the default-color rule
/// first, then one rule per scope, in order.
pub fn theme_to_vim(t: &Theme) -> (r: String)
    ensures
        r@ == vim_of_theme(t@),
{
    let mut rules: Vec<Vec<char>> = Vec::new();
    let mut nfields: Vec<Vec<char>> = Vec::new();
    nfields.push(str_to_chars("Normal"));
    nfields.push(color_chars_exec(t.foreground));
    nfields.push(color_chars_exec(t.background));
    nfields.push(Vec::new());
    proof {
        assert(views(nfields@) =~= normal_pieces(t@));
    }
    let nr = join_exec(&nfields, ',');
    rules.push(nr);
    proof {
        assert(views(rules@) =~= seq![join(normal_pieces(t@), ',')]);
        assert(t@.scopes.take(0).map_values(|s: ScopeStyleV| rule_chars(s))
            =~= Seq::<Seq<char>>::empty());
        assert(views(rules@) =~= seq![join(normal_pieces(t@), ',')] + t@.scopes.take(
            0,
        ).map_values(|s: ScopeStyleV| rule_chars(s)));
    }
    let mut i: usize = 0;
    while i < t.scopes.len()
        invariant
            0 <= i <= t.scopes@.len(),
            views(rules@) == seq![join(normal_pieces(t@), ',')] + t@.scopes.take(
                i as int,
            ).map_values(|s: ScopeStyleV| rule_chars(s)),
        decreases t.scopes@.len() - i,
    {
        let sc = &t.scopes[i];
        let mut fields: Vec<Vec<char>> = Vec::new();
        fields.push(str_to_chars(sc.name.as_str()));
        fields.push(color_chars_exec(sc.foreground));
        fields.push(color_chars_exec(sc.background));
        fields.push(flags_chars_exec(sc.flags));
        proof {
            assert(t@.scopes[i as int] == t.scopes@[i as int]@);
            assert(views(fields@) =~= rule_pieces(t@.scopes[i as int]));
        }
        let rc = join_exec(&fields, ',');
        let ghost old_rules = rules@;
        rules.push(rc);
        proof {
            assert(rc@ == rule_chars(t@.scopes[i as int]));
            assert(views(rules@) =~= views(old_rules).push(rc@));
            assert(t@.scopes.take(i + 1 as int) =~= t@.scopes.take(i as int).push(
                t@.scopes[i as int],
            ));
            assert(t@.scopes.take(i + 1 as int).map_values(|s: ScopeStyleV| rule_chars(s))
                =~= t@.scopes.take(i as int).map_values(|s: ScopeStyleV| rule_chars(s)).push(
                rule_chars(t@.scopes[i as int]),
            ));
            assert(views(rules@) =~= seq![join(normal_pieces(t@), ',')] + t@.scopes.take(
                i + 1 as int,
            ).map_values(|s: ScopeStyleV| rule_chars(s)));
        }
        i += 1;
    }
    proof {
        assert(t@.scopes.take(t.scopes@.len() as int) =~= t@.scopes);
        assert(views(rules@) =~= vim_rules(t@));
    }
    let all = join_exec(&rules, ';');
    chars_to_string(&all)
}

/// The round-trip law: interpreting the serialization of any serializable
/// theme yields exactly that theme — every explicitly set color, flag and
/// scope comes back, and unset fields come back unset.
pub proof fn lemma_vim_round_trip(t: ThemeV)
    requires
        serializable(t),
    ensures
        vim_theme_spec(vim_of_theme(t)) == Ok::<ThemeV, ThemeErrV>(t),
{
    reveal_strlit("Normal");
    let nps = normal_pieces(t);
    let nr = join(nps, ',');
    let rules = vim_rules(t);
    let srs = t.scopes.map_values(|s: ScopeStyleV| rule_chars(s));
    lemma_color_field_round_trip(t.foreground);
    lemma_color_field_round_trip(t.background);
    // the Normal rule splits into its pieces
    lemma_char_free_iff("Normal"@, ',');
    lemma_char_free_iff("Normal"@, ';');
    lemma_char_free_iff(Seq::<char>::empty(), ',');
    lemma_char_free_iff(Seq::<char>::empty(), ';');
    lemma_split_join(nps, ',');
    // the whole text splits into the rules
    let nst = ScopeStyleV {
        name: "Normal"@,
        foreground: t.foreground,
        background: t.background,
        flags: flags_of_field(Seq::empty()),
    };
    reveal_strlit("bold");
    reveal_strlit("italic");
    reveal_strlit("underline");
    reveal_strlit("undercurl");
    reveal_strlit("nocombine");
    assert(!has_sub(Seq::<char>::empty(), "bold"@));
    assert(!has_sub(Seq::<char>::empty(), "italic"@));
    assert(!has_sub(Seq::<char>::empty(), "underline"@));
    assert(!has_sub(Seq::<char>::empty(), "undercurl"@));
    assert(!has_sub(Seq::<char>::empty(), "nocombine"@));
    assert(flags_chars(nst.flags) =~= Seq::<char>::empty());
    assert(rule_pieces(nst) =~= nps);
    lemma_rule_round_trip(nst);
    assert forall|x: int| 0 <= x < rules.len() implies char_free(#[trigger] rules[x], ';') by {
        if x == 0 {
            assert(rules[x] == rule_chars(nst));
        } else {
            assert(rules[x] == srs[x - 1]);
            assert(srs[x - 1] == rule_chars(t.scopes[x - 1]));
            lemma_rule_round_trip(t.scopes[x - 1]);
        }
    }
    lemma_split_join(rules, ';');
    // rule 0 sets the default colors
    assert(rules[0] == nr);
    assert(rule_name(nr) == "Normal"@);
    assert(rule_ok(nr));
    let t0 = apply_rule(empty_theme(), nr);
    assert(t0.scopes =~= Seq::<ScopeStyleV>::empty());
    assert(t0.foreground == t.foreground);
    assert(t0.background == t.background);
    assert(t0.provenance == Provenance::Synthesized);
    // the remaining rules rebuild the scopes in order
    assert(rules.skip(1) =~= srs);
    assert(t0.scopes =~= t.scopes.take(0));
    lemma_parse_scopes(rules, 1, t.scopes, 0, t0);
    assert(parse_rules_from(rules, 0, empty_theme()) == parse_rules_from(rules, 1, t0));
    assert(vim_theme_spec(vim_of_theme(t)) == parse_rules_from(rules, 0, empty_theme()));
    assert(Ok::<ThemeV, ThemeErrV>(
        ThemeV {
            scopes: t.scopes,
            foreground: t0.foreground,
            background: t0.background,
            provenance: t0.provenance,
        },
    ) == Ok::<ThemeV, ThemeErrV>(t));
}


proof fn lemma_apply_rule_wf(t: ThemeV, r: Seq<char>)
    requires
        wf_scopes(t.scopes),
        char_free(r, ';'),
    ensures
        wf_scopes(apply_rule(t, r).scopes),
        apply_rule(t, r).provenance == t.provenance,
{
    let st = rule_style(r);
    if st.name == "Normal"@ {
    } else {
        lemma_split_pieces_free(r, ',', ',');
        lemma_split_pieces_free(r, ',', ';');
        assert(rule_fields(r).len() >= 1);
        assert(st.name == rule_fields(r)[0]);
        assert(char_free(st.name, ',') && char_free(st.name, ';'));
        lemma_find_scope(t.scopes, st.name);
        let k = find_scope(t.scopes, st.name);
        let scopes2 = apply_rule(t, r).scopes;
        if 0 <= k < t.scopes.len() {
            assert(scopes2 == t.scopes.update(k, st));
            assert forall|i: int| 0 <= i < scopes2.len() implies char_free(
                (#[trigger] scopes2[i]).name,
                ',',
            ) && char_free(scopes2[i].name, ';') && scopes2[i].name != "Normal"@ by {
                if i != k {
                    assert(scopes2[i] == t.scopes[i]);
                }
            }
            assert forall|i: int, j: int| 0 <= i < j < scopes2.len() implies (
            #[trigger] scopes2[i]).name != (#[trigger] scopes2[j]).name by {
                assert(scopes2[i].name == t.scopes[i].name);
                assert(scopes2[j].name == t.scopes[j].name);
            }
        } else {
            assert(scopes2 == t.scopes.push(st));
            assert forall|i: int, j: int| 0 <= i < j < scopes2.len() implies (
            #[trigger] scopes2[i]).name != (#[trigger] scopes2[j]).name by {
                if j == t.scopes.len() as int {
                    assert(scopes2[i] == t.scopes[i]);
                    assert(t.scopes[i].name != st.name);
                }
            }
        }
    }
}

proof fn lemma_parse_wf(rules: Seq<Seq<char>>, i: int, t: ThemeV)
    requires
        0 <= i <= rules.len(),
        forall|x: int| 0 <= x < rules.len() ==> char_free(#[trigger] rules[x], ';'),
        wf_scopes(t.scopes),
        t.provenance == Provenance::Synthesized,
        parse_rules_from(rules, i, t) is Ok,
    ensures
        wf_scopes(parse_rules_from(rules, i, t)->Ok_0.scopes),
        parse_rules_from(rules, i, t)->Ok_0.provenance == Provenance::Synthesized,
    decreases rules.len() - i,
{
    if i >= rules.len() {
    } else {
        lemma_apply_rule_wf(t, rules[i]);
        lemma_parse_wf(rules, i + 1, apply_rule(t, rules[i]));
    }
}

/// Every theme the mini-language interpreter returns is serializable: its
/// scope names are unique, free of separators, and never `Normal`.
pub proof fn lemma_parse_serializable(s: Seq<char>)
    requires
        vim_theme_spec(s) is Ok,
    ensures
        serializable(vim_theme_spec(s)->Ok_0),
{
    lemma_split_pieces_free(s, ';', ';');
    lemma_parse_wf(split_on(s, ';'), 0, empty_theme());
}

/// Parsing a valid mini-language string, serializing the result, and
/// parsing again yields the very same theme: every explicitly set field
/// survives the round trip, and no unset field gains a concrete value.
pub proof fn lemma_parse_reserialize(s: Seq<char>)
    requires
        vim_theme_spec(s) is Ok,
    ensures
        vim_theme_spec(vim_of_theme(vim_theme_spec(s)->Ok_0)) == vim_theme_spec(s),
{
    lemma_parse_serializable(s);
    lemma_vim_round_trip(vim_theme_spec(s)->Ok_0);
}

} // verus!
