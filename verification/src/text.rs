//! Character-sequence utilities: splitting on a separator, substring
//! containment, and first-line extraction, with full functional contracts.
use vstd::prelude::*;

verus! {

/// Index of the first occurrence of `sep` in `s`, or -1 if there is none.
pub open spec fn find_sep(s: Seq<char>, sep: char) -> int
    decreases s.len(),
{
    if s.len() == 0 {
        -1
    } else if s[0] == sep {
        0
    } else if find_sep(s.drop_first(), sep) < 0 {
        -1
    } else {
        find_sep(s.drop_first(), sep) + 1
    }
}

pub proof fn lemma_find_sep(s: Seq<char>, sep: char)
    ensures
        find_sep(s, sep) >= 0 ==> 0 <= find_sep(s, sep) < s.len() && s[find_sep(s, sep)] == sep
            && (forall|j: int| 0 <= j < find_sep(s, sep) ==> s[j] != sep),
        find_sep(s, sep) < 0 ==> forall|j: int| 0 <= j < s.len() ==> s[j] != sep,
    decreases s.len(),
{
    if s.len() == 0 {
    } else if s[0] == sep {
    } else {
        lemma_find_sep(s.drop_first(), sep);
        assert(forall|j: int| 1 <= j < s.len() ==> s[j] == s.drop_first()[j - 1]);
    }
}

/// The first occurrence is pinned by its witnesses.
pub proof fn lemma_find_sep_is(s: Seq<char>, sep: char, k: int)
    requires
        0 <= k < s.len(),
        s[k] == sep,
        forall|j: int| 0 <= j < k ==> s[j] != sep,
    ensures
        find_sep(s, sep) == k,
    decreases s.len(),
{
    if k == 0 {
    } else {
        assert(forall|j: int| 0 <= j < k - 1 ==> s.drop_first()[j] == s[j + 1]);
        lemma_find_sep_is(s.drop_first(), sep, k - 1);
    }
}

pub proof fn lemma_find_sep_none(s: Seq<char>, sep: char)
    requires
        forall|j: int| 0 <= j < s.len() ==> s[j] != sep,
    ensures
        find_sep(s, sep) == -1,
    decreases s.len(),
{
    if s.len() == 0 {
    } else {
        assert(forall|j: int| 0 <= j < s.len() - 1 ==> s.drop_first()[j] == s[j + 1]);
        lemma_find_sep_none(s.drop_first(), sep);
    }
}

/// The pieces of `s` between occurrences of `sep`; always at least one
/// piece, and an occurrence at the end yields a trailing empty piece.
pub open spec fn split_on(s: Seq<char>, sep: char) -> Seq<Seq<char>>
    decreases s.len(),
{
    let i = find_sep(s, sep);
    if i < 0 || i >= s.len() {
        seq![s]
    } else {
        seq![s.take(i)] + split_on(s.skip(i + 1), sep)
    }
}

/// Splitting a separator-free sequence yields that sequence alone.
pub proof fn lemma_split_none(s: Seq<char>, sep: char)
    requires
        forall|j: int| 0 <= j < s.len() ==> s[j] != sep,
    ensures
        split_on(s, sep) == seq![s],
{
    lemma_find_sep_none(s, sep);
}

/// Splitting at the first occurrence peels off one piece.
pub proof fn lemma_split_first(s: Seq<char>, sep: char, k: int)
    requires
        0 <= k < s.len(),
        s[k] == sep,
        forall|j: int| 0 <= j < k ==> s[j] != sep,
    ensures
        split_on(s, sep) == seq![s.take(k)] + split_on(s.skip(k + 1), sep),
{
    lemma_find_sep_is(s, sep, k);
}

/// The views of a sequence of character vectors.
pub open spec fn views(ps: Seq<Vec<char>>) -> Seq<Seq<char>> {
    ps.map_values(|p: Vec<char>| p@)
}

/// Copies `s[a..b]` into a fresh vector.
pub fn subvec(s: &Vec<char>, a: usize, b: usize) -> (r: Vec<char>)
    requires
        a <= b <= s@.len(),
    ensures
        r@ == s@.subrange(a as int, b as int),
{
    let mut r: Vec<char> = Vec::new();
    let mut i: usize = a;
    while i < b
        invariant
            a <= i <= b <= s@.len(),
            r@ == s@.subrange(a as int, i as int),
        decreases b - i,
    {
        r.push(s[i]);
        assert(s@.subrange(a as int, i + 1 as int) =~= s@.subrange(a as int, i as int).push(s@[i as int]));
        i += 1;
    }
    r
}

/// Splits `s` on `sep`; piece `i` of the result is piece `i` of
/// `split_on(s@, sep)`.
pub fn split_chars(s: &Vec<char>, sep: char) -> (r: Vec<Vec<char>>)
    ensures
        views(r@) == split_on(s@, sep),
{
    let mut pieces: Vec<Vec<char>> = Vec::new();
    proof {
        assert(s@.skip(0) =~= s@);
        assert(views(pieces@) + split_on(s@.skip(0), sep) =~= split_on(s@, sep));
    }
    let mut start: usize = 0;
    let mut i: usize = 0;
    while i < s.len()
        invariant
            0 <= start <= i <= s@.len(),
            forall|j: int| start <= j < i ==> s@[j] != sep,
            split_on(s@, sep) == views(pieces@) + split_on(s@.skip(start as int), sep),
        decreases s@.len() - i,
    {
        if s[i] == sep {
            let piece = subvec(s, start, i);
            proof {
                let t = s@.skip(start as int);
                assert(forall|j: int| 0 <= j < i - start ==> t[j] == s@[j + start]);
                lemma_split_first(t, sep, i - start);
                assert(t.take(i - start) =~= s@.subrange(start as int, i as int));
                assert(t.skip(i - start + 1) =~= s@.skip(i + 1 as int));
                assert(views(pieces@.push(piece)) =~= views(pieces@).push(piece@));
                assert(views(pieces@) + split_on(s@.skip(start as int), sep)
                    =~= views(pieces@.push(piece)) + split_on(s@.skip(i + 1 as int), sep));
            }
            pieces.push(piece);
            start = i + 1;
        }
        i += 1;
    }
    let last = subvec(s, start, s.len());
    proof {
        let t = s@.skip(start as int);
        assert(forall|j: int| 0 <= j < t.len() ==> t[j] == s@[j + start]);
        lemma_split_none(t, sep);
        assert(t =~= s@.subrange(start as int, s@.len() as int));
        assert(views(pieces@.push(last)) =~= views(pieces@).push(last@));
        assert(views(pieces@) + split_on(s@.skip(start as int), sep)
            =~= views(pieces@.push(last)));
    }
    pieces.push(last);
    pieces
}

/// The pieces joined with `sep` between them; the inverse of `split_on`.
pub open spec fn join(ps: Seq<Seq<char>>, sep: char) -> Seq<char>
    decreases ps.len(),
{
    if ps.len() == 0 {
        Seq::empty()
    } else if ps.len() == 1 {
        ps[0]
    } else {
        ps[0] + seq![sep] + join(ps.drop_first(), sep)
    }
}

/// `s` holds no occurrence of `c`.
pub open spec fn char_free(s: Seq<char>, c: char) -> bool
    decreases s.len(),
{
    s.len() == 0 || (s[0] != c && char_free(s.drop_first(), c))
}

pub proof fn lemma_char_free_iff(s: Seq<char>, c: char)
    ensures
        char_free(s, c) <==> forall|j: int| 0 <= j < s.len() ==> s[j] != c,
    decreases s.len(),
{
    if s.len() == 0 {
    } else {
        lemma_char_free_iff(s.drop_first(), c);
        assert(forall|j: int| 0 <= j < s.len() - 1 ==> s.drop_first()[j] == s[j + 1]);
        if s[0] != c && (forall|j: int| 0 <= j < s.drop_first().len() ==> s.drop_first()[j] != c) {
            assert forall|j: int| 0 <= j < s.len() implies s[j] != c by {
                if j > 0 {
                    assert(s.drop_first()[j - 1] != c);
                }
            }
        }
    }
}

pub proof fn lemma_char_free_concat(a: Seq<char>, b: Seq<char>, c: char)
    ensures
        char_free(a + b, c) <==> (char_free(a, c) && char_free(b, c)),
{
    lemma_char_free_iff(a, c);
    lemma_char_free_iff(b, c);
    lemma_char_free_iff(a + b, c);
    assert(forall|j: int| 0 <= j < a.len() ==> (a + b)[j] == a[j]);
    assert(forall|j: int| 0 <= j < b.len() ==> (a + b)[a.len() + j] == b[j]);
    if char_free(a, c) && char_free(b, c) {
        assert forall|j: int| 0 <= j < (a + b).len() implies (a + b)[j] != c by {
            if j < a.len() {
                assert((a + b)[j] == a[j]);
            } else {
                assert((a + b)[j] == b[j - a.len()]);
            }
        }
    }
}

/// Splitting a join of separator-free pieces recovers the pieces.
pub proof fn lemma_split_join(ps: Seq<Seq<char>>, sep: char)
    requires
        ps.len() >= 1,
        forall|i: int| 0 <= i < ps.len() ==> char_free(#[trigger] ps[i], sep),
    ensures
        split_on(join(ps, sep), sep) == ps,
    decreases ps.len(),
{
    lemma_char_free_iff(ps[0], sep);
    if ps.len() == 1 {
        lemma_split_none(ps[0], sep);
        assert(split_on(join(ps, sep), sep) =~= ps);
    } else {
        let s = join(ps, sep);
        let k = ps[0].len() as int;
        assert(s == ps[0] + seq![sep] + join(ps.drop_first(), sep));
        assert(s[k] == sep);
        assert(forall|j: int| 0 <= j < k ==> s[j] == ps[0][j]);
        lemma_split_first(s, sep, k);
        assert(s.take(k) =~= ps[0]);
        assert(s.skip(k + 1) =~= join(ps.drop_first(), sep));
        assert(forall|i: int| 0 <= i < ps.len() - 1 ==> ps.drop_first()[i] == ps[i + 1]);
        lemma_split_join(ps.drop_first(), sep);
        assert(seq![ps[0]] + ps.drop_first() =~= ps);
    }
}

/// Every piece of a split is free of the separator, and free of any
/// character the whole text was free of.
pub proof fn lemma_split_pieces_free(s: Seq<char>, sep: char, c: char)
    requires
        c == sep || char_free(s, c),
    ensures
        forall|i: int| 0 <= i < split_on(s, sep).len() ==> char_free(
            #[trigger] split_on(s, sep)[i],
            c,
        ),
    decreases s.len(),
{
    lemma_char_free_iff(s, c);
    lemma_find_sep(s, sep);
    let f = find_sep(s, sep);
    if f < 0 || f >= s.len() {
        lemma_char_free_iff(split_on(s, sep)[0], c);
    } else {
        lemma_char_free_iff(s.take(f), c);
        lemma_char_free_iff(s.skip(f + 1), c);
        lemma_split_pieces_free(s.skip(f + 1), sep, c);
        let rest = split_on(s.skip(f + 1), sep);
        assert forall|i: int| 0 <= i < split_on(s, sep).len() implies char_free(
            #[trigger] split_on(s, sep)[i],
            c,
        ) by {
            if i == 0 {
                assert(split_on(s, sep)[0] == s.take(f));
            } else {
                assert(split_on(s, sep)[i] == rest[i - 1]);
            }
        }
    }
}

/// `has_sub` holds exactly when the needle sits at some position.
pub proof fn lemma_has_sub_iff(h: Seq<char>, n: Seq<char>)
    ensures
        has_sub(h, n) <==> exists|i: int|
            0 <= i <= h.len() - n.len() && #[trigger] h.subrange(i, i + n.len() as int) == n,
    decreases h.len(),
{
    lemma_is_prefix_iff(h, n);
    if is_prefix(h, n) {
        assert(h.subrange(0, n.len() as int) =~= n);
        assert(0 <= 0 <= h.len() - n.len() && h.subrange(0, 0 + n.len() as int) == n);
    } else if h.len() == 0 {
    } else {
        lemma_has_sub_iff(h.drop_first(), n);
        let d = h.drop_first();
        if has_sub(h, n) {
            let i0 = choose|i: int| 0 <= i <= d.len() - n.len() && #[trigger] d.subrange(i, i + n.len() as int) == n;
            assert(h.subrange(i0 + 1, i0 + 1 + n.len() as int) =~= d.subrange(i0, i0 + n.len() as int));
            assert(0 <= i0 + 1 <= h.len() - n.len() && h.subrange(i0 + 1, (i0 + 1) + n.len() as int) == n);
        }
        if exists|i: int| 0 <= i <= h.len() - n.len() && #[trigger] h.subrange(i, i + n.len() as int) == n {
            let i0 = choose|i: int| 0 <= i <= h.len() - n.len() && #[trigger] h.subrange(i, i + n.len() as int) == n;
            if i0 == 0 {
                assert(forall|j: int| 0 <= j < n.len() ==> h.subrange(0, n.len() as int)[j] == h[j]);
                assert(is_prefix(h, n));
            } else {
                assert(d.subrange(i0 - 1, (i0 - 1) + n.len() as int) =~= h.subrange(i0, i0 + n.len() as int));
                assert(has_sub(d, n));
            }
        }
    }
}

/// For a needle free of the separator, occurrence in a concatenation whose
/// left part ends with the separator means occurrence in one of the parts.
pub proof fn lemma_has_sub_concat_sep(a: Seq<char>, b: Seq<char>, n: Seq<char>, sep: char)
    requires
        a.len() > 0 ==> a.last() == sep,
        n.len() > 0,
        char_free(n, sep),
    ensures
        has_sub(a + b, n) == (has_sub(a, n) || has_sub(b, n)),
{
    lemma_char_free_iff(n, sep);
    lemma_has_sub_iff(a + b, n);
    lemma_has_sub_iff(a, n);
    lemma_has_sub_iff(b, n);
    let c = a + b;
    if has_sub(c, n) {
        let i0 = choose|i: int| 0 <= i <= c.len() - n.len() && #[trigger] c.subrange(i, i + n.len() as int) == n;
        if i0 + n.len() <= a.len() {
            assert(a.subrange(i0, i0 + n.len() as int) =~= c.subrange(i0, i0 + n.len() as int));
            assert(has_sub(a, n));
        } else if i0 >= a.len() {
            assert(b.subrange(i0 - a.len(), i0 - a.len() + n.len() as int) =~= c.subrange(
                i0,
                i0 + n.len() as int,
            ));
            assert(has_sub(b, n));
        } else {
            // the occurrence would cover the separator that ends `a`
            let p = a.len() - 1 - i0;
            assert(c.subrange(i0, i0 + n.len() as int)[p] == c[a.len() - 1]);
            assert(c[a.len() - 1] == a.last());
            assert(n[p] == sep);
            assert(false);
        }
    }
    if has_sub(a, n) {
        let i0 = choose|i: int| 0 <= i <= a.len() - n.len() && #[trigger] a.subrange(i, i + n.len() as int) == n;
        assert(c.subrange(i0, i0 + n.len() as int) =~= a.subrange(i0, i0 + n.len() as int));
        assert(0 <= i0 <= c.len() - n.len() && c.subrange(i0, i0 + n.len() as int) == n);
    }
    if has_sub(b, n) {
        let i0 = choose|i: int| 0 <= i <= b.len() - n.len() && #[trigger] b.subrange(i, i + n.len() as int) == n;
        assert(c.subrange(a.len() + i0, a.len() + i0 + n.len() as int) =~= b.subrange(
            i0,
            i0 + n.len() as int,
        ));
        assert(0 <= a.len() + i0 <= c.len() - n.len() && c.subrange(
            a.len() + i0,
            (a.len() + i0) + n.len() as int,
        ) == n);
    }
}

/// `n` is a prefix of `h`.
pub open spec fn is_prefix(h: Seq<char>, n: Seq<char>) -> bool
    decreases n.len(),
{
    n.len() == 0 || (h.len() > 0 && h[0] == n[0] && is_prefix(h.drop_first(), n.drop_first()))
}

pub proof fn lemma_is_prefix_iff(h: Seq<char>, n: Seq<char>)
    ensures
        is_prefix(h, n) <==> (n.len() <= h.len() && forall|j: int| 0 <= j < n.len() ==> h[j] == n[j]),
    decreases n.len(),
{
    if n.len() == 0 {
    } else if h.len() == 0 {
    } else {
        lemma_is_prefix_iff(h.drop_first(), n.drop_first());
        if is_prefix(h, n) {
            assert forall|j: int| 0 <= j < n.len() implies h[j] == n[j] by {
                if j > 0 {
                    assert(h.drop_first()[j - 1] == n.drop_first()[j - 1]);
                }
            }
        }
        if n.len() <= h.len() && (forall|j: int| 0 <= j < n.len() ==> h[j] == n[j]) {
            assert forall|j: int| 0 <= j < n.drop_first().len() implies h.drop_first()[j]
                == n.drop_first()[j] by {
                assert(h[j + 1] == n[j + 1]);
            }
            assert(is_prefix(h, n));
        }
    }
}

/// `n` occurs in `h` as a contiguous substring.
pub open spec fn has_sub(h: Seq<char>, n: Seq<char>) -> bool
    decreases h.len(),
{
    if is_prefix(h, n) {
        true
    } else if h.len() == 0 {
        false
    } else {
        has_sub(h.drop_first(), n)
    }
}

fn is_prefix_at(h: &Vec<char>, i: usize, n: &Vec<char>) -> (r: bool)
    requires
        i <= h@.len(),
    ensures
        r == is_prefix(h@.skip(i as int), n@),
{
    proof {
        lemma_is_prefix_iff(h@.skip(i as int), n@);
    }
    if h.len() - i < n.len() {
        return false;
    }
    let mut j: usize = 0;
    while j < n.len()
        invariant
            0 <= j <= n@.len(),
            i + n@.len() <= h@.len(),
            h@.len() <= usize::MAX,
            forall|k: int| 0 <= k < j ==> h@[i + k] == n@[k],
        decreases n@.len() - j,
    {
        if h[i + j] != n[j] {
            proof {
                lemma_is_prefix_iff(h@.skip(i as int), n@);
                assert(h@.skip(i as int)[j as int] == h@[i + j]);
                assert(!is_prefix(h@.skip(i as int), n@));
            }
            return false;
        }
        assert(h@[i + j] == n@[j as int]);
        j += 1;
    }
    assert forall|k: int| 0 <= k < n@.len() implies h@.skip(i as int)[k] == n@[k] by {
        assert(h@[i + k] == n@[k]);
    }
    true
}

/// Whether `n@` occurs anywhere in `h@`.
pub fn contains_sub(h: &Vec<char>, n: &Vec<char>) -> (r: bool)
    ensures
        r == has_sub(h@, n@),
{
    proof {
        assert(h@.skip(0) =~= h@);
    }
    let mut i: usize = 0;
    while i < h.len()
        invariant
            0 <= i <= h@.len(),
            has_sub(h@, n@) == has_sub(h@.skip(i as int), n@),
        decreases h@.len() - i,
    {
        if is_prefix_at(h, i, n) {
            return true;
        }
        proof {
            assert(h@.skip(i as int).drop_first() =~= h@.skip(i + 1 as int));
        }
        i += 1;
    }
    proof {
        assert(h@.skip(i as int) =~= Seq::<char>::empty());
    }
    is_prefix_at(h, i, n)
}

/// Whether two character vectors hold the same characters.
pub fn chars_eq(a: &Vec<char>, b: &Vec<char>) -> (r: bool)
    ensures
        r == (a@ == b@),
{
    if a.len() != b.len() {
        return false;
    }
    let mut i: usize = 0;
    while i < a.len()
        invariant
            a@.len() == b@.len(),
            0 <= i <= a@.len(),
            forall|j: int| 0 <= j < i ==> a@[j] == b@[j],
        decreases a@.len() - i,
    {
        if a[i] != b[i] {
            return false;
        }
        i += 1;
    }
    proof {
        assert(a@ =~= b@);
    }
    true
}

/// The characters of `s`, one by one.
pub fn str_to_chars(s: &str) -> (r: Vec<char>)
    ensures
        r@ == s@,
{
    let n = s.unicode_len();
    let mut r: Vec<char> = Vec::new();
    let mut i: usize = 0;
    while i < n
        invariant
            n == s@.len(),
            0 <= i <= n,
            r@ == s@.take(i as int),
        decreases n - i,
    {
        r.push(s.get_char(i));
        assert(s@.take(i + 1 as int) =~= s@.take(i as int).push(s@[i as int]));
        i += 1;
    }
    proof {
        assert(s@.take(n as int) =~= s@);
    }
    r
}

/// Relies on `String::from_iter` over `char`: the resulting string holds
/// exactly the given characters in order.
#[verifier::external_body]
pub fn chars_to_string(v: &Vec<char>) -> (r: String)
    ensures
        r@ == v@,
{
    v.iter().copied().collect()
}

/// The text up to the first newline, or all of it if there is none.
pub open spec fn first_line_of(s: Seq<char>) -> Seq<char> {
    let i = find_sep(s, '\n');
    if i < 0 {
        s
    } else {
        s.take(i)
    }
}

/// Extracts the first line of `s`: the text before the first `'\n'`, or the
/// whole text when no newline occurs.
pub fn first_line(s: &str) -> (r: String)
    ensures
        r@ == first_line_of(s@),
{
    let chars = str_to_chars(s);
    let mut i: usize = 0;
    while i < chars.len()
        invariant
            chars@ == s@,
            0 <= i <= s@.len(),
            forall|j: int| 0 <= j < i ==> s@[j] != '\n',
        decreases chars@.len() - i,
    {
        if chars[i] == '\n' {
            proof {
                lemma_find_sep_is(s@, '\n', i as int);
            }
            let line = subvec(&chars, 0, i);
            return chars_to_string(&line);
        }
        i += 1;
    }
    proof {
        lemma_find_sep_none(s@, '\n');
    }
    let line = subvec(&chars, 0, chars.len());
    proof {
        assert(s@.subrange(0, s@.len() as int) =~= s@);
    }
    chars_to_string(&line)
}

} // verus!
