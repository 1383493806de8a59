//! Character-level text primitives shared by the name-distance functions:
//! case folding for the Latin and Cyrillic ranges, whitespace tokenization,
//! and substring search, each with an exact specification.

use vstd::prelude::*;
use vstd::std_specs::iter::IteratorSpec;

verus! {

/// Lower-cases one character: ASCII `A`..`Z`, Cyrillic `А`..`Я` and the
/// extended range `Ѐ`..`Џ` (which contains `Ё`) map to their lower-case
/// forms; every other character is unchanged. This deliberately narrows
/// full Unicode case folding to the Latin and Cyrillic ranges the
/// watchlist domain uses.
pub open spec fn lower_char(c: char) -> char {
    let u = c as u32;
    if 0x41 <= u && u <= 0x5A {
        ((u + 0x20) as char)
    } else if 0x410 <= u && u <= 0x42F {
        ((u + 0x20) as char)
    } else if 0x400 <= u && u <= 0x40F {
        ((u + 0x50) as char)
    } else {
        c
    }
}

/// Lower-cases only the ASCII range, leaving Cyrillic untouched.
pub open spec fn ascii_lower_char(c: char) -> char {
    let u = c as u32;
    if 0x41 <= u && u <= 0x5A {
        ((u + 0x20) as char)
    } else {
        c
    }
}

pub open spec fn lower_seq(s: Seq<char>) -> Seq<char> {
    s.map_values(|c: char| lower_char(c))
}

pub open spec fn ascii_lower_seq(s: Seq<char>) -> Seq<char> {
    s.map_values(|c: char| ascii_lower_char(c))
}

/// ASCII whitespace; token boundaries in all the name-distance functions.
pub open spec fn is_space(c: char) -> bool {
    c == ' ' || c == '\t' || c == '\n' || c == '\r' || c == '\u{b}' || c == '\u{c}'
}

/// Relies on `char::from_u32`: returns `Some` exactly for Unicode scalar
/// values, and the returned character has the given code point.
#[verifier::external_body]
fn char_from_u32(u: u32) -> (c: char)
    requires
        u < 0xD800 || (0xE000 <= u && u <= 0x10FFFF),
    ensures
        c as u32 == u,
{
    char::from_u32(u).unwrap()
}

pub fn lower_char_exec(c: char) -> (r: char)
    ensures
        r == lower_char(c),
{
    let u = c as u32;
    if (0x41 <= u && u <= 0x5A) || (0x410 <= u && u <= 0x42F) {
        char_from_u32(u + 0x20)
    } else if 0x400 <= u && u <= 0x40F {
        char_from_u32(u + 0x50)
    } else {
        c
    }
}

pub fn ascii_lower_char_exec(c: char) -> (r: char)
    ensures
        r == ascii_lower_char(c),
{
    let u = c as u32;
    if 0x41 <= u && u <= 0x5A {
        char_from_u32(u + 0x20)
    } else {
        c
    }
}

pub fn is_space_exec(c: char) -> (r: bool)
    ensures
        r == is_space(c),
{
    c == ' ' || c == '\t' || c == '\n' || c == '\r' || c == '\u{b}' || c == '\u{c}'
}

/// Collects the characters of a string into a vector, so that the rest of
/// the library can work on plain character sequences.
pub fn to_char_vec(s: &str) -> (r: Vec<char>)
    ensures
        r@ == s@,
{
    let mut r: Vec<char> = Vec::new();
    for c in it: s.chars()
        invariant
            it.seq() == s@,
            r@ == it.seq().take(it.index()),
    {
        r.push(c);
        proof {
            let i = it.index();
            assert(it.seq().take(i + 1) =~= it.seq().take(i).push(it.seq()[i]));
        }
    }
    proof {
        assert(s@.take(s@.len() as int) =~= s@);
    }
    r
}

/// Relies on `String::push`: appends exactly the given character.
#[verifier::external_body]
fn push_char(s: &mut String, c: char)
    ensures
        final(s)@ == old(s)@.push(c),
{
    s.push(c);
}

/// Builds a string from a character vector.
pub fn string_from_chars(v: &Vec<char>) -> (r: String)
    ensures
        r@ == v@,
{
    let mut r = String::new();
    let mut i: usize = 0;
    while i < v.len()
        invariant
            0 <= i <= v.len(),
            r@ == v@.take(i as int),
        decreases v.len() - i,
    {
        push_char(&mut r, v[i]);
        proof {
            assert(v@.take(i as int).push(v@[i as int]) =~= v@.take(i + 1));
        }
        i = i + 1;
    }
    proof {
        assert(v@.take(v@.len() as int) =~= v@);
    }
    r
}

pub fn lower_vec(v: &Vec<char>) -> (r: Vec<char>)
    ensures
        r@ == lower_seq(v@),
{
    let mut r: Vec<char> = Vec::new();
    let mut i: usize = 0;
    while i < v.len()
        invariant
            0 <= i <= v.len(),
            r@ =~= v@.take(i as int).map_values(|c: char| lower_char(c)),
        decreases v.len() - i,
    {
        r.push(lower_char_exec(v[i]));
        proof {
            assert(v@.take(i + 1) =~= v@.take(i as int).push(v@[i as int]));
        }
        i = i + 1;
    }
    proof {
        assert(v@.take(v@.len() as int) =~= v@);
    }
    r
}

pub fn ascii_lower_vec(v: &Vec<char>) -> (r: Vec<char>)
    ensures
        r@ == ascii_lower_seq(v@),
{
    let mut r: Vec<char> = Vec::new();
    let mut i: usize = 0;
    while i < v.len()
        invariant
            0 <= i <= v.len(),
            r@ =~= v@.take(i as int).map_values(|c: char| ascii_lower_char(c)),
        decreases v.len() - i,
    {
        r.push(ascii_lower_char_exec(v[i]));
        proof {
            assert(v@.take(i + 1) =~= v@.take(i as int).push(v@[i as int]));
        }
        i = i + 1;
    }
    proof {
        assert(v@.take(v@.len() as int) =~= v@);
    }
    r
}

/// Length of the maximal non-space prefix of `s`.
pub open spec fn token_prefix_len(s: Seq<char>) -> nat
    decreases s.len(),
{
    if s.len() == 0 || is_space(s[0]) {
        0
    } else {
        1 + token_prefix_len(s.drop_first())
    }
}

proof fn lemma_token_prefix_len_bound(s: Seq<char>)
    ensures
        token_prefix_len(s) <= s.len(),
    decreases s.len(),
{
    if s.len() == 0 || is_space(s[0]) {
    } else {
        lemma_token_prefix_len_bound(s.drop_first());
    }
}

proof fn lemma_token_prefix_len_is(s: Seq<char>, k: int)
    requires
        0 <= k <= s.len(),
        forall|j: int| 0 <= j < k ==> !is_space(s[j]),
        k == s.len() || is_space(s[k]),
    ensures
        token_prefix_len(s) == k,
    decreases k,
{
    if k == 0 {
    } else {
        assert(!is_space(s[0]));
        lemma_token_prefix_len_is(s.drop_first(), k - 1);
    }
}

/// The whitespace-separated tokens of `s`, in order; empty tokens do not
/// occur.
pub open spec fn tokens_of(s: Seq<char>) -> Seq<Seq<char>>
    decreases s.len(),
    via tokens_of_decreases
{
    if s.len() == 0 {
        Seq::empty()
    } else if is_space(s[0]) {
        tokens_of(s.drop_first())
    } else {
        let k = 1 + token_prefix_len(s.drop_first()) as int;
        seq![s.take(k)] + tokens_of(s.skip(k))
    }
}

#[via_fn]
proof fn tokens_of_decreases(s: Seq<char>) {
    if s.len() > 0 && !is_space(s[0]) {
        lemma_token_prefix_len_bound(s.drop_first());
    }
}

pub proof fn lemma_tokens_nonempty(s: Seq<char>)
    ensures
        forall|j: int| 0 <= j < tokens_of(s).len() ==> #[trigger] tokens_of(s)[j].len() >= 1,
    decreases s.len(),
{
    if s.len() == 0 {
    } else if is_space(s[0]) {
        lemma_tokens_nonempty(s.drop_first());
        assert forall|j: int| 0 <= j < tokens_of(s).len() implies #[trigger] tokens_of(s)[j].len()
            >= 1 by {
            assert(tokens_of(s)[j] == tokens_of(s.drop_first())[j]);
        }
    } else {
        let k = 1 + token_prefix_len(s.drop_first()) as int;
        lemma_token_prefix_len_bound(s.drop_first());
        lemma_tokens_nonempty(s.skip(k));
        assert forall|j: int| 0 <= j < tokens_of(s).len() implies #[trigger] tokens_of(s)[j].len()
            >= 1 by {
            if j == 0 {
                assert(tokens_of(s)[0] == s.take(k));
            } else {
                assert(tokens_of(s)[j] == tokens_of(s.skip(k))[j - 1]);
            }
        }
    }
}

/// Splits on whitespace, dropping empty pieces.
pub fn tokenize(v: &Vec<char>) -> (r: Vec<Vec<char>>)
    ensures
        r.deep_view() == tokens_of(v@),
{
    let mut r: Vec<Vec<char>> = Vec::new();
    proof {
        assert(v@.skip(0) =~= v@);
        assert(r.deep_view() + tokens_of(v@) =~~= tokens_of(v@));
    }
    let mut i: usize = 0;
    while i < v.len()
        invariant
            0 <= i <= v.len(),
            r.deep_view() + tokens_of(v@.skip(i as int)) == tokens_of(v@),
        decreases v.len() - i,
    {
        if is_space_exec(v[i]) {
            proof {
                assert(v@.skip(i as int).drop_first() =~= v@.skip(i + 1));
            }
            i = i + 1;
        } else {
            let ghost start = i as int;
            let mut tok: Vec<char> = Vec::new();
            while i < v.len() && !is_space_exec(v[i])
                invariant
                    0 <= start <= i <= v.len(),
                    tok@ == v@.subrange(start, i as int),
                    forall|j: int| start <= j < i ==> !is_space(v@[j]),
                decreases v.len() - i,
            {
                tok.push(v[i]);
                proof {
                    assert(v@.subrange(start, i as int).push(v@[i as int]) =~= v@.subrange(
                        start,
                        i + 1,
                    ));
                }
                i = i + 1;
            }
            proof {
                let rest = v@.skip(start);
                lemma_token_prefix_len_is(rest, i - start);
                assert(rest.take(i - start) =~= v@.subrange(start, i as int));
                assert(rest.skip(i - start) =~= v@.skip(i as int));
                assert(tokens_of(rest) == seq![tok@] + tokens_of(v@.skip(i as int)));
            }
            let ghost prev = r.deep_view();
            r.push(tok);
            proof {
                assert(r.deep_view() =~~= prev.push(tok@));
                assert(prev.push(tok@) + tokens_of(v@.skip(i as int)) =~~= prev + (seq![tok@]
                    + tokens_of(v@.skip(i as int))));
            }
        }
    }
    proof {
        assert(v@.skip(v@.len() as int) =~= Seq::<char>::empty());
        assert(r.deep_view() + tokens_of(v@.skip(v@.len() as int)) =~~= r.deep_view());
    }
    r
}

/// The distinct elements of `ts`, keeping the first occurrence of each.
pub open spec fn dedup_tokens(ts: Seq<Seq<char>>) -> Seq<Seq<char>>
    decreases ts.len(),
{
    if ts.len() == 0 {
        Seq::empty()
    } else {
        let rest = dedup_tokens(ts.drop_last());
        if ts.drop_last().contains(ts.last()) {
            rest
        } else {
            rest.push(ts.last())
        }
    }
}

pub proof fn lemma_dedup_tokens_elems(ts: Seq<Seq<char>>)
    ensures
        forall|x: Seq<char>| #[trigger] dedup_tokens(ts).contains(x) <==> ts.contains(x),
        forall|i: int, j: int|
            0 <= i < j < dedup_tokens(ts).len() ==> dedup_tokens(ts)[i] != dedup_tokens(ts)[j],
    decreases ts.len(),
{
    if ts.len() == 0 {
    } else {
        let prev = ts.drop_last();
        lemma_dedup_tokens_elems(prev);
        let rest = dedup_tokens(prev);
        let d = dedup_tokens(ts);
        assert forall|x: Seq<char>| #[trigger] d.contains(x) implies ts.contains(x) by {
            let m = choose|m: int| 0 <= m < d.len() && d[m] == x;
            if m < rest.len() {
                assert(rest.contains(x));
                assert(prev.contains(x));
                let k = choose|k: int| 0 <= k < prev.len() && prev[k] == x;
                assert(ts[k] == x);
            } else {
                assert(x == ts.last());
                assert(ts[ts.len() - 1] == x);
            }
        }
        assert forall|x: Seq<char>| ts.contains(x) implies #[trigger] d.contains(x) by {
            let k = choose|k: int| 0 <= k < ts.len() && ts[k] == x;
            if k < ts.len() - 1 {
                assert(prev[k] == x);
                assert(prev.contains(x));
                assert(rest.contains(x));
                let m = choose|m: int| 0 <= m < rest.len() && rest[m] == x;
                assert(d[m] == x);
            } else {
                if prev.contains(ts.last()) {
                    assert(rest.contains(x));
                    let m = choose|m: int| 0 <= m < rest.len() && rest[m] == x;
                    assert(d[m] == x);
                } else {
                    assert(d[d.len() - 1] == x);
                }
            }
        }
        assert forall|i: int, j: int| 0 <= i < j < d.len() implies d[i] != d[j] by {
            if j < rest.len() {
            } else {
                assert(!prev.contains(ts.last()));
                assert(d[j] == ts.last());
                assert(rest.contains(d[i]));
                assert(prev.contains(d[i]));
            }
        }
    }
}

/// Compares two character vectors element by element.
pub fn chars_eq(a: &Vec<char>, b: &Vec<char>) -> (r: bool)
    ensures
        r == (a@ == b@),
{
    if a.len() != b.len() {
        proof {
            assert(a@ != b@);
        }
        return false;
    }
    let mut i: usize = 0;
    while i < a.len()
        invariant
            0 <= i <= a.len(),
            a@.len() == b@.len(),
            forall|j: int| 0 <= j < i ==> a@[j] == b@[j],
        decreases a.len() - i,
    {
        if a[i] != b[i] {
            proof {
                assert(a@ != b@);
            }
            return false;
        }
        i = i + 1;
    }
    proof {
        assert(a@ =~= b@);
    }
    true
}

pub(crate) fn tokens_member(ts: &Vec<Vec<char>>, x: &Vec<char>) -> (r: bool)
    ensures
        r == ts.deep_view().contains(x@),
{
    let mut i: usize = 0;
    while i < ts.len()
        invariant
            0 <= i <= ts.len(),
            ts.deep_view().len() == ts@.len(),
            forall|j: int| 0 <= j < i ==> ts.deep_view()[j] != x@,
        decreases ts.len() - i,
    {
        proof {
            assert(ts.deep_view()[i as int] =~= ts@[i as int]@);
        }
        if chars_eq(&ts[i], x) {
            proof {
                assert(ts.deep_view()[i as int] == x@);
            }
            return true;
        }
        i = i + 1;
    }
    false
}

/// Removes duplicate tokens, keeping first occurrences.
pub fn dedup_token_vec(ts: &Vec<Vec<char>>) -> (r: Vec<Vec<char>>)
    ensures
        r.deep_view() == dedup_tokens(ts.deep_view()),
{
    let mut r: Vec<Vec<char>> = Vec::new();
    let mut i: usize = 0;
    while i < ts.len()
        invariant
            0 <= i <= ts.len(),
            ts.deep_view().len() == ts@.len(),
            r.deep_view() == dedup_tokens(ts.deep_view().take(i as int)),
        decreases ts.len() - i,
    {
        let ghost pre = ts.deep_view().take(i as int);
        proof {
            assert(ts.deep_view().take(i + 1).drop_last() =~= pre);
            assert(ts.deep_view().take(i + 1).last() == ts.deep_view()[i as int]);
            lemma_dedup_tokens_elems(pre);
        }
        let present = tokens_member(&r, &ts[i]);
        proof {
            assert(ts@[i as int]@ =~= ts.deep_view()[i as int]);
            assert(present == pre.contains(ts.deep_view()[i as int])) by {
                if r.deep_view().contains(ts.deep_view()[i as int]) {
                    assert(pre.contains(ts.deep_view()[i as int]));
                }
                if pre.contains(ts.deep_view()[i as int]) {
                    assert(r.deep_view().contains(ts.deep_view()[i as int]));
                }
            }
        }
        if !present {
            let ghost prev = r.deep_view();
            let tok = ts[i].clone();
            proof {
                assert(tok@ == ts.deep_view()[i as int]);
            }
            r.push(tok);
            proof {
                assert(r.deep_view() =~~= prev.push(tok@));
            }
        }
        i = i + 1;
    }
    proof {
        assert(ts.deep_view().take(ts.deep_view().len() as int) =~~= ts.deep_view());
    }
    r
}

/// `n` occurs in `h` starting at position `i`.
pub open spec fn matches_at(h: Seq<char>, n: Seq<char>, i: int) -> bool {
    0 <= i && i + n.len() <= h.len() && h.subrange(i, i + n.len() as int) == n
}

/// `n` is a contiguous subsequence of `h`.
pub open spec fn contains_sub(h: Seq<char>, n: Seq<char>) -> bool {
    exists|i: int| matches_at(h, n, i)
}

fn matches_at_exec(h: &Vec<char>, n: &Vec<char>, i: usize) -> (r: bool)
    requires
        i + n@.len() <= h@.len(),
    ensures
        r == matches_at(h@, n@, i as int),
{
    let hl = h.len();
    proof {
        assert(hl == h@.len());
    }
    let mut j: usize = 0;
    while j < n.len()
        invariant
            0 <= j <= n@.len(),
            i + n@.len() <= h@.len() <= usize::MAX,
            forall|m: int| 0 <= m < j ==> h@[i + m] == n@[m],
        decreases n.len() - j,
    {
        if h[i + j] != n[j] {
            proof {
                assert(h@.subrange(i as int, i + n@.len() as int)[j as int] == h@[i + j]);
                assert(h@.subrange(i as int, i + n@.len() as int) != n@);
            }
            return false;
        }
        j = j + 1;
    }
    proof {
        assert(h@.subrange(i as int, i + n@.len() as int) =~= n@);
    }
    true
}

/// Naive substring search over character vectors.
pub fn contains_sub_exec(h: &Vec<char>, n: &Vec<char>) -> (r: bool)
    ensures
        r == contains_sub(h@, n@),
{
    if n.len() > h.len() {
        proof {
            assert(!contains_sub(h@, n@));
        }
        return false;
    }
    if n.len() == 0 {
        proof {
            assert(h@.subrange(0, 0) =~= n@);
            assert(matches_at(h@, n@, 0));
        }
        return true;
    }
    let mut i: usize = 0;
    let last = h.len() - n.len();
    while i <= last
        invariant
            0 <= i <= last + 1,
            last < usize::MAX,
            last == h@.len() - n@.len(),
            forall|m: int| 0 <= m < i ==> !matches_at(h@, n@, m),
        decreases last + 1 - i,
    {
        if matches_at_exec(h, n, i) {
            return true;
        }
        i = i + 1;
    }
    proof {
        assert(forall|m: int| matches_at(h@, n@, m) ==> 0 <= m <= last);
    }
    false
}

/// Whether one character occurs in a character vector.
pub fn contains_char(v: &Vec<char>, c: char) -> (r: bool)
    ensures
        r == v@.contains(c),
{
    let mut i: usize = 0;
    while i < v.len()
        invariant
            0 <= i <= v@.len(),
            forall|j: int| 0 <= j < i ==> v@[j] != c,
        decreases v@.len() - i,
    {
        if v[i] == c {
            return true;
        }
        i = i + 1;
    }
    false
}

/// The tokens joined back together with single spaces.
pub open spec fn join_spaces(ts: Seq<Seq<char>>) -> Seq<char>
    decreases ts.len(),
{
    if ts.len() == 0 {
        Seq::empty()
    } else if ts.len() == 1 {
        ts[0]
    } else {
        join_spaces(ts.drop_last()) + seq![' '] + ts.last()
    }
}

/// Joins tokens with single spaces.
pub fn join_spaces_exec(ts: &Vec<Vec<char>>) -> (r: Vec<char>)
    ensures
        r@ == join_spaces(ts.deep_view()),
{
    let mut r: Vec<char> = Vec::new();
    let mut i: usize = 0;
    while i < ts.len()
        invariant
            0 <= i <= ts.len(),
            ts.deep_view().len() == ts@.len(),
            r@ == join_spaces(ts.deep_view().take(i as int)),
        decreases ts.len() - i,
    {
        let ghost pre = ts.deep_view().take(i as int);
        proof {
            assert(ts.deep_view().take(i + 1).drop_last() =~= pre);
            assert(ts.deep_view().take(i + 1).last() == ts.deep_view()[i as int]);
        }
        if i > 0 {
            r.push(' ');
        }
        let ghost mid = r@;
        let tok = &ts[i];
        let mut j: usize = 0;
        while j < tok.len()
            invariant
                0 <= j <= tok@.len(),
                r@ == mid + tok@.take(j as int),
            decreases tok.len() - j,
        {
            r.push(tok[j]);
            proof {
                assert(mid + tok@.take(j as int).push(tok@[j as int]) =~= mid + tok@.take(j + 1));
            }
            j = j + 1;
        }
        proof {
            assert(tok@.take(tok@.len() as int) =~= tok@);
            assert(tok@ == ts.deep_view()[i as int]);
            if i == 0 {
                assert(r@ =~= join_spaces(ts.deep_view().take(1)));
            } else {
                assert(r@ =~= join_spaces(pre) + seq![' '] + ts.deep_view()[i as int]);
            }
        }
        i = i + 1;
    }
    proof {
        assert(ts.deep_view().take(ts.deep_view().len() as int) =~= ts.deep_view());
    }
    r
}

} // verus!
