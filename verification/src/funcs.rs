//! The shared distance functions: token-set edit distance over lower-cased
//! words, scaled-integer cosine similarity, and the character filter that
//! keeps only what the embedding provider can use.

use vstd::prelude::*;
use crate::text;

verus! {

/// Scaled-integer similarity unit: this value stands for a cosine of `1.0`.
pub const SIM_SCALE: i64 = 1_000_000;

/// Largest magnitude of one fixed-point embedding component.
pub const EMB_COMP_LIMIT: i64 = 100_000;

/// Largest embedding dimension the arithmetic is sized for.
pub const EMB_DIM_LIMIT: usize = 1024;

/// Saturation at the top of `usize`: distances wider than the machine word
/// are reported as `usize::MAX`.
pub open spec fn sat_usize(n: int) -> int {
    if n > usize::MAX {
        usize::MAX as int
    } else {
        n
    }
}

/// Saturating addition on `usize`.
pub fn sat_add(a: usize, b: usize) -> (r: usize)
    ensures
        r == sat_usize(a + b),
{
    if a <= usize::MAX - b {
        a + b
    } else {
        usize::MAX
    }
}

/// Saturating doubling on `usize`.
pub fn sat_double(a: usize) -> (r: usize)
    ensures
        r == sat_usize(2 * a),
{
    if a <= usize::MAX / 2 {
        2 * a
    } else {
        usize::MAX
    }
}

pub open spec fn min_nat(a: nat, b: nat) -> nat {
    if a <= b {
        a
    } else {
        b
    }
}

/// Character-level edit distance with unit-cost insertion, deletion and
/// substitution.
pub open spec fn levenshtein(a: Seq<char>, b: Seq<char>) -> nat
    decreases a.len() + b.len(),
{
    if a.len() == 0 {
        b.len()
    } else if b.len() == 0 {
        a.len()
    } else {
        let del = levenshtein(a.drop_last(), b) + 1;
        let ins = levenshtein(a, b.drop_last()) + 1;
        let sub = levenshtein(a.drop_last(), b.drop_last()) + if a.last() == b.last() {
            0nat
        } else {
            1nat
        };
        min_nat(sub, min_nat(del, ins))
    }
}

pub proof fn lemma_levenshtein_self(a: Seq<char>)
    ensures
        levenshtein(a, a) == 0,
    decreases a.len(),
{
    if a.len() == 0 {
    } else {
        lemma_levenshtein_self(a.drop_last());
    }
}

/// Relies on `strsim::levenshtein`: the character-level edit distance with
/// unit-cost insertions, deletions and substitutions.
#[verifier::external_body]
fn levenshtein_exec(a: &Vec<char>, b: &Vec<char>) -> (r: usize)
    ensures
        r == levenshtein(a@, b@),
{
    let sa: String = a.iter().collect();
    let sb: String = b.iter().collect();
    strsim::levenshtein(&sa, &sb)
}

/// UTF-8 width of one character.
pub open spec fn char_width(c: char) -> nat {
    let u = c as u32;
    if u < 0x80 {
        1
    } else if u < 0x800 {
        2
    } else if u < 0x10000 {
        3
    } else {
        4
    }
}

/// UTF-8 byte length of a character sequence.
pub open spec fn byte_len(s: Seq<char>) -> nat
    decreases s.len(),
{
    if s.len() == 0 {
        0
    } else {
        byte_len(s.drop_last()) + char_width(s.last())
    }
}

fn char_width_exec(c: char) -> (r: usize)
    ensures
        r == char_width(c),
{
    let u = c as u32;
    if u < 0x80 {
        1
    } else if u < 0x800 {
        2
    } else if u < 0x10000 {
        3
    } else {
        4
    }
}

fn byte_len_exec(v: &Vec<char>) -> (r: usize)
    ensures
        r == sat_usize(byte_len(v@) as int),
{
    let mut r: usize = 0;
    let mut i: usize = 0;
    while i < v.len()
        invariant
            0 <= i <= v.len(),
            r == sat_usize(byte_len(v@.take(i as int)) as int),
        decreases v.len() - i,
    {
        proof {
            assert(v@.take(i + 1).drop_last() =~= v@.take(i as int));
        }
        r = sat_add(r, char_width_exec(v[i]));
        i = i + 1;
    }
    proof {
        assert(v@.take(v@.len() as int) =~= v@);
    }
    r
}

/// Smallest edit distance from `w` to any token in `ts`; the UTF-8 byte
/// length of `w` when `ts` is empty.
pub open spec fn min_lev_to(w: Seq<char>, ts: Seq<Seq<char>>) -> nat
    decreases ts.len(),
{
    if ts.len() == 0 {
        byte_len(w)
    } else if ts.len() == 1 {
        levenshtein(w, ts[0])
    } else {
        min_nat(levenshtein(w, ts.last()), min_lev_to(w, ts.drop_last()))
    }
}

/// Sum over the tokens of `ws` of the smallest distance into `ts`.
pub open spec fn lev_sum(ws: Seq<Seq<char>>, ts: Seq<Seq<char>>) -> nat
    decreases ws.len(),
{
    if ws.len() == 0 {
        0
    } else {
        lev_sum(ws.drop_last(), ts) + min_lev_to(ws.last(), ts)
    }
}

/// How many tokens of `ws` have no exact match in `ts`.
pub open spec fn only_count(ws: Seq<Seq<char>>, ts: Seq<Seq<char>>) -> nat
    decreases ws.len(),
{
    if ws.len() == 0 {
        0
    } else {
        only_count(ws.drop_last(), ts) + if ts.contains(ws.last()) {
            0nat
        } else {
            1nat
        }
    }
}

/// The token-set distance used for name matching: both strings are split
/// into sets of whitespace tokens; the result is the sum over the first
/// string's tokens of the least edit distance to any token of the second,
/// plus twice the number of tokens unique to either side. Asymmetric on
/// purpose: only the first argument's tokens contribute edit distances.
pub open spec fn token_set_distance(a: Seq<char>, b: Seq<char>) -> int {
    let t1 = text::dedup_tokens(text::tokens_of(a));
    let t2 = text::dedup_tokens(text::tokens_of(b));
    lev_sum(t1, t2) as int + 2 * (only_count(t1, t2) + only_count(t2, t1))
}

fn min_lev_to_exec(w: &Vec<char>, ts: &Vec<Vec<char>>) -> (r: usize)
    ensures
        r == sat_usize(min_lev_to(w@, ts.deep_view()) as int),
{
    let ghost tsv = ts.deep_view();
    if ts.len() == 0 {
        return byte_len_exec(w);
    }
    proof {
        assert(tsv[0] =~= ts@[0]@);
    }
    let mut r = levenshtein_exec(w, &ts[0]);
    proof {
        assert(tsv.take(1).len() == 1);
        assert(tsv.take(1)[0] == tsv[0]);
        assert(r == min_lev_to(w@, tsv.take(1)));
    }
    let mut i: usize = 1;
    while i < ts.len()
        invariant
            1 <= i <= ts.len(),
            tsv == ts.deep_view(),
            tsv.len() == ts@.len(),
            r == min_lev_to(w@, tsv.take(i as int)),
        decreases ts.len() - i,
    {
        proof {
            assert(tsv[i as int] =~= ts@[i as int]@);
            assert(tsv.take(i + 1).drop_last() =~= tsv.take(i as int));
            assert(tsv.take(i + 1).last() == tsv[i as int]);
        }
        let d = levenshtein_exec(w, &ts[i]);
        if d < r {
            r = d;
        }
        i = i + 1;
    }
    proof {
        assert(tsv.take(tsv.len() as int) =~~= tsv);
        assert(min_lev_to(w@, tsv) <= levenshtein(w@, tsv[0])) by {
            lemma_min_lev_to_le(w@, tsv, 0);
        }
    }
    r
}

proof fn lemma_min_lev_to_le(w: Seq<char>, ts: Seq<Seq<char>>, j: int)
    requires
        0 <= j < ts.len(),
    ensures
        min_lev_to(w, ts) <= levenshtein(w, ts[j]),
    decreases ts.len(),
{
    if ts.len() == 1 {
    } else {
        if j == ts.len() - 1 {
        } else {
            lemma_min_lev_to_le(w, ts.drop_last(), j);
        }
    }
}

fn lev_sum_exec(ws: &Vec<Vec<char>>, ts: &Vec<Vec<char>>) -> (r: usize)
    ensures
        r == sat_usize(lev_sum(ws.deep_view(), ts.deep_view()) as int),
{
    let ghost wsv = ws.deep_view();
    let mut r: usize = 0;
    let mut i: usize = 0;
    while i < ws.len()
        invariant
            0 <= i <= ws.len(),
            wsv == ws.deep_view(),
            wsv.len() == ws@.len(),
            r == sat_usize(lev_sum(wsv.take(i as int), ts.deep_view()) as int),
        decreases ws.len() - i,
    {
        proof {
            assert(wsv[i as int] =~= ws@[i as int]@);
            assert(wsv.take(i + 1).drop_last() =~= wsv.take(i as int));
            assert(wsv.take(i + 1).last() == wsv[i as int]);
        }
        let d = min_lev_to_exec(&ws[i], ts);
        r = sat_add(r, d);
        i = i + 1;
    }
    proof {
        assert(wsv.take(wsv.len() as int) =~~= wsv);
    }
    r
}

fn only_count_exec(ws: &Vec<Vec<char>>, ts: &Vec<Vec<char>>) -> (r: usize)
    ensures
        r == only_count(ws.deep_view(), ts.deep_view()),
{
    let ghost wsv = ws.deep_view();
    let mut r: usize = 0;
    let mut i: usize = 0;
    while i < ws.len()
        invariant
            0 <= i <= ws.len(),
            wsv == ws.deep_view(),
            wsv.len() == ws@.len(),
            r == only_count(wsv.take(i as int), ts.deep_view()),
            r <= i,
        decreases ws.len() - i,
    {
        proof {
            assert(wsv[i as int] =~= ws@[i as int]@);
            assert(wsv.take(i + 1).drop_last() =~= wsv.take(i as int));
            assert(wsv.take(i + 1).last() == wsv[i as int]);
        }
        if !text::tokens_member(ts, &ws[i]) {
            r = r + 1;
        }
        i = i + 1;
    }
    proof {
        assert(wsv.take(wsv.len() as int) =~~= wsv);
    }
    r
}

/// The token-set distance of two character vectors, saturating at
/// `usize::MAX`.
pub fn token_set_distance_chars(a: &Vec<char>, b: &Vec<char>) -> (r: usize)
    ensures
        r == sat_usize(token_set_distance(a@, b@)),
{
    let toks1 = text::tokenize(a);
    let toks2 = text::tokenize(b);
    let t1 = text::dedup_token_vec(&toks1);
    let t2 = text::dedup_token_vec(&toks2);
    let s = lev_sum_exec(&t1, &t2);
    let o1 = only_count_exec(&t1, &t2);
    let o2 = only_count_exec(&t2, &t1);
    sat_add(s, sat_double(sat_add(o1, o2)))
}

/// The token-set distance after lower-casing both strings, as the reference
/// name matcher computes it.
pub fn unordered_levenshtein(s1: &str, s2: &str) -> (r: usize)
    ensures
        r == sat_usize(
            token_set_distance(text::lower_seq(s1@), text::lower_seq(s2@)),
        ),
{
    let c1 = text::lower_vec(&text::to_char_vec(s1));
    let c2 = text::lower_vec(&text::to_char_vec(s2));
    token_set_distance_chars(&c1, &c2)
}

proof fn lemma_only_count_all_in(ws: Seq<Seq<char>>, ts: Seq<Seq<char>>)
    requires
        forall|w: Seq<char>| #[trigger] ws.contains(w) ==> ts.contains(w),
    ensures
        only_count(ws, ts) == 0,
    decreases ws.len(),
{
    if ws.len() == 0 {
    } else {
        assert(ws.contains(ws.last()));
        assert forall|w: Seq<char>| #[trigger] ws.drop_last().contains(w) implies ts.contains(
            w,
        ) by {
            let k = choose|k: int| 0 <= k < ws.drop_last().len() && ws.drop_last()[k] == w;
            assert(ws[k] == w);
            assert(ws.contains(w));
        }
        lemma_only_count_all_in(ws.drop_last(), ts);
    }
}

proof fn lemma_only_count_disjoint(ws: Seq<Seq<char>>, ts: Seq<Seq<char>>)
    requires
        forall|w: Seq<char>| #[trigger] ws.contains(w) ==> !ts.contains(w),
    ensures
        only_count(ws, ts) == ws.len(),
    decreases ws.len(),
{
    if ws.len() == 0 {
    } else {
        assert(ws.contains(ws.last()));
        assert forall|w: Seq<char>| #[trigger] ws.drop_last().contains(w) implies !ts.contains(
            w,
        ) by {
            let k = choose|k: int| 0 <= k < ws.drop_last().len() && ws.drop_last()[k] == w;
            assert(ws[k] == w);
            assert(ws.contains(w));
        }
        lemma_only_count_disjoint(ws.drop_last(), ts);
    }
}

proof fn lemma_lev_sum_all_in(ws: Seq<Seq<char>>, ts: Seq<Seq<char>>)
    requires
        forall|w: Seq<char>| #[trigger] ws.contains(w) ==> ts.contains(w),
    ensures
        lev_sum(ws, ts) == 0,
    decreases ws.len(),
{
    if ws.len() == 0 {
    } else {
        assert(ws.contains(ws.last()));
        assert(ts.contains(ws.last()));
        let j = choose|j: int| 0 <= j < ts.len() && ts[j] == ws.last();
        lemma_min_lev_to_le(ws.last(), ts, j);
        lemma_levenshtein_self(ws.last());
        assert(min_lev_to(ws.last(), ts) == 0);
        assert forall|w: Seq<char>| #[trigger] ws.drop_last().contains(w) implies ts.contains(
            w,
        ) by {
            let k = choose|k: int| 0 <= k < ws.drop_last().len() && ws.drop_last()[k] == w;
            assert(ws[k] == w);
            assert(ws.contains(w));
        }
        lemma_lev_sum_all_in(ws.drop_last(), ts);
    }
}

pub proof fn lemma_tsd_nonneg(a: Seq<char>, b: Seq<char>)
    ensures
        token_set_distance(a, b) >= 0,
{
}

/// Law: the token-set distance of any string to itself is zero.
pub proof fn lemma_token_set_distance_self(s: Seq<char>)
    ensures
        token_set_distance(s, s) == 0,
{
    let t = text::dedup_tokens(text::tokens_of(s));
    lemma_only_count_all_in(t, t);
    lemma_lev_sum_all_in(t, t);
}

/// Law: when two strings share no token, the token-set distance is at
/// least twice the total number of distinct tokens on the two sides; the
/// per-token edit distances can only add to that.
pub proof fn lemma_token_set_distance_disjoint(a: Seq<char>, b: Seq<char>)
    requires
        forall|w: Seq<char>| #[trigger] text::dedup_tokens(text::tokens_of(a)).contains(w)
            ==> !text::dedup_tokens(text::tokens_of(b)).contains(w),
    ensures
        token_set_distance(a, b) >= 2 * (text::dedup_tokens(text::tokens_of(a)).len()
            + text::dedup_tokens(text::tokens_of(b)).len()),
{
    let t1 = text::dedup_tokens(text::tokens_of(a));
    let t2 = text::dedup_tokens(text::tokens_of(b));
    lemma_only_count_disjoint(t1, t2);
    assert forall|w: Seq<char>| #[trigger] t2.contains(w) implies !t1.contains(w) by {
        if t1.contains(w) {
            assert(!t2.contains(w));
        }
    }
    lemma_only_count_disjoint(t2, t1);
}

/// An embedding vector the fixed-point arithmetic is sized for: bounded
/// dimension and bounded components.
pub open spec fn valid_embedding(v: Seq<i64>) -> bool {
    v.len() <= EMB_DIM_LIMIT && forall|i: int|
        0 <= i < v.len() ==> -EMB_COMP_LIMIT <= #[trigger] v[i] <= EMB_COMP_LIMIT
}

/// Checks the bounds of `valid_embedding` at run time.
pub fn is_valid_embedding(v: &[i64]) -> (r: bool)
    ensures
        r == valid_embedding(v@),
{
    if v.len() > EMB_DIM_LIMIT {
        return false;
    }
    let mut i: usize = 0;
    while i < v.len()
        invariant
            0 <= i <= v@.len(),
            v@.len() <= EMB_DIM_LIMIT,
            forall|j: int| 0 <= j < i ==> -EMB_COMP_LIMIT <= #[trigger] v@[j] <= EMB_COMP_LIMIT,
        decreases v@.len() - i,
    {
        if v[i] < -EMB_COMP_LIMIT || v[i] > EMB_COMP_LIMIT {
            return false;
        }
        i = i + 1;
    }
    true
}

/// Dot product of two equal-length integer vectors.
pub open spec fn dot(a: Seq<i64>, b: Seq<i64>) -> int
    decreases a.len(),
{
    if a.len() == 0 || b.len() == 0 {
        0
    } else {
        dot(a.drop_last(), b.drop_last()) + a.last() * b.last()
    }
}

proof fn lemma_dot_self_nonneg(a: Seq<i64>)
    ensures
        dot(a, a) >= 0,
    decreases a.len(),
{
    if a.len() == 0 {
    } else {
        lemma_dot_self_nonneg(a.drop_last());
        let x = a.last();
        assert(x * x >= 0) by (nonlinear_arith);
    }
}

proof fn lemma_dot_self_pos(a: Seq<i64>, i: int)
    requires
        0 <= i < a.len(),
        a[i] != 0,
    ensures
        dot(a, a) > 0,
    decreases a.len(),
{
    lemma_dot_self_nonneg(a.drop_last());
    let x = a.last();
    if i == a.len() - 1 {
        assert(x * x > 0) by (nonlinear_arith)
            requires
                x != 0,
        ;
    } else {
        lemma_dot_self_pos(a.drop_last(), i);
        assert(x * x >= 0) by (nonlinear_arith);
    }
}

/// The Cauchy-Schwarz inequality for integer vectors.
proof fn lemma_cauchy_schwarz(a: Seq<i64>, b: Seq<i64>)
    requires
        a.len() == b.len(),
    ensures
        dot(a, b) * dot(a, b) <= dot(a, a) * dot(b, b),
    decreases a.len(),
{
    if a.len() == 0 {
    } else {
        let a0 = a.drop_last();
        let b0 = b.drop_last();
        lemma_cauchy_schwarz(a0, b0);
        lemma_dot_self_nonneg(a0);
        lemma_dot_self_nonneg(b0);
        let d0 = dot(a0, b0);
        let na = dot(a0, a0);
        let nb = dot(b0, b0);
        let x = a.last();
        let y = b.last();
        assert(2 * (x * y) * d0 <= na * (y * y) + (x * x) * nb) by (nonlinear_arith)
            requires
                d0 * d0 <= na * nb,
                na >= 0,
                nb >= 0,
        ;
        assert((d0 + x * y) * (d0 + x * y) <= (na + x * x) * (nb + y * y)) by (nonlinear_arith)
            requires
                d0 * d0 <= na * nb,
                na >= 0,
                nb >= 0,
                2 * (x * y) * d0 <= na * (y * y) + (x * x) * nb,
        ;
    }
}

pub open spec fn is_isqrt(n: int, r: int) -> bool {
    0 <= r && r * r <= n && n < (r + 1) * (r + 1)
}

/// The integer square root, the largest `r` with `r * r <= n`.
pub open spec fn isqrt(n: int) -> int {
    choose|r: int| is_isqrt(n, r)
}

pub proof fn lemma_isqrt_exists(n: int)
    requires
        n >= 0,
    ensures
        is_isqrt(n, isqrt(n)),
    decreases n,
{
    if n == 0 {
        assert(is_isqrt(0, 0));
    } else {
        lemma_isqrt_exists(n - 1);
        let r0 = isqrt(n - 1);
        if n < (r0 + 1) * (r0 + 1) {
            assert(is_isqrt(n, r0));
        } else {
            assert(n == (r0 + 1) * (r0 + 1));
            assert(is_isqrt(n, r0 + 1)) by (nonlinear_arith)
                requires
                    n == (r0 + 1) * (r0 + 1),
                    r0 >= 0,
            ;
        }
    }
}

pub proof fn lemma_isqrt_unique(n: int, r: int)
    requires
        is_isqrt(n, r),
    ensures
        isqrt(n) == r,
{
    lemma_isqrt_exists(n);
    let s = isqrt(n);
    assert(s == r) by (nonlinear_arith)
        requires
            0 <= r,
            0 <= s,
            r * r <= n,
            n < (r + 1) * (r + 1),
            s * s <= n,
            n < (s + 1) * (s + 1),
    ;
}

/// Scaled cosine similarity. `-SIM_SCALE` stands both for a true cosine of
/// `-1.0` and for the incomparable cases: mismatched lengths, empty vectors,
/// and zero vectors. Otherwise the result is the integer square root of
/// `SIM_SCALE^2 * dot^2 / (|a|^2 * |b|^2)`, signed like the dot product.
pub open spec fn cosine_sim(a: Seq<i64>, b: Seq<i64>) -> int {
    if a.len() != b.len() || a.len() == 0 {
        -SIM_SCALE
    } else {
        let d = dot(a, b);
        let na = dot(a, a);
        let nb = dot(b, b);
        if na == 0 || nb == 0 {
            -SIM_SCALE
        } else {
            let q = ((SIM_SCALE * SIM_SCALE) * (d * d)) / (na * nb);
            if d >= 0 {
                isqrt(q)
            } else {
                -isqrt(q)
            }
        }
    }
}

fn dot_exec(a: &[i64], b: &[i64]) -> (r: i128)
    requires
        a@.len() == b@.len(),
        valid_embedding(a@),
        valid_embedding(b@),
    ensures
        r == dot(a@, b@),
        -(a@.len() * EMB_COMP_LIMIT * EMB_COMP_LIMIT) <= r <= a@.len() * EMB_COMP_LIMIT
            * EMB_COMP_LIMIT,
{
    let mut acc: i128 = 0;
    let mut i: usize = 0;
    while i < a.len()
        invariant
            0 <= i <= a@.len(),
            a@.len() == b@.len(),
            valid_embedding(a@),
            valid_embedding(b@),
            acc == dot(a@.take(i as int), b@.take(i as int)),
            -(i * EMB_COMP_LIMIT * EMB_COMP_LIMIT) <= acc <= i * EMB_COMP_LIMIT * EMB_COMP_LIMIT,
        decreases a@.len() - i,
    {
        let x = a[i];
        let y = b[i];
        proof {
            assert(-(EMB_COMP_LIMIT * EMB_COMP_LIMIT) <= x * y <= EMB_COMP_LIMIT * EMB_COMP_LIMIT)
                by (nonlinear_arith)
                requires
                    -EMB_COMP_LIMIT <= x <= EMB_COMP_LIMIT,
                    -EMB_COMP_LIMIT <= y <= EMB_COMP_LIMIT,
            ;
            assert(i * EMB_COMP_LIMIT * EMB_COMP_LIMIT + EMB_COMP_LIMIT * EMB_COMP_LIMIT == (i + 1)
                * EMB_COMP_LIMIT * EMB_COMP_LIMIT) by (nonlinear_arith);
            assert(a@.take(i + 1).drop_last() =~= a@.take(i as int));
            assert(b@.take(i + 1).drop_last() =~= b@.take(i as int));
        }
        acc = acc + (x as i128) * (y as i128);
        i = i + 1;
    }
    proof {
        assert(a@.take(a@.len() as int) =~= a@);
        assert(b@.take(b@.len() as int) =~= b@);
        assert(a@.len() * EMB_COMP_LIMIT * EMB_COMP_LIMIT <= EMB_DIM_LIMIT * EMB_COMP_LIMIT
            * EMB_COMP_LIMIT) by (nonlinear_arith)
            requires
                a@.len() <= EMB_DIM_LIMIT,
        ;
    }
    acc
}

fn isqrt_exec(q: i64) -> (r: i64)
    requires
        0 <= q <= SIM_SCALE * SIM_SCALE,
    ensures
        r == isqrt(q as int),
        0 <= r <= SIM_SCALE,
{
    let mut lo: i64 = 0;
    let mut hi: i64 = SIM_SCALE + 1;
    proof {
        assert((SIM_SCALE + 1) * (SIM_SCALE + 1) > SIM_SCALE * SIM_SCALE) by (nonlinear_arith);
    }
    while lo + 1 < hi
        invariant
            0 <= lo < hi <= SIM_SCALE + 1,
            lo * lo <= q,
            q < hi * hi,
        decreases hi - lo,
    {
        let mid = lo + (hi - lo) / 2;
        proof {
            assert(lo < mid < hi);
            assert(mid * mid <= (SIM_SCALE + 1) * (SIM_SCALE + 1)) by (nonlinear_arith)
                requires
                    0 <= mid <= SIM_SCALE + 1,
            ;
            if mid <= SIM_SCALE {
                assert(mid * mid <= SIM_SCALE * SIM_SCALE) by (nonlinear_arith)
                    requires
                        0 <= mid <= SIM_SCALE,
                ;
            }
        }
        if mid <= SIM_SCALE && mid * mid <= q {
            lo = mid;
        } else {
            proof {
                if mid > SIM_SCALE {
                    assert(mid * mid > SIM_SCALE * SIM_SCALE) by (nonlinear_arith)
                        requires
                            mid > SIM_SCALE,
                            SIM_SCALE > 0,
                    ;
                }
            }
            hi = mid;
        }
    }
    proof {
        lemma_isqrt_unique(q as int, lo as int);
    }
    lo
}

/// Law: a valid vector with a non-zero component has full-scale similarity
/// with itself.
pub proof fn lemma_cosine_self(v: Seq<i64>)
    requires
        v.len() > 0,
        exists|i: int| 0 <= i < v.len() && v[i] != 0,
    ensures
        cosine_sim(v, v) == SIM_SCALE,
{
    let i = choose|i: int| 0 <= i < v.len() && v[i] != 0;
    lemma_dot_self_pos(v, i);
    let n = dot(v, v);
    let num = (SIM_SCALE * SIM_SCALE) * (n * n);
    let den = n * n;
    assert(den > 0 && num == den * (SIM_SCALE * SIM_SCALE)) by (nonlinear_arith)
        requires
            n > 0,
            num == (SIM_SCALE * SIM_SCALE) * (n * n),
            den == n * n,
    ;
    vstd::arithmetic::div_mod::lemma_div_multiples_vanish(SIM_SCALE * SIM_SCALE, den);
    assert(num / den == SIM_SCALE * SIM_SCALE);
    assert(is_isqrt(SIM_SCALE * SIM_SCALE, SIM_SCALE as int)) by (nonlinear_arith);
    lemma_isqrt_unique(SIM_SCALE * SIM_SCALE, SIM_SCALE as int);
}

/// Law: vectors of different lengths always get the sentinel `-SIM_SCALE`.
pub proof fn lemma_cosine_mismatch(a: Seq<i64>, b: Seq<i64>)
    requires
        a.len() != b.len(),
    ensures
        cosine_sim(a, b) == -SIM_SCALE,
{
}

/// Scaled cosine similarity of two fixed-point vectors; `-SIM_SCALE` for
/// incomparable inputs, as `cosine_sim` lays down.
pub fn cosine_similarity(v1: &[i64], v2: &[i64]) -> (r: i64)
    requires
        valid_embedding(v1@),
        valid_embedding(v2@),
    ensures
        r == cosine_sim(v1@, v2@),
        -SIM_SCALE <= r <= SIM_SCALE,
{
    if v1.len() != v2.len() || v1.len() == 0 {
        return -SIM_SCALE;
    }
    let d = dot_exec(v1, v2);
    let na = dot_exec(v1, v1);
    let nb = dot_exec(v2, v2);
    proof {
        lemma_dot_self_nonneg(v1@);
        lemma_dot_self_nonneg(v2@);
    }
    if na == 0 || nb == 0 {
        return -SIM_SCALE;
    }
    let ghost bound: int = EMB_DIM_LIMIT * EMB_COMP_LIMIT * EMB_COMP_LIMIT;
    proof {
        lemma_cauchy_schwarz(v1@, v2@);
        assert(-bound <= d <= bound && 0 <= na <= bound && 0 <= nb <= bound) by (nonlinear_arith)
            requires
                v1@.len() <= EMB_DIM_LIMIT,
                -(v1@.len() * EMB_COMP_LIMIT * EMB_COMP_LIMIT) <= d <= v1@.len() * EMB_COMP_LIMIT
                    * EMB_COMP_LIMIT,
                0 <= na <= v1@.len() * EMB_COMP_LIMIT * EMB_COMP_LIMIT,
                0 <= nb <= v1@.len() * EMB_COMP_LIMIT * EMB_COMP_LIMIT,
                bound == EMB_DIM_LIMIT * EMB_COMP_LIMIT * EMB_COMP_LIMIT,
        ;
        assert(0 <= d * d <= 104_857_600_000_000_000_000_000_000) by (nonlinear_arith)
            requires
                -10_240_000_000_000 <= d <= 10_240_000_000_000,
        ;
        assert(1 <= na * nb <= 104_857_600_000_000_000_000_000_000) by (nonlinear_arith)
            requires
                1 <= na <= 10_240_000_000_000,
                1 <= nb <= 10_240_000_000_000,
        ;
    }
    let dd: i128 = d * d;
    let den: i128 = na * nb;
    let scale2: i128 = (SIM_SCALE as i128) * (SIM_SCALE as i128);
    proof {
        assert(0 <= scale2 * dd <= 104_857_600_000_000_000_000_000_000_000_000_000_000)
            by (nonlinear_arith)
            requires
                0 <= dd <= 104_857_600_000_000_000_000_000_000,
                scale2 == 1_000_000_000_000,
        ;
    }
    let num: i128 = scale2 * dd;
    let q: i128 = num / den;
    proof {
        assert(dd <= den);
        assert(num <= den * scale2) by (nonlinear_arith)
            requires
                0 <= dd <= den,
                scale2 > 0,
                num == scale2 * dd,
        ;
        assert(q <= scale2) by {
            vstd::arithmetic::div_mod::lemma_div_multiples_vanish(scale2 as int, den as int);
            vstd::arithmetic::div_mod::lemma_div_is_ordered(
                num as int,
                (den * scale2) as int,
                den as int,
            );
        }
        assert(q >= 0) by {
            vstd::arithmetic::div_mod::lemma_div_pos_is_pos(num as int, den as int);
        }
    }
    let s = isqrt_exec(q as i64);
    if d >= 0 {
        s
    } else {
        -s
    }
}

/// Keeps Cyrillic letters and the period; everything else is dropped.
/// What survives is what the embedding provider is asked about; a name
/// that keeps nothing is unembeddable and goes to the substring fallback.
pub open spec fn keep_char(c: char) -> bool {
    let u = c as u32;
    (0x410 <= u && u <= 0x44F) || u == 0x401 || u == 0x451 || c == '.'
}

pub open spec fn keep_russian_spec(s: Seq<char>) -> Seq<char>
    decreases s.len(),
{
    if s.len() == 0 {
        Seq::empty()
    } else {
        let rest = keep_russian_spec(s.drop_last());
        if keep_char(s.last()) {
            rest.push(s.last())
        } else {
            rest
        }
    }
}

fn keep_char_exec(c: char) -> (r: bool)
    ensures
        r == keep_char(c),
{
    let u = c as u32;
    (0x410 <= u && u <= 0x44F) || u == 0x401 || u == 0x451 || c == '.'
}

/// Filters a name down to the characters the embedding provider accepts.
pub fn keep_russian_and_dot(input: &str) -> (r: String)
    ensures
        r@ == keep_russian_spec(input@),
{
    let v = text::to_char_vec(input);
    let mut kept: Vec<char> = Vec::new();
    let mut i: usize = 0;
    while i < v.len()
        invariant
            0 <= i <= v.len(),
            kept@ == keep_russian_spec(v@.take(i as int)),
        decreases v.len() - i,
    {
        proof {
            assert(v@.take(i + 1).drop_last() =~= v@.take(i as int));
        }
        if keep_char_exec(v[i]) {
            kept.push(v[i]);
        }
        i = i + 1;
    }
    proof {
        assert(v@.take(v@.len() as int) =~= v@);
    }
    text::string_from_chars(&kept)
}

} // verus!
