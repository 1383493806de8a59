//! Surname-and-initials comparison for person names, with alias handling:
//! the specialized distance used when a text mentions a person by initials.

use vstd::prelude::*;
use crate::funcs;
use crate::text;

verus! {

/// Removes periods and double quotes, as text normalization does.
pub open spec fn strip_marks(s: Seq<char>) -> Seq<char>
    decreases s.len(),
{
    if s.len() == 0 {
        Seq::empty()
    } else {
        let rest = strip_marks(s.drop_last());
        if s.last() == '.' || s.last() == '"' {
            rest
        } else {
            rest.push(s.last())
        }
    }
}

/// Normalized form of a name: lower-cased, periods and quotes removed,
/// whitespace collapsed to single spaces.
pub open spec fn normalize_text_spec(s: Seq<char>) -> Seq<char> {
    text::join_spaces(text::tokens_of(strip_marks(text::lower_seq(s))))
}

/// Lower-cases, strips periods and quotes, and collapses whitespace.
pub fn normalize_text(s: &str) -> (r: String)
    ensures
        r@ == normalize_text_spec(s@),
{
    let v = text::to_char_vec(s);
    text::string_from_chars(&normalize_text_chars(&v))
}

/// Strips one trailing declension character from a surname that ends in
/// the feminine suffixes the reference rule looks for.
pub open spec fn normalize_surname_spec(s: Seq<char>) -> Seq<char> {
    if s.len() >= 2 && ((s[s.len() - 2] == 'о' && s[s.len() - 1] == 'й') || (s[s.len() - 2] == 'а'
        && s[s.len() - 1] == 'я')) {
        s.drop_last()
    } else {
        s
    }
}

fn normalize_surname_chars(v: &Vec<char>) -> (r: Vec<char>)
    ensures
        r@ == normalize_surname_spec(v@),
{
    let n = v.len();
    if n >= 2 && ((v[n - 2] == 'о' && v[n - 1] == 'й') || (v[n - 2] == 'а' && v[n - 1] == 'я')) {
        let mut r = v.clone();
        proof {
            assert(r@ == v@);
        }
        let _last = r.pop();
        proof {
            assert(r@ =~= v@.drop_last());
        }
        r
    } else {
        v.clone()
    }
}

/// Strips the feminine declension suffixes the reference rule looks for.
pub fn normalize_surname(s: &str) -> (r: String)
    ensures
        r@ == normalize_surname_spec(s@),
{
    let v = text::to_char_vec(s);
    text::string_from_chars(&normalize_surname_chars(&v))
}

/// Length of the maximal prefix without a double quote.
pub open spec fn quote_prefix_len(s: Seq<char>) -> nat
    decreases s.len(),
{
    if s.len() == 0 || s[0] == '"' {
        0
    } else {
        1 + quote_prefix_len(s.drop_first())
    }
}

proof fn lemma_quote_prefix_len_is(s: Seq<char>, k: int)
    requires
        0 <= k <= s.len(),
        forall|j: int| 0 <= j < k ==> s[j] != '"',
        k == s.len() || s[k] == '"',
    ensures
        quote_prefix_len(s) == k,
    decreases k,
{
    if k == 0 {
    } else {
        assert(s[0] != '"');
        lemma_quote_prefix_len_is(s.drop_first(), k - 1);
    }
}

/// The quoted aliases of a registry name: the non-empty stretches between
/// pairs of double quotes, scanned left to right.
pub open spec fn aliases_of(s: Seq<char>) -> Seq<Seq<char>>
    decreases s.len(),
{
    if s.len() == 0 {
        Seq::empty()
    } else if s[0] != '"' {
        aliases_of(s.drop_first())
    } else {
        let rest = s.drop_first();
        let k = quote_prefix_len(rest) as int;
        if 1 <= k && k < rest.len() {
            seq![rest.take(k)] + aliases_of(rest.skip(k + 1))
        } else if k == 0 {
            aliases_of(rest)
        } else {
            Seq::empty()
        }
    }
}

/// Extracts the quoted aliases of a name.
pub fn extract_aliases(s: &str) -> (r: Vec<Vec<char>>)
    ensures
        r.deep_view() == aliases_of(s@),
{
    let v = text::to_char_vec(s);
    let mut r: Vec<Vec<char>> = Vec::new();
    proof {
        assert(v@.skip(0) =~= v@);
        assert(r.deep_view() + aliases_of(v@) =~~= aliases_of(v@));
    }
    let mut i: usize = 0;
    while i < v.len()
        invariant
            0 <= i <= v.len(),
            v@ == s@,
            r.deep_view() + aliases_of(v@.skip(i as int)) == aliases_of(v@),
        decreases v.len() - i,
    {
        if v[i] != '"' {
            proof {
                assert(v@.skip(i as int).drop_first() =~= v@.skip(i + 1));
            }
            i = i + 1;
        } else {
            let ghost start = i as int;
            proof {
                assert(v@.skip(start).drop_first() =~= v@.skip(start + 1));
            }
            let mut j = i + 1;
            let mut alias: Vec<char> = Vec::new();
            while j < v.len() && v[j] != '"'
                invariant
                    start + 1 <= j <= v.len(),
                    start == i,
                    i < v.len(),
                    alias@ == v@.subrange(start + 1, j as int),
                    forall|m: int| start + 1 <= m < j ==> v@[m] != '"',
                decreases v.len() - j,
            {
                alias.push(v[j]);
                proof {
                    assert(v@.subrange(start + 1, j as int).push(v@[j as int]) =~= v@.subrange(
                        start + 1,
                        j + 1,
                    ));
                }
                j = j + 1;
            }
            let ghost rest = v@.skip(start + 1);
            proof {
                lemma_quote_prefix_len_is(rest, j - start - 1);
                assert(rest.take(j - start - 1) =~= v@.subrange(start + 1, j as int));
            }
            if j < v.len() && j > i + 1 {
                // closing quote with non-empty content
                proof {
                    assert(rest.skip(j - start) =~= v@.skip(j + 1));
                    assert(aliases_of(v@.skip(start)) == seq![alias@] + aliases_of(v@.skip(j + 1)));
                }
                let ghost prev = r.deep_view();
                r.push(alias);
                proof {
                    assert(r.deep_view() =~~= prev.push(alias@));
                    assert(prev.push(alias@) + aliases_of(v@.skip(j + 1)) =~~= prev + (seq![alias@]
                        + aliases_of(v@.skip(j + 1))));
                }
                i = j + 1;
            } else if j < v.len() {
                // empty quotes: move past the opening quote only
                proof {
                    assert(v@.skip(start).drop_first() =~= v@.skip(start + 1));
                    assert(aliases_of(v@.skip(start)) == aliases_of(v@.skip(start + 1)));
                }
                i = i + 1;
            } else {
                // no closing quote: nothing more can match
                proof {
                    assert(quote_prefix_len(rest) == rest.len());
                    if rest.len() == 0 {
                        assert(aliases_of(rest) =~~= Seq::<Seq<char>>::empty());
                    }
                    assert(aliases_of(v@.skip(start)) =~~= Seq::<Seq<char>>::empty());
                    assert(r.deep_view() + Seq::<Seq<char>>::empty() =~~= r.deep_view());
                }
                return r;
            }
        }
    }
    proof {
        assert(v@.skip(v@.len() as int) =~= Seq::<char>::empty());
        assert(r.deep_view() + aliases_of(v@.skip(v@.len() as int)) =~~= r.deep_view());
    }
    r
}

/// First characters of all tokens but the last: the initials.
pub open spec fn initials_of(parts: Seq<Seq<char>>) -> Seq<char>
    decreases parts.len(),
{
    if parts.len() == 0 {
        Seq::empty()
    } else {
        initials_of(parts.drop_last()).push(parts.last()[0])
    }
}

/// Surname (the normalized last token) and initials (first characters of
/// the earlier tokens) of a name.
pub open spec fn split_name_spec(s: Seq<char>) -> (Seq<char>, Seq<char>) {
    let parts = text::tokens_of(s);
    if parts.len() == 0 {
        (Seq::empty(), Seq::empty())
    } else {
        (normalize_surname_spec(parts.last()), initials_of(parts.drop_last()))
    }
}

pub(crate) fn split_name_chars(v: &Vec<char>) -> (r: (Vec<char>, Vec<char>))
    ensures
        r.0@ == split_name_spec(v@).0,
        r.1@ == split_name_spec(v@).1,
{
    let parts = text::tokenize(v);
    proof {
        text::lemma_tokens_nonempty(v@);
    }
    if parts.len() == 0 {
        return (Vec::new(), Vec::new());
    }
    let ghost pv = parts.deep_view();
    let surname = normalize_surname_chars(&parts[parts.len() - 1]);
    proof {
        assert(pv[pv.len() - 1] =~= parts@[parts@.len() - 1]@);
        assert(pv.last() == pv[pv.len() - 1]);
    }
    let mut initials: Vec<char> = Vec::new();
    let mut i: usize = 0;
    while i < parts.len() - 1
        invariant
            0 <= i <= pv.len() - 1,
            pv == parts.deep_view(),
            pv.len() == parts@.len(),
            pv.len() >= 1,
            forall|j: int| 0 <= j < pv.len() ==> #[trigger] pv[j].len() >= 1,
            initials@ == initials_of(pv.drop_last().take(i as int)),
        decreases parts.len() - 1 - i,
    {
        proof {
            assert(pv[i as int] =~= parts@[i as int]@);
            assert(pv.drop_last()[i as int] == pv[i as int]);
            assert(pv.drop_last().take(i + 1).drop_last() =~= pv.drop_last().take(i as int));
            assert(pv.drop_last().take(i + 1).last() == pv[i as int]);
        }
        let tok = &parts[i];
        initials.push(tok[0]);
        i = i + 1;
    }
    proof {
        assert(pv.drop_last().take(pv.drop_last().len() as int) =~= pv.drop_last());
    }
    (surname, initials)
}

/// Splits a name into its surname and its initials.
pub fn split_name(s: &str) -> (r: (String, String))
    ensures
        r.0@ == split_name_spec(s@).0,
        r.1@ == split_name_spec(s@).1,
{
    let v = text::to_char_vec(s);
    let (surname, initials) = split_name_chars(&v);
    (text::string_from_chars(&surname), text::string_from_chars(&initials))
}

/// The token-set distance, case-folded first when `fold` is set.
pub open spec fn tsd_cf(a: Seq<char>, b: Seq<char>, fold: bool) -> int {
    if fold {
        funcs::token_set_distance(text::lower_seq(a), text::lower_seq(b))
    } else {
        funcs::token_set_distance(a, b)
    }
}

pub open spec fn min_int(a: int, b: int) -> int {
    if a <= b {
        a
    } else {
        b
    }
}

/// Least candidate distance: each candidate contributes its surname and
/// its own initials; the result is the least sum of the two token-set
/// distances.
pub open spec fn min_cand_dist(
    ts: Seq<char>,
    ti: Seq<char>,
    ss: Seq<Seq<char>>,
    cis: Seq<Seq<char>>,
    fold: bool,
) -> int
    recommends
        ss.len() == cis.len(),
        ss.len() >= 1,
    decreases ss.len(),
{
    if ss.len() <= 1 {
        tsd_cf(ts, ss[0], fold) + tsd_cf(ti, cis[0], fold)
    } else {
        min_int(
            tsd_cf(ts, ss.last(), fold) + tsd_cf(ti, cis.last(), fold),
            min_cand_dist(ts, ti, ss.drop_last(), cis.drop_last(), fold),
        )
    }
}

/// The surnames of a list of aliases, in order.
pub open spec fn alias_surnames(aliases: Seq<Seq<char>>) -> Seq<Seq<char>>
    decreases aliases.len(),
{
    if aliases.len() == 0 {
        Seq::empty()
    } else {
        alias_surnames(aliases.drop_last()).push(split_name_spec(aliases.last()).0)
    }
}

/// The initials of a list of aliases, in order.
pub open spec fn alias_initials(aliases: Seq<Seq<char>>) -> Seq<Seq<char>>
    decreases aliases.len(),
{
    if aliases.len() == 0 {
        Seq::empty()
    } else {
        alias_initials(aliases.drop_last()).push(split_name_spec(aliases.last()).1)
    }
}

/// The registry-side surname candidates: the surname of the normalized
/// registry name (its last token, suffix-stripped), then the surname of
/// each quoted alias.
pub open spec fn cand_surnames(registry: Seq<char>) -> Seq<Seq<char>> {
    seq![split_name_spec(normalize_text_spec(registry)).0] + alias_surnames(aliases_of(registry))
}

/// The registry-side initials candidates, parallel to `cand_surnames`:
/// the initials of the normalized registry name, then of each alias.
pub open spec fn cand_initials(registry: Seq<char>) -> Seq<Seq<char>> {
    seq![split_name_spec(normalize_text_spec(registry)).1] + alias_initials(aliases_of(registry))
}

/// The person-name distance: both names are normalized; the registry name
/// and each of its quoted aliases are split into surname (the last token,
/// suffix-stripped) and initials (first letters of the preceding tokens),
/// and so is the text name; the result is the least, over the candidates,
/// of the surname distance plus the initials distance. `fold` selects
/// whether the token-set distances case-fold their arguments first.
pub open spec fn person_distance(text_name: Seq<char>, registry: Seq<char>, fold: bool) -> int {
    let tn = normalize_text_spec(text_name);
    min_cand_dist(
        split_name_spec(tn).0,
        split_name_spec(tn).1,
        cand_surnames(registry),
        cand_initials(registry),
        fold,
    )
}

fn tsd_cf_exec(a: &Vec<char>, b: &Vec<char>, fold: bool) -> (r: usize)
    ensures
        r == funcs::sat_usize(tsd_cf(a@, b@, fold)),
{
    if fold {
        let la = text::lower_vec(a);
        let lb = text::lower_vec(b);
        funcs::token_set_distance_chars(&la, &lb)
    } else {
        funcs::token_set_distance_chars(a, b)
    }
}

proof fn lemma_tsd_cf_nonneg(a: Seq<char>, b: Seq<char>, fold: bool)
    ensures
        tsd_cf(a, b, fold) >= 0,
{
    if fold {
        funcs::lemma_tsd_nonneg(text::lower_seq(a), text::lower_seq(b));
    } else {
        funcs::lemma_tsd_nonneg(a, b);
    }
}

pub(crate) fn compare_names_chars(text_name: &Vec<char>, registry: &Vec<char>, fold: bool) -> (r:
    usize)
    ensures
        r == funcs::sat_usize(person_distance(text_name@, registry@, fold)),
{
    let tn_s = normalize_text_chars(text_name);
    let rn_s = normalize_text_chars(registry);
    let (ts, ti) = split_name_chars(&tn_s);
    let (rs0, ri0) = split_name_chars(&rn_s);

    // candidate pairs: the normalized registry name first, then each alias
    let mut cand_s: Vec<Vec<char>> = Vec::new();
    let mut cand_i: Vec<Vec<char>> = Vec::new();
    cand_s.push(rs0);
    cand_i.push(ri0);
    let aliases = extract_aliases_chars(registry);
    let ghost av = aliases.deep_view();
    let ghost s0 = split_name_spec(normalize_text_spec(registry@)).0;
    let ghost i0 = split_name_spec(normalize_text_spec(registry@)).1;
    proof {
        assert(cand_s.deep_view() =~~= seq![s0] + alias_surnames(av.take(0)));
        assert(cand_i.deep_view() =~~= seq![i0] + alias_initials(av.take(0)));
    }
    let mut i: usize = 0;
    while i < aliases.len()
        invariant
            0 <= i <= aliases.len(),
            av == aliases.deep_view(),
            av.len() == aliases@.len(),
            cand_s.deep_view() == seq![s0] + alias_surnames(av.take(i as int)),
            cand_i.deep_view() == seq![i0] + alias_initials(av.take(i as int)),
            cand_s@.len() == cand_i@.len(),
        decreases aliases.len() - i,
    {
        proof {
            assert(av[i as int] =~= aliases@[i as int]@);
            assert(av.take(i + 1).drop_last() =~= av.take(i as int));
            assert(av.take(i + 1).last() == av[i as int]);
        }
        let (als, ali) = split_name_chars(&aliases[i]);
        let ghost prev_s = cand_s.deep_view();
        let ghost prev_i = cand_i.deep_view();
        cand_s.push(als);
        cand_i.push(ali);
        proof {
            assert(cand_s.deep_view() =~~= prev_s.push(als@));
            assert(prev_s.push(als@) =~~= seq![s0] + alias_surnames(av.take(i + 1)));
            assert(cand_i.deep_view() =~~= prev_i.push(ali@));
            assert(prev_i.push(ali@) =~~= seq![i0] + alias_initials(av.take(i + 1)));
        }
        i = i + 1;
    }
    proof {
        assert(av.take(av.len() as int) =~~= av);
        assert(cand_s.deep_view() =~~= cand_surnames(registry@));
        assert(cand_i.deep_view() =~~= cand_initials(registry@));
    }

    // least candidate distance
    let ghost csv = cand_s.deep_view();
    let ghost civ = cand_i.deep_view();
    proof {
        assert(csv[0] =~= cand_s@[0]@);
        assert(civ[0] =~= cand_i@[0]@);
        assert(csv.take(1)[0] == csv[0]);
        assert(civ.take(1)[0] == civ[0]);
    }
    let ds0 = tsd_cf_exec(&ts, &cand_s[0], fold);
    let di0 = tsd_cf_exec(&ti, &cand_i[0], fold);
    let mut best = funcs::sat_add(ds0, di0);
    proof {
        lemma_tsd_cf_nonneg(ts@, csv[0], fold);
        lemma_tsd_cf_nonneg(ti@, civ[0], fold);
        assert(best == funcs::sat_usize(min_cand_dist(ts@, ti@, csv.take(1), civ.take(1), fold)));
    }
    let mut k: usize = 1;
    while k < cand_s.len()
        invariant
            1 <= k <= cand_s.len(),
            csv == cand_s.deep_view(),
            civ == cand_i.deep_view(),
            csv.len() == cand_s@.len(),
            civ.len() == cand_i@.len(),
            csv.len() == civ.len(),
            best == funcs::sat_usize(min_cand_dist(ts@, ti@, csv.take(k as int), civ.take(k as int), fold)),
        decreases cand_s.len() - k,
    {
        proof {
            assert(csv[k as int] =~= cand_s@[k as int]@);
            assert(civ[k as int] =~= cand_i@[k as int]@);
            assert(csv.take(k + 1).drop_last() =~= csv.take(k as int));
            assert(csv.take(k + 1).last() == csv[k as int]);
            assert(civ.take(k + 1).drop_last() =~= civ.take(k as int));
            assert(civ.take(k + 1).last() == civ[k as int]);
        }
        let ds = tsd_cf_exec(&ts, &cand_s[k], fold);
        let di = tsd_cf_exec(&ti, &cand_i[k], fold);
        let total = funcs::sat_add(ds, di);
        if total < best {
            best = total;
        }
        proof {
            let dsm = tsd_cf(ts@, csv[k as int], fold);
            let dim = tsd_cf(ti@, civ[k as int], fold);
            lemma_tsd_cf_nonneg(ts@, csv[k as int], fold);
            lemma_tsd_cf_nonneg(ti@, civ[k as int], fold);
            assert(total == funcs::sat_usize(dsm + dim));
            assert(min_cand_dist(ts@, ti@, csv.take(k + 1), civ.take(k + 1), fold) == min_int(
                dsm + dim,
                min_cand_dist(ts@, ti@, csv.take(k as int), civ.take(k as int), fold),
            ));
        }
        k = k + 1;
    }
    proof {
        assert(csv.take(csv.len() as int) =~~= csv);
        assert(civ.take(civ.len() as int) =~~= civ);
    }
    best
}

fn normalize_text_chars(v: &Vec<char>) -> (r: Vec<char>)
    ensures
        r@ == normalize_text_spec(v@),
{
    let low = text::lower_vec(v);
    let mut kept: Vec<char> = Vec::new();
    let mut i: usize = 0;
    while i < low.len()
        invariant
            0 <= i <= low.len(),
            kept@ == strip_marks(low@.take(i as int)),
        decreases low.len() - i,
    {
        proof {
            assert(low@.take(i + 1).drop_last() =~= low@.take(i as int));
        }
        if low[i] != '.' && low[i] != '"' {
            kept.push(low[i]);
        }
        i = i + 1;
    }
    proof {
        assert(low@.take(low@.len() as int) =~= low@);
    }
    let toks = text::tokenize(&kept);
    text::join_spaces_exec(&toks)
}

fn extract_aliases_chars(v: &Vec<char>) -> (r: Vec<Vec<char>>)
    ensures
        r.deep_view() == aliases_of(v@),
{
    let s = text::string_from_chars(v);
    extract_aliases(s.as_str())
}

/// Compares a text name against a registry name by surname, initials and
/// aliases; token-set distances are taken on the arguments as given.
pub fn compare_names(name_text: &str, name_registry: &str) -> (r: usize)
    ensures
        r == funcs::sat_usize(person_distance(name_text@, name_registry@, false)),
{
    let t = text::to_char_vec(name_text);
    let g = text::to_char_vec(name_registry);
    compare_names_chars(&t, &g, false)
}

} // verus!
