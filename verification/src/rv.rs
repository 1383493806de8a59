//! The document-fetch side of the data model: the response shape and the
//! markup stripping applied to fetched text. The HTTP call itself lives
//! outside the library.

use vstd::prelude::*;
use crate::text;

verus! {

/// Response body of the document service.
pub struct Text {
    pub text: String,
}

/// Position of the first `>` in `s`, or `s.len()` if there is none.
pub open spec fn find_gt(s: Seq<char>) -> nat
    decreases s.len(),
{
    if s.len() == 0 {
        0
    } else if s[0] == '>' {
        0
    } else {
        1 + find_gt(s.drop_first())
    }
}

proof fn lemma_find_gt_is(s: Seq<char>, k: int)
    requires
        0 <= k <= s.len(),
        forall|j: int| 0 <= j < k ==> s[j] != '>',
        k == s.len() || s[k] == '>',
    ensures
        find_gt(s) == k,
    decreases k,
{
    if k == 0 {
    } else {
        lemma_find_gt_is(s.drop_first(), k - 1);
    }
}

/// Removes every span from a `<` to the next `>`, inclusive; a `<` with no
/// later `>` is left untouched, along with everything after it.
pub open spec fn strip_html_spec(s: Seq<char>) -> Seq<char>
    decreases s.len(),
{
    if s.len() == 0 {
        Seq::empty()
    } else if s[0] == '<' {
        let j = 1 + find_gt(s.drop_first()) as int;
        if j < s.len() {
            strip_html_spec(s.skip(j + 1))
        } else {
            s
        }
    } else {
        seq![s[0]] + strip_html_spec(s.drop_first())
    }
}

/// Strips markup tags from fetched text.
pub fn strip_html(input: String) -> (r: String)
    ensures
        r@ == strip_html_spec(input@),
{
    let v = text::to_char_vec(input.as_str());
    let mut kept: Vec<char> = Vec::new();
    proof {
        assert(v@.skip(0) =~= v@);
        assert(kept@ + strip_html_spec(v@) =~= strip_html_spec(v@));
    }
    let mut i: usize = 0;
    while i < v.len()
        invariant
            0 <= i <= v.len(),
            v@ == input@,
            kept@ + strip_html_spec(v@.skip(i as int)) == strip_html_spec(v@),
        decreases v.len() - i,
    {
        if v[i] != '<' {
            kept.push(v[i]);
            proof {
                assert(v@.skip(i as int).drop_first() =~= v@.skip(i + 1));
                assert(strip_html_spec(v@.skip(i as int)) == seq![v@[i as int]] + strip_html_spec(
                    v@.skip(i + 1),
                ));
                assert(kept@ + strip_html_spec(v@.skip(i + 1)) =~= strip_html_spec(v@));
            }
            i = i + 1;
        } else {
            let ghost start = i as int;
            proof {
                assert(v@.skip(start).drop_first() =~= v@.skip(start + 1));
            }
            let mut j = i + 1;
            while j < v.len() && v[j] != '>'
                invariant
                    start + 1 <= j <= v.len(),
                    start == i,
                    i < v.len(),
                    v@ == input@,
                    forall|m: int| start + 1 <= m < j ==> v@[m] != '>',
                decreases v.len() - j,
            {
                j = j + 1;
            }
            let ghost rest = v@.skip(start + 1);
            proof {
                assert(v@.skip(start).drop_first() =~= v@.skip(start + 1));
                lemma_find_gt_is(rest, j - start - 1);
            }
            if j < v.len() {
                // a full tag: drop it
                proof {
                    assert(v@.skip(start).skip(j - start + 1) =~= v@.skip(j + 1));
                    assert(strip_html_spec(v@.skip(start)) == strip_html_spec(v@.skip(j + 1)));
                }
                i = j + 1;
            } else {
                // no closing bracket: keep the rest verbatim
                proof {
                    assert(strip_html_spec(v@.skip(start)) == v@.skip(start));
                    assert(v@.skip(start).take(0) =~= Seq::<char>::empty());
                    assert(kept@ + v@.skip(start).take(0) =~= kept@);
                }
                let ghost kept0 = kept@;
                let mut m = i;
                while m < v.len()
                    invariant
                        0 <= start <= m <= v.len(),
                        v@ == input@,
                        kept@ == kept0 + v@.skip(start).take(m - start),
                        kept0 + strip_html_spec(v@.skip(start)) == strip_html_spec(v@),
                        strip_html_spec(v@.skip(start)) == v@.skip(start),
                    decreases v.len() - m,
                {
                    kept.push(v[m]);
                    proof {
                        assert(v@[m as int] == v@.skip(start)[m - start]);
                        assert(kept0 + v@.skip(start).take(m - start).push(v@[m as int]) =~= kept0
                            + v@.skip(start).take(m + 1 - start));
                    }
                    m = m + 1;
                }
                proof {
                    assert(v@.skip(start).take(v@.len() - start) =~= v@.skip(start));
                }
                return text::string_from_chars(&kept);
            }
        }
    }
    proof {
        assert(v@.skip(v@.len() as int) =~= Seq::<char>::empty());
        assert(kept@ + Seq::<char>::empty() =~= kept@);
    }
    text::string_from_chars(&kept)
}

} // verus!
