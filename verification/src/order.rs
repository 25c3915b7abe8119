//! Ranking order of matched items and a verified sort.
//!
//! Results are ordered by descending score; ties are broken by ascending
//! title, compared byte-wise on the UTF-8 encoding exactly as `str` ordering
//! compares strings.

use vstd::prelude::*;
use vstd::utf8::encode_utf8;

use crate::types::{MatchedItem, MatchedItemView};

verus! {

/// Lexicographic order on byte strings.
pub open spec fn bytes_le(a: Seq<u8>, b: Seq<u8>) -> bool
    decreases a.len(),
{
    if a.len() == 0 {
        true
    } else if b.len() == 0 {
        false
    } else if a[0] < b[0] {
        true
    } else if a[0] > b[0] {
        false
    } else {
        bytes_le(a.drop_first(), b.drop_first())
    }
}

pub proof fn lemma_bytes_le_total(a: Seq<u8>, b: Seq<u8>)
    ensures
        bytes_le(a, b) || bytes_le(b, a),
    decreases a.len(),
{
    if a.len() > 0 && b.len() > 0 && a[0] == b[0] {
        lemma_bytes_le_total(a.drop_first(), b.drop_first());
    }
}

pub proof fn lemma_bytes_le_trans(a: Seq<u8>, b: Seq<u8>, c: Seq<u8>)
    requires
        bytes_le(a, b),
        bytes_le(b, c),
    ensures
        bytes_le(a, c),
    decreases a.len(),
{
    if a.len() > 0 && b.len() > 0 && c.len() > 0 && a[0] == b[0] && b[0] == c[0] {
        lemma_bytes_le_trans(a.drop_first(), b.drop_first(), c.drop_first());
    }
}

/// Byte-wise string comparison: `a` sorts at or before `b`.
fn str_bytes_le(a: &str, b: &str) -> (r: bool)
    ensures
        r == bytes_le(encode_utf8(a@), encode_utf8(b@)),
{
    let ab = a.as_bytes();
    let bb = b.as_bytes();
    proof {
        assert(ab@.skip(0) =~= ab@);
        assert(bb@.skip(0) =~= bb@);
    }
    let mut i: usize = 0;
    loop
        invariant
            0 <= i <= ab@.len(),
            i <= bb@.len(),
            ab@ == encode_utf8(a@),
            bb@ == encode_utf8(b@),
            bytes_le(ab@, bb@) == bytes_le(ab@.skip(i as int), bb@.skip(i as int)),
        decreases ab@.len() - i,
    {
        if i >= ab.len() {
            proof {
                assert(ab@.skip(i as int).len() == 0);
            }
            return true;
        }
        if i >= bb.len() {
            proof {
                assert(bb@.skip(i as int).len() == 0);
                assert(ab@.skip(i as int).len() > 0);
            }
            return false;
        }
        let x = ab[i];
        let y = bb[i];
        proof {
            assert(ab@.skip(i as int)[0] == ab@[i as int]);
            assert(bb@.skip(i as int)[0] == bb@[i as int]);
            assert(ab@.skip(i as int).drop_first() =~= ab@.skip(i + 1));
            assert(bb@.skip(i as int).drop_first() =~= bb@.skip(i + 1));
        }
        if x < y {
            return true;
        }
        if x > y {
            return false;
        }
        i = i + 1;
    }
}

/// The ranking order: higher scores first, ties broken by ascending title.
pub open spec fn ranked_le(a: MatchedItemView, b: MatchedItemView) -> bool {
    ||| a.match_info.score > b.match_info.score
    ||| (a.match_info.score == b.match_info.score && bytes_le(
        encode_utf8(a.item.title),
        encode_utf8(b.item.title),
    ))
}

pub proof fn lemma_ranked_le_total(a: MatchedItemView, b: MatchedItemView)
    ensures
        ranked_le(a, b) || ranked_le(b, a),
{
    lemma_bytes_le_total(encode_utf8(a.item.title), encode_utf8(b.item.title));
}

pub proof fn lemma_ranked_le_trans(a: MatchedItemView, b: MatchedItemView, c: MatchedItemView)
    requires
        ranked_le(a, b),
        ranked_le(b, c),
    ensures
        ranked_le(a, c),
{
    if a.match_info.score == b.match_info.score && b.match_info.score == c.match_info.score {
        lemma_bytes_le_trans(
            encode_utf8(a.item.title),
            encode_utf8(b.item.title),
            encode_utf8(c.item.title),
        );
    }
}

/// Mathematical values of a run of matched items.
pub open spec fn matched_views(s: Seq<MatchedItem>) -> Seq<MatchedItemView> {
    s.map_values(|m: MatchedItem| m@)
}

/// A run of matched items in ranking order.
pub open spec fn ranking_sorted(s: Seq<MatchedItemView>) -> bool {
    forall|i: int, j: int| 0 <= i < j < s.len() ==> ranked_le(s[i], s[j])
}

fn ranked_le_exec(a: &MatchedItem, b: &MatchedItem) -> (r: bool)
    ensures
        r == ranked_le(a@, b@),
{
    if a.match_info.score > b.match_info.score {
        true
    } else if a.match_info.score == b.match_info.score {
        str_bytes_le(a.item.title.as_str(), b.item.title.as_str())
    } else {
        false
    }
}

/// Ranking is deterministic: in a ranking-sorted list an earlier row never
/// scores lower, and among rows of equal score the titles appear in
/// ascending byte order.
pub proof fn lemma_ranking_deterministic(s: Seq<MatchedItemView>, i: int, j: int)
    requires
        ranking_sorted(s),
        0 <= i < j < s.len(),
    ensures
        s[i].match_info.score >= s[j].match_info.score,
        s[i].match_info.score == s[j].match_info.score ==> bytes_le(
            encode_utf8(s[i].item.title),
            encode_utf8(s[j].item.title),
        ),
{
    assert(ranked_le(s[i], s[j]));
}

/// Sorts matched items into ranking order; the result is a permutation of
/// the input.  The tie-break is by title alone, so rows equal in both score
/// and title are left in an unspecified relative order.
pub fn sort_matches(v: &mut Vec<MatchedItem>)
    ensures
        ranking_sorted(matched_views(final(v)@)),
        matched_views(final(v)@).to_multiset() == matched_views(old(v)@).to_multiset(),
        final(v)@.len() == old(v)@.len(),
{
    broadcast use vstd::seq_lib::group_to_multiset_ensures;
    broadcast use vstd::multiset::group_multiset_axioms;

    let ghost orig = matched_views(v@);
    if v.len() == 0 {
        return ;
    }
    let mut i: usize = 1;
    while i < v.len()
        invariant
            1 <= i <= v@.len(),
            v@.len() == orig.len(),
            ranking_sorted(matched_views(v@).take(i as int)),
            matched_views(v@).to_multiset() == orig.to_multiset(),
        decreases v@.len() - i,
    {
        let ghost pre = matched_views(v@);
        proof {
            assert forall|p: int, q: int| 0 <= p < q < i implies ranked_le(pre[p], pre[q]) by {
                assert(pre.take(i as int)[p] == pre[p]);
                assert(pre.take(i as int)[q] == pre[q]);
                assert(ranked_le(pre.take(i as int)[p], pre.take(i as int)[q]));
            }
        }
        let mut j: usize = 0;
        while j < i && ranked_le_exec(&v[j], &v[i])
            invariant
                0 <= j <= i < v@.len(),
                matched_views(v@) == pre,
                forall|k: int| 0 <= k < j ==> ranked_le(pre[k], pre[i as int]),
            decreases i - j,
        {
            j = j + 1;
        }
        proof {
            assert forall|k: int| j <= k < i implies ranked_le(pre[i as int], pre[k]) by {
                lemma_ranked_le_total(pre[j as int], pre[i as int]);
                assert(ranked_le(pre[i as int], pre[j as int]));
                if k > j {
                    assert(ranked_le(pre[j as int], pre[k]));
                    lemma_ranked_le_trans(pre[i as int], pre[j as int], pre[k]);
                }
            }
        }
        let x = v.remove(i);
        proof {
            assert(0 <= (i as int) && (i as int) < pre.len());
            assert(matched_views(v@) =~= pre.remove(i as int));
            vstd::seq_lib::to_multiset_remove::<MatchedItemView>(pre, i as int);
            vstd::seq_lib::to_multiset_contains::<MatchedItemView>(pre, pre[i as int]);
            assert(pre.contains(pre[i as int])) by {
                assert((i as int) < pre.len() && pre[i as int] == pre[i as int]);
            }
        }
        v.insert(j, x);
        proof {
            let after = matched_views(v@);
            assert(after =~= pre.remove(i as int).insert(j as int, x@));
            vstd::seq_lib::to_multiset_insert::<MatchedItemView>(
                pre.remove(i as int),
                j as int,
                x@,
            );
            assert(after.to_multiset() =~= pre.to_multiset()) by {
                assert(pre.to_multiset().remove(pre[i as int]).insert(pre[i as int])
                    =~= pre.to_multiset());
            }
            assert forall|p: int, q: int| 0 <= p < q < i + 1 implies ranked_le(
                after[p],
                after[q],
            ) by {
                assert(forall|k: int| 0 <= k < j ==> after[k] == pre[k]);
                assert(after[j as int] == pre[i as int]);
                assert(forall|k: int| j < k <= i ==> after[k] == pre[k - 1]);
                if q < j {
                    assert(ranked_le(pre[p], pre[q]));
                } else if q == j {
                    assert(ranked_le(pre[p], pre[i as int]));
                } else if p < j {
                    assert(ranked_le(pre[p], pre[q - 1])) by {
                        if p < q - 1 {
                        } else {
                            lemma_ranked_le_total(pre[p], pre[p]);
                        }
                    }
                } else if p == j {
                    assert(ranked_le(pre[i as int], pre[q - 1]));
                } else {
                    assert(ranked_le(pre[p - 1], pre[q - 1]));
                }
            }
        }
        i = i + 1;
    }
    proof {
        assert(matched_views(v@).take(v@.len() as int) =~= matched_views(v@));
    }
}

} // verus!
