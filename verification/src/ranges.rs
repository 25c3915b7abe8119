//! Highlight-range construction.
//!
//! A fuzzy back-end reports the matched positions of a text as raw character
//! indices, in no particular order and possibly with duplicates.  Highlight
//! ranges are built from them in three verified steps: normalise the indices
//! (sort, deduplicate, drop anything out of range), merge runs of consecutive
//! characters into half-open character ranges, and convert those to byte
//! ranges on UTF-8 character boundaries.

use vstd::prelude::*;
use vstd::utf8::{encode_utf8, is_char_boundary};

use crate::text::{
    byte_offset_of, char_byte_offsets, lemma_byte_offset_ends, lemma_byte_offset_is_char_boundary,
    lemma_byte_offset_mono,
};

verus! {

/// Strictly ascending order: each index occurs once and in position order.
pub open spec fn strictly_increasing(s: Seq<usize>) -> bool {
    forall|i: int, j: int| 0 <= i < j < s.len() ==> s[i] < s[j]
}

/// Insertion of one index into an already strictly ascending list; an index
/// that is already present is not duplicated.
pub open spec fn insert_sorted_spec(s: Seq<usize>, x: usize) -> Seq<usize>
    decreases s.len(),
{
    if s.len() == 0 {
        seq![x]
    } else if s.last() < x {
        s.push(x)
    } else if s.last() == x {
        s
    } else {
        insert_sorted_spec(s.drop_last(), x).push(s.last())
    }
}

/// The normalised form of a raw index list: strictly ascending, duplicates
/// removed, and only indices below `limit` kept.
pub open spec fn normalize_indices_spec(raw: Seq<usize>, limit: int) -> Seq<usize>
    decreases raw.len(),
{
    if raw.len() == 0 {
        Seq::empty()
    } else {
        let rest = normalize_indices_spec(raw.drop_last(), limit);
        if (raw.last() as int) < limit {
            insert_sorted_spec(rest, raw.last())
        } else {
            rest
        }
    }
}

proof fn lemma_insert_sorted_props(s: Seq<usize>, x: usize, limit: int)
    requires
        strictly_increasing(s),
        forall|k: int| 0 <= k < s.len() ==> (s[k] as int) < limit,
        (x as int) < limit,
    ensures
        strictly_increasing(insert_sorted_spec(s, x)),
        forall|k: int|
            0 <= k < insert_sorted_spec(s, x).len() ==> (insert_sorted_spec(s, x)[k] as int)
                < limit,
        s.len() <= insert_sorted_spec(s, x).len() <= s.len() + 1,
    decreases s.len(),
{
    let r = insert_sorted_spec(s, x);
    if s.len() == 0 {
    } else if s.last() < x {
        assert(forall|k: int| 0 <= k < s.len() ==> s[k] <= s.last());
    } else if s.last() == x {
    } else {
        let dl = s.drop_last();
        lemma_insert_sorted_props(dl, x, s.last() as int);
        let r0 = insert_sorted_spec(dl, x);
        assert(r == r0.push(s.last()));
        assert forall|i: int, j: int| 0 <= i < j < r.len() implies r[i] < r[j] by {
            if j < r.len() - 1 {
                assert(r[i] == r0[i] && r[j] == r0[j]);
            } else {
                assert(r[j] == s.last());
                assert(r[i] == r0[i]);
                assert((r0[i] as int) < s.last() as int);
            }
        }
    }
}

proof fn lemma_normalize_props(raw: Seq<usize>, limit: int)
    ensures
        strictly_increasing(normalize_indices_spec(raw, limit)),
        forall|k: int|
            0 <= k < normalize_indices_spec(raw, limit).len() ==> (normalize_indices_spec(
                raw,
                limit,
            )[k] as int) < limit,
    decreases raw.len(),
{
    if raw.len() > 0 {
        lemma_normalize_props(raw.drop_last(), limit);
        if (raw.last() as int) < limit {
            lemma_insert_sorted_props(normalize_indices_spec(raw.drop_last(), limit), raw.last(), limit);
        }
    }
}

proof fn lemma_insert_sorted_at(s: Seq<usize>, x: usize, j: int)
    requires
        strictly_increasing(s),
        0 <= j <= s.len(),
        forall|k: int| 0 <= k < j ==> s[k] < x,
        forall|k: int| j <= k < s.len() ==> s[k] > x,
    ensures
        insert_sorted_spec(s, x) == s.take(j) + seq![x] + s.skip(j),
    decreases s.len(),
{
    if s.len() == 0 {
        assert(insert_sorted_spec(s, x) =~= s.take(j) + seq![x] + s.skip(j));
    } else if j == s.len() {
        assert(s.last() < x);
        assert(insert_sorted_spec(s, x) =~= s.take(j) + seq![x] + s.skip(j));
    } else {
        assert(s.last() > x);
        let dl = s.drop_last();
        lemma_insert_sorted_at(dl, x, j);
        assert(insert_sorted_spec(s, x) == (dl.take(j) + seq![x] + dl.skip(j)).push(s.last()));
        assert(dl.take(j) =~= s.take(j));
        assert(dl.skip(j).push(s.last()) =~= s.skip(j));
        assert(insert_sorted_spec(s, x) =~= s.take(j) + seq![x] + s.skip(j));
    }
}

proof fn lemma_insert_sorted_present(s: Seq<usize>, x: usize, j: int)
    requires
        strictly_increasing(s),
        0 <= j < s.len(),
        s[j] == x,
    ensures
        insert_sorted_spec(s, x) == s,
    decreases s.len(),
{
    if j == s.len() - 1 {
        assert(s.last() == x);
    } else {
        assert(s.last() > x);
        let dl = s.drop_last();
        lemma_insert_sorted_present(dl, x, j);
        assert(insert_sorted_spec(s, x) =~= s);
    }
}

/// Inserts `x` into a strictly ascending vector, keeping the order and
/// skipping the insertion when `x` is already present.
fn insert_index_sorted(v: &mut Vec<usize>, x: usize)
    requires
        strictly_increasing(old(v)@),
    ensures
        final(v)@ == insert_sorted_spec(old(v)@, x),
{
    let ghost s = v@;
    let mut j: usize = 0;
    while j < v.len() && v[j] < x
        invariant
            v@ == s,
            strictly_increasing(s),
            0 <= j <= s.len(),
            forall|k: int| 0 <= k < j ==> s[k] < x,
        decreases v.len() - j,
    {
        j = j + 1;
    }
    if j < v.len() && x == v[j] {
        proof {
            lemma_insert_sorted_present(s, x, j as int);
        }
    } else {
        proof {
            assert forall|k: int| j <= k < s.len() implies s[k] > x by {
                if k > j {
                    assert(s[j as int] < s[k]);
                }
            }
            lemma_insert_sorted_at(s, x, j as int);
        }
        v.insert(j, x);
        proof {
            assert(v@ =~= s.take(j as int) + seq![x] + s.skip(j as int));
        }
    }
}

/// Normalises a raw index list: sorts it, removes duplicates, and drops any
/// index at or above `limit`.
pub fn normalize_indices(raw: &Vec<usize>, limit: usize) -> (r: Vec<usize>)
    ensures
        r@ == normalize_indices_spec(raw@, limit as int),
        strictly_increasing(r@),
        forall|k: int| 0 <= k < r@.len() ==> (r@[k] as int) < limit,
{
    let mut out: Vec<usize> = Vec::new();
    let mut i: usize = 0;
    while i < raw.len()
        invariant
            0 <= i <= raw@.len(),
            out@ == normalize_indices_spec(raw@.take(i as int), limit as int),
            strictly_increasing(out@),
            forall|k: int| 0 <= k < out@.len() ==> (out@[k] as int) < limit,
        decreases raw.len() - i,
    {
        let x = raw[i];
        proof {
            assert(raw@.take(i + 1).drop_last() =~= raw@.take(i as int));
            assert(raw@.take(i + 1).last() == raw@[i as int]);
        }
        if x < limit {
            insert_index_sorted(&mut out, x);
            proof {
                lemma_normalize_props(raw@.take(i + 1), limit as int);
            }
        }
        i = i + 1;
    }
    proof {
        assert(raw@.take(raw@.len() as int) =~= raw@);
    }
    out
}

/// Integer view of a vector of index pairs.
pub open spec fn pairs_view(s: Seq<(usize, usize)>) -> Seq<(int, int)> {
    s.map_values(|p: (usize, usize)| (p.0 as int, p.1 as int))
}

/// Maximal runs of consecutive indices, as half-open character ranges.
pub open spec fn char_ranges_spec(s: Seq<usize>) -> Seq<(int, int)>
    decreases s.len(),
{
    if s.len() == 0 {
        Seq::empty()
    } else {
        let prev = char_ranges_spec(s.drop_last());
        let x = s.last() as int;
        if prev.len() > 0 && prev.last().1 == x {
            prev.update(prev.len() - 1, (prev.last().0, x + 1))
        } else {
            prev.push((x, x + 1))
        }
    }
}

/// Shape of the merged character ranges of a strictly ascending index list
/// bounded by `limit`: non-empty ranges in strictly ascending order, ending
/// no later than `limit`.
pub proof fn lemma_char_ranges_shape(s: Seq<usize>, limit: int)
    requires
        strictly_increasing(s),
        forall|k: int| 0 <= k < s.len() ==> (s[k] as int) < limit,
    ensures
        forall|k: int|
            0 <= k < char_ranges_spec(s).len() ==> 0 <= #[trigger] char_ranges_spec(s)[k].0
                < char_ranges_spec(s)[k].1 <= limit,
        forall|k: int|
            0 <= k < char_ranges_spec(s).len() - 1 ==> #[trigger] char_ranges_spec(s)[k].1
                < char_ranges_spec(s)[k + 1].0,
        s.len() > 0 ==> char_ranges_spec(s).len() > 0 && char_ranges_spec(s).last().1 == (
        s.last() as int) + 1,
        s.len() == 0 ==> char_ranges_spec(s).len() == 0,
    decreases s.len(),
{
    if s.len() > 0 {
        let dl = s.drop_last();
        let x = s.last() as int;
        assert(forall|k: int| 0 <= k < dl.len() ==> (dl[k] as int) < limit);
        if dl.len() > 0 {
            assert(dl.last() == s[s.len() - 2]);
            assert((dl.last() as int) < x);
            lemma_char_ranges_shape(dl, (dl.last() as int) + 1);
        } else {
            lemma_char_ranges_shape(dl, limit);
        }
    }
}

/// Byte ranges corresponding to the given character ranges of `text`.
pub open spec fn byte_ranges_spec(text: Seq<char>, cr: Seq<(int, int)>) -> Seq<(int, int)> {
    cr.map_values(|p: (int, int)| (byte_offset_of(text, p.0), byte_offset_of(text, p.1)))
}

/// The byte-offset highlight ranges computed from a raw index list.
pub open spec fn highlight_ranges_spec(text: Seq<char>, raw: Seq<usize>) -> Seq<(int, int)> {
    byte_ranges_spec(
        text,
        char_ranges_spec(normalize_indices_spec(raw, text.len() as int)),
    )
}

/// One byte range whose ends are the byte offsets of two character positions
/// `a < b` of `text`.
pub open spec fn range_at_char_positions(r: (int, int), text: Seq<char>) -> bool {
    exists|a: int, b: int|
        0 <= a < b <= text.len() && r.0 == byte_offset_of(text, a) && r.1 == byte_offset_of(
            text,
            b,
        )
}

/// Well-formed highlight ranges for `text`: every bound is the byte offset of
/// a character position, ranges are non-empty, and they appear in order
/// without overlap.
pub open spec fn ranges_wf(rs: Seq<(int, int)>, text: Seq<char>) -> bool {
    &&& forall|k: int| 0 <= k < rs.len() ==> #[trigger] range_at_char_positions(rs[k], text)
    &&& forall|k: int| 0 <= k < rs.len() - 1 ==> #[trigger] rs[k].1 <= rs[k + 1].0
}

/// Bounds that follow from well-formedness: each range is non-empty and lies
/// inside the UTF-8 encoding of the text.
pub proof fn lemma_ranges_wf_bounds(rs: Seq<(int, int)>, text: Seq<char>)
    requires
        ranges_wf(rs, text),
    ensures
        forall|k: int|
            0 <= k < rs.len() ==> 0 <= #[trigger] rs[k].0 < rs[k].1 <= encode_utf8(text).len(),
{
    assert forall|k: int|
        0 <= k < rs.len() implies 0 <= #[trigger] rs[k].0 < rs[k].1 <= encode_utf8(
        text,
    ).len() by {
        assert(range_at_char_positions(rs[k], text));
        let (a, b) = choose|a: int, b: int|
            0 <= a < b <= text.len() && rs[k].0 == byte_offset_of(text, a) && rs[k].1
                == byte_offset_of(text, b);
        lemma_byte_offset_ends(text);
        lemma_byte_offset_mono(text, 0, a);
        lemma_byte_offset_mono(text, a, b);
        lemma_byte_offset_mono(text, b, text.len() as int);
    }
}

/// Both ends of `r` fall on a character boundary of the UTF-8 encoding of
/// `text`.
pub open spec fn range_on_char_boundaries(r: (int, int), text: Seq<char>) -> bool {
    &&& is_char_boundary(encode_utf8(text), r.0)
    &&& is_char_boundary(encode_utf8(text), r.1)
}

/// Both ends of every well-formed range fall on a character boundary of the
/// UTF-8 encoding of the text.
pub proof fn lemma_ranges_wf_char_boundaries(rs: Seq<(int, int)>, text: Seq<char>)
    requires
        ranges_wf(rs, text),
    ensures
        forall|k: int| 0 <= k < rs.len() ==> #[trigger] range_on_char_boundaries(rs[k], text),
{
    broadcast use vstd::utf8::encode_utf8_valid_utf8;

    assert forall|k: int|
        0 <= k < rs.len() implies #[trigger] range_on_char_boundaries(rs[k], text) by {
        assert(range_at_char_positions(rs[k], text));
        let (a, b) = choose|a: int, b: int|
            0 <= a < b <= text.len() && rs[k].0 == byte_offset_of(text, a) && rs[k].1
                == byte_offset_of(text, b);
        lemma_byte_offset_is_char_boundary(text, a);
        lemma_byte_offset_is_char_boundary(text, b);
        assert(is_char_boundary(encode_utf8(text), rs[k].0));
        assert(is_char_boundary(encode_utf8(text), rs[k].1));
    }
}

/// The highlight ranges computed for any raw index list are well-formed.
pub proof fn lemma_highlight_ranges_wf(text: Seq<char>, raw: Seq<usize>)
    ensures
        ranges_wf(highlight_ranges_spec(text, raw), text),
{
    let idx = normalize_indices_spec(raw, text.len() as int);
    lemma_normalize_props(raw, text.len() as int);
    lemma_char_ranges_shape(idx, text.len() as int);
    let cr = char_ranges_spec(idx);
    let rs = highlight_ranges_spec(text, raw);
    assert forall|k: int|
        0 <= k < rs.len() implies #[trigger] range_at_char_positions(rs[k], text) by {
        let a = cr[k].0;
        let b = cr[k].1;
        assert(0 <= a < b <= text.len());
        assert(rs[k].0 == byte_offset_of(text, a) && rs[k].1 == byte_offset_of(text, b));
    }
    assert forall|k: int| 0 <= k < rs.len() - 1 implies #[trigger] rs[k].1 <= rs[k + 1].0 by {
        assert(0 <= cr[k].0 < cr[k].1 <= text.len());
        assert(0 <= cr[k + 1].0 < cr[k + 1].1 <= text.len());
        lemma_byte_offset_mono(text, cr[k].1, cr[k + 1].0);
    }
}

/// The text reassembled from its segmentation at the given ranges: the bytes
/// before, inside and after each highlight, concatenated in order.
pub open spec fn concat_segments(bytes: Seq<u8>, rs: Seq<(int, int)>, from: int) -> Seq<u8>
    decreases rs.len(),
{
    if rs.len() == 0 {
        bytes.subrange(from, bytes.len() as int)
    } else {
        bytes.subrange(from, rs[0].0) + bytes.subrange(rs[0].0, rs[0].1) + concat_segments(
            bytes,
            rs.drop_first(),
            rs[0].1,
        )
    }
}

proof fn lemma_concat_segments(bytes: Seq<u8>, rs: Seq<(int, int)>, from: int)
    requires
        0 <= from <= bytes.len(),
        forall|k: int| 0 <= k < rs.len() ==> #[trigger] rs[k].0 <= rs[k].1 <= bytes.len(),
        forall|k: int| 0 <= k < rs.len() - 1 ==> #[trigger] rs[k].1 <= rs[k + 1].0,
        rs.len() > 0 ==> from <= rs[0].0,
    ensures
        concat_segments(bytes, rs, from) == bytes.subrange(from, bytes.len() as int),
    decreases rs.len(),
{
    if rs.len() > 0 {
        let rest = rs.drop_first();
        assert(forall|k: int| 0 <= k < rest.len() ==> rest[k] == rs[k + 1]);
        lemma_concat_segments(bytes, rest, rs[0].1);
        assert(concat_segments(bytes, rs, from) =~= bytes.subrange(from, bytes.len() as int));
    }
}

/// Concatenating `text[..start]`, `text[start..end]` and `text[end..]` for
/// every well-formed range in order reproduces the text exactly: highlight
/// segmentation loses no byte and duplicates none.
pub proof fn lemma_highlight_round_trip(rs: Seq<(int, int)>, text: Seq<char>)
    requires
        ranges_wf(rs, text),
    ensures
        concat_segments(encode_utf8(text), rs, 0) == encode_utf8(text),
{
    lemma_ranges_wf_bounds(rs, text);
    let bytes = encode_utf8(text);
    lemma_concat_segments(bytes, rs, 0);
    assert(bytes.subrange(0, bytes.len() as int) =~= bytes);
}

/// Merges a strictly ascending index list into half-open character ranges.
fn merge_char_ranges(idx: &Vec<usize>) -> (r: Vec<(usize, usize)>)
    requires
        strictly_increasing(idx@),
        forall|k: int| 0 <= k < idx@.len() ==> (idx@[k] as int) + 1 <= usize::MAX,
    ensures
        pairs_view(r@) == char_ranges_spec(idx@),
{
    let mut out: Vec<(usize, usize)> = Vec::new();
    let mut i: usize = 0;
    while i < idx.len()
        invariant
            0 <= i <= idx@.len(),
            forall|k: int| 0 <= k < idx@.len() ==> (idx@[k] as int) + 1 <= usize::MAX,
            pairs_view(out@) == char_ranges_spec(idx@.take(i as int)),
        decreases idx.len() - i,
    {
        let x = idx[i];
        proof {
            assert(idx@.take(i + 1).drop_last() =~= idx@.take(i as int));
            assert(idx@.take(i + 1).last() == idx@[i as int]);
        }
        let xs = x;
        if out.len() > 0 && out[out.len() - 1].1 == xs {
            let last = out[out.len() - 1];
            let ghost prev = out@;
            let _ = out.pop();
            out.push((last.0, xs + 1));
            proof {
                assert(out@ =~= prev.update(prev.len() - 1, (last.0, (xs + 1) as usize)));
                assert(pairs_view(out@) =~= char_ranges_spec(idx@.take(i + 1)));
            }
        } else {
            out.push((xs, xs + 1));
            proof {
                assert(pairs_view(out@) =~= char_ranges_spec(idx@.take(i + 1)));
            }
        }
        i = i + 1;
    }
    proof {
        assert(idx@.take(idx@.len() as int) =~= idx@);
    }
    out
}

/// Computes the byte-offset highlight ranges of `text` for a raw character
/// index list, exactly as [`highlight_ranges_spec`] describes them.
pub fn highlight_ranges(text: &str, raw: &Vec<usize>) -> (r: Vec<(usize, usize)>)
    ensures
        pairs_view(r@) == highlight_ranges_spec(text@, raw@),
        ranges_wf(pairs_view(r@), text@),
{
    let limit = text.unicode_len();
    let idx = normalize_indices(raw, limit);
    proof {
        lemma_char_ranges_shape(idx@, limit as int);
    }
    let cr = merge_char_ranges(&idx);
    let offs = char_byte_offsets(text);
    let ghost crs = char_ranges_spec(idx@);
    let mut out: Vec<(usize, usize)> = Vec::new();
    let mut i: usize = 0;
    while i < cr.len()
        invariant
            0 <= i <= cr@.len(),
            pairs_view(cr@) == crs,
            forall|k: int| 0 <= k < crs.len() ==> 0 <= #[trigger] crs[k].0 < crs[k].1 <= text@.len(),
            offs@.len() == text@.len() + 1,
            forall|k: int| 0 <= k <= text@.len() ==> offs@[k] == byte_offset_of(text@, k),
            out@.len() == i,
            forall|k: int|
                0 <= k < i ==> pairs_view(out@)[k] == byte_ranges_spec(text@, crs)[k],
        decreases cr.len() - i,
    {
        let (a, b) = cr[i];
        proof {
            assert(pairs_view(cr@)[i as int] == (cr@[i as int].0 as int, cr@[i as int].1 as int));
            assert(0 <= crs[i as int].0 < crs[i as int].1 <= text@.len());
            assert(offs@[a as int] == byte_offset_of(text@, a as int));
            assert(offs@[b as int] == byte_offset_of(text@, b as int));
            assert(byte_ranges_spec(text@, crs)[i as int] == (
                byte_offset_of(text@, crs[i as int].0),
                byte_offset_of(text@, crs[i as int].1),
            ));
        }
        let ghost prev_out = out@;
        out.push((offs[a], offs[b]));
        proof {
            assert(pairs_view(out@) =~= pairs_view(prev_out).push(
                (out@.last().0 as int, out@.last().1 as int),
            ));
        }
        i = i + 1;
    }
    proof {
        assert(pairs_view(out@) =~= byte_ranges_spec(text@, crs));
        lemma_highlight_ranges_wf(text@, raw@);
    }
    out
}

} // verus!
