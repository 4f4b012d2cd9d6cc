//! Properties of the segmentation as a whole.
use vstd::prelude::*;

use serde_json::Value;

use crate::iter::{
    as_ints, cut_points, next_result, segmentation, BudouxSegmenterIterator,
};
use crate::text::{
    byte_len, byte_offset, lemma_byte_offset_ends, lemma_byte_offset_increasing,
    lemma_char_boundary, lemma_encode_concat,
};
use vstd::utf8::{decode_utf8, encode_utf8, encode_utf8_decode_utf8, is_char_boundary};

verus! {

/// The cut points among the first `k` positions lie in `1 .. k` and increase.
proof fn lemma_cut_points_shape(
    model: Map<Seq<char>, Value>,
    threshold: int,
    text: Seq<char>,
    k: nat,
)
    ensures
        forall|i: int|
            0 <= i < cut_points(model, threshold, text, k).len() ==> 1 <= #[trigger] cut_points(
                model,
                threshold,
                text,
                k,
            )[i] < k,
        forall|i: int, j: int|
            0 <= i < j < cut_points(model, threshold, text, k).len() ==> cut_points(
                model,
                threshold,
                text,
                k,
            )[i] < cut_points(model, threshold, text, k)[j],
    decreases k,
{
    if k > 0 {
        lemma_cut_points_shape(model, threshold, text, (k - 1) as nat);
        let before = cut_points(model, threshold, text, (k - 1) as nat);
        let now = cut_points(model, threshold, text, k);
        assert(now == before || now == before.push(k - 1));
    }
}

/// Two calls of `segment_all` on one text, with one model and threshold,
/// return the same offsets: two results that both are the segmentation of
/// the text are equal.
pub proof fn lemma_deterministic(
    model: Map<Seq<char>, Value>,
    threshold: int,
    text: Seq<char>,
    first: Seq<usize>,
    second: Seq<usize>,
)
    requires
        as_ints(first) == segmentation(model, threshold, text),
        as_ints(second) == segmentation(model, threshold, text),
    ensures
        first == second,
{
    assert(as_ints(first).len() == first.len());
    assert(as_ints(second).len() == second.len());
    assert forall|i: int| 0 <= i < first.len() implies first[i] == second[i] by {
        assert(as_ints(first)[i] == first[i] as int);
        assert(as_ints(second)[i] == second[i] as int);
    }
    assert(first =~= second);
}

/// The offsets increase strictly, and each lies strictly between zero and
/// the byte length of the text: no phrase begins at the start of the text or
/// at its end.
pub proof fn lemma_offsets_increasing(
    model: Map<Seq<char>, Value>,
    threshold: int,
    text: Seq<char>,
)
    ensures
        forall|i: int, j: int|
            0 <= i < j < segmentation(model, threshold, text).len() ==> segmentation(
                model,
                threshold,
                text,
            )[i] < segmentation(model, threshold, text)[j],
        forall|i: int|
            0 <= i < segmentation(model, threshold, text).len() ==> 0 < #[trigger] segmentation(
                model,
                threshold,
                text,
            )[i] < byte_len(text),
{
    let cuts = cut_points(model, threshold, text, text.len());
    let seg = segmentation(model, threshold, text);
    lemma_cut_points_shape(model, threshold, text, text.len());
    lemma_byte_offset_ends(text);
    assert forall|i: int, j: int| 0 <= i < j < seg.len() implies seg[i] < seg[j] by {
        lemma_byte_offset_increasing(text, cuts[i], cuts[j]);
    }
    assert forall|i: int| 0 <= i < seg.len() implies 0 < #[trigger] seg[i] < byte_len(text) by {
        lemma_byte_offset_increasing(text, 0, cuts[i]);
        lemma_byte_offset_increasing(text, cuts[i], text.len() as int);
    }
}

/// The produced counts and the unchanged model of a drained scan.
proof fn lemma_drain_steps(
    scans: Seq<BudouxSegmenterIterator>,
    results: Seq<Option<usize>>,
    i: int,
)
    requires
        scans.len() == results.len() + 1,
        scans[0].produced() == 0,
        forall|j: int| 0 <= j < results.len() ==> next_result(scans[j], #[trigger] scans[j + 1], results[j]),
        forall|j: int| 0 <= j < results.len() - 1 ==> #[trigger] results[j] is Some,
        0 <= i < results.len(),
    ensures
        scans[i].produced() == i,
        scans[i].text() == scans[0].text(),
        scans[i].weights() == scans[0].weights(),
        scans[i].threshold() == scans[0].threshold(),
        forall|j: int|
            0 <= j < i ==> #[trigger] results[j] is Some && results[j]->0 as int == segmentation(
                scans[0].weights(),
                scans[0].threshold(),
                scans[0].text(),
            )[j],
    decreases i,
{
    if i > 0 {
        lemma_drain_steps(scans, results, i - 1);
        let j = i - 1;
        assert(next_result(scans[j], scans[j + 1], results[j]));
        assert(results[j] is Some);
    }
}

/// Draining a scan yields what `segment_all` returns. Where `scans[0]` is a
/// scan that has returned nothing yet, each `scans[i + 1]` is what `next`
/// leaves after `scans[i]` when it returns `results[i]`, and only the last
/// call returns `None`, the offsets returned are the segmentation of the
/// text, in order.
pub proof fn lemma_drain_matches_eager(
    scans: Seq<BudouxSegmenterIterator>,
    results: Seq<Option<usize>>,
)
    requires
        scans.len() == results.len() + 1,
        scans[0].produced() == 0,
        forall|j: int| 0 <= j < results.len() ==> next_result(scans[j], #[trigger] scans[j + 1], results[j]),
        results.len() > 0,
        results.last() is None,
        forall|j: int| 0 <= j < results.len() - 1 ==> #[trigger] results[j] is Some,
    ensures
        results.drop_last().map_values(|r: Option<usize>| r->0 as int) == segmentation(
            scans[0].weights(),
            scans[0].threshold(),
            scans[0].text(),
        ),
{
    let last = results.len() - 1;
    let seg = segmentation(scans[0].weights(), scans[0].threshold(), scans[0].text());
    lemma_drain_steps(scans, results, last);
    assert(next_result(scans[last], scans[last + 1], results[last]));
    assert(seg.len() == last);
    assert(results.drop_last().map_values(|r: Option<usize>| r->0 as int) =~= seg);
}

/// What slicing the string `text` between byte offsets `lo` and `hi` gives.
pub open spec fn byte_slice(text: Seq<char>, lo: int, hi: int) -> Seq<char> {
    decode_utf8(encode_utf8(text).subrange(lo, hi))
}

/// The pieces of `text` that end at each of the first `m` of `offsets`, each
/// starting at the offset before it or at the start, concatenated.
pub open spec fn pieces_before(text: Seq<char>, offsets: Seq<int>, m: int) -> Seq<char>
    decreases m,
{
    if m <= 0 {
        seq![]
    } else {
        pieces_before(text, offsets, m - 1) + byte_slice(
            text,
            if m == 1 {
                0
            } else {
                offsets[m - 2]
            },
            offsets[m - 1],
        )
    }
}

/// `text` cut at `offsets`, the pieces concatenated again.
pub open spec fn rejoin(text: Seq<char>, offsets: Seq<int>) -> Seq<char> {
    pieces_before(text, offsets, offsets.len() as int) + byte_slice(
        text,
        if offsets.len() == 0 {
            0
        } else {
            offsets.last()
        },
        byte_len(text),
    )
}

/// The bytes between the offsets of characters `a` and `b` decode to those
/// characters.
proof fn lemma_byte_slice(text: Seq<char>, a: int, b: int)
    requires
        0 <= a <= b <= text.len(),
    ensures
        byte_slice(text, byte_offset(text, a), byte_offset(text, b)) == text.subrange(a, b),
{
    let head = text.take(a);
    let middle = text.subrange(a, b);
    let tail = text.skip(b);
    assert(text =~= head + middle + tail);
    assert(text.take(b) =~= head + middle);
    lemma_encode_concat(head, middle);
    lemma_encode_concat(head + middle, tail);
    assert(encode_utf8(text).subrange(byte_offset(text, a), byte_offset(text, b)) =~= encode_utf8(
        middle,
    ));
    encode_utf8_decode_utf8(middle);
}

/// The pieces up to the `m`-th cut point make up the text before it.
proof fn lemma_pieces_before(
    model: Map<Seq<char>, Value>,
    threshold: int,
    text: Seq<char>,
    m: int,
)
    requires
        0 < m <= cut_points(model, threshold, text, text.len()).len(),
    ensures
        pieces_before(text, segmentation(model, threshold, text), m) == text.take(
            cut_points(model, threshold, text, text.len())[m - 1],
        ),
    decreases m,
{
    let cuts = cut_points(model, threshold, text, text.len());
    let seg = segmentation(model, threshold, text);
    lemma_cut_points_shape(model, threshold, text, text.len());
    lemma_byte_offset_ends(text);
    if m == 1 {
        lemma_byte_slice(text, 0, cuts[0]);
        assert(text.subrange(0, cuts[0]) =~= text.take(cuts[0]));
        assert(pieces_before(text, seg, 0) =~= Seq::<char>::empty());
        assert(pieces_before(text, seg, 1) =~= text.take(cuts[0]));
    } else {
        lemma_pieces_before(model, threshold, text, m - 1);
        lemma_byte_slice(text, cuts[m - 2], cuts[m - 1]);
        assert(text.take(cuts[m - 2]) + text.subrange(cuts[m - 2], cuts[m - 1]) =~= text.take(
            cuts[m - 1],
        ));
    }
}

/// Slicing the text at its offsets and concatenating the pieces gives back
/// the text, and every offset is a character boundary, where slicing a
/// string is allowed.
pub proof fn lemma_round_trip(model: Map<Seq<char>, Value>, threshold: int, text: Seq<char>)
    ensures
        forall|i: int|
            0 <= i < segmentation(model, threshold, text).len() ==> is_char_boundary(
                encode_utf8(text),
                #[trigger] segmentation(model, threshold, text)[i],
            ),
        rejoin(text, segmentation(model, threshold, text)) == text,
{
    let cuts = cut_points(model, threshold, text, text.len());
    let seg = segmentation(model, threshold, text);
    lemma_cut_points_shape(model, threshold, text, text.len());
    lemma_byte_offset_ends(text);
    assert forall|i: int| 0 <= i < seg.len() implies is_char_boundary(
        encode_utf8(text),
        #[trigger] seg[i],
    ) by {
        lemma_char_boundary(text, cuts[i]);
    }
    if seg.len() == 0 {
        lemma_byte_slice(text, 0, text.len() as int);
        assert(text.subrange(0, text.len() as int) =~= text);
        assert(rejoin(text, seg) =~= text);
    } else {
        let m = seg.len() as int;
        lemma_pieces_before(model, threshold, text, m);
        lemma_byte_slice(text, cuts[m - 1], text.len() as int);
        assert(text.take(cuts[m - 1]) + text.subrange(cuts[m - 1], text.len() as int) =~= text);
    }
}

} // verus!
