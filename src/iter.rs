//! The segmentation state machine and the segmenter built on it.
//!
//! Position `k` of a text is decided from the window whose fourth slot holds
//! character `k`: a score above the threshold means that a phrase begins
//! before that character. The first position never opens a phrase, since no
//! phrase lies before it. The scan pulls each character once, two positions
//! ahead of the one being decided, and yields UTF-8 byte offsets.
use vstd::prelude::*;

use serde_json::Value;

use crate::features::{Parity, Window};
use crate::model::entries;
use crate::parser::{window_score, BudouxParser, DEFAULT_THRESHOLD};
use crate::text::{
    byte_len, byte_offset, char_width, lemma_byte_offset_ends, lemma_byte_offset_increasing,
    lemma_byte_offset_step, lemma_char_boundary, lemma_encode_suffix,
};
use vstd::string::StringSliceAdditionalSpecFns;
use vstd::utf8::{encode_utf8, encode_utf8_decode_utf8};

verus! {

/// The decision that a score stands for.
pub open spec fn parity_of(score: int) -> Parity {
    if score > 0 {
        Parity::Boundary
    } else {
        Parity::NoBoundary
    }
}

/// The decision taken at position `i`, given the scores of the positions
/// before; `Unknown` before the start of the text.
pub open spec fn decision(scores: Seq<int>, i: int) -> Parity {
    if 0 <= i < scores.len() {
        parity_of(scores[i])
    } else {
        Parity::Unknown
    }
}

/// Character `i` of `text`, or `None` outside it.
pub open spec fn slot(text: Seq<char>, i: int) -> Option<char> {
    if 0 <= i < text.len() {
        Some(text[i])
    } else {
        None
    }
}

/// The window at position `k` of `text`, where `scores` holds the scores of
/// the positions before `k`.
pub open spec fn window_at(text: Seq<char>, k: int, scores: Seq<int>) -> Window {
    Window {
        parities: [decision(scores, k - 3), decision(scores, k - 2), decision(scores, k - 1)],
        chars: [
            slot(text, k - 3),
            slot(text, k - 2),
            slot(text, k - 1),
            slot(text, k),
            slot(text, k + 1),
            slot(text, k + 2),
        ],
    }
}

/// The scores of positions `0 .. k` of `text`. Each depends on the decisions
/// taken at the three positions before it.
pub open spec fn scores(model: Map<Seq<char>, Value>, text: Seq<char>, k: nat) -> Seq<int>
    decreases k,
{
    if k == 0 {
        seq![]
    } else {
        let before = scores(model, text, (k - 1) as nat);
        before.push(window_score(model, window_at(text, k - 1, before)))
    }
}

/// The positions among `0 .. k` before which a phrase begins: those after the
/// first whose score exceeds `threshold`, in increasing order.
pub open spec fn cut_points(
    model: Map<Seq<char>, Value>,
    threshold: int,
    text: Seq<char>,
    k: nat,
) -> Seq<int>
    decreases k,
{
    if k == 0 {
        seq![]
    } else {
        let before = cut_points(model, threshold, text, (k - 1) as nat);
        if k - 1 >= 1 && scores(model, text, k)[k - 1] > threshold {
            before.push(k - 1)
        } else {
            before
        }
    }
}

/// The byte offsets at which the phrases of `text` after the first begin.
pub open spec fn segmentation(model: Map<Seq<char>, Value>, threshold: int, text: Seq<char>) -> Seq<
    int,
> {
    cut_points(model, threshold, text, text.len()).map_values(|k: int| byte_offset(text, k))
}

pub proof fn lemma_scores_len(model: Map<Seq<char>, Value>, text: Seq<char>, k: nat)
    ensures
        scores(model, text, k).len() == k,
    decreases k,
{
    if k > 0 {
        lemma_scores_len(model, text, (k - 1) as nat);
    }
}

/// The cut points among the first `a` positions are the first ones among the
/// first `b`, and each lies in `1 .. a`.
pub proof fn lemma_cut_points_prefix(
    model: Map<Seq<char>, Value>,
    threshold: int,
    text: Seq<char>,
    a: nat,
    b: nat,
)
    requires
        a <= b,
    ensures
        cut_points(model, threshold, text, a).len() <= cut_points(model, threshold, text, b).len(),
        cut_points(model, threshold, text, b).take(
            cut_points(model, threshold, text, a).len() as int,
        ) == cut_points(model, threshold, text, a),
    decreases b,
{
    if a < b {
        lemma_cut_points_prefix(model, threshold, text, a, (b - 1) as nat);
        let ca = cut_points(model, threshold, text, a);
        let cb = cut_points(model, threshold, text, b);
        let cp = cut_points(model, threshold, text, (b - 1) as nat);
        assert(cb.take(ca.len() as int) =~= cp.take(ca.len() as int));
    } else {
        let ca = cut_points(model, threshold, text, a);
        assert(ca.take(ca.len() as int) =~= ca);
    }
}

/// How many characters of `text` have been pulled from the character stream
/// once `k` positions have been decided: two ahead of the position, at most
/// the whole text.
pub open spec fn pulled(text: Seq<char>, k: int) -> int {
    if k + 2 < text.len() {
        k + 2
    } else {
        text.len() as int
    }
}

/// Offsets as integers.
pub open spec fn as_ints(offsets: Seq<usize>) -> Seq<int> {
    offsets.map_values(|o: usize| o as int)
}

/// What a call of `next` on scan `before` returns and leaves as `after`: the
/// offset that follows the ones already returned, or `None` once all of them
/// have been returned.
pub open spec fn next_result(
    before: BudouxSegmenterIterator,
    after: BudouxSegmenterIterator,
    r: Option<usize>,
) -> bool {
    let seg = segmentation(before.weights(), before.threshold(), before.text());
    let i = before.produced();
    &&& after.wf()
    &&& after.text() == before.text()
    &&& after.weights() == before.weights()
    &&& after.threshold() == before.threshold()
    &&& i <= seg.len()
    &&& r is Some <==> i < seg.len()
    &&& r is Some ==> r->0 == seg[i as int]
    &&& after.produced() == if r is Some {
        i + 1
    } else {
        i
    }
}

/// A lazy run of the segmentation over one text: each call of `next` scans
/// on to the next phrase boundary.
pub struct BudouxSegmenterIterator<'a> {
    parser: BudouxParser<'a>,
    input: &'a str,
    size: usize,
    pull_offset: usize,
    parities: [Parity; 3],
    recent: [Option<char>; 5],
    offset: usize,
    step: Ghost<nat>,
}

impl<'a> BudouxSegmenterIterator<'a> {
    /// The text being segmented.
    pub closed spec fn text(&self) -> Seq<char> {
        self.input@
    }

    /// The weights of the model.
    pub closed spec fn weights(&self) -> Map<Seq<char>, Value> {
        self.parser.weights()
    }

    /// The threshold that a score must exceed to open a phrase.
    pub closed spec fn threshold(&self) -> int {
        self.parser.threshold()
    }

    /// How many positions have been decided.
    pub closed spec fn steps(&self) -> nat {
        self.step@
    }

    /// How many offsets have been returned.
    pub closed spec fn produced(&self) -> nat {
        cut_points(self.weights(), self.threshold(), self.text(), self.steps()).len()
    }

    /// The saved state is the one that the scan reaches after `steps()`
    /// positions.
    pub closed spec fn wf(&self) -> bool {
        let text = self.input@;
        let k = self.step@ as int;
        let sc = scores(self.weights(), text, self.step@);
        &&& k <= text.len()
        &&& self.size == byte_len(text)
        &&& self.offset == byte_offset(text, k)
        &&& self.pull_offset == byte_offset(text, pulled(text, k))
        &&& self.parities[0] == decision(sc, k - 3)
        &&& self.parities[1] == decision(sc, k - 2)
        &&& self.parities[2] == decision(sc, k - 1)
        &&& self.recent[0] == slot(text, k - 3)
        &&& self.recent[1] == slot(text, k - 2)
        &&& self.recent[2] == slot(text, k - 1)
        &&& self.recent[3] == slot(text, k)
        &&& self.recent[4] == slot(text, k + 1)
    }

    /// Character `j` of the text, read from its byte offset, where `j` is the
    /// number of characters pulled so far.
    fn char_from(input: &str, size: usize, pull_offset: usize, j: Ghost<int>) -> (r: Option<char>)
        requires
            0 <= j@ <= input@.len(),
            size == byte_len(input@),
            pull_offset == byte_offset(input@, j@),
        ensures
            r == slot(input@, j@),
    {
        proof {
            lemma_char_boundary(input@, j@);
            lemma_encode_suffix(input@, j@);
            lemma_byte_offset_ends(input@);
            if j@ < input@.len() {
                lemma_byte_offset_increasing(input@, j@, input@.len() as int);
            }
        }
        let (_, rest) = input.split_at(pull_offset);
        assert(rest@ == input@.skip(j@)) by {
            assert(rest.spec_bytes() == encode_utf8(input@.skip(j@)));
            encode_utf8_decode_utf8(rest@);
        }
        let mut chars = rest.chars();
        chars.next()
    }

    /// A scan of `input` that has decided nothing yet.
    pub(crate) fn start(parser: BudouxParser<'a>, input: &'a str) -> (r: Self)
        ensures
            r.wf(),
            r.text() == input@,
            r.weights() == parser.weights(),
            r.threshold() == parser.threshold(),
            r.steps() == 0,
            r.produced() == 0,
    {
        let size: usize = input.as_bytes().len();
        proof {
            lemma_byte_offset_ends(input@);
        }
        let first = Self::char_from(input, size, 0, Ghost(0));
        let mut pull_offset: usize = 0;
        if let Some(c) = first {
            proof {
                lemma_byte_offset_step(input@, 0);
                if 1 < input@.len() {
                    lemma_byte_offset_increasing(input@, 1, input@.len() as int);
                }
            }
            pull_offset = char_width(c);
            let second = Self::char_from(input, size, pull_offset, Ghost(1));
            if let Some(d) = second {
                proof {
                    lemma_byte_offset_step(input@, 1);
                }
                pull_offset = pull_offset + char_width(d);
            }
            BudouxSegmenterIterator {
                parser,
                input,
                size,
                pull_offset,
                parities: [Parity::Unknown, Parity::Unknown, Parity::Unknown],
                recent: [None, None, None, first, second],
                offset: 0,
                step: Ghost(0),
            }
        } else {
            BudouxSegmenterIterator {
                parser,
                input,
                size,
                pull_offset,
                parities: [Parity::Unknown, Parity::Unknown, Parity::Unknown],
                recent: [None, None, None, None, None],
                offset: 0,
                step: Ghost(0),
            }
        }
    }

    /// Decides the next position: pulls the character two ahead of it,
    /// scores the window, and shifts the window on by one character. Returns
    /// the offset of the position where its score opens a phrase.
    fn advance(&mut self) -> (r: Option<usize>)
        requires
            old(self).wf(),
            old(self).steps() < old(self).text().len(),
        ensures
            final(self).wf(),
            final(self).text() == old(self).text(),
            final(self).weights() == old(self).weights(),
            final(self).threshold() == old(self).threshold(),
            final(self).steps() == old(self).steps() + 1,
            cut_points(final(self).weights(), final(self).threshold(), final(self).text(), final(self).steps())
                == (if r is Some {
                cut_points(old(self).weights(), old(self).threshold(), old(self).text(), old(self).steps()).push(old(self).steps() as int)
            } else {
                cut_points(old(self).weights(), old(self).threshold(), old(self).text(), old(self).steps())
            }),
            r is Some ==> r->0 == byte_offset(old(self).text(), old(self).steps() as int),
    {
        let ghost text = self.input@;
        let ghost k = self.step@ as int;
        let ghost before = scores(self.weights(), text, self.step@);
        let next = Self::char_from(self.input, self.size, self.pull_offset, Ghost(pulled(text, k)));
        assert(next == slot(text, k + 2));
        if let Some(c) = next {
            proof {
                lemma_byte_offset_step(text, k + 2);
                if k + 3 < text.len() {
                    lemma_byte_offset_increasing(text, k + 3, text.len() as int);
                }
                lemma_byte_offset_ends(text);
            }
            self.pull_offset = self.pull_offset + char_width(c);
        }
        let w = Window {
            parities: self.parities,
            chars: [self.recent[0], self.recent[1], self.recent[2], self.recent[3], self.recent[4], next],
        };
        assert(w.parities =~= window_at(text, k, before).parities);
        assert(w.chars =~= window_at(text, k, before).chars);
        let score = self.parser.score_window(&w);
        let p = if score > 0 {
            Parity::Boundary
        } else {
            Parity::NoBoundary
        };
        let start = self.offset;
        let current = match self.recent[3] {
            Some(c) => c,
            None => {
                assert(false);
                ' '
            },
        };
        proof {
            lemma_byte_offset_step(text, k);
            if k + 1 < text.len() {
                lemma_byte_offset_increasing(text, k + 1, text.len() as int);
            }
            lemma_byte_offset_ends(text);
            if k > 0 {
                lemma_byte_offset_increasing(text, 0, k);
            }
            lemma_scores_len(self.weights(), text, self.step@);
        }
        self.offset = start + char_width(current);
        self.parities = [self.parities[1], self.parities[2], p];
        self.recent = [self.recent[1], self.recent[2], self.recent[3], self.recent[4], next];
        self.step = Ghost((self.step@ + 1) as nat);
        proof {
            let after = scores(self.weights(), text, self.step@);
            assert(after == before.push(score as int));
        }
        if score > self.parser.get_threshold() as i128 && start > 0 {
            Some(start)
        } else {
            None
        }
    }
    /// Whether every position has been decided.
    fn is_exhausted(&self) -> (r: bool)
        requires
            self.wf(),
        ensures
            r == (self.steps() == self.text().len()),
    {
        self.recent[3].is_none()
    }

    /// Starts a scan of `input` with `model` and the default threshold. A
    /// scan can always be started.
    pub fn try_new(model: &'a serde_json::Map<String, Value>, input: &'a str) -> (r: Option<Self>)
        ensures
            r is Some,
            r->0.wf(),
            r->0.text() == input@,
            r->0.weights() == entries(*model),
            r->0.threshold() == DEFAULT_THRESHOLD,
            r->0.produced() == 0,
    {
        let parser = BudouxParser::new(model, DEFAULT_THRESHOLD);
        Some(Self::start(parser, input))
    }

    /// The offset at which the next phrase begins, scanning on from the last
    /// one returned; `None` once the text is exhausted, and from then on.
    pub fn next(&mut self) -> (r: Option<usize>)
        requires
            old(self).wf(),
        ensures
            next_result(*old(self), *final(self), r),
    {
        let ghost weights = self.weights();
        let ghost threshold = self.threshold();
        let ghost text = self.text();
        let ghost n = text.len();
        let ghost done = cut_points(weights, threshold, text, self.steps());
        proof {
            lemma_cut_points_prefix(weights, threshold, text, self.steps(), n);
        }
        loop
            invariant
                self.wf(),
                self.text() == text,
                self.weights() == weights,
                self.threshold() == threshold,
                text == old(self).text(),
                weights == old(self).weights(),
                threshold == old(self).threshold(),
                done == cut_points(weights, threshold, text, old(self).steps()),
                n == text.len(),
                cut_points(weights, threshold, text, self.steps()) == done,
                done.len() <= cut_points(weights, threshold, text, n).len(),
            decreases n - self.steps(),
        {
            if self.is_exhausted() {
                return None;
            }
            let r = self.advance();
            if let Some(o) = r {
                proof {
                    lemma_cut_points_prefix(weights, threshold, text, self.steps(), n);
                    let all = cut_points(weights, threshold, text, n);
                    assert(all[done.len() as int] == cut_points(weights, threshold, text, self.steps())[done.len() as int]);
                }
                return Some(o);
            }
        }
    }
}

/// A model bound to a threshold, ready to segment texts.
pub struct BudouxSegmenter<'a> {
    parser: BudouxParser<'a>,
}

impl<'a> BudouxSegmenter<'a> {
    /// The weights of the model.
    pub closed spec fn weights(&self) -> Map<Seq<char>, Value> {
        self.parser.weights()
    }

    /// The threshold that a score must exceed to open a phrase.
    pub closed spec fn threshold(&self) -> int {
        self.parser.threshold()
    }

    /// A segmenter for `model` that opens a phrase where a score exceeds
    /// `threshold`.
    pub fn new(model: &'a serde_json::Map<String, Value>, threshold: i64) -> (r: Self)
        ensures
            r.weights() == entries(*model),
            r.threshold() == threshold,
    {
        BudouxSegmenter { parser: BudouxParser::new(model, threshold) }
    }

    /// A segmenter for `model` with the default threshold. A model that has
    /// been parsed is always accepted.
    pub fn try_new_with_model(model: &'a serde_json::Map<String, Value>) -> (r: Result<
        Self,
        &'static str,
    >)
        ensures
            r is Ok,
            r->Ok_0.weights() == entries(*model),
            r->Ok_0.threshold() == DEFAULT_THRESHOLD,
    {
        Ok(Self::new(model, DEFAULT_THRESHOLD))
    }

    /// A lazy scan of `input` that yields the offsets of its phrases one by
    /// one.
    pub fn segment_str(&'a self, input: &'a str) -> (r: BudouxSegmenterIterator<'a>)
        ensures
            r.wf(),
            r.text() == input@,
            r.weights() == self.weights(),
            r.threshold() == self.threshold(),
            r.produced() == 0,
    {
        BudouxSegmenterIterator::start(self.parser, input)
    }

    /// The offsets at which the phrases of `input` after the first begin, in
    /// increasing order, found in one pass.
    pub fn segment_all(&self, input: &str) -> (r: Vec<usize>)
        ensures
            as_ints(r@) == segmentation(
                self.weights(),
                self.threshold(),
                input@,
            ),
    {
        let ghost text = input@;
        let ghost weights = self.weights();
        let ghost threshold = self.threshold();
        let mut scan = BudouxSegmenterIterator::start(self.parser, input);
        let mut offsets: Vec<usize> = Vec::new();
        while !scan.is_exhausted()
            invariant
                scan.wf(),
                scan.text() == text,
                scan.weights() == weights,
                scan.threshold() == threshold,
                as_ints(offsets@) == cut_points(
                    weights,
                    threshold,
                    text,
                    scan.steps(),
                ).map_values(|k: int| byte_offset(text, k)),
            decreases text.len() - scan.steps(),
        {
            let ghost before = offsets@;
            let ghost k = scan.steps();
            let ghost cuts = cut_points(weights, threshold, text, k);
            if let Some(o) = scan.advance() {
                offsets.push(o);
                assert(offsets@ =~= before.push(o));
                assert(as_ints(before.push(o)) =~= as_ints(before).push(o as int));
                assert(cuts.push(k as int).map_values(|k: int| byte_offset(text, k)) =~= cuts.map_values(
                    |k: int| byte_offset(text, k),
                ).push(byte_offset(text, k as int)));
                assert(as_ints(offsets@) =~= cut_points(
                    weights,
                    threshold,
                    text,
                    scan.steps(),
                ).map_values(|k: int| byte_offset(text, k)));
            }
        }
        offsets
    }
}

} // verus!
