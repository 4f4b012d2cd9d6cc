//! The scorer: a model bound to a threshold, and the score of a window.
use vstd::prelude::*;

use serde_json::Value;

use crate::iter::{segmentation, BudouxSegmenterIterator};
use crate::features::{extract, feature_keys, key_views, Window, FEATURE_COUNT};
use crate::model::{entries, lookup, weight};

verus! {

/// The sum of the weights of `keys`.
pub open spec fn total_weight(model: Map<Seq<char>, Value>, keys: Seq<Seq<char>>) -> int
    decreases keys.len(),
{
    if keys.len() == 0 {
        0
    } else {
        total_weight(model, keys.drop_last()) + weight(model, keys.last())
    }
}

/// The score of window `w`: the sum of the weights of its features.
pub open spec fn window_score(model: Map<Seq<char>, Value>, w: Window) -> int {
    total_weight(model, feature_keys(w, FEATURE_COUNT as int))
}

/// The threshold that the published trained models are calibrated for.
pub const DEFAULT_THRESHOLD: i64 = 1000;

/// A model bound to the threshold that a score must exceed to open a phrase.
#[derive(Clone, Copy)]
pub struct BudouxParser<'a> {
    model: &'a serde_json::Map<String, Value>,
    threshold: i64,
}

impl<'a> BudouxParser<'a> {
    /// The weights of the model, by feature key.
    pub closed spec fn weights(&self) -> Map<Seq<char>, Value> {
        entries(*self.model)
    }

    /// The threshold that a score must exceed to open a phrase.
    pub closed spec fn threshold(&self) -> int {
        self.threshold as int
    }

    /// Binds `model` to `threshold`.
    pub fn new(model: &'a serde_json::Map<String, Value>, threshold: i64) -> (r: Self)
        ensures
            r.weights() == entries(*model),
            r.threshold() == threshold,
    {
        BudouxParser { model, threshold }
    }

    /// Binds `model` to the default threshold. A model that
    /// has been parsed is always accepted.
    pub fn try_new_with_model(model: &'a serde_json::Map<String, Value>) -> (r: Result<
        Self,
        &'static str,
    >)
        ensures
            r is Ok,
            r->Ok_0.weights() == entries(*model),
            r->Ok_0.threshold() == DEFAULT_THRESHOLD,
    {
        Ok(Self::new(model, DEFAULT_THRESHOLD))
    }

    /// The threshold that a score must exceed to open a phrase.
    pub fn get_threshold(&self) -> (r: i64)
        ensures
            r == self.threshold(),
    {
        self.threshold
    }

    /// The offset at which the second phrase of `sentence` begins; `None`
    /// where the whole sentence is one phrase.
    pub fn parse_one(&self, sentence: &str) -> (r: Option<usize>)
        ensures
            ({
                let seg = segmentation(self.weights(), self.threshold(), sentence@);
                &&& r is Some <==> seg.len() > 0
                &&& r is Some ==> r->0 == seg[0]
            }),
    {
        let mut scan = BudouxSegmenterIterator::start(*self, sentence);
        scan.next()
    }

    /// The sum of the weights of `features`; a key that the model lacks
    /// weighs zero.
    pub fn score(&self, features: &Vec<String>) -> (r: i128)
        ensures
            r == total_weight(self.weights(), key_views(features@)),
    {
        let mut total: i128 = 0;
        let mut i: usize = 0;
        while i < features.len()
            invariant
                i <= features.len(),
                total == total_weight(self.weights(), key_views(features@.take(i as int))),
                -(i as int) * 0x8000_0000_0000_0000 <= total <= (i as int) * 0x8000_0000_0000_0000,
            decreases features.len() - i,
        {
            let contribution = lookup(self.model, &features[i]);
            proof {
                let keys = key_views(features@.take(i as int + 1));
                assert(keys.drop_last() =~= key_views(features@.take(i as int)));
                assert((i as int + 1) * 0x8000_0000_0000_0000 <= i128::MAX);
            }
            total = total + contribution as i128;
            i = i + 1;
        }
        assert(features@.take(features.len() as int) =~= features@);
        total
    }

    /// The score of window `w`.
    pub fn score_window(&self, w: &Window) -> (r: i128)
        ensures
            r == window_score(self.weights(), *w),
    {
        self.score(&extract(w))
    }
}

} // verus!
