//! The window around a position and the feature keys computed from it.
use vstd::prelude::*;

use crate::block::{block_index, classify, digit, digit_char, BLOCK_COUNT};

verus! {

/// The decision taken at an earlier position.
#[derive(Clone, Copy, PartialEq, Eq, Structural)]
pub enum Parity {
    /// No decision exists: the position lies before the start of the text.
    Unknown,
    /// The score was positive.
    Boundary,
    /// The score was zero or negative.
    NoBoundary,
}

/// The letter that stands for a decision in feature keys.
pub open spec fn letter(p: Parity) -> char {
    match p {
        Parity::Unknown => 'U',
        Parity::Boundary => 'B',
        Parity::NoBoundary => 'O',
    }
}

/// What the scorer sees at one position: the decisions of the three
/// positions before it, oldest first, and six characters, from three before
/// the position to two after it. A character slot that falls outside the
/// text holds `None`. Explicit `None` slots keep a literal U+FFFD in the text
/// apart from the edges of the text.
#[derive(Clone, Copy)]
pub struct Window {
    pub parities: [Parity; 3],
    pub chars: [Option<char>; 6],
}

/// The layout of one feature: which decisions and which character slots its
/// value is made of, and whether the slots stand for their characters or for
/// the block indices of their characters.
#[derive(Clone, Copy)]
pub struct Feature {
    pub name: [char; 3],
    pub parity_start: u8,
    pub parity_len: u8,
    pub blocks: bool,
    pub slot_start: u8,
    pub slot_len: u8,
}

/// The number of features.
pub const FEATURE_COUNT: usize = 42;

/// Feature `a b j`, built from `parity_len` decisions from `parity_start`
/// and `slot_len` character slots from `slot_start` (indices from zero).
pub open spec fn layout(
    a: char,
    b: char,
    j: int,
    parity_start: int,
    parity_len: int,
    blocks: bool,
    slot_start: int,
    slot_len: int,
) -> Feature {
    Feature {
        name: [a, b, digit(j)],
        parity_start: parity_start as u8,
        parity_len: parity_len as u8,
        blocks,
        slot_start: slot_start as u8,
        slot_len: slot_len as u8,
    }
}

/// The features, numbered from zero: unigrams, bigrams and trigrams of the
/// decisions (UP, BP), of the characters (UW, BW, TW) and of their block
/// indices (UB, BB, TB), and a decision joined to one, two or three block
/// indices (UQ, BQ, TQ).
pub open spec fn feature(f: int) -> Feature {
    if f < 3 {
        let j = f + 1;
        layout('U', 'P', j, j - 1, 1, false, 0, 0)
    } else if f < 5 {
        let j = f - 2;
        layout('B', 'P', j, j - 1, 2, false, 0, 0)
    } else if f < 11 {
        let j = f - 4;
        layout('U', 'W', j, 0, 0, false, j - 1, 1)
    } else if f < 14 {
        let j = f - 10;
        layout('B', 'W', j, 0, 0, false, j, 2)
    } else if f < 18 {
        let j = f - 13;
        layout('T', 'W', j, 0, 0, false, j - 1, 3)
    } else if f < 24 {
        let j = f - 17;
        layout('U', 'B', j, 0, 0, true, j - 1, 1)
    } else if f < 27 {
        let j = f - 23;
        layout('B', 'B', j, 0, 0, true, j, 2)
    } else if f < 31 {
        let j = f - 26;
        layout('T', 'B', j, 0, 0, true, j - 1, 3)
    } else if f < 34 {
        let j = f - 30;
        layout('U', 'Q', j, j - 1, 1, true, j - 1, 1)
    } else if f < 38 {
        let j = f - 33;
        layout('B', 'Q', j, 1 + (j - 1) / 2, 1, true, 1 + (j - 1) % 2, 2)
    } else {
        let j = f - 37;
        layout('T', 'Q', j, 1 + (j - 1) / 2, 1, true, (j - 1) % 2, 3)
    }
}

/// The text that the character slot contributes: the character itself, or
/// the block index of the character.
pub open spec fn slot_text(c: char, blocks: bool) -> Seq<char> {
    if blocks {
        block_index(c)
    } else {
        seq![c]
    }
}

/// The decisions `start .. start + len` of `w` as letters.
pub open spec fn parity_text(w: Window, start: int, len: int) -> Seq<char>
    decreases len,
{
    if len <= 0 {
        seq![]
    } else {
        parity_text(w, start, len - 1).push(letter(w.parities[start + len - 1]))
    }
}

/// The character slots `start .. start + len` of `w`, as characters or as
/// block indices.
pub open spec fn slots_text(w: Window, start: int, len: int, blocks: bool) -> Seq<char>
    decreases len,
{
    if len <= 0 {
        seq![]
    } else {
        slots_text(w, start, len - 1, blocks) + slot_text(
            w.chars[start + len - 1]->0,
            blocks,
        )
    }
}

/// The key of feature `d` at window `w`, `NAME:value`; `None` where one of
/// its character slots lies outside the text.
pub open spec fn feature_key(w: Window, d: Feature) -> Option<Seq<char>> {
    if exists|i: int|
        d.slot_start <= i < d.slot_start + d.slot_len && #[trigger] w.chars[i] is None {
        None
    } else {
        Some(
            seq![d.name[0], d.name[1], d.name[2], ':'] + parity_text(
                w,
                d.parity_start as int,
                d.parity_len as int,
            ) + slots_text(w, d.slot_start as int, d.slot_len as int, d.blocks),
        )
    }
}

/// The layout of `d` stays inside the three decisions and six character
/// slots of a window.
pub open spec fn fits(d: Feature) -> bool {
    &&& d.parity_start + d.parity_len <= 3
    &&& d.slot_start + d.slot_len <= 6
}

/// Relies on `String::push`: appends `c`.
#[verifier::external_body]
fn push_char(s: &mut String, c: char)
    ensures
        final(s)@ == old(s)@.push(c),
{
    s.push(c);
}

/// The letter that stands for `p`.
pub fn parity_letter(p: Parity) -> (c: char)
    ensures
        c == letter(p),
{
    match p {
        Parity::Unknown => 'U',
        Parity::Boundary => 'B',
        Parity::NoBoundary => 'O',
    }
}

/// Feature `a b j` with the given layout.
fn make_feature(
    a: char,
    b: char,
    j: u8,
    parity_start: u8,
    parity_len: u8,
    blocks: bool,
    slot_start: u8,
    slot_len: u8,
) -> (d: Feature)
    requires
        j < 10,
    ensures
        d == layout(
            a,
            b,
            j as int,
            parity_start as int,
            parity_len as int,
            blocks,
            slot_start as int,
            slot_len as int,
        ),
{
    Feature { name: [a, b, digit_char(j)], parity_start, parity_len, blocks, slot_start, slot_len }
}

/// Feature number `f`.
pub fn feature_at(f: usize) -> (d: Feature)
    requires
        f < FEATURE_COUNT,
    ensures
        d == feature(f as int),
        fits(d),
{
    let f = f as u8;
    if f < 3 {
        let j = f + 1;
        make_feature('U', 'P', j, j - 1, 1, false, 0, 0)
    } else if f < 5 {
        let j = f - 2;
        make_feature('B', 'P', j, j - 1, 2, false, 0, 0)
    } else if f < 11 {
        let j = f - 4;
        make_feature('U', 'W', j, 0, 0, false, j - 1, 1)
    } else if f < 14 {
        let j = f - 10;
        make_feature('B', 'W', j, 0, 0, false, j, 2)
    } else if f < 18 {
        let j = f - 13;
        make_feature('T', 'W', j, 0, 0, false, j - 1, 3)
    } else if f < 24 {
        let j = f - 17;
        make_feature('U', 'B', j, 0, 0, true, j - 1, 1)
    } else if f < 27 {
        let j = f - 23;
        make_feature('B', 'B', j, 0, 0, true, j, 2)
    } else if f < 31 {
        let j = f - 26;
        make_feature('T', 'B', j, 0, 0, true, j - 1, 3)
    } else if f < 34 {
        let j = f - 30;
        make_feature('U', 'Q', j, j - 1, 1, true, j - 1, 1)
    } else if f < 38 {
        let j = f - 33;
        make_feature('B', 'Q', j, 1 + (j - 1) / 2, 1, true, 1 + (j - 1) % 2, 2)
    } else {
        let j = f - 37;
        make_feature('T', 'Q', j, 1 + (j - 1) / 2, 1, true, (j - 1) % 2, 3)
    }
}

/// Appends the three digits of the block index of `c` to `key`.
fn push_block_index(key: &mut String, c: char)
    ensures
        final(key)@ == old(key)@ + block_index(c),
{
    let rank = classify(c);
    let r = rank as u32;
    push_char(key, digit_char((r / 100) as u8));
    push_char(key, digit_char(((r / 10) % 10) as u8));
    push_char(key, digit_char((r % 10) as u8));
    proof {
        assert(rank <= BLOCK_COUNT);
        assert(final(key)@ =~= old(key)@ + block_index(c));
    }
}

/// The key of feature `d` at window `w`, or `None` where one of its character
/// slots lies outside the text.
pub fn key_of(w: &Window, d: &Feature) -> (r: Option<String>)
    requires
        fits(*d),
    ensures
        r is Some == feature_key(*w, *d) is Some,
        r is Some ==> r->0@ == feature_key(*w, *d)->0,
{
    let mut key = String::new();
    push_char(&mut key, d.name[0]);
    push_char(&mut key, d.name[1]);
    push_char(&mut key, d.name[2]);
    push_char(&mut key, ':');
    let ghost head = seq![d.name[0], d.name[1], d.name[2], ':'];
    assert(key@ =~= head + parity_text(*w, d.parity_start as int, 0));
    let mut i: u8 = 0;
    while i < d.parity_len
        invariant
            fits(*d),
            i <= d.parity_len,
            key@ == head + parity_text(*w, d.parity_start as int, i as int),
        decreases d.parity_len - i,
    {
        let p = w.parities[(d.parity_start + i) as usize];
        push_char(&mut key, parity_letter(p));
        i = i + 1;
        assert(key@ =~= head + parity_text(*w, d.parity_start as int, i as int));
    }
    let ghost middle = key@;
    assert(key@ =~= middle + slots_text(*w, d.slot_start as int, 0, d.blocks));
    let mut i: u8 = 0;
    while i < d.slot_len
        invariant
            fits(*d),
            i <= d.slot_len,
            middle == head + parity_text(*w, d.parity_start as int, d.parity_len as int),
            key@ == middle + slots_text(*w, d.slot_start as int, i as int, d.blocks),
            forall|k: int| d.slot_start <= k < d.slot_start + i ==> w.chars[k] is Some,
        decreases d.slot_len - i,
    {
        let slot = (d.slot_start + i) as usize;
        match w.chars[slot] {
            None => {
                return None;
            },
            Some(c) => {
                if d.blocks {
                    push_block_index(&mut key, c);
                } else {
                    push_char(&mut key, c);
                }
            },
        }
        i = i + 1;
        assert(key@ =~= middle + slots_text(*w, d.slot_start as int, i as int, d.blocks));
    }
    assert(key@ =~= feature_key(*w, *d)->0);
    Some(key)
}

/// The keys of those of features `0 .. n` that are not suppressed at `w`, in
/// the order of the features.
pub open spec fn feature_keys(w: Window, n: int) -> Seq<Seq<char>>
    decreases n,
{
    if n <= 0 {
        seq![]
    } else {
        let before = feature_keys(w, n - 1);
        match feature_key(w, feature(n - 1)) {
            Some(key) => before.push(key),
            None => before,
        }
    }
}

/// The strings of `keys`.
pub open spec fn key_views(keys: Seq<String>) -> Seq<Seq<char>> {
    keys.map_values(|k: String| k@)
}

/// The keys of all features at window `w` that are not suppressed, in the
/// order of the features.
pub fn extract(w: &Window) -> (r: Vec<String>)
    ensures
        key_views(r@) == feature_keys(*w, FEATURE_COUNT as int),
{
    let mut keys: Vec<String> = Vec::new();
    let mut f: usize = 0;
    while f < FEATURE_COUNT
        invariant
            f <= FEATURE_COUNT,
            key_views(keys@) == feature_keys(*w, f as int),
        decreases FEATURE_COUNT - f,
    {
        let d = feature_at(f);
        let ghost before = keys@;
        if let Some(key) = key_of(w, &d) {
            keys.push(key);
            assert(key_views(keys@) =~= key_views(before).push(keys@.last()@));
        }
        f = f + 1;
    }
    keys
}

} // verus!
