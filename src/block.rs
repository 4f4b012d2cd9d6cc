//! Coarse classification of characters by the Unicode block they belong to.
use vstd::prelude::*;

verus! {

/// The number of Unicode blocks that the table distinguishes.
pub const BLOCK_COUNT: usize = 307;

/// The first code point of each block of the Unicode Character Database
/// (version 13.0), in increasing order.
pub const BLOCK_STARTS: [u32; BLOCK_COUNT] = [
    0, 128, 256, 384, 592, 688, 768, 880, 1024, 1280,
    1328, 1424, 1536, 1792, 1872, 1920, 1984, 2048, 2112, 2144,
    2208, 2304, 2432, 2560, 2688, 2816, 2944, 3072, 3200, 3328,
    3456, 3584, 3712, 3840, 4096, 4256, 4352, 4608, 4992, 5024,
    5120, 5760, 5792, 5888, 5920, 5952, 5984, 6016, 6144, 6320,
    6400, 6480, 6528, 6624, 6656, 6688, 6832, 6912, 7040, 7104,
    7168, 7248, 7296, 7312, 7360, 7376, 7424, 7552, 7616, 7680,
    7936, 8192, 8304, 8352, 8400, 8448, 8528, 8592, 8704, 8960,
    9216, 9280, 9312, 9472, 9600, 9632, 9728, 9984, 10176, 10224,
    10240, 10496, 10624, 10752, 11008, 11264, 11360, 11392, 11520, 11568,
    11648, 11744, 11776, 11904, 12032, 12272, 12288, 12352, 12448, 12544,
    12592, 12688, 12704, 12736, 12784, 12800, 13056, 13312, 19904, 19968,
    40960, 42128, 42192, 42240, 42560, 42656, 42752, 42784, 43008, 43056,
    43072, 43136, 43232, 43264, 43312, 43360, 43392, 43488, 43520, 43616,
    43648, 43744, 43776, 43824, 43888, 43968, 44032, 55216, 55296, 56192,
    56320, 57344, 63744, 64256, 64336, 65024, 65040, 65056, 65072, 65104,
    65136, 65280, 65520, 65536, 65664, 65792, 65856, 65936, 66000, 66176,
    66208, 66272, 66304, 66352, 66384, 66432, 66464, 66560, 66640, 66688,
    66736, 66816, 66864, 67072, 67584, 67648, 67680, 67712, 67808, 67840,
    67872, 67968, 68000, 68096, 68192, 68224, 68288, 68352, 68416, 68448,
    68480, 68608, 68736, 68864, 69216, 69248, 69376, 69424, 69552, 69600,
    69632, 69760, 69840, 69888, 69968, 70016, 70112, 70144, 70272, 70320,
    70400, 70656, 70784, 71040, 71168, 71264, 71296, 71424, 71680, 71840,
    71936, 72096, 72192, 72272, 72384, 72704, 72816, 72960, 73056, 73440,
    73648, 73664, 73728, 74752, 74880, 77824, 78896, 82944, 92160, 92736,
    92880, 92928, 93760, 93952, 94176, 94208, 100352, 101120, 101632, 110592,
    110848, 110896, 113664, 113824, 118784, 119040, 119296, 119520, 119552, 119648,
    119808, 120832, 122880, 123136, 123584, 124928, 125184, 126064, 126208, 126464,
    126976, 127024, 127136, 127232, 127488, 127744, 128512, 128592, 128640, 128768,
    128896, 129024, 129280, 129536, 129648, 129792, 131072, 173824, 177984, 178208,
    183984, 194560, 196608, 917504, 917760, 983040, 1048576,
];

/// The block starts as a sequence.
#[verifier::opaque]
pub open spec fn block_starts() -> Seq<u32> {
    BLOCK_STARTS@
}

/// The start of the block of rank `i + 1`.
fn block_start(i: usize) -> (r: u32)
    requires
        i < BLOCK_COUNT,
    ensures
        r == block_starts()[i as int],
        block_starts().len() == BLOCK_COUNT,
{
    reveal(block_starts);
    BLOCK_STARTS[i]
}

/// `s` is strictly increasing from index `i` on.
pub open spec fn increasing_from(s: Seq<u32>, i: int) -> bool
    decreases s.len() - i,
{
    if i < 0 || i + 1 >= s.len() {
        true
    } else {
        s[i] < s[i + 1] && increasing_from(s, i + 1)
    }
}

/// Every element of `s` is below the ones after it.
pub open spec fn sorted(s: Seq<u32>) -> bool {
    forall|i: int, j: int| 0 <= i < j < s.len() ==> s[i] < s[j]
}

proof fn lemma_increasing_sorted(s: Seq<u32>, i: int)
    requires
        0 <= i,
        increasing_from(s, i),
    ensures
        forall|a: int, b: int| i <= a < b < s.len() ==> s[a] < s[b],
    decreases s.len() - i,
{
    if i + 1 < s.len() {
        lemma_increasing_sorted(s, i + 1);
    }
}

#[verifier::rlimit(100)]
#[verifier::spinoff_prover]
proof fn lemma_literal_sorted()
    ensures
        sorted(BLOCK_STARTS@),
{
    assert(increasing_from(BLOCK_STARTS@, 300)) by {
        reveal_with_fuel(increasing_from, 11);
    }
    assert(increasing_from(BLOCK_STARTS@, 290)) by {
        reveal_with_fuel(increasing_from, 11);
    }
    assert(increasing_from(BLOCK_STARTS@, 280)) by {
        reveal_with_fuel(increasing_from, 11);
    }
    assert(increasing_from(BLOCK_STARTS@, 270)) by {
        reveal_with_fuel(increasing_from, 11);
    }
    assert(increasing_from(BLOCK_STARTS@, 260)) by {
        reveal_with_fuel(increasing_from, 11);
    }
    assert(increasing_from(BLOCK_STARTS@, 250)) by {
        reveal_with_fuel(increasing_from, 11);
    }
    assert(increasing_from(BLOCK_STARTS@, 240)) by {
        reveal_with_fuel(increasing_from, 11);
    }
    assert(increasing_from(BLOCK_STARTS@, 230)) by {
        reveal_with_fuel(increasing_from, 11);
    }
    assert(increasing_from(BLOCK_STARTS@, 220)) by {
        reveal_with_fuel(increasing_from, 11);
    }
    assert(increasing_from(BLOCK_STARTS@, 210)) by {
        reveal_with_fuel(increasing_from, 11);
    }
    assert(increasing_from(BLOCK_STARTS@, 200)) by {
        reveal_with_fuel(increasing_from, 11);
    }
    assert(increasing_from(BLOCK_STARTS@, 190)) by {
        reveal_with_fuel(increasing_from, 11);
    }
    assert(increasing_from(BLOCK_STARTS@, 180)) by {
        reveal_with_fuel(increasing_from, 11);
    }
    assert(increasing_from(BLOCK_STARTS@, 170)) by {
        reveal_with_fuel(increasing_from, 11);
    }
    assert(increasing_from(BLOCK_STARTS@, 160)) by {
        reveal_with_fuel(increasing_from, 11);
    }
    assert(increasing_from(BLOCK_STARTS@, 150)) by {
        reveal_with_fuel(increasing_from, 11);
    }
    assert(increasing_from(BLOCK_STARTS@, 140)) by {
        reveal_with_fuel(increasing_from, 11);
    }
    assert(increasing_from(BLOCK_STARTS@, 130)) by {
        reveal_with_fuel(increasing_from, 11);
    }
    assert(increasing_from(BLOCK_STARTS@, 120)) by {
        reveal_with_fuel(increasing_from, 11);
    }
    assert(increasing_from(BLOCK_STARTS@, 110)) by {
        reveal_with_fuel(increasing_from, 11);
    }
    assert(increasing_from(BLOCK_STARTS@, 100)) by {
        reveal_with_fuel(increasing_from, 11);
    }
    assert(increasing_from(BLOCK_STARTS@, 90)) by {
        reveal_with_fuel(increasing_from, 11);
    }
    assert(increasing_from(BLOCK_STARTS@, 80)) by {
        reveal_with_fuel(increasing_from, 11);
    }
    assert(increasing_from(BLOCK_STARTS@, 70)) by {
        reveal_with_fuel(increasing_from, 11);
    }
    assert(increasing_from(BLOCK_STARTS@, 60)) by {
        reveal_with_fuel(increasing_from, 11);
    }
    assert(increasing_from(BLOCK_STARTS@, 50)) by {
        reveal_with_fuel(increasing_from, 11);
    }
    assert(increasing_from(BLOCK_STARTS@, 40)) by {
        reveal_with_fuel(increasing_from, 11);
    }
    assert(increasing_from(BLOCK_STARTS@, 30)) by {
        reveal_with_fuel(increasing_from, 11);
    }
    assert(increasing_from(BLOCK_STARTS@, 20)) by {
        reveal_with_fuel(increasing_from, 11);
    }
    assert(increasing_from(BLOCK_STARTS@, 10)) by {
        reveal_with_fuel(increasing_from, 11);
    }
    assert(increasing_from(BLOCK_STARTS@, 0)) by {
        reveal_with_fuel(increasing_from, 11);
    }
    lemma_increasing_sorted(BLOCK_STARTS@, 0);
}

/// The block starts are strictly increasing.
pub proof fn lemma_table_sorted()
    ensures
        sorted(block_starts()),
        block_starts().len() == BLOCK_COUNT,
{
    reveal(block_starts);
    lemma_literal_sorted();
}


/// The rank of the block that holds `c`: how many block starts lie at or
/// below its code point. Zero is never a rank of a character, since the first
/// block starts at code point zero.
pub open spec fn rank_of(c: char) -> nat {
    block_starts().filter(|start: u32| start <= c as u32).len()
}

/// The decimal digit `d` as a character.
pub open spec fn digit(d: int) -> char {
    ((d + 48) as u8) as char
}

/// The block index of `c`: its rank written with three decimal digits.
pub open spec fn block_index(c: char) -> Seq<char> {
    let r = rank_of(c) as int;
    seq![digit(r / 100), digit((r / 10) % 10), digit(r % 10)]
}

/// Where every element of `s` before `r` is at most `c` and every one from
/// `r` on is above it, the first `k` elements hold `min(k, r)` that are at most `c`.
proof fn lemma_count_at_most(s: Seq<u32>, c: u32, r: int, k: int)
    requires
        0 <= r <= s.len(),
        0 <= k <= s.len(),
        forall|i: int| 0 <= i < r ==> s[i] <= c,
        forall|i: int| r <= i < s.len() ==> s[i] > c,
    ensures
        s.take(k).filter(|start: u32| start <= c).len() == if k < r { k } else { r },
    decreases k,
{
    let p = |start: u32| start <= c;
    if k == 0 {
        assert(s.take(0) =~= Seq::<u32>::empty());
        reveal(Seq::filter);
    } else {
        lemma_count_at_most(s, c, r, k - 1);
        assert(s.take(k) =~= s.take(k - 1).push(s[k - 1]));
        s.take(k - 1).lemma_filter_len_push(p, s[k - 1]);
    }
}

/// The decimal digit `d` as a character.
pub fn digit_char(d: u8) -> (r: char)
    requires
        d < 10,
    ensures
        r == digit(d as int),
{
    (d + 48) as char
}

/// The rank of the block that holds `c`, found by binary search over the
/// block starts.
pub fn classify(c: char) -> (r: usize)
    ensures
        r == rank_of(c),
        r <= BLOCK_COUNT,
{
    let code = c as u32;
    let mut lo: usize = 0;
    let mut hi: usize = BLOCK_COUNT;
    proof {
        lemma_table_sorted();
    }
    while lo < hi
        invariant
            0 <= lo <= hi <= BLOCK_COUNT,
            block_starts().len() == BLOCK_COUNT,
            sorted(block_starts()),
            forall|i: int| 0 <= i < lo ==> block_starts()[i] <= code,
            forall|i: int| hi <= i < BLOCK_COUNT ==> block_starts()[i] > code,
        decreases hi - lo,
    {
        let mid = lo + (hi - lo) / 2;
        if block_start(mid) <= code {
            lo = mid + 1;
        } else {
            hi = mid;
        }
    }
    proof {
        lemma_count_at_most(block_starts(), code, lo as int, BLOCK_COUNT as int);
        assert(block_starts().take(BLOCK_COUNT as int) =~= block_starts());
    }
    lo
}

} // verus!
