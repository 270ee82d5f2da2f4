//! Proof-of-work predicate.
//!
//! The consensus target is a required count of leading zero bits: a hash is
//! valid for difficulty `d` when it begins with at least `d` zero bits.
//! The predicate is pure and stateless.

use vstd::prelude::*;

verus! {

/// Number of leading zero bits in a single byte (0 through 8).
pub open spec fn byte_leading_zeros(b: u8) -> u32 {
    if b >= 0x80 {
        0
    } else if b >= 0x40 {
        1
    } else if b >= 0x20 {
        2
    } else if b >= 0x10 {
        3
    } else if b >= 0x08 {
        4
    } else if b >= 0x04 {
        5
    } else if b >= 0x02 {
        6
    } else if b >= 0x01 {
        7
    } else {
        8
    }
}

/// The proof-of-work target: `h` begins with at least `difficulty` leading
/// zero bits. The first `difficulty / 8` bytes must be zero, and when
/// `difficulty % 8 != 0` the following byte must contribute the remaining
/// zero bits.
pub open spec fn spec_meets_difficulty(h: Seq<u8>, difficulty: u32) -> bool {
    if difficulty == 0 {
        true
    } else {
        let full = difficulty as int / 8;
        let rem = difficulty as int % 8;
        &&& forall|i: int| 0 <= i < full ==> h[i] == 0
        &&& (rem == 0 || byte_leading_zeros(h[full]) >= rem)
    }
}

/// Number of leading zero bits of `b`.
fn byte_lz(b: u8) -> (r: u32)
    ensures
        r == byte_leading_zeros(b),
{
    if b >= 0x80 {
        0
    } else if b >= 0x40 {
        1
    } else if b >= 0x20 {
        2
    } else if b >= 0x10 {
        3
    } else if b >= 0x08 {
        4
    } else if b >= 0x04 {
        5
    } else if b >= 0x02 {
        6
    } else if b >= 0x01 {
        7
    } else {
        8
    }
}

/// Returns whether `hash` meets the difficulty target, expressed as a count
/// of leading zero bits in the range 0 through 256. Difficulty 0 accepts
/// every hash.
pub fn hash_meets_difficulty(hash: &crate::Hash, difficulty: u32) -> (r: bool)
    requires
        difficulty <= 256,
    ensures
        r == spec_meets_difficulty(hash@, difficulty),
        difficulty == 0 ==> r,
{
    if difficulty == 0 {
        return true;
    }
    let zero_bytes: usize = (difficulty / 8) as usize;
    let zero_bits: u32 = difficulty % 8;
    let mut i: usize = 0;
    while i < zero_bytes
        invariant
            difficulty <= 256,
            zero_bytes == difficulty as int / 8,
            i <= zero_bytes <= 32,
            forall|j: int| 0 <= j < i ==> hash@[j] == 0,
        decreases zero_bytes - i,
    {
        if hash[i] != 0 {
            return false;
        }
        i += 1;
    }
    if zero_bits == 0 {
        return true;
    }
    let next: u8 = hash[zero_bytes];
    byte_lz(next) >= zero_bits
}

/// The number of leading zero bits of `h` counted from byte `i` on.
pub open spec fn leading_zero_bits_from(h: Seq<u8>, i: int) -> int
    decreases h.len() - i,
{
    if i < 0 || i >= h.len() {
        0
    } else if h[i] == 0 {
        8 + leading_zero_bits_from(h, i + 1)
    } else {
        byte_leading_zeros(h[i]) as int
    }
}

/// The number of leading zero bits of a hash.
pub open spec fn leading_zero_bits(h: Seq<u8>) -> int {
    leading_zero_bits_from(h, 0)
}

proof fn lemma_lzb_bounds(h: Seq<u8>, i: int)
    requires
        0 <= i <= h.len(),
    ensures
        0 <= leading_zero_bits_from(h, i) <= 8 * (h.len() - i),
    decreases h.len() - i,
{
    if i < h.len() {
        lemma_lzb_bounds(h, i + 1);
    }
}

proof fn lemma_lzb_split(h: Seq<u8>, q: int)
    requires
        0 <= q <= h.len(),
    ensures
        (forall|i: int| 0 <= i < q ==> h[i] == 0) ==> leading_zero_bits(h) == 8 * q
            + leading_zero_bits_from(h, q),
        (exists|i: int| 0 <= i < q && h[i] != 0) ==> leading_zero_bits(h) < 8 * q,
    decreases q,
{
    if q > 0 {
        lemma_lzb_split(h, q - 1);
        if forall|i: int| 0 <= i < q ==> h[i] == 0 {
            assert(h[q - 1] == 0);
            assert(leading_zero_bits_from(h, q - 1) == 8 + leading_zero_bits_from(h, q));
        } else {
            if exists|i: int| 0 <= i < q - 1 && h[i] != 0 {
                assert(leading_zero_bits(h) < 8 * (q - 1));
            } else {
                assert(forall|i: int| 0 <= i < q - 1 ==> h[i] == 0);
                let w = choose|i: int| 0 <= i < q && h[i] != 0;
                assert(w == q - 1);
                assert(leading_zero_bits(h) == 8 * (q - 1) + leading_zero_bits_from(h, q - 1));
                assert(h[q - 1] != 0);
                assert(leading_zero_bits_from(h, q - 1) == byte_leading_zeros(h[q - 1]) as int);
                assert(byte_leading_zeros(h[q - 1]) <= 7);
            }
        }
    }
}

/// The boundary law: a hash meets a difficulty target exactly when its
/// count of leading zero bits is at least the target. In particular a hash
/// with exactly `d` leading zero bits meets difficulty `d` and fails
/// difficulty `d + 1`.
pub proof fn lemma_meets_difficulty_iff_leading_zeros(h: Seq<u8>, d: u32)
    requires
        h.len() == 32,
        d <= 256,
    ensures
        spec_meets_difficulty(h, d) <==> leading_zero_bits(h) >= d,
{
    lemma_lzb_bounds(h, 0);
    if d > 0 {
        let q = d as int / 8;
        let r = d as int % 8;
        lemma_lzb_split(h, q);
        if spec_meets_difficulty(h, d) {
            assert(leading_zero_bits(h) == 8 * q + leading_zero_bits_from(h, q));
            if r > 0 {
                assert(q < 32);
                lemma_lzb_bounds(h, q + 1);
                if h[q] == 0 {
                    assert(leading_zero_bits_from(h, q) == 8 + leading_zero_bits_from(h, q + 1));
                } else {
                    assert(leading_zero_bits_from(h, q) == byte_leading_zeros(h[q]) as int >= r);
                }
            } else {
                lemma_lzb_bounds(h, q);
            }
        }
        if leading_zero_bits(h) >= d {
            if exists|i: int| 0 <= i < q && h[i] != 0 {
                assert(leading_zero_bits(h) < 8 * q);
                assert(false);
            }
            assert(forall|i: int| 0 <= i < q ==> h[i] == 0);
            if r > 0 {
                assert(q < 32);
                assert(leading_zero_bits(h) == 8 * q + leading_zero_bits_from(h, q));
                if h[q] == 0 {
                } else {
                    assert(leading_zero_bits_from(h, q) == byte_leading_zeros(h[q]) as int);
                    assert(byte_leading_zeros(h[q]) as int >= r);
                }
            }
        }
    }
}

} // verus!
