//! Bitboards as sets of squares.
//!
//! A bitboard is a `u64` in which bit `s` stands for square `s`. The
//! predicate [`in_bb`] reads a bitboard as a set of squares; the lemmas below
//! relate the machine operations to set operations.

use vstd::prelude::*;

verus! {

/// Bit `i` of `bb`, for a machine index.
pub open spec fn bit_at(bb: u64, i: u64) -> bool {
    (bb >> i) & 1 == 1
}

/// Whether square `sq` is a member of the bitboard `bb`.
pub open spec fn in_bb(bb: u64, sq: int) -> bool {
    0 <= sq < 64 && bit_at(bb, sq as u64)
}

/// The bitboard that holds square `sq` alone.
pub open spec fn bit(sq: int) -> u64 {
    1u64 << (sq as u64)
}

/// The bitboard that holds exactly the squares below `n` that satisfy `pred`.
pub open spec fn mask_upto(pred: spec_fn(int) -> bool, n: nat) -> u64
    decreases n,
{
    if n == 0 {
        0
    } else if pred(n - 1) {
        mask_upto(pred, (n - 1) as nat) | (1u64 << ((n - 1) as u64))
    } else {
        mask_upto(pred, (n - 1) as nat)
    }
}

/// The bitboard that holds exactly the squares that satisfy `pred`.
pub open spec fn mask_of(pred: spec_fn(int) -> bool) -> u64 {
    mask_upto(pred, 64)
}

/// The empty bitboard holds no square.
pub proof fn lemma_bb_zero()
    ensures
        forall|i: int| !#[trigger] in_bb(0, i),
{
    assert forall|i: int| !#[trigger] in_bb(0, i) by {
        if 0 <= i < 64 {
            let iu = i as u64;
            assert(!bit_at(0, iu)) by (bit_vector);
        }
    }
}

/// The full bitboard holds every square.
pub proof fn lemma_bb_all()
    ensures
        forall|i: int| 0 <= i < 64 ==> #[trigger] in_bb(u64::MAX, i),
{
    assert forall|i: int| 0 <= i < 64 implies #[trigger] in_bb(u64::MAX, i) by {
        let iu = i as u64;
        assert(iu < 64 ==> bit_at(0xffff_ffff_ffff_ffff, iu)) by (bit_vector);
    }
}

/// `|` is the union.
pub proof fn lemma_bb_or(a: u64, b: u64)
    ensures
        forall|i: int| #[trigger] in_bb(a | b, i) == (in_bb(a, i) || in_bb(b, i)),
{
    assert forall|i: int| #[trigger] in_bb(a | b, i) == (in_bb(a, i) || in_bb(b, i)) by {
        if 0 <= i < 64 {
            let iu = i as u64;
            assert(bit_at(a | b, iu) == (bit_at(a, iu) || bit_at(b, iu))) by (bit_vector);
        }
    }
}

/// `&` is the intersection.
pub proof fn lemma_bb_and(a: u64, b: u64)
    ensures
        forall|i: int| #[trigger] in_bb(a & b, i) == (in_bb(a, i) && in_bb(b, i)),
{
    assert forall|i: int| #[trigger] in_bb(a & b, i) == (in_bb(a, i) && in_bb(b, i)) by {
        if 0 <= i < 64 {
            let iu = i as u64;
            assert(bit_at(a & b, iu) == (bit_at(a, iu) && bit_at(b, iu))) by (bit_vector);
        }
    }
}

/// `^` is the symmetric difference.
pub proof fn lemma_bb_xor(a: u64, b: u64)
    ensures
        forall|i: int| #[trigger] in_bb(a ^ b, i) == (in_bb(a, i) != in_bb(b, i)),
{
    assert forall|i: int| #[trigger] in_bb(a ^ b, i) == (in_bb(a, i) != in_bb(b, i)) by {
        if 0 <= i < 64 {
            let iu = i as u64;
            assert(bit_at(a ^ b, iu) == (bit_at(a, iu) != bit_at(b, iu))) by (bit_vector);
        }
    }
}

/// `!` is the complement.
pub proof fn lemma_bb_not(a: u64)
    ensures
        forall|i: int| 0 <= i < 64 ==> #[trigger] in_bb(!a, i) == !in_bb(a, i),
{
    assert forall|i: int| 0 <= i < 64 implies #[trigger] in_bb(!a, i) == !in_bb(a, i) by {
        let iu = i as u64;
        assert(iu < 64 ==> bit_at(!a, iu) == !bit_at(a, iu)) by (bit_vector);
    }
}

/// A one shifted left by `s` holds square `s` alone.
pub proof fn lemma_bb_single(s: u64)
    requires
        s < 64,
    ensures
        forall|i: int| #[trigger] in_bb(1u64 << s, i) == (i == s),
{
    assert forall|i: int| #[trigger] in_bb(1u64 << s, i) == (i == s) by {
        if 0 <= i < 64 {
            let iu = i as u64;
            assert(s < 64 && iu < 64 ==> bit_at(1u64 << s, iu) == (iu == s)) by (bit_vector);
        }
    }
}

/// A shift to the left by `k` moves every square up by `k`.
pub proof fn lemma_bb_shl(a: u64, k: u64)
    requires
        k < 64,
    ensures
        forall|i: int| #[trigger] in_bb(a << k, i) == (k <= i < 64 && in_bb(a, i - k)),
{
    assert forall|i: int| #[trigger] in_bb(a << k, i) == (k <= i < 64 && in_bb(a, i - k)) by {
        if 0 <= i < 64 {
            let iu = i as u64;
            if i >= k {
                let ju = (i - k) as u64;
                assert(k < 64 && iu < 64 && iu >= k && ju == iu - k ==> bit_at(a << k, iu)
                    == bit_at(a, ju)) by (bit_vector);
            } else {
                assert(k < 64 && iu < k ==> !bit_at(a << k, iu)) by (bit_vector);
            }
        }
    }
}

/// A shift to the right by `k` moves every square down by `k`.
pub proof fn lemma_bb_shr(a: u64, k: u64)
    requires
        k < 64,
    ensures
        forall|i: int| #[trigger] in_bb(a >> k, i) == (0 <= i && in_bb(a, i + k)),
{
    assert forall|i: int| #[trigger] in_bb(a >> k, i) == (0 <= i && in_bb(a, i + k)) by {
        if 0 <= i < 64 {
            let iu = i as u64;
            if i + k < 64 {
                let ju = (i + k) as u64;
                assert(k < 64 && iu < 64 && ju < 64 && ju == iu + k ==> bit_at(a >> k, iu)
                    == bit_at(a, ju)) by (bit_vector);
            } else {
                assert(k < 64 && iu < 64 && iu + k >= 64 ==> !bit_at(a >> k, iu)) by (bit_vector);
            }
        }
    }
}

/// `bit(s)` holds square `s` alone.
pub proof fn lemma_bb_bit(s: int)
    requires
        0 <= s < 64,
    ensures
        forall|i: int| #[trigger] in_bb(bit(s), i) == (i == s),
{
    lemma_bb_single(s as u64);
}

/// Two bitboards that hold the same squares are the same value.
pub proof fn lemma_extensional(a: u64, b: u64)
    requires
        forall|i: int| 0 <= i < 64 ==> in_bb(a, i) == in_bb(b, i),
    ensures
        a == b,
{
    if a != b {
        let x = a ^ b;
        assert(x != 0) by (bit_vector)
            requires
                x == a ^ b,
                a != b,
        ;
        vstd::std_specs::bits::axiom_u64_trailing_zeros(x);
        let t = vstd::std_specs::bits::u64_trailing_zeros(x) as u64;
        assert(bit_at(x, t));
        lemma_bb_xor(a, b);
        assert(in_bb(x, t as int));
        assert(in_bb(a, t as int) == in_bb(b, t as int));
    }
}

/// `mask_upto(pred, n)` holds exactly the squares below `n` that satisfy
/// `pred`.
pub proof fn lemma_mask_upto(pred: spec_fn(int) -> bool, n: nat)
    requires
        n <= 64,
    ensures
        forall|i: int| #[trigger] in_bb(mask_upto(pred, n), i) == (0 <= i < n && pred(i)),
    decreases n,
{
    if n == 0 {
        lemma_bb_zero();
    } else {
        lemma_mask_upto(pred, (n - 1) as nat);
        let prev = mask_upto(pred, (n - 1) as nat);
        lemma_bb_or(prev, 1u64 << ((n - 1) as u64));
        lemma_bb_single((n - 1) as u64);
    }
}

/// `mask_of(pred)` holds exactly the squares that satisfy `pred`.
pub proof fn lemma_mask_of(pred: spec_fn(int) -> bool)
    ensures
        forall|i: int| #[trigger] in_bb(mask_of(pred), i) == (0 <= i < 64 && pred(i)),
{
    lemma_mask_upto(pred, 64);
}

/// A bitboard whose members are exactly those of `pred` is `mask_of(pred)`.
pub proof fn lemma_is_mask_of(bb: u64, pred: spec_fn(int) -> bool)
    requires
        forall|i: int| 0 <= i < 64 ==> in_bb(bb, i) == pred(i),
    ensures
        bb == mask_of(pred),
{
    lemma_mask_of(pred);
    lemma_extensional(bb, mask_of(pred));
}

/// The bitboard that holds square `sq` alone.
pub fn square_bit(sq: usize) -> (r: u64)
    requires
        sq < 64,
    ensures
        r == bit(sq as int),
        forall|i: int| #[trigger] in_bb(r, i) == (i == sq),
{
    proof {
        lemma_bb_single(sq as u64);
    }
    1u64 << (sq as u64)
}

/// Whether `bb` holds square `sq`.
pub fn test_bit(bb: u64, sq: usize) -> (r: bool)
    requires
        sq < 64,
    ensures
        r == in_bb(bb, sq as int),
{
    let m: u64 = 1u64 << (sq as u64);
    proof {
        let s = sq as u64;
        assert(s < 64 ==> ((bb & (1u64 << s)) != 0) == bit_at(bb, s)) by (bit_vector);
    }
    bb & m != 0
}

/// The lowest square of a bitboard, 64 for the empty one.
pub open spec fn lowest(bb: u64) -> int {
    vstd::std_specs::bits::u64_trailing_zeros(bb) as int
}

/// The highest square of a bitboard, -1 for the empty one.
pub open spec fn highest(bb: u64) -> int {
    63 - vstd::std_specs::bits::u64_leading_zeros(bb)
}

/// Exactly one square is in the bitboard.
pub open spec fn single(bb: u64) -> bool {
    bb != 0 && bb & ((bb - 1) as u64) == 0
}

/// Whether exactly one square is in the bitboard.
pub fn is_single(bb: u64) -> (r: bool)
    ensures
        r == single(bb),
{
    bb != 0 && bb & (bb - 1) == 0
}

/// The lowest square of a non-empty bitboard.
pub fn lowest_square(bb: u64) -> (r: usize)
    requires
        bb != 0,
    ensures
        r == lowest(bb),
        r < 64,
        in_bb(bb, r as int),
        forall|i: int| 0 <= i < r ==> !in_bb(bb, i),
{
    proof {
        vstd::std_specs::bits::axiom_u64_trailing_zeros(bb);
        let t = vstd::std_specs::bits::u64_trailing_zeros(bb);
        assert forall|i: int| 0 <= i < t implies !in_bb(bb, i) by {
            let j = i as u64;
            assert((bb >> j) & 1u64 == 0u64);
        }
    }
    bb.trailing_zeros() as usize
}

/// The highest square of a non-empty bitboard.
pub fn highest_square(bb: u64) -> (r: usize)
    requires
        bb != 0,
    ensures
        r == highest(bb),
        r < 64,
        in_bb(bb, r as int),
        forall|i: int| r < i < 64 ==> !in_bb(bb, i),
{
    proof {
        vstd::std_specs::bits::axiom_u64_leading_zeros(bb);
        let z = vstd::std_specs::bits::u64_leading_zeros(bb);
        let top = (63 - z) as u64;
        let shifted = bb >> top;
        assert(shifted & 1 != 0 ==> shifted & 1 == 1) by (bit_vector);
        assert forall|i: int| 63 - z < i < 64 implies !in_bb(bb, i) by {
            let j = i as u64;
            assert((bb >> j) & 1u64 == 0u64);
        }
    }
    (63 - bb.leading_zeros()) as usize
}


/// Two bitboards share a square exactly when their intersection is not
/// empty.
pub proof fn lemma_bb_meet(a: u64, b: u64)
    ensures
        (a & b != 0) == exists|i: int| 0 <= i < 64 && in_bb(a, i) && #[trigger] in_bb(b, i),
{
    lemma_bb_and(a, b);
    if a & b != 0 {
        let x = a & b;
        vstd::std_specs::bits::axiom_u64_trailing_zeros(x);
        let t = vstd::std_specs::bits::u64_trailing_zeros(x) as u64;
        assert(bit_at(x, t));
        assert(in_bb(x, t as int));
        assert(in_bb(a, t as int) && in_bb(b, t as int));
    } else {
        lemma_bb_zero();
        assert forall|i: int| 0 <= i < 64 && in_bb(a, i) implies !#[trigger] in_bb(b, i) by {
            assert(in_bb(a & b, i) == (in_bb(a, i) && in_bb(b, i)));
        }
    }
}

/// A non-empty bitboard holds its lowest square.
pub proof fn lemma_lowest(bb: u64)
    requires
        bb != 0,
    ensures
        0 <= lowest(bb) < 64,
        in_bb(bb, lowest(bb)),
        forall|i: int| 0 <= i < lowest(bb) ==> !in_bb(bb, i),
{
    vstd::std_specs::bits::axiom_u64_trailing_zeros(bb);
    let t = vstd::std_specs::bits::u64_trailing_zeros(bb);
    assert forall|i: int| 0 <= i < t implies !in_bb(bb, i) by {
        let j = i as u64;
        assert((bb >> j) & 1u64 == 0u64);
    }
}

/// A bitboard that loses nothing but its lowest square when one is taken
/// from it as a number holds one square; a bitboard of one square does so.
proof fn lemma_single_bits(bb: u64, i: u64, j: u64)
    by (bit_vector)
    requires
        i < 64,
        j < 64,
        bb != 0,
    ensures
        bb & ((bb - 1) as u64) == 0 && (bb >> i) & 1 == 1 && (bb >> j) & 1 == 1 ==> i == j,
        bb == 1u64 << i ==> bb & ((bb - 1) as u64) == 0,
{
}

/// A bitboard is single exactly when it holds one square and no other.
pub proof fn lemma_single(bb: u64)
    ensures
        single(bb) == exists|s: int|
            0 <= s < 64 && #[trigger] in_bb(bb, s) && forall|i: int| in_bb(bb, i) ==> i == s,
{
    if bb != 0 {
        lemma_lowest(bb);
        let s = lowest(bb);
        if single(bb) {
            assert forall|i: int| in_bb(bb, i) implies i == s by {
                lemma_single_bits(bb, i as u64, s as u64);
            }
        } else {
            lemma_single_bits(bb, s as u64, s as u64);
            assert(bb != bit(s));
            lemma_bb_bit(s);
            if forall|i: int| 0 <= i < 64 ==> in_bb(bb, i) == in_bb(bit(s), i) {
                lemma_extensional(bb, bit(s));
            }
            let i = choose|i: int| 0 <= i < 64 && in_bb(bb, i) != in_bb(bit(s), i);
            assert(in_bb(bb, i) && i != s);
            assert(in_bb(bb, s));
        }
    } else {
        lemma_bb_zero();
    }
}

} // verus!
