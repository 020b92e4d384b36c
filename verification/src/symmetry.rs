//! The mirror image of a position, and that the evaluation of the mirror
//! image is the evaluation with the other sign. A search without depth
//! gives a quiet position its evaluation.

use vstd::prelude::*;
use crate::bits::{in_bb, lemma_bb_and, lemma_extensional, lemma_mask_of, mask_of};
use crate::board::{Board, Piece, Side};
use crate::eval::{
    count_upto, doubled_upto, eg_upto, endgame_weight, eval_spec, extras_eg, extras_mg,
    full_mobility, mg_upto, on_board_item, phase_upto, phase_weight, piece_eg, piece_mg, signed,
    table_square,
};
use crate::game::{attack_set, Situation};
use crate::legality::{attacks, lemma_attack_set};
use crate::move_bitboards::{
    FILE_MASKS, RayDirection, between, bishop_reach, file_of, on_ray, rank_of, rook_reach,
    sees_along,
};
use crate::movegen::{comp_ray_mask, in_check, legal_moves};
use crate::moves::Move;
use crate::search::{
    INFINITY, SearchState, from_side_spec, insertion_point, qsearch_moves, quiescence_horizon,
    root_search, sorted_moves, sorted_upto,
};
use crate::zobrist::{key_piece, key_side, ZobristHasher};

verus! {

/// The square that a square becomes when the board is turned upside
/// down: the same file, the ranks counted from the other end.
pub open spec fn flip_square(s: int) -> int {
    8 * (7 - rank_of(s)) + file_of(s)
}

/// The squares of a bitboard on the board turned upside down.
pub open spec fn flip_bb(x: u64) -> u64 {
    mask_of(|t: int| in_bb(x, flip_square(t)))
}

/// The mirror image of a board: the board turned upside down, the colours
/// of the pieces exchanged, and the other side to move.
pub open spec fn mirror(b: Board) -> Board {
    Board {
        pawns: [flip_bb(b.pawns[1]), flip_bb(b.pawns[0])],
        knights: [flip_bb(b.knights[1]), flip_bb(b.knights[0])],
        bishops: [flip_bb(b.bishops[1]), flip_bb(b.bishops[0])],
        rooks: [flip_bb(b.rooks[1]), flip_bb(b.rooks[0])],
        queens: [flip_bb(b.queens[1]), flip_bb(b.queens[0])],
        king: [flip_bb(b.king[1]), flip_bb(b.king[0])],
        side_to_move: b.side_to_move.opposite(),
        castling_right_long: [b.castling_right_long[1], b.castling_right_long[0]],
        castling_right_short: [b.castling_right_short[1], b.castling_right_short[0]],
        en_passant_square: if b.en_passant_square == 0 || b.en_passant_square >= 64 {
            b.en_passant_square
        } else {
            flip_square(b.en_passant_square as int) as usize
        },
    }
}

/// The sum of `f` over the numbers below `n`.
pub open spec fn sum_upto(f: spec_fn(int) -> int, n: int) -> int
    decreases n,
{
    if n <= 0 {
        0
    } else {
        sum_upto(f, n - 1) + f(n - 1)
    }
}

/// Sums of functions that agree are equal.
pub proof fn lemma_sum_same(f: spec_fn(int) -> int, g: spec_fn(int) -> int, n: int)
    requires
        forall|j: int| 0 <= j < n ==> #[trigger] f(j) == g(j),
    ensures
        sum_upto(f, n) == sum_upto(g, n),
    decreases n,
{
    if n > 0 {
        lemma_sum_same(f, g, n - 1);
    }
}

/// A sum in two parts.
pub proof fn lemma_sum_split(f: spec_fn(int) -> int, a: int, n: int)
    requires
        0 <= a,
        0 <= n,
    ensures
        sum_upto(f, a + n) == sum_upto(f, a) + sum_upto(|j: int| f(a + j), n),
    decreases n,
{
    if n > 0 {
        lemma_sum_split(f, a, n - 1);
        lemma_sum_same(|j: int| f(a + j), |j: int| f(a + j), n - 1);
    }
}

/// The sum of a function with the opposite sign.
pub proof fn lemma_sum_negated(f: spec_fn(int) -> int, g: spec_fn(int) -> int, n: int)
    requires
        forall|j: int| 0 <= j < n ==> #[trigger] f(j) == -g(j),
    ensures
        sum_upto(f, n) == -sum_upto(g, n),
    decreases n,
{
    if n > 0 {
        lemma_sum_negated(f, g, n - 1);
    }
}

/// The sum over one rank of the board.
pub open spec fn rank_sum(f: spec_fn(int) -> int, r: int) -> int {
    sum_upto(|j: int| f(8 * r + j), 8)
}

/// The sum over the board is the sum over its ranks.
pub proof fn lemma_sum_by_ranks(f: spec_fn(int) -> int)
    ensures
        sum_upto(f, 64) == rank_sum(f, 0) + rank_sum(f, 1) + rank_sum(f, 2) + rank_sum(f, 3)
            + rank_sum(f, 4) + rank_sum(f, 5) + rank_sum(f, 6) + rank_sum(f, 7),
{
    lemma_sum_split(f, 0, 8);
    lemma_sum_split(f, 8, 8);
    lemma_sum_split(f, 16, 8);
    lemma_sum_split(f, 24, 8);
    lemma_sum_split(f, 32, 8);
    lemma_sum_split(f, 40, 8);
    lemma_sum_split(f, 48, 8);
    lemma_sum_split(f, 56, 8);
    lemma_sum_same(|j: int| f(0 + j), |j: int| f(8 * 0 + j), 8);
    lemma_sum_same(|j: int| f(8 + j), |j: int| f(8 * 1 + j), 8);
    lemma_sum_same(|j: int| f(16 + j), |j: int| f(8 * 2 + j), 8);
    lemma_sum_same(|j: int| f(24 + j), |j: int| f(8 * 3 + j), 8);
    lemma_sum_same(|j: int| f(32 + j), |j: int| f(8 * 4 + j), 8);
    lemma_sum_same(|j: int| f(40 + j), |j: int| f(8 * 5 + j), 8);
    lemma_sum_same(|j: int| f(48 + j), |j: int| f(8 * 6 + j), 8);
    lemma_sum_same(|j: int| f(56 + j), |j: int| f(8 * 7 + j), 8);
    assert(sum_upto(f, 0) == 0);
}

/// The sum over the board does not change when the board is turned upside
/// down.
pub proof fn lemma_sum_flipped(f: spec_fn(int) -> int)
    ensures
        sum_upto(|s: int| f(flip_square(s)), 64) == sum_upto(f, 64),
{
    let g = |s: int| f(flip_square(s));
    lemma_sum_by_ranks(f);
    lemma_sum_by_ranks(g);
    assert forall|r: int| 0 <= r < 8 implies #[trigger] rank_sum(g, r) == rank_sum(f, 7 - r) by {
        lemma_sum_same(|j: int| g(8 * r + j), |j: int| f(8 * (7 - r) + j), 8);
    }
    assert(rank_sum(g, 0) == rank_sum(f, 7));
    assert(rank_sum(g, 1) == rank_sum(f, 6));
    assert(rank_sum(g, 2) == rank_sum(f, 5));
    assert(rank_sum(g, 3) == rank_sum(f, 4));
    assert(rank_sum(g, 4) == rank_sum(f, 3));
    assert(rank_sum(g, 5) == rank_sum(f, 2));
    assert(rank_sum(g, 6) == rank_sum(f, 1));
    assert(rank_sum(g, 7) == rank_sum(f, 0));
}

/// Turning the board upside down twice gives the board.
pub proof fn lemma_flip_twice(s: int)
    requires
        0 <= s < 64,
    ensures
        0 <= flip_square(s) < 64,
        flip_square(flip_square(s)) == s,
        file_of(flip_square(s)) == file_of(s),
        rank_of(flip_square(s)) == 7 - rank_of(s),
{
}

/// The squares of a flipped bitboard.
pub proof fn lemma_flip_bb(x: u64)
    ensures
        forall|t: int| 0 <= t < 64 ==> #[trigger] in_bb(flip_bb(x), t) == in_bb(x, flip_square(t)),
{
    lemma_mask_of(|t: int| in_bb(x, flip_square(t)));
}


/// The direction that a direction becomes when the board is turned upside
/// down.
pub open spec fn flip_direction(dir: RayDirection) -> RayDirection {
    match dir {
        RayDirection::North => RayDirection::South,
        RayDirection::South => RayDirection::North,
        RayDirection::East => RayDirection::East,
        RayDirection::West => RayDirection::West,
        RayDirection::NorthEast => RayDirection::SouthEast,
        RayDirection::SouthEast => RayDirection::NorthEast,
        RayDirection::SouthWest => RayDirection::NorthWest,
        RayDirection::NorthWest => RayDirection::SouthWest,
    }
}

/// A ray turned upside down is the ray in the flipped direction.
pub proof fn lemma_on_ray_flipped(dir: RayDirection, s: int, t: int)
    requires
        0 <= s < 64,
        0 <= t < 64,
    ensures
        on_ray(dir, s, t) == on_ray(flip_direction(dir), flip_square(s), flip_square(t)),
{
    lemma_flip_twice(s);
    lemma_flip_twice(t);
}

/// What a slider sees along a ray on the flipped board is what it sees
/// from the flipped square along the flipped ray on the board.
pub proof fn lemma_sees_along_flipped(dir: RayDirection, s: int, occ: u64, t: int)
    requires
        0 <= s < 64,
        0 <= t < 64,
    ensures
        sees_along(dir, s, flip_bb(occ), t) == sees_along(
            flip_direction(dir),
            flip_square(s),
            occ,
            flip_square(t),
        ),
{
    lemma_on_ray_flipped(dir, s, t);
    lemma_flip_bb(occ);
    let d2 = flip_direction(dir);
    let s2 = flip_square(s);
    let t2 = flip_square(t);
    if on_ray(dir, s, t) {
        if sees_along(dir, s, flip_bb(occ), t) {
            assert forall|v: int| #[trigger] between(d2, s2, t2, v) implies !in_bb(occ, v) by {
                let u = flip_square(v);
                lemma_flip_twice(v);
                lemma_on_ray_flipped(dir, s, u);
                lemma_on_ray_flipped(dir, u, t);
                assert(between(dir, s, t, u));
                assert(in_bb(flip_bb(occ), u) == in_bb(occ, flip_square(u)));
            }
        }
        if sees_along(d2, s2, occ, t2) {
            assert forall|u: int| #[trigger] between(dir, s, t, u) implies !in_bb(
                flip_bb(occ),
                u,
            ) by {
                lemma_on_ray_flipped(dir, s, u);
                lemma_on_ray_flipped(dir, u, t);
                assert(between(d2, s2, t2, flip_square(u)));
            }
        }
    }
}

/// What a bishop sees on the flipped board.
pub proof fn lemma_bishop_sees_flipped(s: int, occ: u64, t: int)
    requires
        0 <= s < 64,
        0 <= t < 64,
    ensures
        crate::move_bitboards::bishop_sees(s, flip_bb(occ), t) == crate::move_bitboards::bishop_sees(
            flip_square(s),
            occ,
            flip_square(t),
        ),
{
    lemma_sees_along_flipped(RayDirection::NorthEast, s, occ, t);
    lemma_sees_along_flipped(RayDirection::SouthEast, s, occ, t);
    lemma_sees_along_flipped(RayDirection::SouthWest, s, occ, t);
    lemma_sees_along_flipped(RayDirection::NorthWest, s, occ, t);
}

/// What a rook sees on the flipped board.
pub proof fn lemma_rook_sees_flipped(s: int, occ: u64, t: int)
    requires
        0 <= s < 64,
        0 <= t < 64,
    ensures
        crate::move_bitboards::rook_sees(s, flip_bb(occ), t) == crate::move_bitboards::rook_sees(
            flip_square(s),
            occ,
            flip_square(t),
        ),
{
    lemma_sees_along_flipped(RayDirection::North, s, occ, t);
    lemma_sees_along_flipped(RayDirection::East, s, occ, t);
    lemma_sees_along_flipped(RayDirection::South, s, occ, t);
    lemma_sees_along_flipped(RayDirection::West, s, occ, t);
}

/// What a knight or a king attacks on the flipped board.
pub proof fn lemma_leaper_flipped(s: int, t: int)
    requires
        0 <= s < 64,
        0 <= t < 64,
    ensures
        crate::move_bitboards::knight_reach(s, t) == crate::move_bitboards::knight_reach(
            flip_square(s),
            flip_square(t),
        ),
        crate::move_bitboards::king_reach(s, t) == crate::move_bitboards::king_reach(
            flip_square(s),
            flip_square(t),
        ),
{
    lemma_flip_twice(s);
    lemma_flip_twice(t);
    let fs = file_of(s);
    let rs = rank_of(s);
    let ft = file_of(t);
    let rt = rank_of(t);
    assert(crate::move_bitboards::abs_diff(7 - rs, 7 - rt) == crate::move_bitboards::abs_diff(
        rs,
        rt,
    ));
    assert(s == 8 * rs + fs && t == 8 * rt + ft);
    assert((s == t) == (flip_square(s) == flip_square(t)));
}

/// What a piece other than a pawn attacks on the flipped board is what it
/// attacks from the flipped square on the board.
pub proof fn lemma_attacks_flipped(piece: Piece, side: Side, s: int, occ: u64, t: int)
    requires
        piece != Piece::Pawn,
        0 <= s < 64,
        0 <= t < 64,
    ensures
        attacks(piece, side, s, flip_bb(occ), t) == attacks(
            piece,
            side,
            flip_square(s),
            occ,
            flip_square(t),
        ),
{
    match piece {
        Piece::Bishop => {
            lemma_bishop_sees_flipped(s, occ, t);
        },
        Piece::Rook => {
            lemma_rook_sees_flipped(s, occ, t);
        },
        Piece::Queen => {
            lemma_bishop_sees_flipped(s, occ, t);
            lemma_rook_sees_flipped(s, occ, t);
        },
        _ => {
            lemma_leaper_flipped(s, t);
        },
    }
}

/// The rays of a slider on an empty board, turned upside down.
pub proof fn lemma_comp_ray_flipped(piece: Piece, s: int, t: int)
    requires
        piece.is_slider(),
        0 <= s < 64,
        0 <= t < 64,
    ensures
        in_bb(comp_ray_mask(piece, s), t) == in_bb(
            comp_ray_mask(piece, flip_square(s)),
            flip_square(t),
        ),
{
    let s2 = flip_square(s);
    lemma_mask_of(|t: int| bishop_reach(s, t));
    lemma_mask_of(|t: int| rook_reach(s, t));
    lemma_mask_of(|t: int| bishop_reach(s, t) || rook_reach(s, t));
    lemma_mask_of(|t: int| bishop_reach(s2, t));
    lemma_mask_of(|t: int| rook_reach(s2, t));
    lemma_mask_of(|t: int| bishop_reach(s2, t) || rook_reach(s2, t));
    lemma_on_ray_flipped(RayDirection::North, s, t);
    lemma_on_ray_flipped(RayDirection::East, s, t);
    lemma_on_ray_flipped(RayDirection::South, s, t);
    lemma_on_ray_flipped(RayDirection::West, s, t);
    lemma_on_ray_flipped(RayDirection::NorthEast, s, t);
    lemma_on_ray_flipped(RayDirection::SouthEast, s, t);
    lemma_on_ray_flipped(RayDirection::SouthWest, s, t);
    lemma_on_ray_flipped(RayDirection::NorthWest, s, t);
}

/// The bitboards of the mirror image.
pub proof fn lemma_mirror_bb(b: Board, piece: Piece, side: Side)
    ensures
        mirror(b).bb(piece, side) == flip_bb(b.bb(piece, side.opposite())),
{
}

/// The occupied squares of the mirror image are those of the board turned
/// upside down.
pub proof fn lemma_mirror_occupancy(b: Board)
    ensures
        mirror(b).all_occupancy() == flip_bb(b.all_occupancy()),
{
    let m = mirror(b);
    crate::board::lemma_occupancy(b, Side::White);
    crate::board::lemma_occupancy(b, Side::Black);
    crate::board::lemma_all_occupancy(b);
    crate::board::lemma_occupancy(m, Side::White);
    crate::board::lemma_occupancy(m, Side::Black);
    crate::board::lemma_all_occupancy(m);
    lemma_flip_bb(b.all_occupancy());
    assert forall|t: int| 0 <= t < 64 implies in_bb(m.all_occupancy(), t) == in_bb(
        flip_bb(b.all_occupancy()),
        t,
    ) by {
        lemma_flip_twice(t);
        lemma_flip_bb(b.pawns[0]);
        lemma_flip_bb(b.pawns[1]);
        lemma_flip_bb(b.knights[0]);
        lemma_flip_bb(b.knights[1]);
        lemma_flip_bb(b.bishops[0]);
        lemma_flip_bb(b.bishops[1]);
        lemma_flip_bb(b.rooks[0]);
        lemma_flip_bb(b.rooks[1]);
        lemma_flip_bb(b.queens[0]);
        lemma_flip_bb(b.queens[1]);
        lemma_flip_bb(b.king[0]);
        lemma_flip_bb(b.king[1]);
    }
    lemma_extensional(m.all_occupancy(), flip_bb(b.all_occupancy()));
}

/// One bitboard holds every square of another exactly when their
/// intersection is the other.
pub proof fn lemma_holds_all(a: u64, c: u64)
    ensures
        (a & c == c) == (forall|t: int| 0 <= t < 64 && in_bb(c, t) ==> #[trigger] in_bb(a, t)),
{
    lemma_bb_and(a, c);
    if forall|t: int| 0 <= t < 64 && in_bb(c, t) ==> #[trigger] in_bb(a, t) {
        lemma_extensional(a & c, c);
    }
    if a & c == c {
        assert forall|t: int| 0 <= t < 64 && in_bb(c, t) implies #[trigger] in_bb(a, t) by {
            assert(in_bb(a & c, t));
        }
    }
}

/// A piece of the mirror image has every square it could have exactly when
/// the piece that it mirrors has.
pub proof fn lemma_full_mobility_mirrored(b: Board, piece: Piece, s: int)
    requires
        0 <= s < 64,
    ensures
        full_mobility(mirror(b), piece, s) == full_mobility(b, piece, flip_square(s)),
{
    let s2 = flip_square(s);
    lemma_flip_twice(s);
    if piece.is_slider() {
        let occ = b.all_occupancy();
        lemma_mirror_occupancy(b);
        let a1 = attack_set(piece, Side::White, s, flip_bb(occ));
        let c1 = comp_ray_mask(piece, s);
        let a2 = attack_set(piece, Side::White, s2, occ);
        let c2 = comp_ray_mask(piece, s2);
        lemma_holds_all(a1, c1);
        lemma_holds_all(a2, c2);
        lemma_attack_set(piece, Side::White, s, flip_bb(occ));
        lemma_attack_set(piece, Side::White, s2, occ);
        if forall|t: int| 0 <= t < 64 && in_bb(c1, t) ==> #[trigger] in_bb(a1, t) {
            assert forall|t: int| 0 <= t < 64 && in_bb(c2, t) implies #[trigger] in_bb(a2, t) by {
                let u = flip_square(t);
                lemma_flip_twice(t);
                lemma_comp_ray_flipped(piece, s, u);
                lemma_attacks_flipped(piece, Side::White, s, occ, u);
                assert(in_bb(c1, u));
                assert(in_bb(a1, u));
            }
        }
        if forall|t: int| 0 <= t < 64 && in_bb(c2, t) ==> #[trigger] in_bb(a2, t) {
            assert forall|t: int| 0 <= t < 64 && in_bb(c1, t) implies #[trigger] in_bb(a1, t) by {
                lemma_flip_twice(t);
                lemma_comp_ray_flipped(piece, s, t);
                lemma_attacks_flipped(piece, Side::White, s, occ, t);
                assert(in_bb(c2, flip_square(t)));
                assert(in_bb(a2, flip_square(t)));
            }
        }
    }
}

/// The worth of a piece of the mirror image is the worth of the piece
/// that it mirrors.
pub proof fn lemma_piece_values_mirrored(b: Board, piece: Piece, side: Side, s: int)
    requires
        0 <= s < 64,
    ensures
        piece_mg(mirror(b), piece, side, s) == piece_mg(b, piece, side.opposite(), flip_square(s)),
        piece_eg(mirror(b), piece, side, s) == piece_eg(b, piece, side.opposite(), flip_square(s)),
        table_square(side, s) == table_square(side.opposite(), flip_square(s)),
{
    lemma_full_mobility_mirrored(b, piece, s);
}


/// The sum over the squares of the `g`-th of the twelve kinds of
/// pieces.
pub open spec fn group_sum(f: spec_fn(int) -> int, g: int) -> int {
    sum_upto(|j: int| f(64 * g + j), 64)
}

/// The sum over all pieces and squares is the sum over the twelve kinds.
pub proof fn lemma_sum_by_groups(f: spec_fn(int) -> int)
    ensures
        sum_upto(f, 768) == group_sum(f, 0) + group_sum(f, 1) + group_sum(f, 2) + group_sum(f, 3)
            + group_sum(f, 4) + group_sum(f, 5) + group_sum(f, 6) + group_sum(f, 7) + group_sum(
            f,
            8,
        ) + group_sum(f, 9) + group_sum(f, 10) + group_sum(f, 11),
{
    lemma_sum_split(f, 0, 64);
    lemma_sum_split(f, 64, 64);
    lemma_sum_split(f, 128, 64);
    lemma_sum_split(f, 192, 64);
    lemma_sum_split(f, 256, 64);
    lemma_sum_split(f, 320, 64);
    lemma_sum_split(f, 384, 64);
    lemma_sum_split(f, 448, 64);
    lemma_sum_split(f, 512, 64);
    lemma_sum_split(f, 576, 64);
    lemma_sum_split(f, 640, 64);
    lemma_sum_split(f, 704, 64);
    lemma_sum_same(|j: int| f(0 + j), |j: int| f(64 * 0 + j), 64);
    lemma_sum_same(|j: int| f(64 + j), |j: int| f(64 * 1 + j), 64);
    lemma_sum_same(|j: int| f(128 + j), |j: int| f(64 * 2 + j), 64);
    lemma_sum_same(|j: int| f(192 + j), |j: int| f(64 * 3 + j), 64);
    lemma_sum_same(|j: int| f(256 + j), |j: int| f(64 * 4 + j), 64);
    lemma_sum_same(|j: int| f(320 + j), |j: int| f(64 * 5 + j), 64);
    lemma_sum_same(|j: int| f(384 + j), |j: int| f(64 * 6 + j), 64);
    lemma_sum_same(|j: int| f(448 + j), |j: int| f(64 * 7 + j), 64);
    lemma_sum_same(|j: int| f(512 + j), |j: int| f(64 * 8 + j), 64);
    lemma_sum_same(|j: int| f(576 + j), |j: int| f(64 * 9 + j), 64);
    lemma_sum_same(|j: int| f(640 + j), |j: int| f(64 * 10 + j), 64);
    lemma_sum_same(|j: int| f(704 + j), |j: int| f(64 * 11 + j), 64);
    assert(sum_upto(f, 0) == 0);
}

/// The kind of piece that the `g`-th kind mirrors: the same piece of the
/// other side.
pub open spec fn mirrored_group(g: int) -> int {
    (g + 6) % 12
}

/// A sum whose terms are, with the other sign, the terms of another sum at
/// the mirrored places is that sum with the other sign.
pub proof fn lemma_mirrored_sum(f: spec_fn(int) -> int, h: spec_fn(int) -> int)
    requires
        forall|g: int, j: int|
            0 <= g < 12 && 0 <= j < 64 ==> #[trigger] f(64 * g + j) == -h(
                64 * mirrored_group(g) + flip_square(j),
            ),
    ensures
        sum_upto(f, 768) == -sum_upto(h, 768),
{
    lemma_sum_by_groups(f);
    lemma_sum_by_groups(h);
    assert forall|g: int| 0 <= g < 12 implies #[trigger] group_sum(f, g) == -group_sum(
        h,
        mirrored_group(g),
    ) by {
        let g2 = mirrored_group(g);
        let there = |j: int| h(64 * g2 + j);
        let turned = |s: int| there(flip_square(s));
        lemma_sum_flipped(there);
        let here = |j: int| f(64 * g + j);
        assert forall|j: int| 0 <= j < 64 implies #[trigger] here(j) == -turned(j) by {
            assert(f(64 * g + j) == -h(64 * mirrored_group(g) + flip_square(j)));
        }
        lemma_sum_negated(here, turned, 64);
    }
    assert(group_sum(f, 0) == -group_sum(h, 6));
    assert(group_sum(f, 1) == -group_sum(h, 7));
    assert(group_sum(f, 2) == -group_sum(h, 8));
    assert(group_sum(f, 3) == -group_sum(h, 9));
    assert(group_sum(f, 4) == -group_sum(h, 10));
    assert(group_sum(f, 5) == -group_sum(h, 11));
    assert(group_sum(f, 6) == -group_sum(h, 0));
    assert(group_sum(f, 7) == -group_sum(h, 1));
    assert(group_sum(f, 8) == -group_sum(h, 2));
    assert(group_sum(f, 9) == -group_sum(h, 3));
    assert(group_sum(f, 10) == -group_sum(h, 4));
    assert(group_sum(f, 11) == -group_sum(h, 5));
}

/// What the `k`-th (side, piece, square) triple adds to the middlegame
/// value.
pub open spec fn mg_term(b: Board, k: int) -> int {
    if on_board_item(b, k) {
        signed(key_side(k), piece_mg(b, key_piece(k), key_side(k), k % 64))
    } else {
        0
    }
}

/// What the `k`-th triple adds to the endgame value.
pub open spec fn eg_term(b: Board, k: int) -> int {
    if on_board_item(b, k) {
        signed(key_side(k), piece_eg(b, key_piece(k), key_side(k), k % 64))
    } else {
        0
    }
}

/// What the `k`-th triple counts towards the middlegame.
pub open spec fn phase_term(b: Board, k: int) -> int {
    if on_board_item(b, k) {
        phase_weight(key_piece(k))
    } else {
        0
    }
}

/// The values of the pieces are sums of what each adds.
pub proof fn lemma_values_are_sums(b: Board, n: int)
    requires
        0 <= n,
    ensures
        mg_upto(b, n) == sum_upto(|k: int| mg_term(b, k), n),
        eg_upto(b, n) == sum_upto(|k: int| eg_term(b, k), n),
        phase_upto(b, n) == sum_upto(|k: int| phase_term(b, k), n),
    decreases n,
{
    if n > 0 {
        lemma_values_are_sums(b, n - 1);
    }
}

/// What a triple of the mirror image adds is what the triple that it
/// mirrors adds, with the other sign for the values.
pub proof fn lemma_terms_mirrored(b: Board, g: int, j: int)
    requires
        0 <= g < 12,
        0 <= j < 64,
    ensures
        mg_term(mirror(b), 64 * g + j) == -mg_term(b, 64 * mirrored_group(g) + flip_square(j)),
        eg_term(mirror(b), 64 * g + j) == -eg_term(b, 64 * mirrored_group(g) + flip_square(j)),
        phase_term(mirror(b), 64 * g + j) == phase_term(
            b,
            64 * mirrored_group(g) + flip_square(j),
        ),
{
    let k = 64 * g + j;
    let k2 = 64 * mirrored_group(g) + flip_square(j);
    lemma_flip_twice(j);
    assert(k / 64 == g && k % 64 == j);
    assert(k2 / 64 == mirrored_group(g) && k2 % 64 == flip_square(j));
    let piece = key_piece(k);
    let side = key_side(k);
    assert(key_piece(k2) == piece);
    assert(key_side(k2) == side.opposite());
    lemma_mirror_bb(b, piece, side);
    lemma_flip_bb(b.bb(piece, side.opposite()));
    lemma_piece_values_mirrored(b, piece, side, j);
}

/// The values of the pieces of the mirror image.
pub proof fn lemma_values_mirrored(b: Board)
    ensures
        mg_upto(mirror(b), 768) == -mg_upto(b, 768),
        eg_upto(mirror(b), 768) == -eg_upto(b, 768),
        phase_upto(mirror(b), 768) == phase_upto(b, 768),
{
    let m = mirror(b);
    lemma_values_are_sums(b, 768);
    lemma_values_are_sums(m, 768);
    let mg_there = |k: int| mg_term(m, k);
    let mg_here = |k: int| mg_term(b, k);
    assert forall|g: int, j: int| 0 <= g < 12 && 0 <= j < 64 implies #[trigger] mg_there(
        64 * g + j,
    ) == -mg_here(64 * mirrored_group(g) + flip_square(j)) by {
        lemma_terms_mirrored(b, g, j);
    }
    lemma_mirrored_sum(mg_there, mg_here);
    let eg_there = |k: int| eg_term(m, k);
    let eg_here = |k: int| eg_term(b, k);
    assert forall|g: int, j: int| 0 <= g < 12 && 0 <= j < 64 implies #[trigger] eg_there(
        64 * g + j,
    ) == -eg_here(64 * mirrored_group(g) + flip_square(j)) by {
        lemma_terms_mirrored(b, g, j);
    }
    lemma_mirrored_sum(eg_there, eg_here);
    let phase_there = |k: int| phase_term(m, k);
    let phase_here = |k: int| phase_term(b, k);
    let minus = |k: int| -phase_term(b, k);
    assert forall|g: int, j: int| 0 <= g < 12 && 0 <= j < 64 implies #[trigger] phase_there(
        64 * g + j,
    ) == -minus(64 * mirrored_group(g) + flip_square(j)) by {
        lemma_terms_mirrored(b, g, j);
    }
    lemma_mirrored_sum(phase_there, minus);
    assert forall|k: int| 0 <= k < 768 implies #[trigger] minus(k) == -phase_here(k) by {}
    lemma_sum_negated(minus, phase_here, 768);
}


/// The number of squares in a bitboard is a sum over the board.
pub proof fn lemma_count_is_sum(x: u64, n: int)
    requires
        0 <= n,
    ensures
        count_upto(x, n) == sum_upto(
            |j: int|
                if in_bb(x, j) {
                    1int
                } else {
                    0int
                },
            n,
        ),
    decreases n,
{
    if n > 0 {
        lemma_count_is_sum(x, n - 1);
    }
}

/// Two bitboards of which one holds a square exactly when the other holds
/// the flipped square hold as many squares.
pub proof fn lemma_count_flipped(x: u64, y: u64)
    requires
        forall|t: int| 0 <= t < 64 ==> in_bb(y, t) == in_bb(x, flip_square(t)),
    ensures
        count_upto(y, 64) == count_upto(x, 64),
{
    let of_x = |j: int|
        if in_bb(x, j) {
            1int
        } else {
            0int
        };
    let of_y = |j: int|
        if in_bb(y, j) {
            1int
        } else {
            0int
        };
    let turned = |s: int| of_x(flip_square(s));
    lemma_count_is_sum(x, 64);
    lemma_count_is_sum(y, 64);
    lemma_sum_flipped(of_x);
    assert forall|j: int| 0 <= j < 64 implies #[trigger] of_y(j) == turned(j) by {}
    lemma_sum_same(of_y, turned, 64);
}

/// The file masks hold the squares of their files.
pub proof fn lemma_file_masks(f: int, t: int)
    requires
        0 <= f < 8,
        0 <= t < 64,
    ensures
        in_bb(FILE_MASKS[f], t) == (file_of(t) == f),
{
    let i = t as u64;
    assert(i < 64 ==> ((((0x0101_0101_0101_0101u64 >> i) & 1 == 1) <==> i % 8 == 0) && (((
    0x0202_0202_0202_0202u64 >> i) & 1 == 1) <==> i % 8 == 1) && (((0x0404_0404_0404_0404u64 >> i)
        & 1 == 1) <==> i % 8 == 2) && (((0x0808_0808_0808_0808u64 >> i) & 1 == 1) <==> i % 8 == 3)
        && (((0x1010_1010_1010_1010u64 >> i) & 1 == 1) <==> i % 8 == 4) && (((
    0x2020_2020_2020_2020u64 >> i) & 1 == 1) <==> i % 8 == 5) && (((0x4040_4040_4040_4040u64 >> i)
        & 1 == 1) <==> i % 8 == 6) && (((0x8080_8080_8080_8080u64 >> i) & 1 == 1) <==> i % 8
        == 7))) by (bit_vector);
}

/// The pawns that stand behind others of their side are as many on the
/// board turned upside down.
pub proof fn lemma_doubled_flipped(pawns: u64, f: int)
    requires
        0 <= f <= 8,
    ensures
        doubled_upto(flip_bb(pawns), f) == doubled_upto(pawns, f),
    decreases f,
{
    if f > 0 {
        lemma_doubled_flipped(pawns, f - 1);
        let mask = FILE_MASKS[f - 1];
        let here = mask & pawns;
        let there = mask & flip_bb(pawns);
        lemma_bb_and(mask, pawns);
        lemma_bb_and(mask, flip_bb(pawns));
        lemma_flip_bb(pawns);
        assert forall|t: int| 0 <= t < 64 implies in_bb(there, t) == in_bb(here, flip_square(t)) by {
            lemma_flip_twice(t);
            lemma_file_masks(f - 1, t);
            lemma_file_masks(f - 1, flip_square(t));
        }
        lemma_count_flipped(here, there);
    }
}

/// What a side of the mirror image has beyond its single pieces is what
/// the other side of the board has.
pub proof fn lemma_extras_mirrored(b: Board, side: Side)
    ensures
        extras_mg(mirror(b), side) == extras_mg(b, side.opposite()),
        extras_eg(mirror(b), side) == extras_eg(b, side.opposite()),
{
    let other = side.opposite();
    lemma_mirror_bb(b, Piece::Bishop, side);
    lemma_mirror_bb(b, Piece::Pawn, side);
    lemma_flip_bb(b.bb(Piece::Bishop, other));
    lemma_count_flipped(b.bb(Piece::Bishop, other), flip_bb(b.bb(Piece::Bishop, other)));
    lemma_doubled_flipped(b.bb(Piece::Pawn, other), 8);
}

/// The evaluator is its own mirror image: the evaluation of the mirror
/// image of a board is the evaluation of the board with the other sign.
pub proof fn lemma_eval_mirrored(b: Board)
    ensures
        eval_spec(mirror(b)) == -eval_spec(b),
{
    let m = mirror(b);
    lemma_values_mirrored(b);
    lemma_extras_mirrored(b, Side::White);
    lemma_extras_mirrored(b, Side::Black);
    let mg = mg_upto(b, 768) + extras_mg(b, Side::White) - extras_mg(b, Side::Black);
    let eg = eg_upto(b, 768) + extras_eg(b, Side::White) - extras_eg(b, Side::Black);
    let mg2 = mg_upto(m, 768) + extras_mg(m, Side::White) - extras_mg(m, Side::Black);
    let eg2 = eg_upto(m, 768) + extras_eg(m, Side::White) - extras_eg(m, Side::Black);
    assert(mg2 == -mg);
    assert(eg2 == -eg);
    let weight = endgame_weight(b);
    assert(endgame_weight(m) == weight);
    assert(mg2 * (256 - weight) + eg2 * weight == -(mg * (256 - weight) + eg * weight))
        by (nonlinear_arith)
        requires
            mg2 == -mg,
            eg2 == -eg,
    ;
}

/// No move of the sequence captures or promotes.
pub open spec fn all_calm(moves: Seq<Move>) -> bool {
    forall|i: int| 0 <= i < moves.len() ==> !(#[trigger] moves[i]).is_capture() && !moves[i].is_promotion()
}

/// The sequence holds two different moves.
pub open spec fn two_moves(moves: Seq<Move>) -> bool {
    exists|i: int, j: int| 0 <= i < j < moves.len() && #[trigger] moves[i] != #[trigger] moves[j]
}

/// A situation is quiet: the game has not ended, the side to move is not
/// in check and has the choice between two legal moves at least, and none
/// of its legal moves captures or promotes.
pub open spec fn quiet(situation: Situation) -> bool {
    let moves = legal_moves(situation.board);
    &&& !in_check(situation.board)
    &&& two_moves(moves)
    &&& situation.move_result(moves.len(), false) is None
    &&& all_calm(moves)
}

/// The place where a move goes into a sequence lies within the sequence
/// or at its end.
pub proof fn lemma_insertion_point_within(
    sorted: Seq<Move>,
    key: int,
    ply: int,
    killer_list: [[Move; 1024]; 2],
    at: int,
)
    requires
        0 <= at <= sorted.len(),
    ensures
        at <= insertion_point(sorted, key, ply, killer_list, at) <= sorted.len(),
    decreases sorted.len() - at,
{
    if at < sorted.len() && sorted[at].prio_spec(ply, killer_list) >= key {
        lemma_insertion_point_within(sorted, key, ply, killer_list, at + 1);
    }
}

/// Putting moves in order neither adds nor drops one, so moves of which
/// none captures or promotes stay such moves.
pub proof fn lemma_sorted_calm(moves: Seq<Move>, ply: int, killer_list: [[Move; 1024]; 2], n: int)
    requires
        0 <= n <= moves.len(),
        all_calm(moves),
    ensures
        sorted_upto(moves, ply, killer_list, n).len() == n,
        all_calm(sorted_upto(moves, ply, killer_list, n)),
    decreases n,
{
    if n > 0 {
        lemma_sorted_calm(moves, ply, killer_list, n - 1);
        let before = sorted_upto(moves, ply, killer_list, n - 1);
        let at = insertion_point(
            before,
            moves[n - 1].prio_spec(ply, killer_list),
            ply,
            killer_list,
            0,
        );
        lemma_insertion_point_within(
            before,
            moves[n - 1].prio_spec(ply, killer_list),
            ply,
            killer_list,
            0,
        );
        let now = before.insert(at, moves[n - 1]);
        assert(now == sorted_upto(moves, ply, killer_list, n));
        assert forall|i: int| 0 <= i < now.len() implies !(#[trigger] now[i]).is_capture()
            && !now[i].is_promotion() by {
            if i < at {
                assert(now[i] == before[i]);
            } else if i == at {
                assert(now[i] == moves[n - 1]);
            } else {
                assert(now[i] == before[i - 1]);
            }
        }
    }
}

/// Where the side to move is not in check and none of the moves from
/// place `i` on captures or promotes, the quiescence search tries none of
/// them and returns alpha.
pub proof fn lemma_calm_moves_skipped(
    state: SearchState,
    hasher: ZobristHasher,
    situation: Situation,
    moves: Seq<Move>,
    i: int,
    horizon: usize,
    ply: usize,
    alpha: i32,
    beta: i32,
    pv: Seq<Move>,
    stand_pat: i32,
    alpha_at_entry: i32,
)
    requires
        0 <= i <= moves.len(),
        all_calm(moves),
    ensures
        qsearch_moves(
            state,
            hasher,
            situation,
            moves,
            i,
            horizon,
            ply,
            false,
            alpha,
            beta,
            pv,
            stand_pat,
            alpha_at_entry,
        ).score == alpha,
    decreases moves.len() - i,
{
    if i < moves.len() && ply < horizon {
        assert(!moves[i].is_capture() && !moves[i].is_promotion());
        lemma_calm_moves_skipped(
            state,
            hasher,
            situation,
            moves,
            i + 1,
            horizon,
            ply,
            alpha,
            beta,
            pv,
            stand_pat,
            alpha_at_entry,
        );
    }
}

/// A search without depth gives a quiet situation its evaluation, seen
/// from the side to move.
pub proof fn lemma_quiet_score(
    killer_list: [[Move; 1024]; 2],
    hasher: ZobristHasher,
    situation: Situation,
)
    requires
        quiet(situation),
    ensures
        root_search(killer_list, hasher, situation, 0).score == from_side_spec(
            situation.board.side_to_move,
            eval_spec(situation.board) as i32,
        ),
{
    let cleared = SearchState { tt: Map::empty(), killer_list, best_move: Move::null() };
    let listed = legal_moves(situation.board);
    let moves = sorted_moves(listed, 1, killer_list);
    lemma_sorted_calm(listed, 1, killer_list, listed.len() as int);
    let state = SearchState { best_move: moves[0], ..cleared };
    let stand_pat = from_side_spec(situation.board.side_to_move, eval_spec(situation.board) as i32);
    lemma_calm_moves_skipped(
        state,
        hasher,
        situation,
        moves,
        0,
        quiescence_horizon(1),
        1,
        stand_pat,
        INFINITY,
        Seq::empty(),
        stand_pat,
        stand_pat,
    );
}

} // verus!
