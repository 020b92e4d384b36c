//! The rules of movement, and that the generator gives the moves that the
//! rules allow.

use vstd::prelude::*;
use crate::bits::{
    bit, in_bb, lemma_bb_all, lemma_bb_and, lemma_bb_bit, lemma_bb_meet, lemma_bb_not, lemma_bb_or,
    lemma_bb_zero, lemma_extensional, lemma_mask_of,
};
use crate::board::{
    Board, Piece, Side, king_square, lemma_after_move_frame, lemma_all_occupancy,
    lemma_kings_stay_single, lemma_occupancy, rook_long_square, rook_short_square,
};
use crate::game::attack_set;
use crate::legality::{
    attacks, checker_entry, disjoint, king_on, lemma_after_castle, lemma_after_occupancy,
    lemma_after_piece, lemma_attack_set, lemma_attacks_between, lemma_castling_king,
    lemma_checkers_upto, lemma_danger, lemma_direction_unique, lemma_gives_check,
    lemma_king_square, lemma_legal_moves_safe, lemma_move_shape, lemma_pin_update, lemma_pins_len,
    lemma_pins_upto, lemma_ray_up_to_king, lemma_slider_attacks, pin_mask, pinned_by, safe_after,
    slides_along, valid,
};
use crate::move_bitboards::{
    RayDirection, between, bishop_attacks, king_mask, king_reach, lemma_bishop_attacks,
    lemma_ray_mask, lemma_ray_order, lemma_ray_transitive, lemma_ray_trichotomy,
    lemma_rook_attacks, lemma_sees_along_symmetric, on_ray, pawn_capture_mask, pawn_capture_reach,
    rook_attacks, sees_along,
};
use crate::movegen::{
    Checker, block_mask, castle_move, castling_moves, checkers, checkers_upto, danger,
    en_passant_bit, en_passant_safe, en_passant_victim, enemy_item, gives_check, in_check,
    item_piece, item_square, king_ray_mask, king_ray_masks, legal_moves, lemma_castle_paths,
    lemma_targets, long_castle_king_path, long_castle_path, may_castle_long, may_castle_short,
    moves_from, moves_of_piece, moves_of_pieces, moves_to, occupancy_without_king, own_king,
    pawn_advance, pawn_advances, pawn_mask, pawn_targets, pins, pins_upto, ray_towards_king,
    ray_up_to_king, short_castle_path, targets, them, victim_on,
};
use crate::moves::{Move, MoveType};

verus! {

/// The `piece` of the side to move on `s` can go to `t` by the way it
/// moves, the king's safety aside: a pawn advances onto empty squares or
/// captures diagonally what stands there or on the en-passant square, any
/// other piece moves to a square that it attacks.
pub open spec fn reaches(b: Board, piece: Piece, s: int, t: int) -> bool {
    match piece {
        Piece::Pawn => pawn_advance(b, s, t) || (pawn_capture_reach(b.side_to_move, s, t) && (
        in_bb(b.occupancy(them(b)), t) || (b.en_passant_square != 0 && t
            == b.en_passant_square))),
        _ => attacks(piece, b.side_to_move, s, b.all_occupancy(), t),
    }
}

/// Move `m` is a move of the side to move that obeys the way the pieces
/// move, the king's safety aside: the piece stands on its square and can
/// go to the target; the target holds no piece of the mover and not the
/// other king; the move's kind says what happens on the board, a capture
/// of what stands on the target, a promotion on the last rank, an
/// en-passant capture of a pawn that stands behind the en-passant square.
pub open spec fn pseudo_legal(b: Board, m: Move) -> bool {
    let s = m.from_square as int;
    let t = m.to_square as int;
    &&& m.side == b.side_to_move
    &&& !m.is_castling_spec()
    &&& 0 <= s < 64
    &&& 0 <= t < 64
    &&& in_bb(b.bb(m.piece, b.side_to_move), s)
    &&& reaches(b, m.piece, s, t)
    &&& !in_bb(b.occupancy(b.side_to_move), t)
    &&& !in_bb(b.bb(Piece::King, them(b)), t)
    &&& moves_to(b, m.piece, s, t).contains(m)
    &&& m.move_type is EnPassantCapture ==> 0 <= en_passant_victim(b) < 64 && in_bb(
        b.bb(Piece::Pawn, them(b)),
        en_passant_victim(b),
    )
}

/// A piece of the other side attacks square `t` on the board as it is.
pub open spec fn attacked(b: Board, t: int) -> bool {
    exists|piece: Piece, q: int|
        0 <= q < 64 && in_bb(b.bb(piece, them(b)), q) && #[trigger] attacks(
            piece,
            them(b),
            q,
            b.all_occupancy(),
            t,
        )
}

/// The side to move may castle to the given side as far as king, rook and
/// the squares between them go: the right is held, king and rook stand on
/// their squares, and the squares between them are empty.
pub open spec fn castling_ready(b: Board, short: bool) -> bool {
    let side = b.side_to_move;
    &&& in_bb(own_king(b), king_square(side))
    &&& if short {
        &&& b.castling_right_short[side.index_spec()]
        &&& in_bb(b.bb(Piece::Rook, side), rook_short_square(side))
        &&& !in_bb(b.all_occupancy(), king_square(side) - 1)
        &&& !in_bb(b.all_occupancy(), king_square(side) - 2)
    } else {
        &&& b.castling_right_long[side.index_spec()]
        &&& in_bb(b.bb(Piece::Rook, side), rook_long_square(side))
        &&& !in_bb(b.all_occupancy(), king_square(side) + 1)
        &&& !in_bb(b.all_occupancy(), king_square(side) + 2)
        &&& !in_bb(b.all_occupancy(), king_square(side) + 3)
    }
}

/// Move `m` is legal: a castling move of a king that is ready to castle,
/// is not in check, and neither crosses nor reaches an attacked square; or
/// a move that obeys the way the pieces move and leaves the mover's king
/// unattacked.
pub open spec fn legal(b: Board, m: Move) -> bool {
    let side = b.side_to_move;
    if m.move_type is CastleShort {
        &&& m == castle_move(side, MoveType::CastleShort)
        &&& castling_ready(b, true)
        &&& !attacked(b, king_square(side))
        &&& !attacked(b, king_square(side) - 1)
        &&& !attacked(b, king_square(side) - 2)
    } else if m.move_type is CastleLong {
        &&& m == castle_move(side, MoveType::CastleLong)
        &&& castling_ready(b, false)
        &&& !attacked(b, king_square(side))
        &&& !attacked(b, king_square(side) + 1)
        &&& !attacked(b, king_square(side) + 2)
    } else {
        pseudo_legal(b, m) && safe_after(b, m)
    }
}


/// A target square of a piece is a square that the piece can go to.
pub proof fn lemma_targets_reach(b: Board, piece: Piece, s: int, mask: u64, t: int)
    requires
        in_bb(targets(b, piece, s, mask), t),
        b.en_passant_square < 64,
    ensures
        reaches(b, piece, s, t),
{
    let us = b.side_to_move;
    let own = b.occupancy(us);
    let their_king = b.bb(Piece::King, them(b));
    let base = match piece {
        Piece::Pawn => pawn_targets(b, s) & pawn_mask(b, mask),
        Piece::King => king_mask(s) & !danger(b) & mask,
        _ => attack_set(piece, us, s, b.all_occupancy()) & mask,
    };
    let pinned = base & pins(b)[s];
    let freed = pinned & !own;
    let allowed = freed & !their_king;
    lemma_targets(b, piece, s, mask, t);
    lemma_bb_and(base, pins(b)[s]);
    lemma_bb_and(pinned, !own);
    lemma_bb_and(freed, !their_king);
    if b.en_passant_square != 0 {
        lemma_bb_and(allowed, !bit(b.en_passant_square as int));
    }
    assert(in_bb(base, t));
    match piece {
        Piece::Pawn => {
            lemma_bb_and(pawn_targets(b, s), pawn_mask(b, mask));
            let captures = pawn_capture_mask(us, s) & (b.occupancy(them(b)) | en_passant_bit(b));
            lemma_bb_or(pawn_advances(b, s), captures);
            lemma_mask_of(|t: int| pawn_advance(b, s, t));
            lemma_bb_and(pawn_capture_mask(us, s), b.occupancy(them(b)) | en_passant_bit(b));
            lemma_bb_or(b.occupancy(them(b)), en_passant_bit(b));
            lemma_mask_of(|t: int| pawn_capture_reach(us, s, t));
            lemma_bb_zero();
            if b.en_passant_square != 0 {
                lemma_bb_bit(b.en_passant_square as int);
            }
        },
        Piece::King => {
            lemma_bb_and(king_mask(s) & !danger(b), mask);
            lemma_bb_and(king_mask(s), !danger(b));
            lemma_mask_of(|t: int| king_reach(s, t));
        },
        _ => {
            lemma_bb_and(attack_set(piece, us, s, b.all_occupancy()), mask);
            lemma_attack_set(piece, us, s, b.all_occupancy());
        },
    }
}

/// A move of a piece to one of its target squares obeys the way the
/// pieces move.
pub proof fn lemma_target_move_pseudo_legal(
    b: Board,
    piece: Piece,
    s: int,
    mask: u64,
    t: int,
    m: Move,
)
    requires
        b.en_passant_square < 64,
        0 <= s < 64,
        in_bb(b.bb(piece, b.side_to_move), s),
        in_bb(targets(b, piece, s, mask), t),
        moves_to(b, piece, s, t).contains(m),
    ensures
        pseudo_legal(b, m),
{
    lemma_targets(b, piece, s, mask, t);
    lemma_targets_reach(b, piece, s, mask, t);
    lemma_move_shape(b, piece, s, t, m);
}

/// A square that is attacked on the board as it is stays attacked when the
/// king of the side to move is taken off the board.
pub proof fn lemma_attacked_is_danger(b: Board, t: int)
    requires
        0 <= t < 64,
        attacked(b, t),
    ensures
        in_bb(danger(b), t),
{
    let (p, q) = choose|p: Piece, q: int|
        0 <= q < 64 && in_bb(b.bb(p, them(b)), q) && #[trigger] attacks(
            p,
            them(b),
            q,
            b.all_occupancy(),
            t,
        );
    let occ = b.all_occupancy();
    let without = occupancy_without_king(b);
    lemma_bb_not(own_king(b));
    lemma_bb_and(occ, !own_king(b));
    if p.is_slider() {
        lemma_slider_attacks(p, them(b), q, occ, t);
        lemma_slider_attacks(p, them(b), q, without, t);
        let dir = choose|dir: RayDirection| slides_along(p, dir) && #[trigger] sees_along(dir, q, occ, t);
        assert(sees_along(dir, q, without, t));
    }
    assert(attacks(p, them(b), q, without, t));
    lemma_danger(b, t);
}

/// The king is in check exactly when its square is attacked.
pub proof fn lemma_in_check(b: Board, k: int)
    requires
        b.kings_single(),
        king_on(b, k),
    ensures
        in_check(b) == attacked(b, k),
{
    lemma_checkers_upto(b, 384);
    if attacked(b, k) {
        let (p, q) = choose|p: Piece, q: int|
            0 <= q < 64 && in_bb(b.bb(p, them(b)), q) && #[trigger] attacks(
                p,
                them(b),
                q,
                b.all_occupancy(),
                k,
            );
        let j = p.index_spec() * 64 + q;
        assert(item_piece(j) == p && item_square(j) == q);
        lemma_gives_check(b, j, k);
        assert(gives_check(b, j));
    }
    if in_check(b) {
        lemma_some_checker(b, 384);
        let j = choose|j: int| 0 <= j < 384 && #[trigger] gives_check(b, j);
        lemma_gives_check(b, j, k);
        assert(attacks(item_piece(j), them(b), item_square(j), b.all_occupancy(), k));
    }
}

/// Where the list of checkers is not empty, a piece gives check.
pub proof fn lemma_some_checker(b: Board, n: int)
    requires
        0 <= n <= 384,
        crate::movegen::checkers_upto(b, n).len() > 0,
    ensures
        exists|j: int| 0 <= j < n && #[trigger] gives_check(b, j),
    decreases n,
{
    if n > 0 {
        if gives_check(b, n - 1) {
        } else {
            lemma_some_checker(b, n - 1);
            let j = choose|j: int| 0 <= j < n - 1 && #[trigger] gives_check(b, j);
            assert(0 <= j < n && gives_check(b, j));
        }
    }
}


/// Where the king is not in check, a square that is in danger is attacked
/// on the board as it is: taking the king off the board opens no line.
pub proof fn lemma_danger_is_attacked(b: Board, k: int, t: int)
    requires
        b.kings_single(),
        king_on(b, k),
        !attacked(b, k),
        0 <= t < 64,
        in_bb(danger(b), t),
    ensures
        attacked(b, t),
{
    lemma_danger(b, t);
    let occ = b.all_occupancy();
    let without = occupancy_without_king(b);
    let (p, q) = choose|p: Piece, q: int|
        0 <= q < 64 && in_bb(b.bb(p, them(b)), q) && #[trigger] attacks(p, them(b), q, without, t);
    lemma_bb_not(own_king(b));
    lemma_bb_and(occ, !own_king(b));
    lemma_king_square(b, k);
    if p.is_slider() {
        lemma_slider_attacks(p, them(b), q, occ, t);
        lemma_slider_attacks(p, them(b), q, without, t);
        lemma_slider_attacks(p, them(b), q, occ, k);
        let dir = choose|dir: RayDirection|
            slides_along(p, dir) && #[trigger] sees_along(dir, q, without, t);
        if !sees_along(dir, q, occ, t) {
            let u = choose|u: int| #[trigger] between(dir, q, t, u) && in_bb(occ, u);
            assert(u == k);
            assert forall|v: int| #[trigger] between(dir, q, k, v) implies !in_bb(occ, v) by {
                lemma_ray_transitive(dir, v, k, t);
                assert(between(dir, q, t, v));
                assert(!in_bb(without, v));
                crate::move_bitboards::lemma_ray_order(dir, v, k);
            }
            assert(sees_along(dir, q, occ, k));
            assert(attacks(p, them(b), q, occ, k));
        }
    }
    assert(attacks(p, them(b), q, occ, t));
}

/// The generator's conditions for castling short are those of the rules:
/// a king that is not in check may castle by the generator exactly when it
/// is ready to castle, is not attacked, and neither crosses nor reaches an
/// attacked square.
pub proof fn lemma_castling_short_rule(b: Board)
    requires
        b.kings_single(),
    ensures
        (!in_check(b) && may_castle_short(b)) == legal(
            b,
            castle_move(b.side_to_move, MoveType::CastleShort),
        ),
{
    let side = b.side_to_move;
    let home = king_square(side);
    let corner = rook_short_square(side);
    let occ = b.all_occupancy();
    let rooks = b.bb(Piece::Rook, side);
    let path = short_castle_path(side);
    let blocked = danger(b) | occ;
    lemma_castle_paths(side);
    lemma_bb_bit(home);
    lemma_bb_bit(corner);
    lemma_bb_meet(own_king(b), bit(home));
    lemma_bb_meet(bit(corner), rooks);
    lemma_bb_or(danger(b), occ);
    lemma_bb_meet(path, blocked);
    if !in_check(b) && may_castle_short(b) {
        let i = choose|i: int| 0 <= i < 64 && in_bb(own_king(b), i) && #[trigger] in_bb(bit(home), i);
        assert(king_on(b, home));
        lemma_in_check(b, home);
        let r = choose|r: int| 0 <= r < 64 && in_bb(bit(corner), r) && #[trigger] in_bb(rooks, r);
        assert(in_bb(rooks, corner));
        assert(!in_bb(blocked, home - 1) && !in_bb(blocked, home - 2)) by {
            assert(in_bb(path, home - 1) && in_bb(path, home - 2));
        }
        if attacked(b, home - 1) {
            lemma_attacked_is_danger(b, home - 1);
        }
        if attacked(b, home - 2) {
            lemma_attacked_is_danger(b, home - 2);
        }
    }
    if legal(b, castle_move(side, MoveType::CastleShort)) {
        assert(king_on(b, home));
        lemma_in_check(b, home);
        assert(in_bb(own_king(b), home) && in_bb(bit(home), home));
        assert(in_bb(bit(corner), corner) && in_bb(rooks, corner));
        if in_bb(danger(b), home - 1) {
            lemma_danger_is_attacked(b, home, home - 1);
        }
        if in_bb(danger(b), home - 2) {
            lemma_danger_is_attacked(b, home, home - 2);
        }
        assert forall|i: int| 0 <= i < 64 && in_bb(path, i) implies !#[trigger] in_bb(blocked, i) by {}
    }
}

/// The generator's conditions for castling long are those of the rules.
pub proof fn lemma_castling_long_rule(b: Board)
    requires
        b.kings_single(),
    ensures
        (!in_check(b) && may_castle_long(b)) == legal(
            b,
            castle_move(b.side_to_move, MoveType::CastleLong),
        ),
{
    let side = b.side_to_move;
    let home = king_square(side);
    let corner = rook_long_square(side);
    let occ = b.all_occupancy();
    let rooks = b.bb(Piece::Rook, side);
    let path = long_castle_path(side);
    let king_path = long_castle_king_path(side);
    lemma_castle_paths(side);
    lemma_bb_bit(home);
    lemma_bb_bit(corner);
    lemma_bb_meet(own_king(b), bit(home));
    lemma_bb_meet(bit(corner), rooks);
    lemma_bb_meet(king_path, danger(b));
    lemma_bb_meet(path, occ);
    if !in_check(b) && may_castle_long(b) {
        let i = choose|i: int| 0 <= i < 64 && in_bb(own_king(b), i) && #[trigger] in_bb(bit(home), i);
        assert(king_on(b, home));
        lemma_in_check(b, home);
        let r = choose|r: int| 0 <= r < 64 && in_bb(bit(corner), r) && #[trigger] in_bb(rooks, r);
        assert(in_bb(rooks, corner));
        assert(!in_bb(danger(b), home + 1) && !in_bb(danger(b), home + 2)) by {
            assert(in_bb(king_path, home + 1) && in_bb(king_path, home + 2));
        }
        assert(!in_bb(occ, home + 1) && !in_bb(occ, home + 2) && !in_bb(occ, home + 3)) by {
            assert(in_bb(path, home + 1) && in_bb(path, home + 2) && in_bb(path, home + 3));
        }
        if attacked(b, home + 1) {
            lemma_attacked_is_danger(b, home + 1);
        }
        if attacked(b, home + 2) {
            lemma_attacked_is_danger(b, home + 2);
        }
    }
    if legal(b, castle_move(side, MoveType::CastleLong)) {
        assert(king_on(b, home));
        lemma_in_check(b, home);
        assert(in_bb(own_king(b), home) && in_bb(bit(home), home));
        assert(in_bb(bit(corner), corner) && in_bb(rooks, corner));
        if in_bb(danger(b), home + 1) {
            lemma_danger_is_attacked(b, home, home + 1);
        }
        if in_bb(danger(b), home + 2) {
            lemma_danger_is_attacked(b, home, home + 2);
        }
        assert forall|i: int| 0 <= i < 64 && in_bb(king_path, i) implies !#[trigger] in_bb(
            danger(b),
            i,
        ) by {}
        assert forall|i: int| 0 <= i < 64 && in_bb(path, i) implies !#[trigger] in_bb(occ, i) by {}
    }
}


/// A move is in one of two sequences exactly when it is in the two put
/// together.
pub proof fn lemma_concat_contains(first: Seq<Move>, second: Seq<Move>, m: Move)
    ensures
        (first + second).contains(m) == (first.contains(m) || second.contains(m)),
{
    let both = first + second;
    if both.contains(m) {
        let i = choose|i: int| 0 <= i < both.len() && both[i] == m;
        if i < first.len() {
            assert(first[i] == m);
        } else {
            assert(second[i - first.len()] == m);
        }
    }
    if first.contains(m) {
        let i = choose|i: int| 0 <= i < first.len() && first[i] == m;
        assert(both[i] == m);
    }
    if second.contains(m) {
        let i = choose|i: int| 0 <= i < second.len() && second[i] == m;
        assert(both[i + first.len()] == m);
    }
}

/// Move `m` is a move of the piece on `s` to the target `t` in
/// `target_bb`.
pub open spec fn goes_to(b: Board, piece: Piece, s: int, target_bb: u64, m: Move, t: int) -> bool {
    0 <= t < 64 && in_bb(target_bb, t) && moves_to(b, piece, s, t).contains(m)
}

/// Move `m` is a move of a piece of the given kind that stands on `s`, to
/// one of its targets under `mask`.
pub open spec fn comes_from(b: Board, piece: Piece, mask: u64, m: Move, s: int) -> bool {
    0 <= s < 64 && in_bb(b.bb(piece, b.side_to_move), s) && exists|t: int| #[trigger]
        goes_to(b, piece, s, targets(b, piece, s, mask), m, t)
}

/// The moves of a piece to its targets below `n` are the moves to each
/// of them.
pub proof fn lemma_moves_from_contains(
    b: Board,
    piece: Piece,
    s: int,
    target_bb: u64,
    n: int,
    m: Move,
)
    requires
        0 <= n <= 64,
    ensures
        moves_from(b, piece, s, target_bb, n).contains(m) == exists|t: int|
            t < n && #[trigger] goes_to(b, piece, s, target_bb, m, t),
    decreases n,
{
    if n > 0 {
        lemma_moves_from_contains(b, piece, s, target_bb, n - 1, m);
        let before = moves_from(b, piece, s, target_bb, n - 1);
        if in_bb(target_bb, n - 1) {
            lemma_concat_contains(before, moves_to(b, piece, s, n - 1), m);
        }
        if moves_from(b, piece, s, target_bb, n).contains(m) {
            if before.contains(m) {
                let t = choose|t: int| t < n - 1 && #[trigger] goes_to(b, piece, s, target_bb, m, t);
                assert(t < n && goes_to(b, piece, s, target_bb, m, t));
            } else {
                assert(goes_to(b, piece, s, target_bb, m, n - 1));
            }
        }
        if exists|t: int| t < n && #[trigger] goes_to(b, piece, s, target_bb, m, t) {
            let t = choose|t: int| t < n && #[trigger] goes_to(b, piece, s, target_bb, m, t);
            if t < n - 1 {
                assert(before.contains(m));
            }
        }
    } else {
        assert(moves_from(b, piece, s, target_bb, n) =~= Seq::<Move>::empty());
    }
}

/// The moves of the pieces of one kind on the squares below `n` are the
/// moves of each of them.
pub proof fn lemma_moves_of_piece_contains(b: Board, piece: Piece, mask: u64, n: int, m: Move)
    requires
        0 <= n <= 64,
    ensures
        moves_of_piece(b, piece, mask, n).contains(m) == exists|s: int|
            s < n && #[trigger] comes_from(b, piece, mask, m, s),
    decreases n,
{
    if n > 0 {
        lemma_moves_of_piece_contains(b, piece, mask, n - 1, m);
        let before = moves_of_piece(b, piece, mask, n - 1);
        let here = moves_from(b, piece, n - 1, targets(b, piece, n - 1, mask), 64);
        lemma_moves_from_contains(b, piece, n - 1, targets(b, piece, n - 1, mask), 64, m);
        if in_bb(b.bb(piece, b.side_to_move), n - 1) {
            lemma_concat_contains(before, here, m);
        }
        if moves_of_piece(b, piece, mask, n).contains(m) {
            if before.contains(m) {
                let s = choose|s: int| s < n - 1 && #[trigger] comes_from(b, piece, mask, m, s);
                assert(s < n && comes_from(b, piece, mask, m, s));
            } else {
                let t = choose|t: int|
                    t < 64 && #[trigger] goes_to(
                        b,
                        piece,
                        n - 1,
                        targets(b, piece, n - 1, mask),
                        m,
                        t,
                    );
                assert(comes_from(b, piece, mask, m, n - 1));
            }
        }
        if exists|s: int| s < n && #[trigger] comes_from(b, piece, mask, m, s) {
            let s = choose|s: int| s < n && #[trigger] comes_from(b, piece, mask, m, s);
            if s < n - 1 {
                assert(before.contains(m));
            } else {
                let t = choose|t: int| #[trigger]
                    goes_to(b, piece, s, targets(b, piece, s, mask), m, t);
                assert(t < 64 && goes_to(b, piece, s, targets(b, piece, s, mask), m, t));
                assert(here.contains(m));
            }
        }
    } else {
        assert(moves_of_piece(b, piece, mask, n) =~= Seq::<Move>::empty());
    }
}

/// Move `m` is a move of a piece of the `i`-th kind under `mask`.
pub open spec fn of_kind(b: Board, mask: u64, m: Move, i: int) -> bool {
    0 <= i < 6 && moves_of_piece(b, Piece::of_index(i), mask, 64).contains(m)
}

/// The moves of a range of kinds of pieces are the moves of each kind.
pub proof fn lemma_moves_of_pieces_contains(b: Board, mask: u64, from: int, to: int, m: Move)
    requires
        0 <= from <= to <= 6,
    ensures
        moves_of_pieces(b, mask, from, to).contains(m) == exists|i: int|
            from <= i < to && #[trigger] of_kind(b, mask, m, i),
    decreases to - from,
{
    if to > from {
        lemma_moves_of_pieces_contains(b, mask, from, to - 1, m);
        let before = moves_of_pieces(b, mask, from, to - 1);
        let here = moves_of_piece(b, Piece::of_index(to - 1), mask, 64);
        lemma_concat_contains(before, here, m);
        if moves_of_pieces(b, mask, from, to).contains(m) {
            if before.contains(m) {
                let i = choose|i: int| from <= i < to - 1 && #[trigger] of_kind(b, mask, m, i);
                assert(from <= i < to && of_kind(b, mask, m, i));
            } else {
                assert(of_kind(b, mask, m, to - 1));
            }
        }
        if exists|i: int| from <= i < to && #[trigger] of_kind(b, mask, m, i) {
            let i = choose|i: int| from <= i < to && #[trigger] of_kind(b, mask, m, i);
            if i < to - 1 {
                assert(before.contains(m));
            }
        }
    } else {
        assert(moves_of_pieces(b, mask, from, to) =~= Seq::<Move>::empty());
    }
}

/// A move that the generator gives for a kind of piece under a mask is a
/// move of that kind of piece from a square where such a piece stands to
/// one of its targets; and every such move is given.
pub proof fn lemma_generated_for_piece(b: Board, piece: Piece, mask: u64, m: Move)
    ensures
        moves_of_piece(b, piece, mask, 64).contains(m) == (m.piece == piece && !m.is_castling_spec()
            && m.from_square < 64 && m.to_square < 64 && in_bb(
            b.bb(piece, b.side_to_move),
            m.from_square as int,
        ) && in_bb(targets(b, piece, m.from_square as int, mask), m.to_square as int) && moves_to(
            b,
            piece,
            m.from_square as int,
            m.to_square as int,
        ).contains(m)),
{
    lemma_moves_of_piece_contains(b, piece, mask, 64, m);
    if moves_of_piece(b, piece, mask, 64).contains(m) {
        let s = choose|s: int| s < 64 && #[trigger] comes_from(b, piece, mask, m, s);
        let t = choose|t: int| #[trigger] goes_to(b, piece, s, targets(b, piece, s, mask), m, t);
        lemma_move_shape(b, piece, s, t, m);
    }
    let s = m.from_square as int;
    let t = m.to_square as int;
    if m.piece == piece && m.from_square < 64 && m.to_square < 64 && in_bb(
        b.bb(piece, b.side_to_move),
        s,
    ) && in_bb(targets(b, piece, s, mask), t) && moves_to(b, piece, s, t).contains(m) {
        assert(goes_to(b, piece, s, targets(b, piece, s, mask), m, t));
        assert(comes_from(b, piece, mask, m, s));
    }
}


/// The board is valid and the side to move has a king.
pub open spec fn playable(b: Board) -> bool {
    valid(b) && exists|k: int| #[trigger] king_on(b, k)
}

/// The square of the king of the side to move on a playable board.
pub open spec fn the_king(b: Board) -> int {
    choose|k: int| #[trigger] king_on(b, k)
}

/// A move that obeys the way the pieces move fits the board.
pub proof fn lemma_pseudo_legal_fits(b: Board, m: Move)
    requires
        valid(b),
        pseudo_legal(b, m),
    ensures
        b.applicable(m),
{
    let s = m.from_square as int;
    let t = m.to_square as int;
    lemma_move_shape(b, m.piece, s, t, m);
    lemma_occupancy(b, b.side_to_move);
    lemma_occupancy(b, them(b));
    lemma_all_occupancy(b);
    let ms = moves_to(b, m.piece, s, t);
    let i = choose|i: int| 0 <= i < ms.len() && ms[i] == m;
    assert(ms[i] == m);
    assert(s != t);
    if in_bb(b.all_occupancy(), t) {
        assert(in_bb(b.occupancy(them(b)), t));
        let v = victim_on(b, t);
        assert(in_bb(b.bb(v, them(b)), t));
    }
}

/// After a move that obeys the way the pieces move, a piece of the other
/// side stands where it stood unless the move has captured it.
pub proof fn lemma_survivor(b: Board, m: Move, p: Piece, q: int)
    requires
        valid(b),
        pseudo_legal(b, m),
        0 <= q < 64,
    ensures
        in_bb(b.after_move(m).bb(p, them(b)), q) == (in_bb(b.bb(p, them(b)), q) && !(
        m.captured_spec() == Some(p) && q == m.capture_square_spec())),
{
    lemma_pseudo_legal_fits(b, m);
    lemma_after_piece(b, m, p, them(b), q);
}

/// Where the king of the mover stands after a move that obeys the way the
/// pieces move: on the target if the king has moved, else where it stood.
pub proof fn lemma_king_after(b: Board, m: Move, k: int, u: int)
    requires
        valid(b),
        pseudo_legal(b, m),
        king_on(b, k),
        0 <= u < 64,
    ensures
        in_bb(b.after_move(m).bb(Piece::King, b.side_to_move), u) == (u == if m.piece
            == Piece::King {
            m.to_square as int
        } else {
            k
        }),
{
    lemma_pseudo_legal_fits(b, m);
    lemma_after_piece(b, m, Piece::King, b.side_to_move, u);
    lemma_king_square(b, k);
}

/// What safety says of one piece: after a safe move, a piece of the other
/// side that the move has not captured does not attack the mover's king.
pub proof fn lemma_safe_means(b: Board, m: Move, k: int, p: Piece, q: int)
    requires
        valid(b),
        pseudo_legal(b, m),
        safe_after(b, m),
        king_on(b, k),
        0 <= q < 64,
        in_bb(b.bb(p, them(b)), q),
        !(m.captured_spec() == Some(p) && q == m.capture_square_spec()),
    ensures
        !attacks(p, them(b), q, b.after_move(m).all_occupancy(), if m.piece == Piece::King {
            m.to_square as int
        } else {
            k
        }),
{
    let k2 = if m.piece == Piece::King {
        m.to_square as int
    } else {
        k
    };
    lemma_survivor(b, m, p, q);
    lemma_king_after(b, m, k, k2);
    if attacks(p, them(b), q, b.after_move(m).all_occupancy(), k2) {
        assert(false);
    }
}


/// A piece attacks no square but squares of the board other than its own.
pub proof fn lemma_attacks_elsewhere(p: Piece, side: Side, q: int, occ: u64, t: int)
    requires
        attacks(p, side, q, occ, t),
    ensures
        q != t,
        0 <= q < 64,
        0 <= t < 64,
{
}

/// A king that moves safely does not move into danger.
pub proof fn lemma_safe_king_avoids_danger(b: Board, m: Move, k: int)
    requires
        valid(b),
        king_on(b, k),
        pseudo_legal(b, m),
        m.piece == Piece::King,
        safe_after(b, m),
    ensures
        !in_bb(danger(b), m.to_square as int),
{
    let t = m.to_square as int;
    let s = m.from_square as int;
    lemma_king_square(b, k);
    assert(s == k);
    if in_bb(danger(b), t) {
        lemma_danger(b, t);
        let without = occupancy_without_king(b);
        let (p, q) = choose|p: Piece, q: int|
            0 <= q < 64 && in_bb(b.bb(p, them(b)), q) && #[trigger] attacks(
                p,
                them(b),
                q,
                without,
                t,
            );
        lemma_attacks_elsewhere(p, them(b), q, without, t);
        lemma_move_shape(b, m.piece, s, t, m);
        lemma_pseudo_legal_fits(b, m);
        let after_occ = b.after_move(m).all_occupancy();
        assert forall|dir: RayDirection, u: int| #[trigger] between(dir, q, t, u) implies in_bb(
            after_occ,
            u,
        ) == in_bb(without, u) by {
            lemma_after_occupancy(b, m, u);
            lemma_bb_not(own_king(b));
            lemma_bb_and(b.all_occupancy(), !own_king(b));
        }
        lemma_attacks_between(p, them(b), q, after_occ, without, t);
        lemma_safe_means(b, m, k, p, q);
    }
}

/// A king that moves safely out of a slider's check does not stay on the
/// slider's ray behind its old square.
pub proof fn lemma_safe_king_leaves_ray(b: Board, m: Move, k: int, j: int)
    requires
        valid(b),
        king_on(b, k),
        pseudo_legal(b, m),
        m.piece == Piece::King,
        safe_after(b, m),
        0 <= j < 384,
        gives_check(b, j),
    ensures
        in_bb(king_ray_mask(b, checker_entry(b, j)), m.to_square as int),
{
    let t = m.to_square as int;
    let s = m.from_square as int;
    let p = item_piece(j);
    let q = item_square(j);
    let occ = b.all_occupancy();
    let cbb = attack_set(p, them(b), q, occ);
    lemma_king_square(b, k);
    assert(s == k);
    lemma_gives_check(b, j, k);
    lemma_bb_all();
    if p.is_slider() {
        lemma_slider_attacks(p, them(b), q, occ, k);
        let dir = choose|dir: RayDirection| slides_along(p, dir) && #[trigger] sees_along(dir, q, occ, k);
        lemma_ray_up_to_king(b, dir, q, k);
        lemma_ray_mask(dir, q);
        let ray = ray_towards_king(b, q);
        lemma_bb_not(ray);
        lemma_bb_or(!ray, cbb);
        lemma_attack_set(p, them(b), q, occ);
        if on_ray(dir, q, t) && !attacks(p, them(b), q, occ, t) {
            lemma_slider_attacks(p, them(b), q, occ, t);
            lemma_ray_trichotomy(dir, q, t, k);
            lemma_occupancy(b, b.side_to_move);
            lemma_all_occupancy(b);
            if on_ray(dir, t, k) {
                assert forall|u: int| #[trigger] between(dir, q, t, u) implies !in_bb(occ, u) by {
                    lemma_ray_transitive(dir, u, t, k);
                    assert(between(dir, q, k, u));
                }
                assert(sees_along(dir, q, occ, t));
            } else {
                assert(on_ray(dir, k, t));
                lemma_move_shape(b, m.piece, s, t, m);
                lemma_pseudo_legal_fits(b, m);
                let after_occ = b.after_move(m).all_occupancy();
                assert forall|u: int| #[trigger] between(dir, q, t, u) implies !in_bb(
                    after_occ,
                    u,
                ) by {
                    lemma_after_occupancy(b, m, u);
                    if u != k {
                        lemma_ray_trichotomy(dir, q, u, k);
                        if on_ray(dir, u, k) {
                            assert(between(dir, q, k, u));
                        } else {
                            assert(on_ray(dir, k, u) && on_ray(dir, u, t));
                            lemma_king_step(dir, k, u, t);
                        }
                    }
                }
                assert(sees_along(dir, q, after_occ, t));
                lemma_slider_attacks(p, them(b), q, after_occ, t);
                assert(attacks(p, them(b), q, after_occ, t));
                lemma_ray_order(dir, q, k);
                lemma_ray_order(dir, k, t);
                lemma_safe_means(b, m, k, p, q);
            }
        }
    }
}

/// No square lies between a square and one that a king reaches from it.
pub proof fn lemma_king_step(dir: RayDirection, k: int, u: int, t: int)
    requires
        king_reach(k, t),
        on_ray(dir, k, u),
    ensures
        !on_ray(dir, u, t),
{
}


/// Move `m` ends the check that the piece `p` on `q` gives to the king on
/// `k`: it captures the piece, or it puts a piece between a slider and the
/// king.
pub open spec fn ends_check(b: Board, m: Move, p: Piece, q: int, k: int) -> bool {
    (m.captured_spec() == Some(p) && q == m.capture_square_spec()) || exists|dir: RayDirection|
        slides_along(p, dir) && #[trigger] between(dir, q, k, m.to_square as int)
}

/// A safe move of a piece other than the king ends every check.
pub proof fn lemma_safe_piece_ends_check(b: Board, m: Move, k: int, p: Piece, q: int)
    requires
        valid(b),
        king_on(b, k),
        pseudo_legal(b, m),
        m.piece != Piece::King,
        safe_after(b, m),
        0 <= q < 64,
        in_bb(b.bb(p, them(b)), q),
        attacks(p, them(b), q, b.all_occupancy(), k),
    ensures
        ends_check(b, m, p, q, k),
{
    let t = m.to_square as int;
    let occ = b.all_occupancy();
    let after_occ = b.after_move(m).all_occupancy();
    if !(m.captured_spec() == Some(p) && q == m.capture_square_spec()) {
        lemma_safe_means(b, m, k, p, q);
        lemma_pseudo_legal_fits(b, m);
        assert(p.is_slider());
        lemma_slider_attacks(p, them(b), q, occ, k);
        lemma_slider_attacks(p, them(b), q, after_occ, k);
        let dir = choose|dir: RayDirection| slides_along(p, dir) && #[trigger] sees_along(dir, q, occ, k);
        assert(!sees_along(dir, q, after_occ, k));
        let u = choose|u: int| #[trigger] between(dir, q, k, u) && in_bb(after_occ, u);
        lemma_after_occupancy(b, m, u);
        assert(u == t);
    }
}

/// A move that ends a check goes to a square that the mask of the check
/// lets through.
pub proof fn lemma_ends_check_in_mask(b: Board, m: Move, k: int, j: int)
    requires
        valid(b),
        king_on(b, k),
        pseudo_legal(b, m),
        m.piece != Piece::King,
        0 <= j < 384,
        gives_check(b, j),
        ends_check(b, m, item_piece(j), item_square(j), k),
    ensures
        m.piece == Piece::Pawn ==> in_bb(
            pawn_mask(b, block_mask(b, checker_entry(b, j))),
            m.to_square as int,
        ),
        m.piece != Piece::Pawn ==> in_bb(block_mask(b, checker_entry(b, j)), m.to_square as int),
{
    let t = m.to_square as int;
    let s = m.from_square as int;
    let p = item_piece(j);
    let q = item_square(j);
    let occ = b.all_occupancy();
    let cbb = attack_set(p, them(b), q, occ);
    let block = block_mask(b, checker_entry(b, j));
    lemma_gives_check(b, j, k);
    lemma_move_shape(b, m.piece, s, t, m);
    lemma_bb_bit(q);
    let ray = ray_towards_king(b, q);
    lemma_bb_and(cbb, ray);
    lemma_bb_or(cbb & ray, bit(q));
    if b.en_passant_square != 0 {
        lemma_bb_bit(b.en_passant_square as int);
        lemma_bb_or(block, bit(b.en_passant_square as int));
    }
    if m.captured_spec() == Some(p) && q == m.capture_square_spec() {
        if m.move_type is EnPassantCapture {
            assert(in_bb(block, en_passant_victim(b)));
        } else {
            assert(in_bb(block, t));
        }
    } else {
        let dir = choose|dir: RayDirection| slides_along(p, dir) && #[trigger] between(dir, q, k, t);
        assert(p.is_slider());
        lemma_slider_attacks(p, them(b), q, occ, k);
        let d2 = choose|d: RayDirection| slides_along(p, d) && #[trigger] sees_along(d, q, occ, k);
        lemma_ray_transitive(dir, q, t, k);
        lemma_direction_unique(d2, dir, q, k);
        lemma_ray_up_to_king(b, dir, q, k);
        lemma_ray_mask(dir, q);
        assert forall|u: int| #[trigger] between(dir, q, t, u) implies !in_bb(occ, u) by {
            lemma_ray_transitive(dir, u, t, k);
            assert(between(dir, q, k, u));
        }
        assert(sees_along(dir, q, occ, t));
        lemma_slider_attacks(p, them(b), q, occ, t);
        lemma_attack_set(p, them(b), q, occ);
        assert(in_bb(cbb, t) && in_bb(ray, t));
        assert(in_bb(block, t));
    }
}

/// One move of a piece other than the king does not end two checks.
pub proof fn lemma_one_check_ended(
    b: Board,
    m: Move,
    k: int,
    p1: Piece,
    q1: int,
    p2: Piece,
    q2: int,
)
    requires
        valid(b),
        king_on(b, k),
        pseudo_legal(b, m),
        m.piece != Piece::King,
        0 <= q1 < 64,
        0 <= q2 < 64,
        in_bb(b.bb(p1, them(b)), q1),
        in_bb(b.bb(p2, them(b)), q2),
        attacks(p1, them(b), q1, b.all_occupancy(), k),
        attacks(p2, them(b), q2, b.all_occupancy(), k),
        ends_check(b, m, p1, q1, k),
        ends_check(b, m, p2, q2, k),
    ensures
        p1 == p2 && q1 == q2,
{
    let t = m.to_square as int;
    let s = m.from_square as int;
    let occ = b.all_occupancy();
    let taken1 = m.captured_spec() == Some(p1) && q1 == m.capture_square_spec();
    let taken2 = m.captured_spec() == Some(p2) && q2 == m.capture_square_spec();
    lemma_occupancy(b, them(b));
    lemma_all_occupancy(b);
    lemma_move_shape(b, m.piece, s, t, m);
    if taken1 && taken2 {
    } else if taken1 {
        lemma_block_and_capture(b, m, k, p1, q1, p2, q2);
    } else if taken2 {
        lemma_block_and_capture(b, m, k, p2, q2, p1, q1);
    } else {
        let d1 = choose|dir: RayDirection| slides_along(p1, dir) && #[trigger] between(dir, q1, k, t);
        let d2 = choose|dir: RayDirection| slides_along(p2, dir) && #[trigger] between(dir, q2, k, t);
        lemma_direction_unique(d1, d2, t, k);
        crate::move_bitboards::lemma_ray_reverse(d1, q1, t);
        crate::move_bitboards::lemma_ray_reverse(d1, q2, t);
        lemma_ray_trichotomy(d1.reverse(), t, q1, q2);
        lemma_slider_attacks(p1, them(b), q1, occ, k);
        lemma_slider_attacks(p2, them(b), q2, occ, k);
        lemma_ray_transitive(d1, q1, t, k);
        lemma_ray_transitive(d1, q2, t, k);
        let e1 = choose|d: RayDirection| slides_along(p1, d) && #[trigger] sees_along(d, q1, occ, k);
        let e2 = choose|d: RayDirection| slides_along(p2, d) && #[trigger] sees_along(d, q2, occ, k);
        lemma_direction_unique(e1, d1, q1, k);
        lemma_direction_unique(e2, d1, q2, k);
        if q1 != q2 {
            if on_ray(d1.reverse(), q1, q2) {
                crate::move_bitboards::lemma_ray_reverse(d1, q2, q1);
                assert(between(d1, q2, k, q1));
            } else {
                crate::move_bitboards::lemma_ray_reverse(d1, q1, q2);
                assert(between(d1, q1, k, q2));
            }
        }
    }
}

/// A move that captures one checking piece does not at the same time step
/// between another and the king.
proof fn lemma_block_and_capture(
    b: Board,
    m: Move,
    k: int,
    p1: Piece,
    q1: int,
    p2: Piece,
    q2: int,
)
    requires
        valid(b),
        king_on(b, k),
        pseudo_legal(b, m),
        m.piece != Piece::King,
        0 <= q1 < 64,
        0 <= q2 < 64,
        in_bb(b.bb(p1, them(b)), q1),
        in_bb(b.bb(p2, them(b)), q2),
        attacks(p1, them(b), q1, b.all_occupancy(), k),
        attacks(p2, them(b), q2, b.all_occupancy(), k),
        m.captured_spec() == Some(p1) && q1 == m.capture_square_spec(),
        !(m.captured_spec() == Some(p2) && q2 == m.capture_square_spec()),
        ends_check(b, m, p2, q2, k),
    ensures
        p1 == p2 && q1 == q2,
{
    let t = m.to_square as int;
    let s = m.from_square as int;
    let occ = b.all_occupancy();
    lemma_occupancy(b, them(b));
    lemma_all_occupancy(b);
    lemma_move_shape(b, m.piece, s, t, m);
    let d2 = choose|dir: RayDirection| slides_along(p2, dir) && #[trigger] between(dir, q2, k, t);
    lemma_slider_attacks(p2, them(b), q2, occ, k);
    let e2 = choose|d: RayDirection| slides_along(p2, d) && #[trigger] sees_along(d, q2, occ, k);
    lemma_ray_transitive(d2, q2, t, k);
    lemma_direction_unique(e2, d2, q2, k);
    if m.move_type is EnPassantCapture {
        assert(p1 == Piece::Pawn);
        assert(pawn_capture_reach(them(b), q1, k));
        assert(on_ray(d2, t, k));
    } else {
        assert(t == q1);
        assert(in_bb(occ, t));
    }
}


/// A pin mask that lets not every square through is the pin mask of a
/// slider that pins the piece.
pub proof fn lemma_pins_source(b: Board, n: int, s: int, k: int)
    requires
        valid(b),
        king_on(b, k),
        0 <= n <= 384,
        0 <= s < 64,
        pins_upto(b, n)[s] != u64::MAX,
    ensures
        exists|p: Piece, q: int, dir: RayDirection|
            p.is_slider() && pins(b)[s] == pin_mask(b, q) && #[trigger] pinned_by(
                b,
                p,
                q,
                s,
                k,
                dir,
            ),
    decreases n,
{
    if n > 0 {
        lemma_pins_len(b, n - 1, k);
        let before = pins_upto(b, n - 1);
        if before[s] != u64::MAX {
            lemma_pins_source(b, n - 1, s, k);
        } else {
            let p = item_piece(n - 1);
            let q = item_square(n - 1);
            assert(enemy_item(b, n - 1) && p.is_slider());
            lemma_pin_update(b, p, q, k, before);
            let dir = choose|dir: RayDirection| #[trigger] pinned_by(b, p, q, s, k, dir);
            lemma_pins_upto(b, 384, p, q, s, k, dir);
        }
    }
}

/// A safe move of a piece other than the king goes to a square that the
/// pin mask of its square lets through.
pub proof fn lemma_safe_piece_respects_pin(b: Board, m: Move, k: int)
    requires
        valid(b),
        king_on(b, k),
        pseudo_legal(b, m),
        m.piece != Piece::King,
        safe_after(b, m),
    ensures
        in_bb(pins(b)[m.from_square as int], m.to_square as int),
{
    let s = m.from_square as int;
    let t = m.to_square as int;
    lemma_pins_len(b, 384, k);
    lemma_bb_all();
    if pins(b)[s] != u64::MAX {
        lemma_pins_source(b, 384, s, k);
        let (p, q, dir) = choose|p: Piece, q: int, dir: RayDirection|
            p.is_slider() && pins(b)[s] == pin_mask(b, q) && #[trigger] pinned_by(
                b,
                p,
                q,
                s,
                k,
                dir,
            );
        lemma_ray_transitive(dir, q, s, k);
        lemma_ray_up_to_king(b, dir, q, k);
        lemma_bb_bit(q);
        lemma_bb_or(ray_up_to_king(b, q), bit(q));
        if !in_bb(pin_mask(b, q), t) {
            lemma_move_shape(b, m.piece, s, t, m);
            lemma_pseudo_legal_fits(b, m);
            lemma_occupancy(b, them(b));
            lemma_all_occupancy(b);
            if m.captured_spec() == Some(p) && q == m.capture_square_spec() {
                assert(m.move_type is EnPassantCapture);
                assert(in_bb(b.bb(Piece::Pawn, them(b)), q));
            }
            lemma_safe_means(b, m, k, p, q);
            let after_occ = b.after_move(m).all_occupancy();
            assert forall|u: int| #[trigger] between(dir, q, k, u) implies !in_bb(after_occ, u) by {
                lemma_after_occupancy(b, m, u);
            }
            assert(sees_along(dir, q, after_occ, k));
            lemma_slider_attacks(p, them(b), q, after_occ, k);
        }
    }
}

/// The pin mask of the king's own square lets every square through.
pub proof fn lemma_king_is_not_pinned(b: Board, k: int)
    requires
        valid(b),
        king_on(b, k),
    ensures
        pins(b)[k] == u64::MAX,
{
    lemma_pins_len(b, 384, k);
    if pins(b)[k] != u64::MAX {
        lemma_pins_source(b, 384, k, k);
    }
}

/// An en-passant capture that is safe is one that the generator lets
/// through.
pub proof fn lemma_safe_en_passant(b: Board, m: Move, k: int)
    requires
        valid(b),
        king_on(b, k),
        pseudo_legal(b, m),
        m.move_type is EnPassantCapture,
        safe_after(b, m),
    ensures
        en_passant_safe(b, m.from_square as int),
{
    let s = m.from_square as int;
    let t = m.to_square as int;
    let occ = b.all_occupancy();
    let after_occ = b.after_move(m).all_occupancy();
    let victim = en_passant_victim(b);
    let ep = b.en_passant_square as int;
    lemma_move_shape(b, m.piece, s, t, m);
    lemma_pseudo_legal_fits(b, m);
    lemma_king_square(b, k);
    let x1 = occ & !bit(s);
    let x2 = x1 & !bit(victim);
    let shown = x2 | bit(ep);
    lemma_bb_bit(s);
    lemma_bb_bit(victim);
    lemma_bb_bit(ep);
    lemma_bb_not(bit(s));
    lemma_bb_not(bit(victim));
    lemma_bb_and(occ, !bit(s));
    lemma_bb_and(x1, !bit(victim));
    lemma_bb_or(x2, bit(ep));
    assert forall|u: int| 0 <= u < 64 implies in_bb(shown, u) == in_bb(after_occ, u) by {
        lemma_after_occupancy(b, m, u);
    }
    lemma_extensional(shown, after_occ);
    let lines = b.bb(Piece::Rook, them(b)) | b.bb(Piece::Queen, them(b));
    let diagonals = b.bb(Piece::Bishop, them(b)) | b.bb(Piece::Queen, them(b));
    lemma_bb_or(b.bb(Piece::Rook, them(b)), b.bb(Piece::Queen, them(b)));
    lemma_bb_or(b.bb(Piece::Bishop, them(b)), b.bb(Piece::Queen, them(b)));
    lemma_rook_attacks(k, after_occ);
    lemma_bishop_attacks(k, after_occ);
    lemma_bb_meet(rook_attacks(k, after_occ), lines);
    lemma_bb_meet(bishop_attacks(k, after_occ), diagonals);
    if rook_attacks(k, after_occ) & lines != 0 {
        let q = choose|q: int|
            0 <= q < 64 && in_bb(rook_attacks(k, after_occ), q) && #[trigger] in_bb(lines, q);
        let p = if in_bb(b.bb(Piece::Rook, them(b)), q) {
            Piece::Rook
        } else {
            Piece::Queen
        };
        lemma_line_attack_back(b, m, k, p, q, after_occ);
    }
    if bishop_attacks(k, after_occ) & diagonals != 0 {
        let q = choose|q: int|
            0 <= q < 64 && in_bb(bishop_attacks(k, after_occ), q) && #[trigger] in_bb(diagonals, q);
        let p = if in_bb(b.bb(Piece::Bishop, them(b)), q) {
            Piece::Bishop
        } else {
            Piece::Queen
        };
        lemma_line_attack_back(b, m, k, p, q, after_occ);
    }
}

/// A slider that the king would see along one of the slider's lines sees
/// the king: after a safe en-passant capture there is none.
proof fn lemma_line_attack_back(b: Board, m: Move, k: int, p: Piece, q: int, after_occ: u64)
    requires
        valid(b),
        king_on(b, k),
        pseudo_legal(b, m),
        m.move_type is EnPassantCapture,
        safe_after(b, m),
        after_occ == b.after_move(m).all_occupancy(),
        0 <= q < 64,
        in_bb(b.bb(p, them(b)), q),
        p.is_slider(),
    ensures
        p != Piece::Bishop ==> !crate::move_bitboards::rook_sees(k, after_occ, q),
        p != Piece::Rook ==> !crate::move_bitboards::bishop_sees(k, after_occ, q),
{
    let s = m.from_square as int;
    let t = m.to_square as int;
    lemma_move_shape(b, m.piece, s, t, m);
    if m.captured_spec() == Some(p) && q == m.capture_square_spec() {
        assert(p == Piece::Pawn);
    }
    lemma_safe_means(b, m, k, p, q);
    lemma_sees_along_symmetric(RayDirection::North, k, q, after_occ);
    lemma_sees_along_symmetric(RayDirection::East, k, q, after_occ);
    lemma_sees_along_symmetric(RayDirection::South, k, q, after_occ);
    lemma_sees_along_symmetric(RayDirection::West, k, q, after_occ);
    lemma_sees_along_symmetric(RayDirection::NorthEast, k, q, after_occ);
    lemma_sees_along_symmetric(RayDirection::SouthEast, k, q, after_occ);
    lemma_sees_along_symmetric(RayDirection::SouthWest, k, q, after_occ);
    lemma_sees_along_symmetric(RayDirection::NorthWest, k, q, after_occ);
}


/// A move that obeys the way the pieces move and is safe goes to one of
/// the targets of its piece, under a mask that lets its target through.
pub proof fn lemma_legal_in_targets(b: Board, m: Move, k: int, mask: u64)
    requires
        valid(b),
        king_on(b, k),
        pseudo_legal(b, m),
        safe_after(b, m),
        m.piece == Piece::Pawn ==> in_bb(pawn_mask(b, mask), m.to_square as int),
        m.piece != Piece::Pawn ==> in_bb(mask, m.to_square as int),
    ensures
        in_bb(targets(b, m.piece, m.from_square as int, mask), m.to_square as int),
{
    let piece = m.piece;
    let s = m.from_square as int;
    let t = m.to_square as int;
    let us = b.side_to_move;
    let own = b.occupancy(us);
    let their_king = b.bb(Piece::King, them(b));
    let base = match piece {
        Piece::Pawn => pawn_targets(b, s) & pawn_mask(b, mask),
        Piece::King => king_mask(s) & !danger(b) & mask,
        _ => attack_set(piece, us, s, b.all_occupancy()) & mask,
    };
    let pinned = base & pins(b)[s];
    let freed = pinned & !own;
    let allowed = freed & !their_king;
    lemma_bb_not(own);
    lemma_bb_not(their_king);
    lemma_bb_and(base, pins(b)[s]);
    lemma_bb_and(pinned, !own);
    lemma_bb_and(freed, !their_king);
    lemma_bb_all();
    match piece {
        Piece::Pawn => {
            lemma_bb_and(pawn_targets(b, s), pawn_mask(b, mask));
            let captures = pawn_capture_mask(us, s) & (b.occupancy(them(b)) | en_passant_bit(b));
            lemma_bb_or(pawn_advances(b, s), captures);
            lemma_mask_of(|t: int| pawn_advance(b, s, t));
            lemma_bb_and(pawn_capture_mask(us, s), b.occupancy(them(b)) | en_passant_bit(b));
            lemma_bb_or(b.occupancy(them(b)), en_passant_bit(b));
            lemma_mask_of(|t: int| pawn_capture_reach(us, s, t));
            if b.en_passant_square != 0 {
                lemma_bb_bit(b.en_passant_square as int);
            }
            lemma_safe_piece_respects_pin(b, m, k);
        },
        Piece::King => {
            lemma_king_square(b, k);
            lemma_bb_and(king_mask(s) & !danger(b), mask);
            lemma_bb_not(danger(b));
            lemma_bb_and(king_mask(s), !danger(b));
            lemma_mask_of(|t: int| king_reach(s, t));
            lemma_safe_king_avoids_danger(b, m, k);
            lemma_king_is_not_pinned(b, k);
        },
        _ => {
            lemma_bb_and(attack_set(piece, us, s, b.all_occupancy()), mask);
            lemma_attack_set(piece, us, s, b.all_occupancy());
            lemma_safe_piece_respects_pin(b, m, k);
        },
    }
    assert(in_bb(allowed, t));
    if b.en_passant_square != 0 {
        let e = bit(b.en_passant_square as int);
        lemma_bb_bit(b.en_passant_square as int);
        lemma_bb_not(e);
        lemma_bb_and(allowed, !e);
        if piece == Piece::Pawn && t == b.en_passant_square {
            lemma_move_shape(b, piece, s, t, m);
            lemma_safe_en_passant(b, m, k);
        }
    }
}

/// Where the list of checkers holds two or more, two pieces give check.
pub proof fn lemma_two_checkers(b: Board, n: int)
    requires
        0 <= n <= 384,
        checkers_upto(b, n).len() >= 2,
    ensures
        exists|j1: int, j2: int|
            0 <= j1 < j2 < n && #[trigger] gives_check(b, j1) && #[trigger] gives_check(b, j2),
    decreases n,
{
    if n > 0 {
        if gives_check(b, n - 1) {
            if checkers_upto(b, n - 1).len() >= 2 {
                lemma_two_checkers(b, n - 1);
                let (j1, j2) = choose|j1: int, j2: int|
                    0 <= j1 < j2 < n - 1 && #[trigger] gives_check(b, j1) && #[trigger] gives_check(
                        b,
                        j2,
                    );
                assert(0 <= j1 < j2 < n && gives_check(b, j1) && gives_check(b, j2));
            } else {
                lemma_some_checker(b, n - 1);
                let j = choose|j: int| 0 <= j < n - 1 && #[trigger] gives_check(b, j);
                assert(0 <= j < n - 1 < n && gives_check(b, j) && gives_check(b, n - 1));
            }
        } else {
            lemma_two_checkers(b, n - 1);
            let (j1, j2) = choose|j1: int, j2: int|
                0 <= j1 < j2 < n - 1 && #[trigger] gives_check(b, j1) && #[trigger] gives_check(
                    b,
                    j2,
                );
            assert(0 <= j1 < j2 < n && gives_check(b, j1) && gives_check(b, j2));
        }
    }
}

/// Every entry of the list of checkers is the entry of a piece that gives
/// check.
pub proof fn lemma_checker_entries(b: Board, n: int, i: int)
    requires
        0 <= n <= 384,
        0 <= i < checkers_upto(b, n).len(),
    ensures
        exists|j: int|
            0 <= j < n && #[trigger] gives_check(b, j) && checkers_upto(b, n)[i] == checker_entry(
                b,
                j,
            ),
    decreases n,
{
    if n > 0 {
        let before = checkers_upto(b, n - 1);
        if gives_check(b, n - 1) && i == before.len() {
            assert(checkers_upto(b, n)[i] == checker_entry(b, n - 1));
        } else {
            lemma_checker_entries(b, n - 1, i);
            let j = choose|j: int|
                0 <= j < n - 1 && #[trigger] gives_check(b, j) && before[i] == checker_entry(b, j);
            assert(0 <= j < n && gives_check(b, j) && checkers_upto(b, n)[i] == checker_entry(b, j));
        }
    }
}

/// A square that the ray mask of every check lets through is let through
/// by them all together.
pub proof fn lemma_king_ray_masks(b: Board, cs: Seq<Checker>, n: int, t: int)
    requires
        0 <= n <= cs.len(),
        0 <= t < 64,
        forall|i: int| 0 <= i < n ==> in_bb(king_ray_mask(b, #[trigger] cs[i]), t),
    ensures
        in_bb(king_ray_masks(b, cs, n), t),
    decreases n,
{
    if n > 0 {
        lemma_king_ray_masks(b, cs, n - 1, t);
        lemma_bb_and(king_ray_masks(b, cs, n - 1), king_ray_mask(b, cs[n - 1]));
    } else {
        lemma_bb_all();
    }
}

/// Every legal move is generated.
pub proof fn lemma_legal_is_generated(b: Board, m: Move)
    requires
        playable(b),
        legal(b, m),
    ensures
        legal_moves(b).contains(m),
{
    let k = the_king(b);
    let cs = checkers(b);
    let t = m.to_square as int;
    lemma_checkers_upto(b, 384);
    lemma_bb_all();
    if m.is_castling_spec() {
        lemma_castling_short_rule(b);
        lemma_castling_long_rule(b);
        let first = moves_of_pieces(b, u64::MAX, 0, 6);
        let castles = castling_moves(b);
        lemma_concat_contains(first, castles, m);
        if m.move_type is CastleShort {
            assert(castles[0] == m);
        } else {
            assert(castles[castles.len() - 1] == m);
        }
    } else {
        let piece = m.piece;
        if cs.len() == 0 {
            if piece == Piece::Pawn && b.en_passant_square != 0 {
                lemma_bb_bit(b.en_passant_square as int);
                lemma_bb_or(u64::MAX, bit(b.en_passant_square as int));
            }
            lemma_legal_in_targets(b, m, k, u64::MAX);
            lemma_generated_for_piece(b, piece, u64::MAX, m);
            assert(of_kind(b, u64::MAX, m, piece.index_spec()));
            lemma_moves_of_pieces_contains(b, u64::MAX, 0, 6, m);
            lemma_concat_contains(moves_of_pieces(b, u64::MAX, 0, 6), castling_moves(b), m);
        } else if piece == Piece::King {
            let mask = if cs.len() == 1 {
                king_ray_mask(b, cs[0])
            } else {
                king_ray_masks(b, cs, cs.len() as int)
            };
            assert forall|i: int| 0 <= i < cs.len() implies in_bb(
                king_ray_mask(b, #[trigger] cs[i]),
                t,
            ) by {
                lemma_checker_entries(b, 384, i);
                let j = choose|j: int|
                    0 <= j < 384 && #[trigger] gives_check(b, j) && cs[i] == checker_entry(b, j);
                lemma_safe_king_leaves_ray(b, m, k, j);
            }
            lemma_king_ray_masks(b, cs, cs.len() as int, t);
            lemma_legal_in_targets(b, m, k, mask);
            lemma_generated_for_piece(b, piece, mask, m);
            if cs.len() == 1 {
                lemma_concat_contains(
                    moves_of_piece(b, Piece::King, mask, 64),
                    moves_of_pieces(b, block_mask(b, cs[0]), 0, 5),
                    m,
                );
            }
        } else {
            lemma_some_checker(b, 384);
            let j = choose|j: int| 0 <= j < 384 && #[trigger] gives_check(b, j);
            lemma_gives_check(b, j, k);
            lemma_safe_piece_ends_check(b, m, k, item_piece(j), item_square(j));
            if cs.len() >= 2 {
                lemma_two_checkers(b, 384);
                let (j1, j2) = choose|j1: int, j2: int|
                    0 <= j1 < j2 < 384 && #[trigger] gives_check(b, j1) && #[trigger] gives_check(
                        b,
                        j2,
                    );
                lemma_gives_check(b, j1, k);
                lemma_gives_check(b, j2, k);
                lemma_safe_piece_ends_check(b, m, k, item_piece(j1), item_square(j1));
                lemma_safe_piece_ends_check(b, m, k, item_piece(j2), item_square(j2));
                lemma_one_check_ended(
                    b,
                    m,
                    k,
                    item_piece(j1),
                    item_square(j1),
                    item_piece(j2),
                    item_square(j2),
                );
                assert(j1 == item_piece(j1).index_spec() * 64 + item_square(j1));
                assert(j2 == item_piece(j2).index_spec() * 64 + item_square(j2));
                assert(false);
            }
            let mask = block_mask(b, cs[0]);
            assert(cs[0] == checker_entry(b, j));
            lemma_ends_check_in_mask(b, m, k, j);
            lemma_legal_in_targets(b, m, k, mask);
            lemma_generated_for_piece(b, piece, mask, m);
            assert(of_kind(b, mask, m, piece.index_spec()));
            lemma_moves_of_pieces_contains(b, mask, 0, 5, m);
            lemma_concat_contains(
                moves_of_piece(b, Piece::King, king_ray_mask(b, cs[0]), 64),
                moves_of_pieces(b, mask, 0, 5),
                m,
            );
        }
    }
}

/// Every generated move is legal.
pub proof fn lemma_generated_is_legal(b: Board, m: Move)
    requires
        valid(b),
        legal_moves(b).contains(m),
    ensures
        legal(b, m),
{
    let cs = checkers(b);
    lemma_legal_moves_safe(b);
    let all = legal_moves(b);
    let i = choose|i: int| 0 <= i < all.len() && all[i] == m;
    assert(safe_after(b, all[i]));
    if cs.len() == 0 {
        let first = moves_of_pieces(b, u64::MAX, 0, 6);
        let castles = castling_moves(b);
        lemma_concat_contains(first, castles, m);
        if castles.contains(m) {
            let c = choose|c: int| 0 <= c < castles.len() && castles[c] == m;
            assert(castles[c] == m);
            lemma_castling_short_rule(b);
            lemma_castling_long_rule(b);
        } else {
            lemma_moves_of_pieces_contains(b, u64::MAX, 0, 6, m);
            let kind = choose|kind: int| 0 <= kind < 6 && #[trigger] of_kind(b, u64::MAX, m, kind);
            lemma_generated_for_piece(b, Piece::of_index(kind), u64::MAX, m);
            lemma_target_move_pseudo_legal(
                b,
                m.piece,
                m.from_square as int,
                u64::MAX,
                m.to_square as int,
                m,
            );
        }
    } else if cs.len() == 1 {
        let king_moves = moves_of_piece(b, Piece::King, king_ray_mask(b, cs[0]), 64);
        let others = moves_of_pieces(b, block_mask(b, cs[0]), 0, 5);
        lemma_concat_contains(king_moves, others, m);
        if king_moves.contains(m) {
            lemma_generated_for_piece(b, Piece::King, king_ray_mask(b, cs[0]), m);
            lemma_target_move_pseudo_legal(
                b,
                m.piece,
                m.from_square as int,
                king_ray_mask(b, cs[0]),
                m.to_square as int,
                m,
            );
        } else {
            lemma_moves_of_pieces_contains(b, block_mask(b, cs[0]), 0, 5, m);
            let kind = choose|kind: int|
                0 <= kind < 5 && #[trigger] of_kind(b, block_mask(b, cs[0]), m, kind);
            lemma_generated_for_piece(b, Piece::of_index(kind), block_mask(b, cs[0]), m);
            lemma_target_move_pseudo_legal(
                b,
                m.piece,
                m.from_square as int,
                block_mask(b, cs[0]),
                m.to_square as int,
                m,
            );
        }
    } else {
        let mask = king_ray_masks(b, cs, cs.len() as int);
        lemma_generated_for_piece(b, Piece::King, mask, m);
        lemma_target_move_pseudo_legal(
            b,
            m.piece,
            m.from_square as int,
            mask,
            m.to_square as int,
            m,
        );
    }
}

/// The generator is exact: on a valid board on which the side to move has
/// a king, the generated moves are the legal moves, no more and no fewer.
pub proof fn lemma_generator_is_exact(b: Board, m: Move)
    requires
        playable(b),
    ensures
        legal_moves(b).contains(m) == legal(b, m),
{
    if legal_moves(b).contains(m) {
        lemma_generated_is_legal(b, m);
    }
    if legal(b, m) {
        lemma_legal_is_generated(b, m);
    }
}


/// A side that holds a castling right has its king and the rook of that
/// side of the board on their starting squares.
pub open spec fn rights_hold(b: Board, side: Side) -> bool {
    &&& b.castling_right_short[side.index_spec()] ==> in_bb(
        b.bb(Piece::King, side),
        king_square(side),
    ) && in_bb(b.bb(Piece::Rook, side), rook_short_square(side))
    &&& b.castling_right_long[side.index_spec()] ==> in_bb(
        b.bb(Piece::King, side),
        king_square(side),
    ) && in_bb(b.bb(Piece::Rook, side), rook_long_square(side))
}

/// The board is one that a game can reach: it is valid, both sides have a
/// king, a castling right is held only with king and rook on their
/// starting squares, and behind an en-passant square stands the pawn of the
/// other side that has passed over it.
pub open spec fn sound(b: Board) -> bool {
    &&& valid(b)
    &&& exists|k: int| #[trigger] king_on(b, k)
    &&& exists|k: int| 0 <= k < 64 && #[trigger] in_bb(b.bb(Piece::King, them(b)), k)
    &&& rights_hold(b, Side::White)
    &&& rights_hold(b, Side::Black)
    &&& b.en_passant_square != 0 ==> 0 <= en_passant_victim(b) < 64 && in_bb(
        b.bb(Piece::Pawn, them(b)),
        en_passant_victim(b),
    )
}

/// The board after move `m`, with the other side to move.
pub open spec fn next(b: Board, m: Move) -> Board {
    Board { side_to_move: b.side_to_move.opposite(), ..b.after_move(m) }
}

/// A legal move fits the board.
pub proof fn lemma_legal_fits(b: Board, m: Move)
    requires
        valid(b),
        legal(b, m),
    ensures
        b.applicable(m),
        m.side == b.side_to_move,
{
    if m.is_castling_spec() {
        lemma_castling_short_rule(b);
        lemma_castling_long_rule(b);
        crate::movegen::lemma_castling_moves_fit(b);
        let castles = castling_moves(b);
        if m.move_type is CastleShort {
            assert(castles[0] == m);
        } else {
            assert(castles[castles.len() - 1] == m);
        }
    } else {
        lemma_pseudo_legal_fits(b, m);
    }
}

/// After a legal move no square holds two pieces.
proof fn lemma_legal_keeps_disjoint(b: Board, m: Move)
    requires
        valid(b),
        legal(b, m),
    ensures
        disjoint(b.after_move(m)),
{
    let after = b.after_move(m);
    let us = b.side_to_move;
    lemma_legal_fits(b, m);
    lemma_occupancy(b, us);
    lemma_occupancy(b, them(b));
    lemma_all_occupancy(b);
    assert forall|p1: Piece, s1: Side, p2: Piece, s2: Side, sq: int|
        (p1 != p2 || s1 != s2) implies !(#[trigger] in_bb(after.bb(p1, s1), sq) && #[trigger] in_bb(
            after.bb(p2, s2),
            sq,
        )) by {
        if 0 <= sq < 64 {
            if m.is_castling_spec() {
                lemma_castling_short_rule(b);
                lemma_castling_long_rule(b);
                lemma_castling_king(b);
                lemma_after_castle(b, m, p1, s1, sq);
                lemma_after_castle(b, m, p2, s2, sq);
            } else {
                let s = m.from_square as int;
                let t = m.to_square as int;
                lemma_move_shape(b, m.piece, s, t, m);
                lemma_after_piece(b, m, p1, s1, sq);
                lemma_after_piece(b, m, p2, s2, sq);
                if sq == t && in_bb(b.all_occupancy(), t) {
                    let v = victim_on(b, t);
                    assert(in_bb(b.occupancy(them(b)), t));
                    assert(in_bb(b.bb(v, them(b)), t));
                }
            }
        }
    }
}

/// A legal move leads from a sound board to a sound board: what the
/// generator is proved of stays true along a game.
pub proof fn lemma_legal_keeps_sound(b: Board, m: Move)
    requires
        sound(b),
        legal(b, m),
    ensures
        sound(next(b, m)),
{
    let after = b.after_move(m);
    let n = next(b, m);
    let us = b.side_to_move;
    let k = choose|k: int| #[trigger] king_on(b, k);
    let k2 = choose|k: int| 0 <= k < 64 && #[trigger] in_bb(b.bb(Piece::King, them(b)), k);
    lemma_legal_fits(b, m);
    lemma_legal_keeps_disjoint(b, m);
    lemma_kings_stay_single(b, m);
    lemma_after_move_frame(b, m);
    assert forall|p: Piece, s: Side| n.bb(p, s) == after.bb(p, s) by {}
    assert(n.all_occupancy() == after.all_occupancy());
    assert(disjoint(n));
    assert(n.kings_single()) by {
        assert forall|side: Side, s: int, t: int|
            in_bb(n.bb(Piece::King, side), s) && in_bb(n.bb(Piece::King, side), t) implies s
            == t by {
            assert(n.bb(Piece::King, side) == after.bb(Piece::King, side));
        }
    }
    lemma_king_square(b, k);
    // The kings are still there.
    if m.is_castling_spec() {
        lemma_castling_short_rule(b);
        lemma_castling_long_rule(b);
        lemma_castling_king(b);
        let home = king_square(us);
        let target = if m.move_type is CastleShort {
            home - 2
        } else {
            home + 2
        };
        lemma_after_castle(b, m, Piece::King, us, target);
        lemma_after_castle(b, m, Piece::King, them(b), k2);
        assert(in_bb(n.bb(Piece::King, them(n)), target));
        assert(king_on(n, k2));
    } else {
        let s = m.from_square as int;
        let t = m.to_square as int;
        lemma_move_shape(b, m.piece, s, t, m);
        let here = if m.piece == Piece::King {
            t
        } else {
            k
        };
        lemma_king_after(b, m, k, here);
        lemma_survivor(b, m, Piece::King, k2);
        assert(in_bb(n.bb(Piece::King, them(n)), here));
        assert(king_on(n, k2));
        // A new en-passant square is the empty square behind a pawn that
        // has advanced two ranks.
        if n.en_passant_square != 0 {
            let e = n.en_passant_square as int;
            lemma_after_occupancy(b, m, e);
            assert(pawn_advance(b, s, t));
            lemma_after_piece(b, m, Piece::Pawn, us, t);
            assert(en_passant_victim(n) == t);
        }
    }
    lemma_rights_kept(b, m, Side::White);
    lemma_rights_kept(b, m, Side::Black);
}

/// A castling right that is held after a legal move is held with king and
/// rook on their starting squares.
proof fn lemma_rights_kept(b: Board, m: Move, side: Side)
    requires
        valid(b),
        rights_hold(b, side),
        legal(b, m),
    ensures
        rights_hold(next(b, m), side),
{
    let n = next(b, m);
    let after = b.after_move(m);
    lemma_legal_fits(b, m);
    lemma_after_move_frame(b, m);
    let home = king_square(side);
    let short = rook_short_square(side);
    let long = rook_long_square(side);
    assert(n.bb(Piece::King, side) == after.bb(Piece::King, side));
    assert(n.bb(Piece::Rook, side) == after.bb(Piece::Rook, side));
    lemma_occupancy(b, side);
    lemma_occupancy(b, side.opposite());
    lemma_all_occupancy(b);
    if m.is_castling_spec() {
        lemma_castling_short_rule(b);
        lemma_castling_long_rule(b);
        lemma_castling_king(b);
        lemma_after_castle(b, m, Piece::King, side, home);
        lemma_after_castle(b, m, Piece::Rook, side, short);
        lemma_after_castle(b, m, Piece::Rook, side, long);
    } else {
        let s = m.from_square as int;
        let t = m.to_square as int;
        lemma_move_shape(b, m.piece, s, t, m);
        lemma_after_piece(b, m, Piece::King, side, home);
        lemma_after_piece(b, m, Piece::Rook, side, short);
        lemma_after_piece(b, m, Piece::Rook, side, long);
        if side != m.side && in_bb(b.all_occupancy(), t) {
            if in_bb(b.bb(Piece::Rook, side), t) {
                crate::legality::lemma_victim_on(b, Piece::Rook, t);
            }
        }
    }
}

/// No two of the bitboards of the starting position share a square.
proof fn lemma_start_bitboards()
    ensures
        disjoint(Board::start()),
{
    let b = Board::start();
    assert(0xff00u64 & 0x42u64 == 0 && 0xff00u64 & 0x24u64 == 0 && 0xff00u64 & 0x81u64 == 0
        && 0xff00u64 & 0x10u64 == 0 && 0xff00u64 & 0x08u64 == 0 && 0x42u64 & 0x24u64 == 0 && 0x42u64
        & 0x81u64 == 0 && 0x42u64 & 0x10u64 == 0 && 0x42u64 & 0x08u64 == 0 && 0x24u64 & 0x81u64 == 0
        && 0x24u64 & 0x10u64 == 0 && 0x24u64 & 0x08u64 == 0 && 0x81u64 & 0x10u64 == 0 && 0x81u64
        & 0x08u64 == 0 && 0x10u64 & 0x08u64 == 0) by (bit_vector);
    assert(0x00ff_0000_0000_0000u64 & 0x4200_0000_0000_0000u64 == 0 && 0x00ff_0000_0000_0000u64
        & 0x2400_0000_0000_0000u64 == 0 && 0x00ff_0000_0000_0000u64 & 0x8100_0000_0000_0000u64 == 0
        && 0x00ff_0000_0000_0000u64 & 0x1000_0000_0000_0000u64 == 0 && 0x00ff_0000_0000_0000u64
        & 0x0800_0000_0000_0000u64 == 0 && 0x4200_0000_0000_0000u64 & 0x2400_0000_0000_0000u64 == 0
        && 0x4200_0000_0000_0000u64 & 0x8100_0000_0000_0000u64 == 0 && 0x4200_0000_0000_0000u64
        & 0x1000_0000_0000_0000u64 == 0 && 0x4200_0000_0000_0000u64 & 0x0800_0000_0000_0000u64 == 0
        && 0x2400_0000_0000_0000u64 & 0x8100_0000_0000_0000u64 == 0 && 0x2400_0000_0000_0000u64
        & 0x1000_0000_0000_0000u64 == 0 && 0x2400_0000_0000_0000u64 & 0x0800_0000_0000_0000u64 == 0
        && 0x8100_0000_0000_0000u64 & 0x1000_0000_0000_0000u64 == 0 && 0x8100_0000_0000_0000u64
        & 0x0800_0000_0000_0000u64 == 0 && 0x1000_0000_0000_0000u64 & 0x0800_0000_0000_0000u64
        == 0) by (bit_vector);
    let white = 0xff00u64 | 0x42u64 | 0x24u64 | 0x81u64 | 0x10u64 | 0x08u64;
    let black = 0x00ff_0000_0000_0000u64 | 0x4200_0000_0000_0000u64 | 0x2400_0000_0000_0000u64
        | 0x8100_0000_0000_0000u64 | 0x1000_0000_0000_0000u64 | 0x0800_0000_0000_0000u64;
    assert((0xff00u64 | 0x42u64 | 0x24u64 | 0x81u64 | 0x10u64 | 0x08u64) & (
    0x00ff_0000_0000_0000u64 | 0x4200_0000_0000_0000u64 | 0x2400_0000_0000_0000u64
        | 0x8100_0000_0000_0000u64 | 0x1000_0000_0000_0000u64 | 0x0800_0000_0000_0000u64) == 0)
        by (bit_vector);
    assert(b.occupancy(Side::White) == white);
    assert(b.occupancy(Side::Black) == black);
    lemma_occupancy(b, Side::White);
    lemma_occupancy(b, Side::Black);
    lemma_bb_meet(white, black);
    assert forall|p1: Piece, s1: Side, p2: Piece, s2: Side, sq: int|
        (p1 != p2 || s1 != s2) implies !(#[trigger] in_bb(b.bb(p1, s1), sq) && #[trigger] in_bb(
            b.bb(p2, s2),
            sq,
        )) by {
        if 0 <= sq < 64 {
            if s1 == s2 {
                if p1.index_spec() < p2.index_spec() {
                    lemma_bb_meet(b.bb(p1, s1), b.bb(p2, s2));
                    assert(b.bb(p1, s1) & b.bb(p2, s2) == 0);
                } else {
                    lemma_bb_meet(b.bb(p2, s2), b.bb(p1, s1));
                    assert(b.bb(p2, s2) & b.bb(p1, s1) == 0);
                }
            } else {
                if in_bb(b.bb(p1, s1), sq) && in_bb(b.bb(p2, s2), sq) {
                    assert(in_bb(b.occupancy(s1), sq) && in_bb(b.occupancy(s2), sq));
                    assert(in_bb(white, sq) && in_bb(black, sq));
                }
            }
        }
    }
}

/// The starting position is sound.
pub proof fn lemma_start_is_sound()
    ensures
        sound(Board::start()),
{
    let b = Board::start();
    lemma_start_bitboards();
    assert(0x08u64 == 1u64 << 3u64 && 0x0800_0000_0000_0000u64 == 1u64 << 59u64) by (bit_vector);
    lemma_bb_bit(3);
    lemma_bb_bit(59);
    assert(b.bb(Piece::King, Side::White) == bit(3));
    assert(b.bb(Piece::King, Side::Black) == bit(59));
    assert(b.kings_single()) by {
        assert forall|side: Side, s: int, t: int|
            in_bb(b.bb(Piece::King, side), s) && in_bb(b.bb(Piece::King, side), t) implies s
            == t by {}
    }
    assert(king_on(b, 3));
    assert(in_bb(b.bb(Piece::King, them(b)), 59));
    assert(crate::bits::bit_at(0x81, 0) && crate::bits::bit_at(0x81, 7) && crate::bits::bit_at(
        0x8100_0000_0000_0000,
        56,
    ) && crate::bits::bit_at(0x8100_0000_0000_0000, 63)) by (bit_vector);
    assert(in_bb(b.bb(Piece::Rook, Side::White), 0) && in_bb(b.bb(Piece::Rook, Side::White), 7));
    assert(in_bb(b.bb(Piece::Rook, Side::Black), 56) && in_bb(b.bb(Piece::Rook, Side::Black), 63));
}


/// Mate and stalemate: on a sound board the generator gives no move exactly
/// when the rules allow none, so that a game ends in checkmate exactly when
/// the king of the side to move is attacked and no move is legal, and in
/// stalemate exactly when it is not attacked and no move is legal.
pub proof fn lemma_no_moves(b: Board)
    requires
        playable(b),
    ensures
        (legal_moves(b).len() == 0) == (forall|m: Move| !#[trigger] legal(b, m)),
        in_check(b) == attacked(b, the_king(b)),
{
    lemma_in_check(b, the_king(b));
    if legal_moves(b).len() == 0 {
        assert forall|m: Move| !#[trigger] legal(b, m) by {
            lemma_generator_is_exact(b, m);
        }
    } else {
        let m = legal_moves(b)[0];
        assert(legal_moves(b).contains(m));
        lemma_generator_is_exact(b, m);
    }
}

} // verus!
