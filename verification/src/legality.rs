//! What the generated moves mean: a generated move leaves the mover's king
//! on a square that no piece of the other side attacks.

use vstd::prelude::*;
use crate::bits::{
    bit, in_bb, lemma_bb_and, lemma_bb_bit, lemma_bb_meet, lemma_bb_not, lemma_bb_or, lemma_bb_shl,
    lemma_bb_shr, lemma_bb_zero, lemma_extensional, lemma_lowest, lemma_mask_of, lemma_single,
    lowest, single,
};
use crate::board::{
    Board, Piece, Side, king_square, lemma_all_occupancy, lemma_bb_after, lemma_occupancy,
    rook_long_square, rook_short_square,
};
use crate::game::attack_set;
use crate::move_bitboards::{
    RayDirection, between, bishop_reach, bishop_sees, king_mask, king_reach, knight_reach,
    lemma_bishop_attacks, lemma_queen_attacks, lemma_ray_mask, lemma_ray_order, lemma_ray_reverse,
    lemma_ray_transitive, lemma_ray_trichotomy, lemma_rook_attacks, on_ray, pawn_capture_reach,
    ray_mask, rook_reach, rook_sees, sees_along,
};
use crate::movegen::{
    Checker, block_mask, castling_moves, checkers, checkers_upto, comp_ray_mask, danger,
    danger_upto, direction_towards, en_passant_safe, en_passant_victim, enemy_item, gives_check,
    item_piece, item_square, king_ray_mask, king_ray_masks, legal_moves, lemma_castle_paths,
    lemma_castling_moves_fit, lemma_moves_to_fit, lemma_targets, long_castle_king_path,
    may_castle_long, may_castle_short, moves_from, moves_of_piece, moves_of_pieces, moves_to,
    occupancy_without_king, own_king, own_king_square, pawn_mask, pawn_targets, pin_update, pins,
    pins_upto, ray_towards_king, ray_up_to_king, short_castle_path, targets, them, victim_on,
};
use crate::moves::Move;

verus! {

/// A `piece` of `side` on `q` attacks `t` when the squares in `occ` are
/// occupied.
pub open spec fn attacks(piece: Piece, side: Side, q: int, occ: u64, t: int) -> bool {
    match piece {
        Piece::Pawn => pawn_capture_reach(side, q, t),
        Piece::Knight => knight_reach(q, t),
        Piece::Bishop => bishop_sees(q, occ, t),
        Piece::Rook => rook_sees(q, occ, t),
        Piece::Queen => bishop_sees(q, occ, t) || rook_sees(q, occ, t),
        Piece::King => king_reach(q, t),
    }
}

/// The attack set of a piece holds the squares that it attacks.
pub proof fn lemma_attack_set(piece: Piece, side: Side, q: int, occ: u64)
    ensures
        forall|t: int|
            0 <= t < 64 ==> #[trigger] in_bb(attack_set(piece, side, q, occ), t) == attacks(
                piece,
                side,
                q,
                occ,
                t,
            ),
{
    match piece {
        Piece::Pawn => {
            lemma_mask_of(|t: int| pawn_capture_reach(side, q, t));
        },
        Piece::Knight => {
            lemma_mask_of(|t: int| knight_reach(q, t));
        },
        Piece::Bishop => {
            lemma_bishop_attacks(q, occ);
        },
        Piece::Rook => {
            lemma_rook_attacks(q, occ);
        },
        Piece::Queen => {
            lemma_queen_attacks(q, occ);
        },
        Piece::King => {
            lemma_mask_of(|t: int| king_reach(q, t));
        },
    }
}

/// Whether a slider sees a square along a ray depends on the squares
/// strictly between the two alone.
pub proof fn lemma_sees_along_between(dir: RayDirection, q: int, occ1: u64, occ2: u64, t: int)
    requires
        forall|u: int| #[trigger] between(dir, q, t, u) ==> in_bb(occ1, u) == in_bb(occ2, u),
    ensures
        sees_along(dir, q, occ1, t) == sees_along(dir, q, occ2, t),
{
}

/// Whether a piece attacks a square depends, for a slider, on the squares
/// strictly between the two alone, and for the others on nothing.
pub proof fn lemma_attacks_between(piece: Piece, side: Side, q: int, occ1: u64, occ2: u64, t: int)
    requires
        forall|dir: RayDirection, u: int| #[trigger]
            between(dir, q, t, u) ==> in_bb(occ1, u) == in_bb(occ2, u),
    ensures
        attacks(piece, side, q, occ1, t) == attacks(piece, side, q, occ2, t),
{
    lemma_sees_along_between(RayDirection::North, q, occ1, occ2, t);
    lemma_sees_along_between(RayDirection::East, q, occ1, occ2, t);
    lemma_sees_along_between(RayDirection::South, q, occ1, occ2, t);
    lemma_sees_along_between(RayDirection::West, q, occ1, occ2, t);
    lemma_sees_along_between(RayDirection::NorthEast, q, occ1, occ2, t);
    lemma_sees_along_between(RayDirection::SouthEast, q, occ1, occ2, t);
    lemma_sees_along_between(RayDirection::SouthWest, q, occ1, occ2, t);
    lemma_sees_along_between(RayDirection::NorthWest, q, occ1, occ2, t);
}

/// The `j`-th (piece, square) pair of the other side is a piece that
/// attacks `t` once the king of the side to move is taken off the board.
pub open spec fn danger_hit(b: Board, j: int, t: int) -> bool {
    enemy_item(b, j) && attacks(
        item_piece(j),
        them(b),
        item_square(j),
        occupancy_without_king(b),
        t,
    )
}

/// A square is in danger by the first `k` (piece, square) pairs exactly
/// when one of them is a piece that attacks it.
pub proof fn lemma_danger_upto(b: Board, k: int)
    requires
        0 <= k <= 384,
    ensures
        forall|t: int|
            0 <= t < 64 ==> #[trigger] in_bb(danger_upto(b, k), t) == exists|j: int|
                0 <= j < k && #[trigger] danger_hit(b, j, t),
    decreases k,
{
    if k == 0 {
        lemma_bb_zero();
    } else {
        lemma_danger_upto(b, k - 1);
        let prev = danger_upto(b, k - 1);
        let piece = item_piece(k - 1);
        let sq = item_square(k - 1);
        let set = attack_set(piece, them(b), sq, occupancy_without_king(b));
        lemma_attack_set(piece, them(b), sq, occupancy_without_king(b));
        lemma_bb_or(prev, set);
        assert forall|t: int| 0 <= t < 64 implies #[trigger] in_bb(danger_upto(b, k), t)
            == exists|j: int| 0 <= j < k && #[trigger] danger_hit(b, j, t) by {
            if in_bb(danger_upto(b, k), t) {
                if in_bb(prev, t) {
                    let j = choose|j: int| 0 <= j < k - 1 && #[trigger] danger_hit(b, j, t);
                    assert(0 <= j < k && danger_hit(b, j, t));
                } else {
                    assert(danger_hit(b, k - 1, t));
                }
            }
            if exists|j: int| 0 <= j < k && #[trigger] danger_hit(b, j, t) {
                let j = choose|j: int| 0 <= j < k && #[trigger] danger_hit(b, j, t);
                if j < k - 1 {
                    assert(0 <= j < k - 1 && danger_hit(b, j, t));
                }
            }
        }
    }
}

/// A square is in danger exactly when a piece of the other side attacks
/// it once the king of the side to move is taken off the board.
pub proof fn lemma_danger(b: Board, t: int)
    requires
        0 <= t < 64,
    ensures
        in_bb(danger(b), t) == exists|piece: Piece, q: int|
            0 <= q < 64 && in_bb(b.bb(piece, them(b)), q) && #[trigger] attacks(
                piece,
                them(b),
                q,
                occupancy_without_king(b),
                t,
            ),
{
    lemma_danger_upto(b, 384);
    let occ = occupancy_without_king(b);
    if in_bb(danger(b), t) {
        let j = choose|j: int| 0 <= j < 384 && #[trigger] danger_hit(b, j, t);
        assert(attacks(item_piece(j), them(b), item_square(j), occ, t));
    }
    if exists|piece: Piece, q: int|
        0 <= q < 64 && in_bb(b.bb(piece, them(b)), q) && #[trigger] attacks(
            piece,
            them(b),
            q,
            occ,
            t,
        ) {
        let (piece, q) = choose|piece: Piece, q: int|
            0 <= q < 64 && in_bb(b.bb(piece, them(b)), q) && #[trigger] attacks(
                piece,
                them(b),
                q,
                occ,
                t,
            );
        let j = piece.index_spec() * 64 + q;
        assert(item_piece(j) == piece && item_square(j) == q);
        assert(0 <= j < 384 && danger_hit(b, j, t));
    }
}


/// No square holds two pieces.
pub open spec fn disjoint(b: Board) -> bool {
    forall|p1: Piece, s1: Side, p2: Piece, s2: Side, sq: int|
        (p1 != p2 || s1 != s2) ==> !(#[trigger] in_bb(b.bb(p1, s1), sq) && #[trigger] in_bb(
            b.bb(p2, s2),
            sq,
        ))
}

/// The board is one that a game can reach, as far as moves depend on it:
/// no square holds two pieces, each side has at most one king, and an
/// en-passant square is empty and lies on neither the first nor the last
/// rank.
pub open spec fn valid(b: Board) -> bool {
    &&& b.en_passant_square < 64
    &&& disjoint(b)
    &&& b.kings_single()
    &&& b.en_passant_square != 0 ==> 8 <= b.en_passant_square < 56 && !in_bb(
        b.all_occupancy(),
        b.en_passant_square as int,
    )
}

/// Where the pieces stand after a move that does not castle: the moving
/// piece has left its square, the arriving piece stands on the target,
/// the captured piece is gone, and all else is as it was.
pub proof fn lemma_after_piece(b: Board, m: Move, piece: Piece, side: Side, u: int)
    requires
        m.wf(),
        !m.is_castling_spec(),
        0 <= u < 64,
    ensures
        side == m.side ==> in_bb(b.after_move(m).bb(piece, side), u) == ((in_bb(
            b.bb(piece, side),
            u,
        ) && !(piece == m.piece && u == m.from_square)) || (piece == m.arriving_piece() && u
            == m.to_square)),
        side != m.side ==> in_bb(b.after_move(m).bb(piece, side), u) == (in_bb(
            b.bb(piece, side),
            u,
        ) && !(m.captured_spec() == Some(piece) && u == m.capture_square_spec())),
{
    lemma_bb_after(b, m, piece, side);
    let x = b.bb(piece, side);
    let from = m.from_square as int;
    let to = m.to_square as int;
    lemma_bb_bit(from);
    lemma_bb_bit(to);
    lemma_bb_not(bit(from));
    lemma_bb_and(x, !bit(from));
    let lifted = if side == m.side && piece == m.piece {
        x & !bit(from)
    } else {
        x
    };
    lemma_bb_or(lifted, bit(to));
    let placed = if side == m.side && piece == m.arriving_piece() {
        lifted | bit(to)
    } else {
        lifted
    };
    if m.captured_spec() is Some {
        let c = m.capture_square_spec();
        lemma_bb_bit(c);
        lemma_bb_not(bit(c));
        lemma_bb_and(placed, !bit(c));
    }
}

/// The occupied squares after a move that fits the board and does not
/// castle: the square left is empty, the target is occupied, the square of
/// a pawn taken en passant is empty, and all else is as it was.
pub proof fn lemma_after_occupancy(b: Board, m: Move, u: int)
    requires
        disjoint(b),
        b.applicable(m),
        !m.is_castling_spec(),
        0 <= u < 64,
    ensures
        in_bb(b.after_move(m).all_occupancy(), u) == (u == m.to_square || (in_bb(
            b.all_occupancy(),
            u,
        ) && u != m.from_square && !(m.move_type is EnPassantCapture && u
            == m.capture_square_spec()))),
{
    let after = b.after_move(m);
    lemma_occupancy(b, Side::White);
    lemma_occupancy(b, Side::Black);
    lemma_all_occupancy(b);
    lemma_occupancy(after, Side::White);
    lemma_occupancy(after, Side::Black);
    lemma_all_occupancy(after);
    lemma_after_piece(b, m, Piece::Pawn, Side::White, u);
    lemma_after_piece(b, m, Piece::Knight, Side::White, u);
    lemma_after_piece(b, m, Piece::Bishop, Side::White, u);
    lemma_after_piece(b, m, Piece::Rook, Side::White, u);
    lemma_after_piece(b, m, Piece::Queen, Side::White, u);
    lemma_after_piece(b, m, Piece::King, Side::White, u);
    lemma_after_piece(b, m, Piece::Pawn, Side::Black, u);
    lemma_after_piece(b, m, Piece::Knight, Side::Black, u);
    lemma_after_piece(b, m, Piece::Bishop, Side::Black, u);
    lemma_after_piece(b, m, Piece::Rook, Side::Black, u);
    lemma_after_piece(b, m, Piece::Queen, Side::Black, u);
    lemma_after_piece(b, m, Piece::King, Side::Black, u);
    if u == m.from_square {
        assert(in_bb(b.bb(m.piece, m.side), u));
    }
    if m.captured_spec() is Some && u == m.capture_square_spec() {
        assert(in_bb(b.bb(m.captured_spec().unwrap(), m.side.opposite()), u));
    }
}


/// After move `m` no piece of the other side attacks a king of the mover.
pub open spec fn safe_after(b: Board, m: Move) -> bool {
    let after = b.after_move(m);
    forall|piece: Piece, q: int, k: int|
        0 <= q < 64 && in_bb(after.bb(piece, m.side.opposite()), q) && in_bb(
            after.bb(Piece::King, m.side),
            k,
        ) ==> !#[trigger] attacks(piece, m.side.opposite(), q, after.all_occupancy(), k)
}

/// What holds of every target square of the king.
pub proof fn lemma_king_targets(b: Board, s: int, mask: u64, t: int)
    requires
        in_bb(targets(b, Piece::King, s, mask), t),
    ensures
        king_reach(s, t),
        !in_bb(danger(b), t),
        in_bb(mask, t),
{
    let own = b.occupancy(b.side_to_move);
    let their_king = b.bb(Piece::King, them(b));
    let reach = king_mask(s);
    let free = reach & !danger(b);
    let base = free & mask;
    let pinned = base & pins(b)[s];
    let freed = pinned & !own;
    lemma_mask_of(|t: int| king_reach(s, t));
    lemma_bb_not(danger(b));
    lemma_bb_and(reach, !danger(b));
    lemma_bb_and(free, mask);
    lemma_bb_and(base, pins(b)[s]);
    lemma_bb_and(pinned, !own);
    lemma_bb_and(freed, !their_king);
}

/// The piece that a move onto an occupied square captures is the piece
/// that stands there.
pub proof fn lemma_victim_on(b: Board, piece: Piece, t: int)
    requires
        disjoint(b),
        in_bb(b.bb(piece, them(b)), t),
        piece != Piece::King,
    ensures
        victim_on(b, t) == piece,
{
}

/// A step of the king to one of its target squares leaves it unattacked.
pub proof fn lemma_king_move_safe(b: Board, s: int, mask: u64, t: int, m: Move)
    requires
        valid(b),
        0 <= s < 64,
        in_bb(own_king(b), s),
        in_bb(targets(b, Piece::King, s, mask), t),
        moves_to(b, Piece::King, s, t).contains(m),
    ensures
        safe_after(b, m),
{
    let after = b.after_move(m);
    let us = b.side_to_move;
    lemma_king_targets(b, s, mask, t);
    lemma_targets(b, Piece::King, s, mask, t);
    lemma_moves_to_fit(b, Piece::King, s, mask, t);
    let ms = moves_to(b, Piece::King, s, t);
    let i = choose|i: int| 0 <= i < ms.len() && ms[i] == m;
    assert(ms[i].side == us && b.applicable(ms[i]));
    assert(m.from_square == s && m.to_square == t && m.piece == Piece::King);
    lemma_occupancy(b, us);
    lemma_occupancy(b, them(b));
    lemma_all_occupancy(b);
    assert forall|piece: Piece, q: int, k: int|
        0 <= q < 64 && in_bb(after.bb(piece, m.side.opposite()), q) && in_bb(
            after.bb(Piece::King, m.side),
            k,
        ) implies !#[trigger] attacks(piece, m.side.opposite(), q, after.all_occupancy(), k) by {
        lemma_after_piece(b, m, Piece::King, us, k);
        assert(k == t);
        lemma_after_piece(b, m, piece, them(b), q);
        assert(in_bb(b.bb(piece, them(b)), q));
        if q == t {
            assert(piece != Piece::King);
            lemma_victim_on(b, piece, t);
            assert(false);
        }
        if attacks(piece, them(b), q, after.all_occupancy(), t) {
            assert forall|dir: RayDirection, u: int| #[trigger] between(dir, q, t, u) implies in_bb(
                after.all_occupancy(),
                u,
            ) == in_bb(occupancy_without_king(b), u) by {
                lemma_after_occupancy(b, m, u);
                lemma_bb_not(own_king(b));
                lemma_bb_and(b.all_occupancy(), !own_king(b));
            }
            lemma_attacks_between(
                piece,
                them(b),
                q,
                after.all_occupancy(),
                occupancy_without_king(b),
                t,
            );
            lemma_danger(b, t);
            assert(false);
        }
    }
}


/// The king of the side to move stands on `k`.
pub open spec fn king_on(b: Board, k: int) -> bool {
    0 <= k < 64 && in_bb(own_king(b), k)
}

/// With at most one king, the king's square is the one that the generator
/// works with.
pub proof fn lemma_king_square(b: Board, k: int)
    requires
        b.kings_single(),
        king_on(b, k),
    ensures
        own_king_square(b) == k,
        own_king(b) != 0,
        forall|i: int| in_bb(own_king(b), i) ==> i == k,
{
    lemma_bb_zero();
    lemma_lowest(own_king(b));
}

/// The entry that the `j`-th (piece, square) pair makes in the list of
/// checkers.
pub open spec fn checker_entry(b: Board, j: int) -> Checker {
    (
        item_piece(j),
        item_square(j) as usize,
        attack_set(item_piece(j), them(b), item_square(j), b.all_occupancy()),
    )
}

/// A piece gives check exactly when it attacks the king.
pub proof fn lemma_gives_check(b: Board, j: int, k: int)
    requires
        b.kings_single(),
        king_on(b, k),
        0 <= j < 384,
    ensures
        gives_check(b, j) == (enemy_item(b, j) && attacks(
            item_piece(j),
            them(b),
            item_square(j),
            b.all_occupancy(),
            k,
        )),
{
    let set = attack_set(item_piece(j), them(b), item_square(j), b.all_occupancy());
    lemma_attack_set(item_piece(j), them(b), item_square(j), b.all_occupancy());
    lemma_bb_meet(set, own_king(b));
    lemma_king_square(b, k);
    if set & own_king(b) != 0 {
        let i = choose|i: int| 0 <= i < 64 && in_bb(set, i) && #[trigger] in_bb(own_king(b), i);
        assert(i == k);
    }
    if in_bb(set, k) {
        assert(in_bb(own_king(b), k));
    }
}

/// What the list of checkers says of the pieces that give check: an empty
/// list that there is none, a list of one that there is exactly one, the
/// one that is listed.
pub proof fn lemma_checkers_upto(b: Board, n: int)
    requires
        0 <= n <= 384,
    ensures
        checkers_upto(b, n).len() == 0 ==> forall|j: int|
            0 <= j < n ==> !#[trigger] gives_check(b, j),
        checkers_upto(b, n).len() == 1 ==> exists|j0: int|
            0 <= j0 < n && #[trigger] gives_check(b, j0) && checkers_upto(b, n)[0] == checker_entry(
                b,
                j0,
            ) && forall|j: int| 0 <= j < n && #[trigger] gives_check(b, j) ==> j == j0,
    decreases n,
{
    if n > 0 {
        lemma_checkers_upto(b, n - 1);
        let prev = checkers_upto(b, n - 1);
        if gives_check(b, n - 1) {
            if checkers_upto(b, n).len() == 1 {
                assert(prev.len() == 0);
                assert(checkers_upto(b, n)[0] == checker_entry(b, n - 1));
                assert forall|j: int| 0 <= j < n && #[trigger] gives_check(b, j) implies j == n
                    - 1 by {
                    if j < n - 1 {
                        assert(!gives_check(b, j));
                    }
                }
            }
        } else {
            if checkers_upto(b, n).len() == 1 {
                let j0 = choose|j0: int|
                    0 <= j0 < n - 1 && #[trigger] gives_check(b, j0) && prev[0] == checker_entry(
                        b,
                        j0,
                    ) && forall|j: int| 0 <= j < n - 1 && #[trigger] gives_check(b, j) ==> j == j0;
                assert(0 <= j0 < n && gives_check(b, j0));
            }
        }
    }
}

/// The direction from a square towards a square on one of its rays is the
/// direction of that ray.
pub proof fn lemma_direction_towards(dir: RayDirection, from: int, king: int)
    requires
        on_ray(dir, from, king),
    ensures
        direction_towards(king, from) == dir,
{
}

/// Only one direction leads from one square to another.
pub proof fn lemma_direction_unique(d1: RayDirection, d2: RayDirection, from: int, to: int)
    requires
        on_ray(d1, from, to),
        on_ray(d2, from, to),
    ensures
        d1 == d2,
{
}

/// The squares of the ray from `q` towards the king up to the king: those
/// strictly between the two, and the king's square.
pub proof fn lemma_ray_up_to_king(b: Board, dir: RayDirection, q: int, k: int)
    requires
        b.kings_single(),
        king_on(b, k),
        on_ray(dir, q, k),
    ensures
        ray_towards_king(b, q) == ray_mask(dir, q),
        forall|u: int|
            0 <= u < 64 ==> #[trigger] in_bb(ray_up_to_king(b, q), u) == (u == k || between(
                dir,
                q,
                k,
                u,
            )),
{
    lemma_king_square(b, k);
    lemma_direction_towards(dir, q, k);
    lemma_ray_mask(dir, q);
    lemma_ray_mask(dir, k);
    lemma_bb_not(ray_mask(dir, k));
    lemma_bb_and(ray_mask(dir, q), !ray_mask(dir, k));
    assert forall|u: int| 0 <= u < 64 implies #[trigger] in_bb(ray_up_to_king(b, q), u) == (u == k
        || between(dir, q, k, u)) by {
        if on_ray(dir, q, u) && u != k {
            lemma_ray_trichotomy(dir, q, u, k);
        }
        if between(dir, q, k, u) {
            lemma_ray_order(dir, u, k);
            if on_ray(dir, k, u) {
                lemma_ray_order(dir, k, u);
            }
        }
    }
}


/// A piece of the given kind slides in the given direction.
pub open spec fn slides_along(piece: Piece, dir: RayDirection) -> bool {
    piece == Piece::Queen || (piece == Piece::Bishop && dir.is_diagonal()) || (piece
        == Piece::Rook && !dir.is_diagonal())
}

/// The slider `piece` of the other side on `q` pins the piece on `s`
/// against the king on `k` along `dir`: `s` lies between the slider and
/// the king, holds a piece of the side to move, and is the only occupied
/// square between the two.
pub open spec fn pinned_by(b: Board, piece: Piece, q: int, s: int, k: int, dir: RayDirection) -> bool {
    &&& 0 <= q < 64
    &&& in_bb(b.bb(piece, them(b)), q)
    &&& slides_along(piece, dir)
    &&& between(dir, q, k, s)
    &&& in_bb(b.occupancy(b.side_to_move), s)
    &&& forall|u: int| #[trigger] between(dir, q, k, u) && u != s ==> !in_bb(b.all_occupancy(), u)
}

/// The mask that a pin by a slider on `q` leaves to the pinned piece.
pub open spec fn pin_mask(b: Board, q: int) -> u64 {
    ray_up_to_king(b, q) | bit(q)
}

/// A slider attacks a square exactly when it sees it along a direction in
/// which it slides.
pub proof fn lemma_slider_attacks(piece: Piece, side: Side, q: int, occ: u64, t: int)
    requires
        piece.is_slider(),
    ensures
        attacks(piece, side, q, occ, t) == exists|dir: RayDirection|
            slides_along(piece, dir) && #[trigger] sees_along(dir, q, occ, t),
{
    if attacks(piece, side, q, occ, t) {
        if sees_along(RayDirection::North, q, occ, t) {
        } else if sees_along(RayDirection::East, q, occ, t) {
        } else if sees_along(RayDirection::South, q, occ, t) {
        } else if sees_along(RayDirection::West, q, occ, t) {
        } else if sees_along(RayDirection::NorthEast, q, occ, t) {
        } else if sees_along(RayDirection::SouthEast, q, occ, t) {
        } else if sees_along(RayDirection::SouthWest, q, occ, t) {
        } else {
            assert(sees_along(RayDirection::NorthWest, q, occ, t));
        }
    }
}

/// The king stands on a ray of the slider exactly when the slider's rays
/// on an empty board hold the king's square.
pub proof fn lemma_aligned(b: Board, piece: Piece, q: int, k: int)
    requires
        b.kings_single(),
        king_on(b, k),
        piece.is_slider(),
    ensures
        (comp_ray_mask(piece, q) & own_king(b) != 0) == exists|dir: RayDirection|
            slides_along(piece, dir) && #[trigger] on_ray(dir, q, k),
{
    lemma_king_square(b, k);
    let comp = comp_ray_mask(piece, q);
    lemma_bb_meet(comp, own_king(b));
    lemma_mask_of(|t: int| bishop_reach(q, t));
    lemma_mask_of(|t: int| rook_reach(q, t));
    lemma_mask_of(|t: int| bishop_reach(q, t) || rook_reach(q, t));
    if comp & own_king(b) != 0 {
        let i = choose|i: int| 0 <= i < 64 && in_bb(comp, i) && #[trigger] in_bb(own_king(b), i);
        assert(i == k);
        if on_ray(RayDirection::North, q, k) {
        } else if on_ray(RayDirection::East, q, k) {
        } else if on_ray(RayDirection::South, q, k) {
        } else if on_ray(RayDirection::West, q, k) {
        } else if on_ray(RayDirection::NorthEast, q, k) {
        } else if on_ray(RayDirection::SouthEast, q, k) {
        } else if on_ray(RayDirection::SouthWest, q, k) {
        } else {
            assert(on_ray(RayDirection::NorthWest, q, k));
        }
    }
    if exists|dir: RayDirection| slides_along(piece, dir) && #[trigger] on_ray(dir, q, k) {
        let dir = choose|dir: RayDirection| slides_along(piece, dir) && #[trigger] on_ray(dir, q, k);
        assert(in_bb(comp, k));
        assert(in_bb(own_king(b), k));
    }
}

/// What looking at one slider does to the pin masks: where the slider pins
/// a piece, the mask of that piece's square becomes the slider's pin mask;
/// no other mask changes.
pub proof fn lemma_pin_update(b: Board, piece: Piece, q: int, k: int, pins: Seq<u64>)
    requires
        valid(b),
        king_on(b, k),
        piece.is_slider(),
        0 <= q < 64,
        in_bb(b.bb(piece, them(b)), q),
        pins.len() == 64,
    ensures
        pin_update(b, piece, q, pins).len() == 64,
        forall|s: int, dir: RayDirection|
            pinned_by(b, piece, q, s, k, dir) ==> pin_update(b, piece, q, pins) == pins.update(
                s,
                pin_mask(b, q),
            ),
        forall|x: int|
            0 <= x < 64 && #[trigger] pin_update(b, piece, q, pins)[x] != pins[x] ==> exists|
                dir: RayDirection,
            | #[trigger] pinned_by(b, piece, q, x, k, dir),
{
    let us = b.side_to_move;
    let king = own_king(b);
    let own = b.occupancy(us);
    let theirs = b.occupancy(them(b));
    lemma_king_square(b, k);
    lemma_aligned(b, piece, q, k);
    lemma_occupancy(b, us);
    lemma_occupancy(b, them(b));
    lemma_all_occupancy(b);
    if comp_ray_mask(piece, q) & king != 0 {
        let dir = choose|dir: RayDirection| slides_along(piece, dir) && #[trigger] on_ray(dir, q, k);
        lemma_ray_up_to_king(b, dir, q, k);
        let to_king = ray_up_to_king(b, q);
        lemma_bb_meet(to_king, theirs);
        let mine = to_king & own;
        let blockers = mine & !king;
        lemma_bb_and(to_king, own);
        lemma_bb_not(king);
        lemma_bb_and(mine, !king);
        lemma_single(blockers);
        assert forall|u: int| 0 <= u < 64 implies in_bb(blockers, u) == (between(dir, q, k, u)
            && in_bb(own, u)) by {}
        assert(!in_bb(theirs, k)) by {
            assert(in_bb(b.bb(Piece::King, us), k));
        }
        assert forall|s: int, d: RayDirection| pinned_by(b, piece, q, s, k, d) implies pin_update(
            b,
            piece,
            q,
            pins,
        ) == pins.update(s, pin_mask(b, q)) by {
            lemma_direction_unique(d, dir, q, k);
            assert(to_king & theirs == 0) by {
                if to_king & theirs != 0 {
                    let i = choose|i: int|
                        0 <= i < 64 && in_bb(to_king, i) && #[trigger] in_bb(theirs, i);
                    assert(between(dir, q, k, i));
                    assert(!in_bb(own, i)) by {
                        lemma_piece_on_one_side(b, i);
                    }
                    assert(i != s);
                }
            }
            assert(in_bb(blockers, s));
            assert forall|i: int| in_bb(blockers, i) implies i == s by {
                if i != s {
                    assert(between(dir, q, k, i));
                }
            }
            assert(single(blockers));
            lemma_lowest(blockers);
        }
        assert forall|x: int|
            0 <= x < 64 && #[trigger] pin_update(b, piece, q, pins)[x] != pins[x] implies exists|
            d: RayDirection,
        | #[trigger] pinned_by(b, piece, q, x, k, d) by {
            assert(to_king & theirs == 0);
            assert(single(blockers));
            lemma_lowest(blockers);
            let s = lowest(blockers);
            assert(x == s);
            assert forall|u: int| #[trigger] between(dir, q, k, u) && u != s implies !in_bb(
                b.all_occupancy(),
                u,
            ) by {
                assert(in_bb(to_king, u));
                assert(!in_bb(theirs, u));
                if in_bb(own, u) {
                    assert(in_bb(blockers, u));
                }
            }
            assert(pinned_by(b, piece, q, s, k, dir));
        }
    } else {
        assert forall|s: int, d: RayDirection| pinned_by(b, piece, q, s, k, d) implies pin_update(
            b,
            piece,
            q,
            pins,
        ) == pins.update(s, pin_mask(b, q)) by {
            lemma_ray_transitive(d, q, s, k);
            assert(on_ray(d, q, k));
        }
    }
}

/// A square that one side occupies is not occupied by the other.
pub proof fn lemma_piece_on_one_side(b: Board, u: int)
    requires
        disjoint(b),
    ensures
        !(in_bb(b.occupancy(Side::White), u) && in_bb(b.occupancy(Side::Black), u)),
{
    lemma_occupancy(b, Side::White);
    lemma_occupancy(b, Side::Black);
}


/// A pinned piece is pinned by one slider only.
pub proof fn lemma_pinner_unique(
    b: Board,
    p1: Piece,
    q1: int,
    d1: RayDirection,
    p2: Piece,
    q2: int,
    d2: RayDirection,
    s: int,
    k: int,
)
    requires
        valid(b),
        pinned_by(b, p1, q1, s, k, d1),
        pinned_by(b, p2, q2, s, k, d2),
    ensures
        q1 == q2,
        p1 == p2,
        d1 == d2,
{
    lemma_direction_unique(d1, d2, s, k);
    lemma_occupancy(b, them(b));
    lemma_all_occupancy(b);
    lemma_ray_reverse(d1, q1, s);
    lemma_ray_reverse(d1, q2, s);
    lemma_ray_trichotomy(d1.reverse(), s, q1, q2);
    if q1 != q2 {
        if on_ray(d1.reverse(), q1, q2) {
            lemma_ray_reverse(d1, q2, q1);
            lemma_ray_transitive(d1, q1, s, k);
            assert(between(d1, q2, k, q1));
            assert(in_bb(b.all_occupancy(), q1));
            lemma_ray_order(d1, q1, s);
        } else {
            lemma_ray_reverse(d1, q1, q2);
            lemma_ray_transitive(d1, q2, s, k);
            assert(between(d1, q1, k, q2));
            assert(in_bb(b.all_occupancy(), q2));
            lemma_ray_order(d1, q2, s);
        }
    }
}

/// A piece that is pinned by a slider is not attacked through by it: the
/// slider gives no check.
pub proof fn lemma_pinner_gives_no_check(
    b: Board,
    piece: Piece,
    q: int,
    s: int,
    k: int,
    dir: RayDirection,
)
    requires
        valid(b),
        king_on(b, k),
        piece.is_slider(),
        pinned_by(b, piece, q, s, k, dir),
    ensures
        !attacks(piece, them(b), q, b.all_occupancy(), k),
{
    lemma_slider_attacks(piece, them(b), q, b.all_occupancy(), k);
    lemma_occupancy(b, b.side_to_move);
    lemma_all_occupancy(b);
    if attacks(piece, them(b), q, b.all_occupancy(), k) {
        let d = choose|d: RayDirection|
            slides_along(piece, d) && #[trigger] sees_along(d, q, b.all_occupancy(), k);
        lemma_ray_transitive(dir, q, s, k);
        lemma_direction_unique(d, dir, q, k);
        assert(between(dir, q, k, s));
    }
}

/// The pin masks are sixty-four.
pub proof fn lemma_pins_len(b: Board, n: int, k: int)
    requires
        valid(b),
        king_on(b, k),
        0 <= n <= 384,
    ensures
        pins_upto(b, n).len() == 64,
    decreases n,
{
    if n > 0 {
        lemma_pins_len(b, n - 1, k);
        if enemy_item(b, n - 1) && item_piece(n - 1).is_slider() {
            lemma_pin_update(b, item_piece(n - 1), item_square(n - 1), k, pins_upto(b, n - 1));
        }
    }
}

/// The pin mask of a pinned piece is the pin mask of the slider that pins
/// it.
pub proof fn lemma_pins_upto(b: Board, n: int, piece: Piece, q: int, s: int, k: int, dir: RayDirection)
    requires
        valid(b),
        king_on(b, k),
        piece.is_slider(),
        pinned_by(b, piece, q, s, k, dir),
        piece.index_spec() * 64 + q < n <= 384,
    ensures
        pins_upto(b, n)[s] == pin_mask(b, q),
    decreases n,
{
    let j = piece.index_spec() * 64 + q;
    assert(item_piece(j) == piece && item_square(j) == q);
    let i = n - 1;
    lemma_pins_len(b, i, k);
    let before = pins_upto(b, i);
    if i == j {
        lemma_pinner_gives_no_check(b, piece, q, s, k, dir);
        lemma_gives_check(b, j, k);
        lemma_pin_update(b, piece, q, k, before);
    } else {
        lemma_pins_upto(b, i, piece, q, s, k, dir);
        if enemy_item(b, i) && item_piece(i).is_slider() && !gives_check(b, i) {
            lemma_pin_update(b, item_piece(i), item_square(i), k, before);
            let after = pin_update(b, item_piece(i), item_square(i), before);
            if after[s] != before[s] {
                let d = choose|d: RayDirection| #[trigger]
                    pinned_by(b, item_piece(i), item_square(i), s, k, d);
                lemma_pinner_unique(b, item_piece(i), item_square(i), d, piece, q, dir, s, k);
                assert(false);
            }
        }
    }
}


/// What holds of every target square of a piece that is not the king: the
/// pin mask of the piece's square and the mask of the check let it
/// through.
pub proof fn lemma_piece_targets(b: Board, piece: Piece, s: int, mask: u64, t: int)
    requires
        piece != Piece::King,
        in_bb(targets(b, piece, s, mask), t),
        b.en_passant_square < 64,
    ensures
        in_bb(pins(b)[s], t),
        piece == Piece::Pawn ==> in_bb(pawn_mask(b, mask), t),
        piece != Piece::Pawn ==> in_bb(mask, t),
{
    let own = b.occupancy(b.side_to_move);
    let their_king = b.bb(Piece::King, them(b));
    let base = match piece {
        Piece::Pawn => pawn_targets(b, s) & pawn_mask(b, mask),
        Piece::King => king_mask(s) & !danger(b) & mask,
        _ => attack_set(piece, b.side_to_move, s, b.all_occupancy()) & mask,
    };
    let pinned = base & pins(b)[s];
    let freed = pinned & !own;
    let allowed = freed & !their_king;
    lemma_bb_and(pawn_targets(b, s), pawn_mask(b, mask));
    lemma_bb_and(attack_set(piece, b.side_to_move, s, b.all_occupancy()), mask);
    lemma_bb_and(base, pins(b)[s]);
    lemma_bb_and(pinned, !own);
    lemma_bb_and(freed, !their_king);
    if b.en_passant_square != 0 {
        let e = bit(b.en_passant_square as int);
        lemma_bb_and(allowed, !e);
    }
}

/// What a move to a target square looks like.
pub proof fn lemma_move_shape(b: Board, piece: Piece, s: int, t: int, m: Move)
    requires
        0 <= s < 64,
        0 <= t < 64,
        moves_to(b, piece, s, t).contains(m),
    ensures
        m.from_square == s,
        m.to_square == t,
        m.piece == piece,
        m.side == b.side_to_move,
        !m.is_castling_spec(),
        in_bb(b.all_occupancy(), t) ==> m.captured_spec() == Some(victim_on(b, t)) && !(
        m.move_type is EnPassantCapture),
        !in_bb(b.all_occupancy(), t) ==> (m.captured_spec() is Some) == (
        m.move_type is EnPassantCapture),
        m.move_type is EnPassantCapture ==> piece == Piece::Pawn && b.en_passant_square != 0
            && t == b.en_passant_square,
        piece == Piece::Pawn && b.en_passant_square != 0 && t == b.en_passant_square && !in_bb(
            b.all_occupancy(),
            t,
        ) && 8 <= t < 56 ==> m.move_type is EnPassantCapture,
        m.captured_spec() is Some ==> m.capture_square_spec() == if m.move_type
            is EnPassantCapture {
            en_passant_victim(b)
        } else {
            t
        },
{
    let ms = moves_to(b, piece, s, t);
    let i = choose|i: int| 0 <= i < ms.len() && ms[i] == m;
    assert(ms[i] == m);
}

/// A capture on the square of a piece takes that piece off the board.
pub proof fn lemma_capture_removes(b: Board, piece: Piece, s: int, mask: u64, m: Move, p: Piece, q: int)
    requires
        valid(b),
        0 <= s < 64,
        in_bb(b.bb(piece, b.side_to_move), s),
        in_bb(targets(b, piece, s, mask), q),
        moves_to(b, piece, s, q).contains(m),
        in_bb(b.bb(p, them(b)), q),
    ensures
        !in_bb(b.after_move(m).bb(p, them(b)), q),
{
    lemma_targets(b, piece, s, mask, q);
    lemma_move_shape(b, piece, s, q, m);
    lemma_moves_to_fit(b, piece, s, mask, q);
    let ms = moves_to(b, piece, s, q);
    let i = choose|i: int| 0 <= i < ms.len() && ms[i] == m;
    assert(b.applicable(ms[i]));
    lemma_occupancy(b, them(b));
    lemma_all_occupancy(b);
    assert(p != Piece::King);
    lemma_victim_on(b, p, q);
    lemma_after_piece(b, m, p, them(b), q);
}


/// The mask is the one that the generator hands to the pieces other than
/// the king: every square where no piece gives check, the squares that end
/// the check where one piece gives it.
pub open spec fn mask_fits_check(b: Board, mask: u64) -> bool {
    checkers(b).len() == 0 || (checkers(b).len() == 1 && mask == block_mask(b, checkers(b)[0]))
}

/// What is known of a move of a piece other than the king when its safety
/// is looked at: the board is valid, the king stands on `k`, the piece
/// stands on `s`, `t` is one of its targets, `m` is a move to it, and the
/// move does not capture the piece `p` of the other side on `q`.
pub open spec fn faces(
    b: Board,
    piece: Piece,
    s: int,
    mask: u64,
    t: int,
    m: Move,
    p: Piece,
    q: int,
    k: int,
) -> bool {
    &&& valid(b)
    &&& king_on(b, k)
    &&& piece != Piece::King
    &&& 0 <= s < 64
    &&& in_bb(b.bb(piece, b.side_to_move), s)
    &&& in_bb(targets(b, piece, s, mask), t)
    &&& moves_to(b, piece, s, t).contains(m)
    &&& mask_fits_check(b, mask)
    &&& 0 <= q < 64
    &&& q != t
    &&& in_bb(b.bb(p, them(b)), q)
    &&& !(m.captured_spec() == Some(p) && q == m.capture_square_spec())
}

/// The common ground of the cases below.
proof fn lemma_threat_facts(
    b: Board,
    piece: Piece,
    s: int,
    mask: u64,
    t: int,
    m: Move,
    p: Piece,
    q: int,
    k: int,
)
    requires
        faces(b, piece, s, mask, t, m, p, q, k),
    ensures
        0 <= t < 64,
        b.applicable(m),
        !m.is_castling_spec(),
        m.from_square == s,
        m.to_square == t,
        t != k,
        s != k,
        !in_bb(b.occupancy(b.side_to_move), t),
        in_bb(b.occupancy(b.side_to_move), s),
        in_bb(b.occupancy(b.side_to_move), k),
        in_bb(b.occupancy(them(b)), q),
        in_bb(b.all_occupancy(), q),
        in_bb(b.all_occupancy(), k),
        forall|u: int|
            0 <= u < 64 ==> #[trigger] in_bb(b.after_move(m).all_occupancy(), u) == (u == t || (
            in_bb(b.all_occupancy(), u) && u != s && !(m.move_type is EnPassantCapture && u
                == m.capture_square_spec()))),
{
    lemma_targets(b, piece, s, mask, t);
    lemma_move_shape(b, piece, s, t, m);
    lemma_moves_to_fit(b, piece, s, mask, t);
    let ms = moves_to(b, piece, s, t);
    let i = choose|i: int| 0 <= i < ms.len() && ms[i] == m;
    assert(b.applicable(ms[i]));
    lemma_occupancy(b, b.side_to_move);
    lemma_occupancy(b, them(b));
    lemma_all_occupancy(b);
    assert(in_bb(b.bb(Piece::King, b.side_to_move), k));
    assert forall|u: int| 0 <= u < 64 implies #[trigger] in_bb(b.after_move(m).all_occupancy(), u)
        == (u == t || (in_bb(b.all_occupancy(), u) && u != s && !(m.move_type
        is EnPassantCapture && u == m.capture_square_spec()))) by {
        lemma_after_occupancy(b, m, u);
    }
    if s == k {
        assert(in_bb(b.bb(piece, b.side_to_move), k) && in_bb(
            b.bb(Piece::King, b.side_to_move),
            k,
        ));
    }
}

/// A piece that gives check still gives it only if the move neither takes
/// it nor steps between it and the king; the generator lets no such move
/// through.
proof fn lemma_check_is_ended(
    b: Board,
    piece: Piece,
    s: int,
    mask: u64,
    t: int,
    m: Move,
    p: Piece,
    q: int,
    k: int,
)
    requires
        faces(b, piece, s, mask, t, m, p, q, k),
        attacks(p, them(b), q, b.all_occupancy(), k),
    ensures
        !attacks(p, them(b), q, b.after_move(m).all_occupancy(), k),
{
    lemma_threat_facts(b, piece, s, mask, t, m, p, q, k);
    let occ = b.all_occupancy();
    let after_occ = b.after_move(m).all_occupancy();
    if attacks(p, them(b), q, after_occ, k) {
        let j = p.index_spec() * 64 + q;
        assert(item_piece(j) == p && item_square(j) == q);
        lemma_gives_check(b, j, k);
        lemma_checkers_upto(b, 384);
        assert(gives_check(b, j));
        let cbb = attack_set(p, them(b), q, occ);
        assert(checkers(b)[0] == checker_entry(b, j));
        assert(mask == block_mask(b, (p, q as usize, cbb)));
        lemma_attack_set(p, them(b), q, occ);
        lemma_bb_bit(q);
        lemma_piece_targets(b, piece, s, mask, t);
        lemma_targets(b, piece, s, mask, t);
        lemma_move_shape(b, piece, s, t, m);
        // The square that has to be in the mask: the target, or the square of
        // the pawn that is taken en passant.
        let x = if in_bb(mask, t) {
            t
        } else {
            en_passant_victim(b)
        };
        if !in_bb(mask, t) {
            let e = bit(b.en_passant_square as int);
            lemma_bb_bit(b.en_passant_square as int);
            lemma_bb_or(mask, e);
            assert(piece == Piece::Pawn);
            assert(t == b.en_passant_square);
            assert(m.move_type is EnPassantCapture);
            assert(en_passant_safe(b, s));
            assert(in_bb(b.bb(Piece::Pawn, them(b)), x));
            if x == q {
                assert(p == Piece::Pawn);
            }
        }
        assert(in_bb(mask, x));
        assert(x != q);
        assert(x != k) by {
            if x != t {
                lemma_occupancy(b, them(b));
                lemma_piece_on_one_side(b, x);
            }
        }
        assert(p.is_slider());
        lemma_slider_attacks(p, them(b), q, occ, k);
        let dir = choose|dir: RayDirection| slides_along(p, dir) && #[trigger] sees_along(dir, q, occ, k);
        lemma_ray_up_to_king(b, dir, q, k);
        lemma_ray_mask(dir, q);
        let ray = ray_towards_king(b, q);
        lemma_bb_and(cbb, ray);
        lemma_bb_or(cbb & ray, bit(q));
        assert(in_bb(cbb, x) && on_ray(dir, q, x));
        lemma_slider_attacks(p, them(b), q, occ, x);
        let d2 = choose|d: RayDirection| slides_along(p, d) && #[trigger] sees_along(d, q, occ, x);
        lemma_direction_unique(d2, dir, q, x);
        lemma_ray_trichotomy(dir, q, x, k);
        if on_ray(dir, x, k) {
            assert(between(dir, q, k, x));
            if x == t {
                lemma_slider_attacks(p, them(b), q, after_occ, k);
                let d3 = choose|d: RayDirection|
                    slides_along(p, d) && #[trigger] sees_along(d, q, after_occ, k);
                lemma_direction_unique(d3, dir, q, k);
                assert(in_bb(after_occ, t));
            } else {
                lemma_occupancy(b, them(b));
                lemma_all_occupancy(b);
                assert(in_bb(occ, x));
            }
        } else {
            assert(between(dir, q, x, k));
        }
    }
}

/// A slider that gives no check before the move gives none after it: a
/// move that would uncover the king is a move of a pinned piece off the
/// line of the pin, or an en-passant capture that the generator leaves
/// out.
proof fn lemma_nothing_is_uncovered(
    b: Board,
    piece: Piece,
    s: int,
    mask: u64,
    t: int,
    m: Move,
    p: Piece,
    q: int,
    k: int,
)
    requires
        faces(b, piece, s, mask, t, m, p, q, k),
        !attacks(p, them(b), q, b.all_occupancy(), k),
    ensures
        !attacks(p, them(b), q, b.after_move(m).all_occupancy(), k),
{
    lemma_threat_facts(b, piece, s, mask, t, m, p, q, k);
    let occ = b.all_occupancy();
    let after_occ = b.after_move(m).all_occupancy();
    if attacks(p, them(b), q, after_occ, k) {
        assert(p.is_slider());
        lemma_slider_attacks(p, them(b), q, after_occ, k);
        lemma_slider_attacks(p, them(b), q, occ, k);
        let dir = choose|dir: RayDirection|
            slides_along(p, dir) && #[trigger] sees_along(dir, q, after_occ, k);
        assert(!sees_along(dir, q, occ, k));
        lemma_targets(b, piece, s, mask, t);
        lemma_move_shape(b, piece, s, t, m);
        lemma_piece_targets(b, piece, s, mask, t);
        if m.move_type is EnPassantCapture {
            lemma_en_passant_uncovers_nothing(b, s, m, p, q, k, dir);
        } else {
            assert forall|u: int| #[trigger] between(dir, q, k, u) && u != s implies !in_bb(occ, u) by {
                assert(!in_bb(after_occ, u));
            }
            let u0 = choose|u: int| #[trigger] between(dir, q, k, u) && in_bb(occ, u);
            assert(u0 == s);
            assert(pinned_by(b, p, q, s, k, dir));
            lemma_pins_upto(b, 384, p, q, s, k, dir);
            lemma_ray_up_to_king(b, dir, q, k);
            lemma_bb_bit(q);
            lemma_bb_or(ray_up_to_king(b, q), bit(q));
            assert(in_bb(pin_mask(b, q), t));
            assert(between(dir, q, k, t));
            assert(in_bb(after_occ, t));
        }
    }
}

/// An en-passant capture that the generator lets through uncovers no
/// slider.
proof fn lemma_en_passant_uncovers_nothing(
    b: Board,
    s: int,
    m: Move,
    p: Piece,
    q: int,
    k: int,
    dir: RayDirection,
)
    requires
        valid(b),
        king_on(b, k),
        0 <= s < 64,
        0 <= q < 64,
        b.en_passant_square != 0,
        en_passant_safe(b, s),
        m.move_type is EnPassantCapture,
        m.capture_square_spec() == en_passant_victim(b),
        m.to_square == b.en_passant_square,
        in_bb(b.bb(p, them(b)), q),
        slides_along(p, dir),
        forall|u: int|
            0 <= u < 64 ==> #[trigger] in_bb(b.after_move(m).all_occupancy(), u) == (u
                == m.to_square || (in_bb(b.all_occupancy(), u) && u != s && !(u
                == m.capture_square_spec()))),
    ensures
        !sees_along(dir, q, b.after_move(m).all_occupancy(), k),
{
    let occ = b.all_occupancy();
    let after_occ = b.after_move(m).all_occupancy();
    if sees_along(dir, q, after_occ, k) {
        let victim = en_passant_victim(b);
        let ep = b.en_passant_square as int;
        let x1 = occ & !bit(s);
        let x2 = x1 & !bit(victim);
        let shown = x2 | bit(ep);
        lemma_bb_bit(s);
        lemma_bb_bit(victim);
        lemma_bb_bit(ep);
        lemma_bb_not(bit(s));
        lemma_bb_not(bit(victim));
        lemma_bb_and(occ, !bit(s));
        lemma_bb_and(x1, !bit(victim));
        lemma_bb_or(x2, bit(ep));
        lemma_extensional(shown, after_occ);
        lemma_king_square(b, k);
        let lines = b.bb(Piece::Rook, them(b)) | b.bb(Piece::Queen, them(b));
        let diagonals = b.bb(Piece::Bishop, them(b)) | b.bb(Piece::Queen, them(b));
        lemma_bb_or(b.bb(Piece::Rook, them(b)), b.bb(Piece::Queen, them(b)));
        lemma_bb_or(b.bb(Piece::Bishop, them(b)), b.bb(Piece::Queen, them(b)));
        crate::move_bitboards::lemma_sees_along_symmetric(dir, q, k, after_occ);
        lemma_rook_attacks(k, after_occ);
        lemma_bishop_attacks(k, after_occ);
        lemma_bb_meet(crate::move_bitboards::rook_attacks(k, after_occ), lines);
        lemma_bb_meet(crate::move_bitboards::bishop_attacks(k, after_occ), diagonals);
        if dir.is_diagonal() {
            assert(in_bb(crate::move_bitboards::bishop_attacks(k, after_occ), q));
            assert(in_bb(diagonals, q));
        } else {
            assert(in_bb(crate::move_bitboards::rook_attacks(k, after_occ), q));
            assert(in_bb(lines, q));
        }
    }
}

/// A move of a piece other than the king to one of its target squares
/// leaves the king unattacked.
pub proof fn lemma_piece_move_safe(b: Board, piece: Piece, s: int, mask: u64, t: int, m: Move)
    requires
        valid(b),
        piece != Piece::King,
        0 <= s < 64,
        in_bb(b.bb(piece, b.side_to_move), s),
        in_bb(targets(b, piece, s, mask), t),
        moves_to(b, piece, s, t).contains(m),
        mask_fits_check(b, mask),
    ensures
        safe_after(b, m),
{
    let after = b.after_move(m);
    let us = b.side_to_move;
    lemma_targets(b, piece, s, mask, t);
    lemma_move_shape(b, piece, s, t, m);
    lemma_moves_to_fit(b, piece, s, mask, t);
    let ms = moves_to(b, piece, s, t);
    let i = choose|i: int| 0 <= i < ms.len() && ms[i] == m;
    assert(b.applicable(ms[i]));
    assert forall|p: Piece, q: int, k: int|
        0 <= q < 64 && in_bb(after.bb(p, m.side.opposite()), q) && in_bb(
            after.bb(Piece::King, m.side),
            k,
        ) implies !#[trigger] attacks(p, m.side.opposite(), q, after.all_occupancy(), k) by {
        if 0 <= k < 64 {
            lemma_after_piece(b, m, Piece::King, us, k);
            assert(king_on(b, k));
            lemma_after_piece(b, m, p, them(b), q);
            if q == t {
                lemma_capture_removes(b, piece, s, mask, m, p, q);
            }
            if attacks(p, them(b), q, after.all_occupancy(), k) {
                assert(faces(b, piece, s, mask, t, m, p, q, k));
                if attacks(p, them(b), q, b.all_occupancy(), k) {
                    lemma_check_is_ended(b, piece, s, mask, t, m, p, q, k);
                } else {
                    lemma_nothing_is_uncovered(b, piece, s, mask, t, m, p, q, k);
                }
            }
        }
    }
}


/// The king that may castle stands on its starting square.
pub proof fn lemma_castling_king(b: Board)
    requires
        b.kings_single(),
        may_castle_short(b) || may_castle_long(b),
    ensures
        king_on(b, king_square(b.side_to_move)),
        own_king(b) == bit(king_square(b.side_to_move)),
{
    let home = king_square(b.side_to_move);
    lemma_bb_bit(home);
    lemma_bb_meet(own_king(b), bit(home));
    let i = choose|i: int| 0 <= i < 64 && in_bb(own_king(b), i) && #[trigger] in_bb(bit(home), i);
    assert(i == home);
    assert forall|u: int| 0 <= u < 64 implies in_bb(own_king(b), u) == in_bb(bit(home), u) by {}
    lemma_extensional(own_king(b), bit(home));
}

/// Where the pieces stand after castling: the king two squares towards the
/// rook, the rook on the square that the king has crossed, and all else
/// as it was.
pub proof fn lemma_after_castle(b: Board, m: Move, piece: Piece, side: Side, u: int)
    requires
        m.is_castling_spec(),
        b.bb(Piece::King, m.side) == bit(king_square(m.side)),
        0 <= u < 64,
    ensures
        !(side == m.side && (piece == Piece::King || piece == Piece::Rook)) ==> in_bb(
            b.after_move(m).bb(piece, side),
            u,
        ) == in_bb(b.bb(piece, side), u),
        side == m.side && piece == Piece::King ==> in_bb(b.after_move(m).bb(piece, side), u) == (u
            == if m.move_type is CastleShort {
            king_square(m.side) - 2
        } else {
            king_square(m.side) + 2
        }),
        side == m.side && piece == Piece::Rook ==> in_bb(b.after_move(m).bb(piece, side), u)
            == if m.move_type is CastleShort {
            (in_bb(b.bb(piece, side), u) && u != rook_short_square(m.side)) || u
                == rook_short_square(m.side) + 2
        } else {
            (in_bb(b.bb(piece, side), u) && u != rook_long_square(m.side)) || u
                == rook_long_square(m.side) - 3
        },
{
    lemma_bb_after(b, m, piece, side);
    let x = b.bb(piece, side);
    let home = king_square(m.side);
    lemma_bb_bit(home);
    lemma_bb_shr(x, 2);
    lemma_bb_shl(x, 2);
    let corner = if m.move_type is CastleShort {
        rook_short_square(m.side)
    } else {
        rook_long_square(m.side)
    };
    let target = if m.move_type is CastleShort {
        corner + 2
    } else {
        corner - 3
    };
    lemma_bb_bit(corner);
    lemma_bb_bit(target);
    lemma_bb_not(bit(corner));
    lemma_bb_and(x, !bit(corner));
    lemma_bb_or(x & !bit(corner), bit(target));
}

/// The occupied squares after castling.
pub proof fn lemma_after_castle_occupancy(b: Board, m: Move, u: int)
    requires
        disjoint(b),
        b.applicable(m),
        m.is_castling_spec(),
        0 <= u < 64,
    ensures
        in_bb(b.after_move(m).all_occupancy(), u) == if m.move_type is CastleShort {
            (in_bb(b.all_occupancy(), u) && u != king_square(m.side) && u != rook_short_square(
                m.side,
            )) || u == king_square(m.side) - 2 || u == rook_short_square(m.side) + 2
        } else {
            (in_bb(b.all_occupancy(), u) && u != king_square(m.side) && u != rook_long_square(
                m.side,
            )) || u == king_square(m.side) + 2 || u == rook_long_square(m.side) - 3
        },
{
    let after = b.after_move(m);
    lemma_occupancy(b, Side::White);
    lemma_occupancy(b, Side::Black);
    lemma_all_occupancy(b);
    lemma_occupancy(after, Side::White);
    lemma_occupancy(after, Side::Black);
    lemma_all_occupancy(after);
    lemma_after_castle(b, m, Piece::Pawn, Side::White, u);
    lemma_after_castle(b, m, Piece::Knight, Side::White, u);
    lemma_after_castle(b, m, Piece::Bishop, Side::White, u);
    lemma_after_castle(b, m, Piece::Rook, Side::White, u);
    lemma_after_castle(b, m, Piece::Queen, Side::White, u);
    lemma_after_castle(b, m, Piece::King, Side::White, u);
    lemma_after_castle(b, m, Piece::Pawn, Side::Black, u);
    lemma_after_castle(b, m, Piece::Knight, Side::Black, u);
    lemma_after_castle(b, m, Piece::Bishop, Side::Black, u);
    lemma_after_castle(b, m, Piece::Rook, Side::Black, u);
    lemma_after_castle(b, m, Piece::Queen, Side::Black, u);
    lemma_after_castle(b, m, Piece::King, Side::Black, u);
    lemma_bb_bit(king_square(m.side));
    if u == king_square(m.side) {
        assert(in_bb(b.bb(Piece::King, m.side), u));
    }
    if m.move_type is CastleShort {
        if u == rook_short_square(m.side) {
            assert(in_bb(b.bb(Piece::Rook, m.side), u));
        }
    } else {
        if u == rook_long_square(m.side) {
            assert(in_bb(b.bb(Piece::Rook, m.side), u));
        }
    }
}

/// Castling leaves the king unattacked.
pub proof fn lemma_castle_safe(b: Board, m: Move)
    requires
        valid(b),
        castling_moves(b).contains(m),
    ensures
        safe_after(b, m),
{
    let us = b.side_to_move;
    let after = b.after_move(m);
    let home = king_square(us);
    let moves = castling_moves(b);
    let i = choose|i: int| 0 <= i < moves.len() && moves[i] == m;
    assert(moves[i] == m);
    assert(m.side == us && m.is_castling_spec());
    assert(may_castle_short(b) || may_castle_long(b));
    lemma_castling_king(b);
    lemma_castling_moves_fit(b);
    assert(b.applicable(moves[i]));
    lemma_castle_paths(us);
    let target = if m.move_type is CastleShort {
        home - 2
    } else {
        home + 2
    };
    let corner = if m.move_type is CastleShort {
        rook_short_square(us)
    } else {
        rook_long_square(us)
    };
    assert(!in_bb(danger(b), target) && (m.move_type is CastleShort ==> may_castle_short(b)) && (
    m.move_type is CastleLong ==> may_castle_long(b))) by {
        lemma_bb_zero();
        if m.move_type is CastleShort {
            assert(may_castle_short(b));
            let blocked = danger(b) | b.all_occupancy();
            lemma_bb_or(danger(b), b.all_occupancy());
            lemma_bb_and(short_castle_path(us), blocked);
            assert(!in_bb(short_castle_path(us) & blocked, target));
        } else {
            assert(may_castle_long(b));
            lemma_bb_and(long_castle_king_path(us), danger(b));
            assert(!in_bb(long_castle_king_path(us) & danger(b), target));
        }
    }
    assert forall|p: Piece, q: int, k: int|
        0 <= q < 64 && in_bb(after.bb(p, m.side.opposite()), q) && in_bb(
            after.bb(Piece::King, m.side),
            k,
        ) implies !#[trigger] attacks(p, m.side.opposite(), q, after.all_occupancy(), k) by {
        if 0 <= k < 64 {
            lemma_after_castle(b, m, Piece::King, us, k);
            assert(k == target);
            lemma_after_castle(b, m, p, them(b), q);
            assert(in_bb(b.bb(p, them(b)), q));
            if attacks(p, them(b), q, after.all_occupancy(), k) {
                lemma_castle_attack_is_danger(b, m, p, q, k, corner);
                lemma_danger(b, k);
            }
        }
    }
}

/// A piece that attacks the castled king attacked the king's new square
/// before, with the king off the board.
proof fn lemma_castle_attack_is_danger(b: Board, m: Move, p: Piece, q: int, k: int, corner: int)
    requires
        valid(b),
        b.applicable(m),
        m.is_castling_spec(),
        m.side == b.side_to_move,
        own_king(b) == bit(king_square(b.side_to_move)),
        0 <= q < 64,
        in_bb(b.bb(p, them(b)), q),
        k == if m.move_type is CastleShort {
            king_square(m.side) - 2
        } else {
            king_square(m.side) + 2
        },
        corner == if m.move_type is CastleShort {
            rook_short_square(m.side)
        } else {
            rook_long_square(m.side)
        },
        attacks(p, them(b), q, b.after_move(m).all_occupancy(), k),
    ensures
        attacks(p, them(b), q, occupancy_without_king(b), k),
{
    let after_occ = b.after_move(m).all_occupancy();
    let without = occupancy_without_king(b);
    let home = king_square(m.side);
    lemma_bb_bit(home);
    lemma_bb_not(own_king(b));
    lemma_bb_and(b.all_occupancy(), !own_king(b));
    if p.is_slider() {
        lemma_slider_attacks(p, them(b), q, after_occ, k);
        lemma_slider_attacks(p, them(b), q, without, k);
        let dir = choose|dir: RayDirection|
            slides_along(p, dir) && #[trigger] sees_along(dir, q, after_occ, k);
        assert forall|u: int| #[trigger] between(dir, q, k, u) implies !in_bb(without, u) by {
            lemma_after_castle_occupancy(b, m, u);
            assert(!in_bb(after_occ, u));
            if u == corner {
                assert(on_ray(dir, q, corner) && on_ray(dir, corner, k));
            }
        }
        assert(sees_along(dir, q, without, k));
    }
}


/// Every move of the sequence leaves the mover's king unattacked.
pub open spec fn all_safe(b: Board, moves: Seq<Move>) -> bool {
    forall|i: int| 0 <= i < moves.len() ==> safe_after(b, #[trigger] moves[i])
}

/// Two sequences of safe moves, one after the other.
pub proof fn lemma_all_safe_concat(b: Board, first: Seq<Move>, second: Seq<Move>)
    requires
        all_safe(b, first),
        all_safe(b, second),
    ensures
        all_safe(b, first + second),
{
    assert forall|i: int| 0 <= i < (first + second).len() implies safe_after(
        b,
        #[trigger] (first + second)[i],
    ) by {
        if i < first.len() {
            assert((first + second)[i] == first[i]);
        } else {
            assert((first + second)[i] == second[i - first.len()]);
        }
    }
}

/// The moves of a piece to its target squares are safe.
pub proof fn lemma_moves_from_safe(
    b: Board,
    piece: Piece,
    sq: int,
    mask: u64,
    target_bb: u64,
    n: int,
)
    requires
        valid(b),
        0 <= sq < 64,
        in_bb(b.bb(piece, b.side_to_move), sq),
        forall|t: int| in_bb(target_bb, t) ==> in_bb(targets(b, piece, sq, mask), t),
        piece == Piece::King || mask_fits_check(b, mask),
    ensures
        all_safe(b, moves_from(b, piece, sq, target_bb, n)),
    decreases n,
{
    if n > 0 {
        lemma_moves_from_safe(b, piece, sq, mask, target_bb, n - 1);
        if in_bb(target_bb, n - 1) {
            let step = moves_to(b, piece, sq, n - 1);
            assert forall|i: int| 0 <= i < step.len() implies safe_after(b, #[trigger] step[i]) by {
                assert(step.contains(step[i]));
                if piece == Piece::King {
                    lemma_king_move_safe(b, sq, mask, n - 1, step[i]);
                } else {
                    lemma_piece_move_safe(b, piece, sq, mask, n - 1, step[i]);
                }
            }
            lemma_all_safe_concat(b, moves_from(b, piece, sq, target_bb, n - 1), step);
        }
    }
}

/// The moves of all pieces of one kind are safe.
pub proof fn lemma_moves_of_piece_safe(b: Board, piece: Piece, mask: u64, n: int)
    requires
        valid(b),
        n <= 64,
        piece == Piece::King || mask_fits_check(b, mask),
    ensures
        all_safe(b, moves_of_piece(b, piece, mask, n)),
    decreases n,
{
    if n > 0 {
        lemma_moves_of_piece_safe(b, piece, mask, n - 1);
        if in_bb(b.bb(piece, b.side_to_move), n - 1) {
            lemma_moves_from_safe(b, piece, n - 1, mask, targets(b, piece, n - 1, mask), 64);
            lemma_all_safe_concat(
                b,
                moves_of_piece(b, piece, mask, n - 1),
                moves_from(b, piece, n - 1, targets(b, piece, n - 1, mask), 64),
            );
        }
    }
}

/// The moves of a range of kinds of pieces are safe.
pub proof fn lemma_moves_of_pieces_safe(b: Board, mask: u64, from: int, to: int)
    requires
        valid(b),
        mask_fits_check(b, mask),
    ensures
        all_safe(b, moves_of_pieces(b, mask, from, to)),
    decreases to - from,
{
    if to > from {
        lemma_moves_of_pieces_safe(b, mask, from, to - 1);
        lemma_moves_of_piece_safe(b, Piece::of_index(to - 1), mask, 64);
        lemma_all_safe_concat(
            b,
            moves_of_pieces(b, mask, from, to - 1),
            moves_of_piece(b, Piece::of_index(to - 1), mask, 64),
        );
    }
}

/// No generated move leaves the mover's king attacked: on a valid board,
/// after every move that the generator gives, no piece of the other side
/// attacks the king of the side that has moved.
pub proof fn lemma_legal_moves_safe(b: Board)
    requires
        valid(b),
    ensures
        all_safe(b, legal_moves(b)),
{
    let cs = checkers(b);
    if cs.len() == 0 {
        lemma_moves_of_pieces_safe(b, u64::MAX, 0, 6);
        let castles = castling_moves(b);
        assert forall|i: int| 0 <= i < castles.len() implies safe_after(b, #[trigger] castles[i]) by {
            assert(castles.contains(castles[i]));
            lemma_castle_safe(b, castles[i]);
        }
        lemma_all_safe_concat(b, moves_of_pieces(b, u64::MAX, 0, 6), castles);
    } else if cs.len() == 1 {
        lemma_moves_of_piece_safe(b, Piece::King, king_ray_mask(b, cs[0]), 64);
        lemma_moves_of_pieces_safe(b, block_mask(b, cs[0]), 0, 5);
        lemma_all_safe_concat(
            b,
            moves_of_piece(b, Piece::King, king_ray_mask(b, cs[0]), 64),
            moves_of_pieces(b, block_mask(b, cs[0]), 0, 5),
        );
    } else {
        lemma_moves_of_piece_safe(b, Piece::King, king_ray_masks(b, cs, cs.len() as int), 64);
    }
}

} // verus!
