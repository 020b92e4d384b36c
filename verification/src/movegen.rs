//! Legal move generation.
//!
//! The generator makes no move to see whether it is legal. It finds the
//! squares that the other side attacks, the pieces that give check and the
//! pieces that are pinned to the king, and restricts every piece's targets
//! by what it finds.

use vstd::prelude::*;
use crate::bits::{
    bit, in_bb, is_single, lemma_bb_and, lemma_bb_bit, lemma_bb_not, lemma_bb_or, lemma_bb_zero,
    lemma_extensional, lemma_is_mask_of, lowest, lowest_square, mask_of, single, square_bit,
    test_bit,
};
use crate::board::{
    Board, Piece, Side, king_square, lemma_all_occupancy, lemma_occupancy, rook_long_corner,
    rook_long_square, rook_short_corner, rook_short_square,
};
use crate::game::{GameState, attack_set};
use crate::move_bitboards::{
    RayDirection, bishop_attacks, bishop_ray_mask, file, file_of, king_mask, on_board,
    pawn_capture_mask, pawn_forward, pawn_home_rank, queen_ray_mask, rank, rank_of, ray_mask,
    rook_attacks, rook_ray_mask,
};
use crate::moves::{Move, MoveType};

verus! {

/// A piece that gives check: the piece, its square, and the squares that it
/// attacks.
pub type Checker = (Piece, usize, u64);

/// The side that is not to move.
pub open spec fn them(b: Board) -> Side {
    b.side_to_move.opposite()
}

/// The squares of the king, or kings, of the side to move.
pub open spec fn own_king(b: Board) -> u64 {
    b.bb(Piece::King, b.side_to_move)
}

/// The occupied squares without the king of the side to move: what the
/// other side's sliders see once the king has stepped away.
pub open spec fn occupancy_without_king(b: Board) -> u64 {
    b.all_occupancy() & !own_king(b)
}

/// The piece of the `k`-th (piece, square) pair.
pub open spec fn item_piece(k: int) -> Piece {
    Piece::of_index(k / 64)
}

/// The square of the `k`-th (piece, square) pair.
pub open spec fn item_square(k: int) -> int {
    k % 64
}

/// The other side has the `k`-th piece on the `k`-th square.
pub open spec fn enemy_item(b: Board, k: int) -> bool {
    in_bb(b.bb(item_piece(k), them(b)), item_square(k))
}

/// The squares that the first `k` (piece, square) pairs of the other side
/// attack when the king of the side to move is taken off the board.
pub open spec fn danger_upto(b: Board, k: int) -> u64
    decreases k,
{
    if k <= 0 {
        0
    } else if enemy_item(b, k - 1) {
        danger_upto(b, k - 1) | attack_set(
            item_piece(k - 1),
            them(b),
            item_square(k - 1),
            occupancy_without_king(b),
        )
    } else {
        danger_upto(b, k - 1)
    }
}

/// The squares on which the king of the side to move would stand attacked.
pub open spec fn danger(b: Board) -> u64 {
    danger_upto(b, 384)
}

/// The `k`-th (piece, square) pair of the other side gives check.
pub open spec fn gives_check(b: Board, k: int) -> bool {
    enemy_item(b, k) && attack_set(
        item_piece(k),
        them(b),
        item_square(k),
        b.all_occupancy(),
    ) & own_king(b) != 0
}

/// The checkers among the first `k` (piece, square) pairs of the other
/// side, in their order.
pub open spec fn checkers_upto(b: Board, k: int) -> Seq<Checker>
    decreases k,
{
    if k <= 0 {
        Seq::empty()
    } else if gives_check(b, k - 1) {
        checkers_upto(b, k - 1).push(
            (
                item_piece(k - 1),
                item_square(k - 1) as usize,
                attack_set(item_piece(k - 1), them(b), item_square(k - 1), b.all_occupancy()),
            ),
        )
    } else {
        checkers_upto(b, k - 1)
    }
}

/// The pieces that give check, by piece and square.
pub open spec fn checkers(b: Board) -> Seq<Checker> {
    checkers_upto(b, 384)
}

/// The direction from `from` towards `king`, by comparing files and ranks.
/// It is the direction of the line through both where there is one.
pub open spec fn direction_towards(king: int, from: int) -> RayDirection {
    let king_file = file_of(king);
    let king_rank = rank_of(king);
    let from_file = file_of(from);
    let from_rank = rank_of(from);
    if king_file == from_file {
        if king_rank < from_rank {
            RayDirection::South
        } else {
            RayDirection::North
        }
    } else if king_file > from_file {
        if king_rank == from_rank {
            RayDirection::West
        } else if king_rank < from_rank {
            RayDirection::SouthWest
        } else {
            RayDirection::NorthWest
        }
    } else {
        if king_rank == from_rank {
            RayDirection::East
        } else if king_rank < from_rank {
            RayDirection::SouthEast
        } else {
            RayDirection::NorthEast
        }
    }
}

/// The square of the king of the side to move.
pub open spec fn own_king_square(b: Board) -> int {
    lowest(own_king(b))
}

/// The ray from `from` in the direction of the king of the side to move.
pub open spec fn ray_towards_king(b: Board, from: int) -> u64 {
    ray_mask(direction_towards(own_king_square(b), from), from)
}

/// The squares of that ray up to the king's square, the king's included.
pub open spec fn ray_up_to_king(b: Board, from: int) -> u64 {
    ray_towards_king(b, from) & !ray_mask(
        direction_towards(own_king_square(b), from),
        own_king_square(b),
    )
}

/// All rays of a sliding piece from `sq`.
pub open spec fn comp_ray_mask(piece: Piece, sq: int) -> u64 {
    match piece {
        Piece::Bishop => bishop_ray_mask(sq),
        Piece::Rook => rook_ray_mask(sq),
        _ => queen_ray_mask(sq),
    }
}

/// The pin masks after a slider of the other side on `sq` that gives no
/// check has been looked at. Where the slider is in line with the king,
/// none of its own side stands between the two and exactly one piece of the
/// side to move does, that piece is pinned: it may only move between the
/// slider and the king, or capture the slider.
pub open spec fn pin_update(b: Board, piece: Piece, sq: int, pins: Seq<u64>) -> Seq<u64> {
    let king = own_king(b);
    if comp_ray_mask(piece, sq) & king != 0 {
        let to_king = ray_up_to_king(b, sq);
        if to_king & b.occupancy(them(b)) == 0 {
            let blockers = to_king & b.occupancy(b.side_to_move) & !king;
            if single(blockers) {
                pins.update(lowest(blockers), to_king | bit(sq))
            } else {
                pins
            }
        } else {
            pins
        }
    } else {
        pins
    }
}

/// The pin masks after the first `k` (piece, square) pairs of the other
/// side: for each square the squares to which a piece on it may move
/// without uncovering the king.
pub open spec fn pins_upto(b: Board, k: int) -> Seq<u64>
    decreases k,
{
    if k <= 0 {
        Seq::new(64, |i: int| u64::MAX)
    } else if enemy_item(b, k - 1) && item_piece(k - 1).is_slider() && !gives_check(b, k - 1) {
        pin_update(b, item_piece(k - 1), item_square(k - 1), pins_upto(b, k - 1))
    } else {
        pins_upto(b, k - 1)
    }
}

/// The pin mask of every square.
pub open spec fn pins(b: Board) -> Seq<u64> {
    pins_upto(b, 384)
}

/// The bitboard of the en-passant square, empty where none is set.
pub open spec fn en_passant_bit(b: Board) -> u64 {
    if b.en_passant_square != 0 {
        bit(b.en_passant_square as int)
    } else {
        0
    }
}

/// The square of the pawn that a capture onto the en-passant square takes.
pub open spec fn en_passant_victim(b: Board) -> int {
    match b.side_to_move {
        Side::White => b.en_passant_square - 8,
        Side::Black => b.en_passant_square + 8,
    }
}

/// A pawn of the side to move on `s` may advance to `t`: one step onto an
/// empty square, or two from its home rank over an empty square onto an
/// empty square.
pub open spec fn pawn_advance(b: Board, s: int, t: int) -> bool {
    let side = b.side_to_move;
    let occ = b.all_occupancy();
    &&& on_board(s)
    &&& on_board(t)
    &&& file_of(t) == file_of(s)
    &&& !in_bb(occ, t)
    &&& (rank_of(t) == rank_of(s) + pawn_forward(side) || (rank_of(s) == pawn_home_rank(side)
        && rank_of(t) == rank_of(s) + 2 * pawn_forward(side) && !in_bb(
        occ,
        s + 8 * pawn_forward(side),
    )))
}

/// The squares to which a pawn of the side to move on `s` may advance.
pub open spec fn pawn_advances(b: Board, s: int) -> u64 {
    mask_of(|t: int| pawn_advance(b, s, t))
}

/// The squares that a pawn of the side to move on `s` may move to, pins
/// and checks aside: its advances, and the squares that it attacks and
/// that hold a piece of the other side or are the en-passant square.
pub open spec fn pawn_targets(b: Board, s: int) -> u64 {
    pawn_advances(b, s) | (pawn_capture_mask(b.side_to_move, s) & (b.occupancy(them(b))
        | en_passant_bit(b)))
}

/// After the pawn on `s` has captured en passant, no rook, bishop or queen
/// of the other side attacks the king; and the pawn that is captured stands
/// on its square.
pub open spec fn en_passant_safe(b: Board, s: int) -> bool {
    let victim = en_passant_victim(b);
    let after = (b.all_occupancy() & !bit(s) & !bit(victim)) | bit(b.en_passant_square as int);
    let king = own_king_square(b);
    let lines = b.bb(Piece::Rook, them(b)) | b.bb(Piece::Queen, them(b));
    let diagonals = b.bb(Piece::Bishop, them(b)) | b.bb(Piece::Queen, them(b));
    &&& 0 <= victim < 64
    &&& in_bb(b.bb(Piece::Pawn, them(b)), victim)
    &&& own_king(b) != 0 ==> rook_attacks(king, after) & lines == 0 && bishop_attacks(king, after)
        & diagonals == 0
}

/// The squares that `mask` lets a pawn move to. The en-passant square is let
/// through as well where the mask holds the pawn that would be captured:
/// taking a checking pawn en passant ends the check.
pub open spec fn pawn_mask(b: Board, mask: u64) -> u64 {
    if b.en_passant_square != 0 && in_bb(mask, en_passant_victim(b)) {
        mask | bit(b.en_passant_square as int)
    } else {
        mask
    }
}

/// The squares to which the `piece` of the side to move on `sq` may move
/// where `mask` holds the squares that the check, if any, leaves to it.
pub open spec fn targets(b: Board, piece: Piece, sq: int, mask: u64) -> u64 {
    let own = b.occupancy(b.side_to_move);
    let their_king = b.bb(Piece::King, them(b));
    let base = match piece {
        Piece::Pawn => pawn_targets(b, sq) & pawn_mask(b, mask),
        Piece::King => king_mask(sq) & !danger(b) & mask,
        _ => attack_set(piece, b.side_to_move, sq, b.all_occupancy()) & mask,
    };
    let allowed = base & pins(b)[sq] & !own & !their_king;
    if piece == Piece::Pawn && b.en_passant_square != 0 && in_bb(
        allowed,
        b.en_passant_square as int,
    ) && !in_bb(b.all_occupancy(), b.en_passant_square as int) && !en_passant_safe(b, sq) {
        allowed & !bit(b.en_passant_square as int)
    } else {
        allowed
    }
}

/// The piece of the other side that a move onto `t` captures.
pub open spec fn victim_on(b: Board, t: int) -> Piece {
    if in_bb(b.bb(Piece::Pawn, them(b)), t) {
        Piece::Pawn
    } else if in_bb(b.bb(Piece::Knight, them(b)), t) {
        Piece::Knight
    } else if in_bb(b.bb(Piece::Bishop, them(b)), t) {
        Piece::Bishop
    } else if in_bb(b.bb(Piece::Rook, them(b)), t) {
        Piece::Rook
    } else if in_bb(b.bb(Piece::Queen, them(b)), t) {
        Piece::Queen
    } else {
        Piece::Pawn
    }
}

/// A move of the side to move.
pub open spec fn move_of(b: Board, piece: Piece, sq: int, t: int, move_type: MoveType) -> Move {
    Move {
        from_square: sq as usize,
        to_square: t as usize,
        move_type,
        piece,
        side: b.side_to_move,
    }
}

/// The moves of the `piece` on `sq` to square `t`: the four promotions of
/// a pawn that reaches the first or the last rank, else one move.
pub open spec fn moves_to(b: Board, piece: Piece, sq: int, t: int) -> Seq<Move> {
    let capture = in_bb(b.all_occupancy(), t);
    let victim = victim_on(b, t);
    if piece == Piece::Pawn && (t >= 56 || t <= 7) {
        if capture {
            seq![
                move_of(b, piece, sq, t, MoveType::CapturePromotion(victim, Piece::Knight)),
                move_of(b, piece, sq, t, MoveType::CapturePromotion(victim, Piece::Bishop)),
                move_of(b, piece, sq, t, MoveType::CapturePromotion(victim, Piece::Rook)),
                move_of(b, piece, sq, t, MoveType::CapturePromotion(victim, Piece::Queen)),
            ]
        } else {
            seq![
                move_of(b, piece, sq, t, MoveType::Promotion(Piece::Knight)),
                move_of(b, piece, sq, t, MoveType::Promotion(Piece::Bishop)),
                move_of(b, piece, sq, t, MoveType::Promotion(Piece::Rook)),
                move_of(b, piece, sq, t, MoveType::Promotion(Piece::Queen)),
            ]
        }
    } else if capture {
        seq![move_of(b, piece, sq, t, MoveType::Capture(victim))]
    } else if piece == Piece::Pawn && b.en_passant_square != 0 && t == b.en_passant_square {
        seq![move_of(b, piece, sq, t, MoveType::EnPassantCapture(Piece::Pawn))]
    } else {
        seq![move_of(b, piece, sq, t, MoveType::Quiet)]
    }
}

/// The moves of the `piece` on `sq` to the squares of `target_bb` below
/// `n`, in the order of the squares.
pub open spec fn moves_from(b: Board, piece: Piece, sq: int, target_bb: u64, n: int) -> Seq<Move>
    decreases n,
{
    if n <= 0 {
        Seq::empty()
    } else if in_bb(target_bb, n - 1) {
        moves_from(b, piece, sq, target_bb, n - 1) + moves_to(b, piece, sq, n - 1)
    } else {
        moves_from(b, piece, sq, target_bb, n - 1)
    }
}

/// The moves of all pieces of the kind `piece` that stand on squares below
/// `n`, in the order of the squares.
pub open spec fn moves_of_piece(b: Board, piece: Piece, mask: u64, n: int) -> Seq<Move>
    decreases n,
{
    if n <= 0 {
        Seq::empty()
    } else if in_bb(b.bb(piece, b.side_to_move), n - 1) {
        moves_of_piece(b, piece, mask, n - 1) + moves_from(
            b,
            piece,
            n - 1,
            targets(b, piece, n - 1, mask),
            64,
        )
    } else {
        moves_of_piece(b, piece, mask, n - 1)
    }
}

/// The squares between king and rook that must be empty for castling
/// short.
pub open spec fn short_castle_path(side: Side) -> u64 {
    match side {
        Side::White => 0x06,
        Side::Black => 0x0600_0000_0000_0000,
    }
}

/// The squares between king and rook that must be empty for castling long.
pub open spec fn long_castle_path(side: Side) -> u64 {
    match side {
        Side::White => 0x70,
        Side::Black => 0x7000_0000_0000_0000,
    }
}

/// The squares that the king crosses and reaches when castling long.
pub open spec fn long_castle_king_path(side: Side) -> u64 {
    match side {
        Side::White => 0x30,
        Side::Black => 0x3000_0000_0000_0000,
    }
}

/// The castling move of `side` of the given kind.
pub open spec fn castle_move(side: Side, move_type: MoveType) -> Move {
    Move { from_square: 0, to_square: 0, move_type, piece: Piece::King, side }
}

/// Castling short is legal: the king stands on its square, the right is
/// held, the rook stands in its corner, the squares between them are empty
/// and the king neither crosses nor reaches an attacked square. That the
/// king is not in check is asked where the moves are put together.
pub open spec fn may_castle_short(b: Board) -> bool {
    let side = b.side_to_move;
    &&& own_king(b) & bit(king_square(side)) != 0
    &&& b.castling_right_short[side.index_spec()]
    &&& short_castle_path(side) & (danger(b) | b.all_occupancy()) == 0
    &&& bit(rook_short_square(side)) & b.bb(Piece::Rook, side) != 0
}

/// Castling long is legal.
pub open spec fn may_castle_long(b: Board) -> bool {
    let side = b.side_to_move;
    &&& own_king(b) & bit(king_square(side)) != 0
    &&& b.castling_right_long[side.index_spec()]
    &&& long_castle_king_path(side) & danger(b) == 0
    &&& long_castle_path(side) & b.all_occupancy() == 0
    &&& bit(rook_long_square(side)) & b.bb(Piece::Rook, side) != 0
}

/// The castling moves of a side that is not in check: short before long.
pub open spec fn castling_moves(b: Board) -> Seq<Move> {
    let short = if may_castle_short(b) {
        seq![castle_move(b.side_to_move, MoveType::CastleShort)]
    } else {
        Seq::empty()
    };
    let long = if may_castle_long(b) {
        seq![castle_move(b.side_to_move, MoveType::CastleLong)]
    } else {
        Seq::empty()
    };
    short + long
}

/// The squares that a check by the given piece leaves to the king, apart
/// from those that are attacked: for a slider, not the squares of its ray
/// beyond the king.
pub open spec fn king_ray_mask(b: Board, checker: Checker) -> u64 {
    if checker.0.is_slider() {
        !ray_towards_king(b, checker.1 as int) | checker.2
    } else {
        u64::MAX
    }
}

/// The squares on which a piece other than the king ends a check by the
/// given piece: the checker's square, and for a slider the squares between
/// it and the king.
pub open spec fn block_mask(b: Board, checker: Checker) -> u64 {
    if checker.0.is_slider() {
        (checker.2 & ray_towards_king(b, checker.1 as int)) | bit(checker.1 as int)
    } else {
        bit(checker.1 as int)
    }
}

/// The squares that the first `n` of the given checkers leave to the king.
pub open spec fn king_ray_masks(b: Board, cs: Seq<Checker>, n: int) -> u64
    decreases n,
{
    if n <= 0 {
        u64::MAX
    } else {
        king_ray_masks(b, cs, n - 1) & king_ray_mask(b, cs[n - 1])
    }
}

/// The moves of the pieces numbered from `from` up to `to`, in that order.
pub open spec fn moves_of_pieces(b: Board, mask: u64, from: int, to: int) -> Seq<Move>
    decreases to - from,
{
    if to <= from {
        Seq::empty()
    } else {
        moves_of_pieces(b, mask, from, to - 1) + moves_of_piece(
            b,
            Piece::of_index(to - 1),
            mask,
            64,
        )
    }
}

/// The legal moves of the side to move, in the order in which they are
/// generated. Out of check: the moves of pawns, knights, bishops, rooks,
/// queens and king, then castling. In check by one piece: the king's moves,
/// then the moves of the others that capture the checker or block it. In
/// check by more: the king's moves.
pub open spec fn legal_moves(b: Board) -> Seq<Move> {
    let cs = checkers(b);
    if cs.len() == 0 {
        moves_of_pieces(b, u64::MAX, 0, 6) + castling_moves(b)
    } else if cs.len() == 1 {
        moves_of_piece(b, Piece::King, king_ray_mask(b, cs[0]), 64) + moves_of_pieces(
            b,
            block_mask(b, cs[0]),
            0,
            5,
        )
    } else {
        moves_of_piece(b, Piece::King, king_ray_masks(b, cs, cs.len() as int), 64)
    }
}

/// The side to move is in check.
pub open spec fn in_check(b: Board) -> bool {
    checkers(b).len() > 0
}


impl<'a> GameState<'a> {
    /// The direction from `checker_square` towards the king of the side to
    /// move, and the ray from that square in that direction.
    pub fn get_checking_ray(&self, checker_square: usize) -> (res: (u64, RayDirection))
        requires
            self.wf(),
            checker_square < 64,
            own_king(self.board) != 0,
        ensures
            res.1 == direction_towards(own_king_square(self.board), checker_square as int),
            res.0 == ray_towards_king(self.board, checker_square as int),
    {
        let king_square = lowest_square(self.board.piece_bb(Piece::King, self.board.side_to_move));
        let king_file = file(king_square);
        let king_rank = rank(king_square);
        let checker_file = file(checker_square);
        let checker_rank = rank(checker_square);
        let direction = if king_file == checker_file {
            if king_rank < checker_rank {
                RayDirection::South
            } else {
                RayDirection::North
            }
        } else if king_file > checker_file {
            if king_rank == checker_rank {
                RayDirection::West
            } else if king_rank < checker_rank {
                RayDirection::SouthWest
            } else {
                RayDirection::NorthWest
            }
        } else {
            if king_rank == checker_rank {
                RayDirection::East
            } else if king_rank < checker_rank {
                RayDirection::SouthEast
            } else {
                RayDirection::NorthEast
            }
        };
        (self.pl_moves.ray(direction, checker_square), direction)
    }

    /// Looks at a slider of the other side on `square` that gives no check
    /// and records the piece that it pins, if it pins one.
    pub fn enemy_attacks_piece_pins(
        &self,
        piece: Piece,
        square: usize,
        king_pos: u64,
        pin_masks: &mut [u64; 64],
    )
        requires
            self.wf(),
            square < 64,
            piece.is_slider(),
            king_pos == own_king(self.board),
        ensures
            final(pin_masks)@ == pin_update(self.board, piece, square as int, old(pin_masks)@),
    {
        assert(self.pl_moves.wf_at(square as int));
        let comp_ray = self.pl_moves.get_comp_rays(piece)[square];
        let king_aligned = comp_ray & king_pos;
        if king_aligned != 0 {
            assert(king_pos != 0) by (bit_vector)
                requires
                    comp_ray & king_pos != 0,
            ;
            let (pin_ray, ray_direction) = self.get_checking_ray(square);
            let king_square = lowest_square(king_pos);
            let to_king = pin_ray & !self.pl_moves.ray(ray_direction, king_square);
            let own_blocking_pieces = to_king
                & self.occupation_boards[self.board.side_to_move.opposite().index()];
            if own_blocking_pieces == 0 {
                let enemy_blocking_pieces = to_king
                    & self.occupation_boards[self.board.side_to_move.index()] & !king_pos;
                if is_single(enemy_blocking_pieces) {
                    let pinned_square = lowest_square(enemy_blocking_pieces);
                    pin_masks[pinned_square] = to_king | square_bit(square);
                }
            }
        }
    }

    /// The squares on which the king of the side to move would stand
    /// attacked, the pieces that give check, and the pin mask of every
    /// square.
    pub fn enemy_attacks(&self) -> (res: (u64, Vec<Checker>, [u64; 64]))
        requires
            self.wf(),
        ensures
            res.0 == danger(self.board),
            res.1@ == checkers(self.board),
            res.2@ == pins(self.board),
    {
        let mut checkers: Vec<Checker> = Vec::new();
        let mut pin_masks = [u64::MAX;64];
        let mut attacks_bb: u64 = 0;
        let king_pos = self.board.piece_bb(Piece::King, self.board.side_to_move);
        let opposite_side = self.board.side_to_move.opposite();
        let occ = self.comp_occupation_board;
        let occ_without_king = occ & !king_pos;
        assert(pin_masks@ =~= pins_upto(self.board, 0));
        let mut p: usize = 0;
        while p < 6
            invariant
                self.wf(),
                p <= 6,
                king_pos == own_king(self.board),
                opposite_side == them(self.board),
                occ == self.board.all_occupancy(),
                occ_without_king == occupancy_without_king(self.board),
                attacks_bb == danger_upto(self.board, p * 64),
                checkers@ == checkers_upto(self.board, p * 64),
                pin_masks@ == pins_upto(self.board, p * 64),
            decreases 6 - p,
        {
            let piece = Piece::from_index(p);
            let piece_bb = self.board.piece_bb(piece, opposite_side);
            let is_slider = piece.is_slider();
            let mut square: usize = 0;
            while square < 64
                invariant
                    self.wf(),
                    p < 6,
                    square <= 64,
                    piece == Piece::of_index(p as int),
                    is_slider == piece.is_slider(),
                    piece_bb == self.board.bb(piece, opposite_side),
                    king_pos == own_king(self.board),
                    opposite_side == them(self.board),
                    occ == self.board.all_occupancy(),
                    occ_without_king == occupancy_without_king(self.board),
                    attacks_bb == danger_upto(self.board, p * 64 + square),
                    checkers@ == checkers_upto(self.board, p * 64 + square),
                    pin_masks@ == pins_upto(self.board, p * 64 + square),
                decreases 64 - square,
            {
                let ghost k = (p * 64 + square) as int;
                assert(item_piece(k) == piece && item_square(k) == square);
                if test_bit(piece_bb, square) {
                    let moves_bb = self.piece_attacks(piece, opposite_side, square, occ);
                    if moves_bb & king_pos != 0 {
                        checkers.push((piece, square, moves_bb));
                    } else if is_slider {
                        self.enemy_attacks_piece_pins(piece, square, king_pos, &mut pin_masks);
                    }
                    let seen = if is_slider {
                        self.piece_attacks(piece, opposite_side, square, occ_without_king)
                    } else {
                        moves_bb
                    };
                    attacks_bb = attacks_bb | seen;
                }
                square += 1;
            }
            p += 1;
        }
        (attacks_bb, checkers, pin_masks)
    }
}


impl<'a> GameState<'a> {
    /// The squares that a pawn of the side to move on `square` may move to,
    /// pins and checks aside.
    pub fn pawn_moves(&self, square: usize) -> (res: u64)
        requires
            self.wf(),
            square < 64,
        ensures
            res == pawn_targets(self.board, square as int),
    {
        let side = self.board.side_to_move;
        let occ = self.comp_occupation_board;
        let r = rank(square);
        let mut advances: u64 = 0;
        proof {
            lemma_bb_zero();
        }
        match side {
            Side::White => {
                if r < 7 && !test_bit(occ, square + 8) {
                    let one = square_bit(square + 8);
                    proof {
                        lemma_bb_or(advances, one);
                    }
                    advances = advances | one;
                    if r == 1 && !test_bit(occ, square + 16) {
                        let two = square_bit(square + 16);
                        proof {
                            lemma_bb_or(advances, two);
                        }
                        advances = advances | two;
                    }
                }
            },
            Side::Black => {
                if r > 0 && !test_bit(occ, square - 8) {
                    let one = square_bit(square - 8);
                    proof {
                        lemma_bb_or(advances, one);
                    }
                    advances = advances | one;
                    if r == 6 && !test_bit(occ, square - 16) {
                        let two = square_bit(square - 16);
                        proof {
                            lemma_bb_or(advances, two);
                        }
                        advances = advances | two;
                    }
                }
            },
        }
        proof {
            lemma_is_mask_of(advances, |t: int| pawn_advance(self.board, square as int, t));
        }
        let en_passant = if self.board.en_passant_square != 0 {
            square_bit(self.board.en_passant_square)
        } else {
            0
        };
        let capture_squares = self.pl_moves.pawn_captures(side, square);
        advances | (capture_squares & (self.occupation_boards[side.opposite().index()]
            | en_passant))
    }

    /// Whether the pawn on `square` may capture en passant without leaving
    /// its king attacked by a rook, bishop or queen.
    pub fn en_passant_allowed(&self, square: usize) -> (res: bool)
        requires
            self.wf(),
            square < 64,
            self.board.en_passant_square != 0,
        ensures
            res == en_passant_safe(self.board, square as int),
    {
        let side = self.board.side_to_move;
        let other = side.opposite();
        let target = self.board.en_passant_square;
        let victim: usize = match side {
            Side::White => {
                if target < 8 {
                    return false;
                }
                target - 8
            },
            Side::Black => {
                if target >= 56 {
                    return false;
                }
                target + 8
            },
        };
        if !test_bit(self.board.piece_bb(Piece::Pawn, other), victim) {
            return false;
        }
        let king_pos = self.board.piece_bb(Piece::King, side);
        if king_pos == 0 {
            return true;
        }
        let king = lowest_square(king_pos);
        let after = (self.comp_occupation_board & !square_bit(square) & !square_bit(victim))
            | square_bit(target);
        let lines = self.board.piece_bb(Piece::Rook, other) | self.board.piece_bb(
            Piece::Queen,
            other,
        );
        let diagonals = self.board.piece_bb(Piece::Bishop, other) | self.board.piece_bb(
            Piece::Queen,
            other,
        );
        self.magics.get_rook_moves(king, after) & lines == 0 && self.magics.get_bishop_moves(
            king,
            after,
        ) & diagonals == 0
    }

    /// Takes out of `moves_bb` the squares that the side to move occupies.
    pub fn remove_friendly_moves(&self, moves_bb: u64) -> (res: u64)
        requires
            self.wf(),
        ensures
            res == moves_bb & !self.board.occupancy(self.board.side_to_move),
    {
        moves_bb & !self.occupation_boards[self.board.side_to_move.index()]
    }

    /// The piece of the other side on `target`.
    fn captured_piece(&self, target: usize) -> (res: Piece)
        requires
            target < 64,
        ensures
            res == victim_on(self.board, target as int),
    {
        let other = self.board.side_to_move.opposite();
        if test_bit(self.board.piece_bb(Piece::Pawn, other), target) {
            Piece::Pawn
        } else if test_bit(self.board.piece_bb(Piece::Knight, other), target) {
            Piece::Knight
        } else if test_bit(self.board.piece_bb(Piece::Bishop, other), target) {
            Piece::Bishop
        } else if test_bit(self.board.piece_bb(Piece::Rook, other), target) {
            Piece::Rook
        } else if test_bit(self.board.piece_bb(Piece::Queen, other), target) {
            Piece::Queen
        } else {
            Piece::Pawn
        }
    }

    /// Appends the four promotions of the pawn on `square` that reaches
    /// `target_square`.
    pub fn generate_promotion_moves(
        &self,
        piece: Piece,
        square: usize,
        target_square: usize,
        is_capture: bool,
        captured_piece: Piece,
        move_list: &mut Vec<Move>,
    )
        requires
            piece == Piece::Pawn,
            target_square >= 56 || target_square <= 7,
            is_capture == in_bb(self.board.all_occupancy(), target_square as int),
            captured_piece == victim_on(self.board, target_square as int),
        ensures
            final(move_list)@ == old(move_list)@ + moves_to(
                self.board,
                piece,
                square as int,
                target_square as int,
            ),
    {
        let side = self.board.side_to_move;
        let mut i: usize = 0;
        while i < 4
            invariant
                i <= 4,
                side == self.board.side_to_move,
                move_list@ == old(move_list)@ + moves_to(
                    self.board,
                    piece,
                    square as int,
                    target_square as int,
                ).subrange(0, i as int),
                moves_to(self.board, piece, square as int, target_square as int).len() == 4,
                forall|j: int|
                    0 <= j < 4 ==> #[trigger] moves_to(
                        self.board,
                        piece,
                        square as int,
                        target_square as int,
                    )[j] == move_of(
                        self.board,
                        piece,
                        square as int,
                        target_square as int,
                        if is_capture {
                            MoveType::CapturePromotion(captured_piece, Piece::of_index(j + 1))
                        } else {
                            MoveType::Promotion(Piece::of_index(j + 1))
                        },
                    ),
            decreases 4 - i,
        {
            let promotion_piece = Piece::from_index(i + 1);
            let move_type = if is_capture {
                MoveType::CapturePromotion(captured_piece, promotion_piece)
            } else {
                MoveType::Promotion(promotion_piece)
            };
            let ghost all = moves_to(self.board, piece, square as int, target_square as int);
            move_list.push(
                Move { from_square: square, to_square: target_square, move_type, piece, side },
            );
            assert(all.subrange(0, i + 1) =~= all.subrange(0, i as int).push(all[i as int]));
            assert(move_list@ =~= old(move_list)@ + all.subrange(0, i + 1));
            i += 1;
        }
        proof {
            let all = moves_to(self.board, piece, square as int, target_square as int);
            assert(all.subrange(0, 4) =~= all);
        }
    }

    /// Appends the moves of the `piece` on `square` to the squares of
    /// `moves_bb`, in the order of the squares.
    pub fn generate_moves_from_bb(
        &self,
        piece: Piece,
        square: usize,
        moves_bb: u64,
        move_list: &mut Vec<Move>,
    )
        requires
            self.wf(),
        ensures
            final(move_list)@ == old(move_list)@ + moves_from(
                self.board,
                piece,
                square as int,
                moves_bb,
                64,
            ),
    {
        let side = self.board.side_to_move;
        let is_pawn = piece == Piece::Pawn;
        let mut target_square: usize = 0;
        assert(move_list@ =~= old(move_list)@ + moves_from(
            self.board,
            piece,
            square as int,
            moves_bb,
            0,
        ));
        while target_square < 64
            invariant
                self.wf(),
                target_square <= 64,
                side == self.board.side_to_move,
                is_pawn == (piece == Piece::Pawn),
                move_list@ == old(move_list)@ + moves_from(
                    self.board,
                    piece,
                    square as int,
                    moves_bb,
                    target_square as int,
                ),
            decreases 64 - target_square,
        {
            let ghost before = moves_from(
                self.board,
                piece,
                square as int,
                moves_bb,
                target_square as int,
            );
            let ghost step = moves_to(self.board, piece, square as int, target_square as int);
            if test_bit(moves_bb, target_square) {
                let is_capture = test_bit(self.comp_occupation_board, target_square);
                let captured_piece = self.captured_piece(target_square);
                if is_pawn && (target_square >= 56 || target_square <= 7) {
                    self.generate_promotion_moves(
                        piece,
                        square,
                        target_square,
                        is_capture,
                        captured_piece,
                        move_list,
                    );
                } else {
                    let move_type = if is_capture {
                        MoveType::Capture(captured_piece)
                    } else if is_pawn && self.board.en_passant_square != 0 && target_square
                        == self.board.en_passant_square {
                        MoveType::EnPassantCapture(Piece::Pawn)
                    } else {
                        MoveType::Quiet
                    };
                    move_list.push(
                        Move {
                            from_square: square,
                            to_square: target_square,
                            move_type,
                            piece,
                            side,
                        },
                    );
                }
                assert(move_list@ =~= old(move_list)@ + (before + step));
            }
            target_square += 1;
        }
    }

    /// Appends the moves of all pieces of the kind `piece` to squares that
    /// `mask` allows.
    pub fn get_legal_moves_for_piece_with_mask(
        &self,
        piece: Piece,
        enemy_attack_bb: u64,
        pin_masks: &[u64; 64],
        move_list: &mut Vec<Move>,
        mask: u64,
    )
        requires
            self.wf(),
            enemy_attack_bb == danger(self.board),
            pin_masks@ == pins(self.board),
        ensures
            final(move_list)@ == old(move_list)@ + moves_of_piece(self.board, piece, mask, 64),
    {
        let side = self.board.side_to_move;
        let piece_bb = self.board.piece_bb(piece, side);
        let their_king = self.board.piece_bb(Piece::King, side.opposite());
        let mut square: usize = 0;
        assert(move_list@ =~= old(move_list)@ + moves_of_piece(self.board, piece, mask, 0));
        while square < 64
            invariant
                self.wf(),
                square <= 64,
                side == self.board.side_to_move,
                piece_bb == self.board.bb(piece, side),
                their_king == self.board.bb(Piece::King, them(self.board)),
                enemy_attack_bb == danger(self.board),
                pin_masks@ == pins(self.board),
                move_list@ == old(move_list)@ + moves_of_piece(
                    self.board,
                    piece,
                    mask,
                    square as int,
                ),
            decreases 64 - square,
        {
            let ghost before = moves_of_piece(self.board, piece, mask, square as int);
            if test_bit(piece_bb, square) {
                let base = match piece {
                    Piece::Pawn => {
                        let pawn_mask = if self.board.en_passant_square != 0 {
                            let victim: usize = match side {
                                Side::White => if self.board.en_passant_square >= 8 {
                                    self.board.en_passant_square - 8
                                } else {
                                    64
                                },
                                Side::Black => self.board.en_passant_square + 8,
                            };
                            if victim < 64 && test_bit(mask, victim) {
                                mask | square_bit(self.board.en_passant_square)
                            } else {
                                mask
                            }
                        } else {
                            mask
                        };
                        self.pawn_moves(square) & pawn_mask
                    },
                    Piece::King => self.pl_moves.pseudo_moves(piece, side, square)
                        & !enemy_attack_bb & mask,
                    Piece::Knight => self.pl_moves.pseudo_moves(piece, side, square) & mask,
                    _ => self.slider_moves(piece, square) & mask,
                };
                let allowed = self.remove_friendly_moves(base & pin_masks[square]) & !their_king;
                let moves_bb = if piece == Piece::Pawn && self.board.en_passant_square != 0
                    && test_bit(allowed, self.board.en_passant_square) && !test_bit(
                    self.comp_occupation_board,
                    self.board.en_passant_square,
                ) && !self.en_passant_allowed(square) {
                    allowed & !square_bit(self.board.en_passant_square)
                } else {
                    allowed
                };
                assert(moves_bb == targets(self.board, piece, square as int, mask));
                self.generate_moves_from_bb(piece, square, moves_bb, move_list);
                assert(move_list@ =~= old(move_list)@ + (before + moves_from(
                    self.board,
                    piece,
                    square as int,
                    moves_bb,
                    64,
                )));
            }
            square += 1;
        }
    }

    /// Appends the moves of all pieces of the kind `piece`.
    pub fn get_legal_moves_for_piece(
        &self,
        piece: Piece,
        enemy_attack_bb: u64,
        pins: &[u64; 64],
        move_list: &mut Vec<Move>,
    )
        requires
            self.wf(),
            enemy_attack_bb == danger(self.board),
            pins@ == crate::movegen::pins(self.board),
        ensures
            final(move_list)@ == old(move_list)@ + moves_of_piece(self.board, piece, u64::MAX, 64),
    {
        self.get_legal_moves_for_piece_with_mask(
            piece,
            enemy_attack_bb,
            pins,
            move_list,
            0xffff_ffff_ffff_ffff,
        )
    }

    /// Appends the castling moves of a side that is not in check.
    pub fn get_castling_moves(&self, enemy_attack_bb: u64, move_list: &mut Vec<Move>)
        requires
            self.wf(),
            enemy_attack_bb == danger(self.board),
        ensures
            final(move_list)@ == old(move_list)@ + castling_moves(self.board),
    {
        let side = self.board.side_to_move;
        let king_home = match side {
            Side::White => square_bit(3),
            Side::Black => square_bit(59),
        };
        let ghost short = if may_castle_short(self.board) {
            seq![castle_move(side, MoveType::CastleShort)]
        } else {
            Seq::empty()
        };
        if self.board.piece_bb(Piece::King, side) & king_home == 0 {
            assert(move_list@ =~= old(move_list)@ + castling_moves(self.board));
            return ;
        }
        let occ = self.comp_occupation_board;
        let rooks = self.board.piece_bb(Piece::Rook, side);
        if self.board.castling_right_short[side.index()] {
            let path: u64 = match side {
                Side::White => 0x06,
                Side::Black => 0x0600_0000_0000_0000,
            };
            let path_free = path & (enemy_attack_bb | occ) == 0;
            let rook_in_place = square_bit(rook_short_corner(side)) & rooks != 0;
            if path_free && rook_in_place {
                move_list.push(
                    Move {
                        from_square: 0,
                        to_square: 0,
                        move_type: MoveType::CastleShort,
                        piece: Piece::King,
                        side,
                    },
                );
            }
        }
        assert(move_list@ =~= old(move_list)@ + short);
        if self.board.castling_right_long[side.index()] {
            let (path, king_path): (u64, u64) = match side {
                Side::White => (0x70, 0x30),
                Side::Black => (0x7000_0000_0000_0000, 0x3000_0000_0000_0000),
            };
            let path_free = king_path & enemy_attack_bb == 0 && path & occ == 0;
            let rook_in_place = square_bit(rook_long_corner(side)) & rooks != 0;
            if path_free && rook_in_place {
                move_list.push(
                    Move {
                        from_square: 0,
                        to_square: 0,
                        move_type: MoveType::CastleLong,
                        piece: Piece::King,
                        side,
                    },
                );
            }
        }
        assert(move_list@ =~= old(move_list)@ + castling_moves(self.board));
    }
}


impl<'a> GameState<'a> {
    /// The legal moves of the side to move, in the order in which the
    /// generator finds them, and whether the side to move is in check. On a
    /// valid board on which the side to move has a king, the moves are
    /// exactly those that the rules allow, and the side is in check exactly
    /// when its king is attacked.
    pub fn get_legal_moves(&self) -> (res: (Vec<Move>, bool))
        requires
            self.wf(),
        ensures
            res.0@ == legal_moves(self.board),
            res.1 == in_check(self.board),
            all_wf(self.board, res.0@),
            one_king(self.board) ==> all_fit(self.board, res.0@),
            crate::rules::playable(self.board) ==> forall|m: Move|
                res.0@.contains(m) == #[trigger] crate::rules::legal(self.board, m),
            crate::rules::playable(self.board) ==> res.1 == crate::rules::attacked(
                self.board,
                crate::rules::the_king(self.board),
            ),
    {
        proof {
            lemma_legal_moves_wf(self.board);
            if one_king(self.board) {
                lemma_legal_moves_fit(self.board);
            }
            if crate::rules::playable(self.board) {
                assert forall|m: Move|
                    legal_moves(self.board).contains(m) == #[trigger] crate::rules::legal(
                        self.board,
                        m,
                    ) by {
                    crate::rules::lemma_generator_is_exact(self.board, m);
                }
                crate::rules::lemma_in_check(self.board, crate::rules::the_king(self.board));
            }
        }
        let mut move_list: Vec<Move> = Vec::new();
        move_list.reserve(64);
        let (enemy_attack_bb, checkers, pin_masks) = self.enemy_attacks();
        let n_checkers = checkers.len();
        let in_check = n_checkers > 0;
        if !in_check {
            let mut p: usize = 0;
            assert(move_list@ =~= moves_of_pieces(self.board, u64::MAX, 0, 0));
            while p < 6
                invariant
                    self.wf(),
                    p <= 6,
                    enemy_attack_bb == danger(self.board),
                    pin_masks@ == pins(self.board),
                    move_list@ == moves_of_pieces(self.board, u64::MAX, 0, p as int),
                decreases 6 - p,
            {
                self.get_legal_moves_for_piece(
                    Piece::from_index(p),
                    enemy_attack_bb,
                    &pin_masks,
                    &mut move_list,
                );
                p += 1;
            }
            self.get_castling_moves(enemy_attack_bb, &mut move_list);
        } else if n_checkers == 1 {
            let (checker_piece, checker_square, checker_bb) = checkers[0];
            proof {
                lemma_checker_on_board(self.board, 384, 0);
                lemma_check_has_king(self.board, 384);
            }
            let (king_mask, move_mask) = if checker_piece.is_slider() {
                let (checking_ray, _) = self.get_checking_ray(checker_square);
                (!checking_ray | checker_bb, (checker_bb & checking_ray) | square_bit(checker_square))
            } else {
                (u64::MAX, square_bit(checker_square))
            };
            self.get_legal_moves_for_piece_with_mask(
                Piece::King,
                enemy_attack_bb,
                &pin_masks,
                &mut move_list,
                king_mask,
            );
            let ghost king_moves = move_list@;
            let mut p: usize = 0;
            assert(move_list@ =~= king_moves + moves_of_pieces(self.board, move_mask, 0, 0));
            while p < 5
                invariant
                    self.wf(),
                    p <= 5,
                    enemy_attack_bb == danger(self.board),
                    pin_masks@ == pins(self.board),
                    move_list@ == king_moves + moves_of_pieces(self.board, move_mask, 0, p as int),
                decreases 5 - p,
            {
                let ghost before = moves_of_pieces(self.board, move_mask, 0, p as int);
                self.get_legal_moves_for_piece_with_mask(
                    Piece::from_index(p),
                    enemy_attack_bb,
                    &pin_masks,
                    &mut move_list,
                    move_mask,
                );
                assert(move_list@ =~= king_moves + (before + moves_of_piece(
                    self.board,
                    Piece::of_index(p as int),
                    move_mask,
                    64,
                )));
                p += 1;
            }
        } else {
            let mut king_mask: u64 = u64::MAX;
            let mut i: usize = 0;
            proof {
                lemma_check_has_king(self.board, 384);
            }
            while i < n_checkers
                invariant
                    self.wf(),
                    i <= n_checkers,
                    n_checkers == checkers@.len(),
                    checkers@ == crate::movegen::checkers(self.board),
                    own_king(self.board) != 0,
                    king_mask == king_ray_masks(self.board, checkers@, i as int),
                decreases n_checkers - i,
            {
                let (checker_piece, checker_square, checker_bb) = checkers[i];
                proof {
                    lemma_checker_on_board(self.board, 384, i as int);
                }
                if checker_piece.is_slider() {
                    let (checking_ray, _) = self.get_checking_ray(checker_square);
                    king_mask = king_mask & (!checking_ray | checker_bb);
                } else {
                    proof {
                        lemma_and_all(king_mask);
                    }
                    king_mask = king_mask & u64::MAX;
                }
                i += 1;
            }
            self.get_legal_moves_for_piece_with_mask(
                Piece::King,
                enemy_attack_bb,
                &pin_masks,
                &mut move_list,
                king_mask,
            );
        }
        (move_list, in_check)
    }
}

/// The full bitboard takes nothing away.
proof fn lemma_and_all(x: u64)
    by (bit_vector)
    ensures
        x & 0xffff_ffff_ffff_ffff == x,
{
}

/// Every checker stands on a square of the board.
pub proof fn lemma_checker_on_board(b: Board, k: int, i: int)
    requires
        0 <= i < checkers_upto(b, k).len(),
    ensures
        checkers_upto(b, k)[i].1 < 64,
    decreases k,
{
    if k > 0 {
        if gives_check(b, k - 1) {
            if i < checkers_upto(b, k - 1).len() {
                lemma_checker_on_board(b, k - 1, i);
            }
        } else {
            lemma_checker_on_board(b, k - 1, i);
        }
    }
}

/// Where a piece gives check there is a king to be checked.
pub proof fn lemma_check_has_king(b: Board, k: int)
    requires
        checkers_upto(b, k).len() > 0,
    ensures
        own_king(b) != 0,
    decreases k,
{
    if k > 0 {
        if gives_check(b, k - 1) {
            let a = attack_set(item_piece(k - 1), them(b), item_square(k - 1), b.all_occupancy());
            let king = own_king(b);
            assert(king != 0) by (bit_vector)
                requires
                    a & king != 0,
            ;
        } else {
            lemma_check_has_king(b, k - 1);
        }
    }
}


/// Every move of the sequence is a move of the side to move that fits the
/// board.
pub open spec fn all_fit(b: Board, moves: Seq<Move>) -> bool {
    forall|i: int|
        0 <= i < moves.len() ==> (#[trigger] moves[i]).side == b.side_to_move && b.applicable(
            moves[i],
        )
}

/// The side to move has at most one king.
pub open spec fn one_king(b: Board) -> bool {
    forall|s: int, t: int| in_bb(own_king(b), s) && in_bb(own_king(b), t) ==> s == t
}

/// What holds of every target square of a piece.
pub proof fn lemma_targets(b: Board, piece: Piece, sq: int, mask: u64, t: int)
    requires
        in_bb(targets(b, piece, sq, mask), t),
        b.en_passant_square < 64,
    ensures
        0 <= t < 64,
        !in_bb(b.occupancy(b.side_to_move), t),
        !in_bb(b.bb(Piece::King, them(b)), t),
        piece == Piece::Pawn && b.en_passant_square != 0 && t == b.en_passant_square && !in_bb(
            b.all_occupancy(),
            t,
        ) ==> en_passant_safe(b, sq),
{
    let own = b.occupancy(b.side_to_move);
    let their_king = b.bb(Piece::King, them(b));
    let base = match piece {
        Piece::Pawn => pawn_targets(b, sq) & pawn_mask(b, mask),
        Piece::King => king_mask(sq) & !danger(b) & mask,
        _ => attack_set(piece, b.side_to_move, sq, b.all_occupancy()) & mask,
    };
    let pinned = base & pins(b)[sq];
    let freed = pinned & !own;
    let allowed = freed & !their_king;
    lemma_bb_not(own);
    lemma_bb_not(their_king);
    lemma_bb_and(pinned, !own);
    lemma_bb_and(freed, !their_king);
    if b.en_passant_square != 0 {
        let e = bit(b.en_passant_square as int);
        lemma_bb_bit(b.en_passant_square as int);
        lemma_bb_not(e);
        lemma_bb_and(allowed, !e);
    }
}

/// The moves of a piece to one of its target squares fit the board.
pub proof fn lemma_moves_to_fit(b: Board, piece: Piece, sq: int, mask: u64, t: int)
    requires
        0 <= sq < 64,
        in_bb(b.bb(piece, b.side_to_move), sq),
        in_bb(targets(b, piece, sq, mask), t),
        b.en_passant_square < 64,
    ensures
        all_fit(b, moves_to(b, piece, sq, t)),
{
    lemma_targets(b, piece, sq, mask, t);
    lemma_occupancy(b, b.side_to_move);
    lemma_occupancy(b, them(b));
    lemma_all_occupancy(b);
    let ms = moves_to(b, piece, sq, t);
    assert forall|i: int| 0 <= i < ms.len() implies (#[trigger] ms[i]).side == b.side_to_move
        && b.applicable(ms[i]) by {
        let m = ms[i];
        assert(m.from_square == sq && m.to_square == t && m.piece == piece);
        assert(in_bb(b.occupancy(b.side_to_move), sq));
        assert(sq != t);
        assert(!in_bb(b.bb(m.arriving_piece(), b.side_to_move), t));
    }
}

/// The moves of a piece to a set of its target squares fit the board.
pub proof fn lemma_moves_from_fit(
    b: Board,
    piece: Piece,
    sq: int,
    mask: u64,
    target_bb: u64,
    n: int,
)
    requires
        0 <= sq < 64,
        in_bb(b.bb(piece, b.side_to_move), sq),
        forall|t: int| in_bb(target_bb, t) ==> in_bb(targets(b, piece, sq, mask), t),
        b.en_passant_square < 64,
    ensures
        all_fit(b, moves_from(b, piece, sq, target_bb, n)),
    decreases n,
{
    if n > 0 {
        lemma_moves_from_fit(b, piece, sq, mask, target_bb, n - 1);
        if in_bb(target_bb, n - 1) {
            lemma_moves_to_fit(b, piece, sq, mask, n - 1);
        }
    }
}

/// The moves of all pieces of one kind fit the board.
pub proof fn lemma_moves_of_piece_fit(b: Board, piece: Piece, mask: u64, n: int)
    requires
        n <= 64,
        b.en_passant_square < 64,
    ensures
        all_fit(b, moves_of_piece(b, piece, mask, n)),
    decreases n,
{
    if n > 0 {
        lemma_moves_of_piece_fit(b, piece, mask, n - 1);
        if in_bb(b.bb(piece, b.side_to_move), n - 1) {
            lemma_moves_from_fit(b, piece, n - 1, mask, targets(b, piece, n - 1, mask), 64);
        }
    }
}

/// The moves of a range of kinds of pieces fit the board.
pub proof fn lemma_moves_of_pieces_fit(b: Board, mask: u64, from: int, to: int)
    requires
        b.en_passant_square < 64,
    ensures
        all_fit(b, moves_of_pieces(b, mask, from, to)),
    decreases to - from,
{
    if to > from {
        lemma_moves_of_pieces_fit(b, mask, from, to - 1);
        lemma_moves_of_piece_fit(b, Piece::of_index(to - 1), mask, 64);
    }
}

/// A bitboard that shares a square with one that holds a single square
/// holds that square.
proof fn lemma_meets_bit(x: u64, s: u64)
    by (bit_vector)
    requires
        s < 64,
        x & (1u64 << s) != 0 || (1u64 << s) & x != 0,
    ensures
        (x >> s) & 1 == 1,
{
}

/// The castling moves fit the board of a side with one king.
pub proof fn lemma_castling_moves_fit(b: Board)
    requires
        one_king(b),
    ensures
        all_fit(b, castling_moves(b)),
{
    let side = b.side_to_move;
    let king = own_king(b);
    let home = king_square(side);
    let rooks = b.bb(Piece::Rook, side);
    lemma_occupancy(b, side);
    lemma_all_occupancy(b);
    if may_castle_short(b) || may_castle_long(b) {
        lemma_meets_bit(king, home as u64);
        lemma_bb_bit(home);
        assert(in_bb(king, home));
        assert forall|i: int| 0 <= i < 64 implies in_bb(king, i) == in_bb(bit(home), i) by {}
        lemma_extensional(king, bit(home));
    }
    if may_castle_short(b) {
        let corner = rook_short_square(side);
        lemma_meets_bit(rooks, corner as u64);
        let path = short_castle_path(side);
        let blocked = danger(b) | b.all_occupancy();
        lemma_bb_or(danger(b), b.all_occupancy());
        lemma_bb_and(path, blocked);
        lemma_bb_zero();
        lemma_castle_paths(side);
        assert(in_bb(path, corner + 2));
        assert(!in_bb(path & blocked, corner + 2));
    }
    if may_castle_long(b) {
        let corner = rook_long_square(side);
        lemma_meets_bit(rooks, corner as u64);
        let path = long_castle_path(side);
        lemma_bb_and(path, b.all_occupancy());
        lemma_bb_zero();
        lemma_castle_paths(side);
        assert(in_bb(path, corner - 3));
        assert(!in_bb(path & b.all_occupancy(), corner - 3));
    }
}

/// The squares of the castling paths: next to the king's square towards
/// the rook, two for the short side and three for the long, of which the
/// king crosses or reaches the nearer two.
pub proof fn lemma_castle_paths(side: Side)
    ensures
        forall|u: int|
            0 <= u < 64 ==> #[trigger] in_bb(short_castle_path(side), u) == (u == king_square(
                side,
            ) - 1 || u == king_square(side) - 2),
        forall|u: int|
            0 <= u < 64 ==> #[trigger] in_bb(long_castle_path(side), u) == (u == king_square(side)
                + 1 || u == king_square(side) + 2 || u == king_square(side) + 3),
        forall|u: int|
            0 <= u < 64 ==> #[trigger] in_bb(long_castle_king_path(side), u) == (u == king_square(
                side,
            ) + 1 || u == king_square(side) + 2),
{
    assert forall|u: int| 0 <= u < 64 implies #[trigger] in_bb(short_castle_path(side), u) == (u
        == king_square(side) - 1 || u == king_square(side) - 2) by {
        let i = u as u64;
        assert(i < 64 ==> (((0x06u64 >> i) & 1 == 1) <==> (i == 1 || i == 2))) by (bit_vector);
        assert(i < 64 ==> (((0x0600_0000_0000_0000u64 >> i) & 1 == 1) <==> (i == 57 || i == 58)))
            by (bit_vector);
    }
    assert forall|u: int| 0 <= u < 64 implies #[trigger] in_bb(long_castle_path(side), u) == (u
        == king_square(side) + 1 || u == king_square(side) + 2 || u == king_square(side) + 3) by {
        let i = u as u64;
        assert(i < 64 ==> (((0x70u64 >> i) & 1 == 1) <==> (i == 4 || i == 5 || i == 6)))
            by (bit_vector);
        assert(i < 64 ==> (((0x7000_0000_0000_0000u64 >> i) & 1 == 1) <==> (i == 60 || i == 61
            || i == 62))) by (bit_vector);
    }
    assert forall|u: int| 0 <= u < 64 implies #[trigger] in_bb(long_castle_king_path(side), u)
        == (u == king_square(side) + 1 || u == king_square(side) + 2) by {
        let i = u as u64;
        assert(i < 64 ==> (((0x30u64 >> i) & 1 == 1) <==> (i == 4 || i == 5))) by (bit_vector);
        assert(i < 64 ==> (((0x3000_0000_0000_0000u64 >> i) & 1 == 1) <==> (i == 60 || i == 61)))
            by (bit_vector);
    }
}

/// Every generated move is a move of the side to move that fits the
/// board, so that it can be made and taken back.
pub proof fn lemma_legal_moves_fit(b: Board)
    requires
        b.en_passant_square < 64,
        one_king(b),
    ensures
        all_fit(b, legal_moves(b)),
{
    let cs = checkers(b);
    if cs.len() == 0 {
        lemma_moves_of_pieces_fit(b, u64::MAX, 0, 6);
        lemma_castling_moves_fit(b);
    } else if cs.len() == 1 {
        lemma_moves_of_piece_fit(b, Piece::King, king_ray_mask(b, cs[0]), 64);
        lemma_moves_of_pieces_fit(b, block_mask(b, cs[0]), 0, 5);
    } else {
        lemma_moves_of_piece_fit(b, Piece::King, king_ray_masks(b, cs, cs.len() as int), 64);
    }
}


/// Every move of the sequence is a move of the side to move and has the
/// shape of a chess move.
pub open spec fn all_wf(b: Board, moves: Seq<Move>) -> bool {
    forall|i: int|
        0 <= i < moves.len() ==> (#[trigger] moves[i]).side == b.side_to_move && moves[i].wf()
}

/// Every generated move is a move of the side to move and has the shape
/// of a chess move, whatever the board holds.
pub proof fn lemma_legal_moves_wf(b: Board)
    requires
        b.en_passant_square < 64,
    ensures
        all_wf(b, legal_moves(b)),
{
    let cs = checkers(b);
    if cs.len() == 0 {
        lemma_moves_of_pieces_fit(b, u64::MAX, 0, 6);
    } else if cs.len() == 1 {
        lemma_moves_of_piece_fit(b, Piece::King, king_ray_mask(b, cs[0]), 64);
        lemma_moves_of_pieces_fit(b, block_mask(b, cs[0]), 0, 5);
    } else {
        lemma_moves_of_piece_fit(b, Piece::King, king_ray_masks(b, cs, cs.len() as int), 64);
    }
}

} // verus!
