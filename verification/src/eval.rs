//! Static evaluation: material, piece placement, mobility, the bishop pair
//! and doubled pawns, blended between a middlegame and an endgame weighting
//! by the material left on the board.

use vstd::prelude::*;
use crate::bits::{in_bb, test_bit};
use crate::board::{Board, Piece, Side};
use crate::game::{GameState, attack_set};
use crate::move_bitboards::{FILE_MASKS, file, file_of, rank, rank_of};
use crate::movegen::comp_ray_mask;
use crate::zobrist::{key_piece, key_side};

verus! {

/// Value of each piece in the middlegame, in hundredths of a pawn.
pub const PIECES_VALUES_MG: [i32; 6] = [95, 310, 330, 490, 920, 0];

/// Value of each piece in the endgame.
pub const PIECES_VALUES_EG: [i32; 6] = [110, 260, 280, 490, 890, 0];

/// Value of each piece on each square in the middlegame, seen from
/// White's side with the eighth rank first.
pub const PIECE_PLACEMENT_VALUES_MG: [[i32; 64]; 6] = [
    [
        0, 0, 0, 0, 0, 0, 0, 0,
        40, 40, 40, 40, 50, 40, 40, 40,
        20, 10, 27, 35, 40, 27, 10, 20,
        10, 5, 25, 30, 30, 25, 5, 10,
        5, 10, 10, 25, 35, 5, 5, 5,
        5, 5, 5, 20, 30, 5, 5, 5,
        5, -10, 10, -30, -30, 10, 10, 5,
        0, 0, 0, 0, 0, 0, 0, 0,
    ],
    [
        -40, -20, -10, -10, -10, -10, -20, -40,
        -20, -10, -5, -5, -5, -5, -10, -20,
        -10, 0, 15, 25, 25, 15, 0, -10,
        -10, 5, 25, 32, 32, 25, 5, -10,
        -10, 0, 15, 15, 15, 15, 0, -10,
        -10, 5, 10, 15, 15, 10, 5, -10,
        -20, -10, 0, 5, 5, 0, -10, -20,
        -40, -20, -30, -30, -30, -30, -20, -40,
    ],
    [
        -20, 0, 0, 0, 0, 0, 0, -20,
        -15, 0, 0, 0, 0, 0, 0, -15,
        -10, 0, 5, 5, 5, 5, 0, -10,
        -10, 10, 10, 30, 30, 10, 10, -10,
        5, 10, 10, 25, 25, 10, 10, 5,
        5, 10, 10, 10, 10, 10, 10, 5,
        -10, 5, 5, 10, 10, 5, 5, -10,
        -20, -10, -10, -10, -10, -10, -10, -20,
    ],
    [
        0, 0, 0, 0, 0, 0, 0, 0,
        15, 20, 20, 20, 20, 20, 20, 15,
        0, 0, 0, 0, 0, 0, 0, 0,
        0, 0, 0, 0, 0, 0, 0, 0,
        0, 0, 0, 0, 0, 0, 0, 0,
        0, 0, 0, 0, 0, 0, 0, 0,
        0, 0, 0, 0, 0, 0, 0, 0,
        0, 0, 0, 10, 10, 10, 0, 0,
    ],
    [
        -30, -20, -10, -10, -10, -10, -20, -30,
        -20, -10, -5, -5, -5, -5, -10, -20,
        -10, -5, 10, 10, 10, 10, -5, -10,
        -10, -5, 10, 20, 20, 10, -5, -10,
        -10, -5, 10, 20, 20, 10, -5, -10,
        -10, -5, -5, -5, -5, -5, -5, -10,
        -20, -10, -5, -5, -5, -5, -10, -20,
        -30, -20, -10, -10, -10, -10, -20, -30,
    ],
    [
        -30, -40, -40, -50, -50, -40, -40, -30,
        -30, -40, -40, -50, -50, -40, -40, -30,
        -30, -40, -40, -50, -50, -40, -40, -30,
        -30, -40, -40, -50, -50, -40, -40, -30,
        -20, -30, -30, -40, -40, -30, -30, -20,
        -10, -20, -20, -30, -30, -20, -20, -10,
        15, 15, 0, -10, -10, 0, 15, 15,
        20, 40, 5, -5, -5, 5, 40, 20,
    ],
];

/// Value of each piece on each square in the endgame.
pub const PIECE_PLACEMENT_VALUES_EG: [[i32; 64]; 6] = [
    [
        0, 0, 0, 0, 0, 0, 0, 0,
        100, 100, 100, 100, 110, 100, 100, 100,
        70, 70, 80, 80, 85, 80, 70, 70,
        30, 15, 30, 40, 40, 30, 15, 30,
        5, 10, 10, 25, 35, 10, 5, 5,
        5, 5, 5, 20, 30, 5, 5, 5,
        5, -10, 10, -30, -30, 10, 10, 5,
        0, 0, 0, 0, 0, 0, 0, 0,
    ],
    [
        -20, -5, -1, -1, -1, -1, -5, -20,
        -10, -10, -5, -5, -5, -5, -10, -21,
        -5, 0, 10, 20, 20, 10, 0, -5,
        -5, 5, 20, 22, 22, 20, 5, -5,
        -5, 0, 15, 15, 15, 15, 0, -5,
        -5, 5, 10, 15, 15, 10, 5, -5,
        -10, -10, 0, 5, 5, 0, -10, -10,
        -20, -5, -10, -10, -10, -10, -5, -20,
    ],
    [
        -10, 0, 0, 0, 0, 0, 0, -10,
        -5, 0, 0, 0, 0, 0, 0, -5,
        -5, 0, 5, 5, 5, 5, 0, -5,
        -5, 5, 5, 10, 10, 5, 5, -5,
        5, 5, 5, 15, 15, 5, 5, 5,
        5, 5, 5, 7, 7, 5, 5, 5,
        -10, 5, 5, 7, 7, 5, 5, -10,
        -10, -5, -5, -5, -5, -5, -5, -10,
    ],
    [
        10, 10, 10, 10, 10, 10, 10, 10,
        15, 20, 20, 20, 20, 20, 20, 15,
        0, 0, 0, 0, 0, 0, 0, 0,
        0, 0, 0, 0, 0, 0, 0, 0,
        0, 0, 0, 0, 0, 0, 0, 0,
        0, 0, 0, 0, 0, 0, 0, 0,
        0, 0, 0, 0, 0, 0, 0, 0,
        0, 0, 0, 0, 0, 0, 0, 0,
    ],
    [
        -30, -20, -10, -10, -10, -10, -20, -30,
        -20, -10, -5, -5, -5, -5, -10, -20,
        -10, -5, 10, 10, 10, 10, -5, -10,
        -10, -5, 10, 20, 20, 10, -5, -10,
        -10, -5, 10, 20, 20, 10, -5, -10,
        -10, -5, -5, -5, -5, -5, -5, -10,
        -20, -10, -5, -5, -5, -5, -10, -20,
        -30, -20, -10, -10, -10, -10, -20, -30,
    ],
    [
        -50, -40, -30, -20, -20, -30, -40, -50,
        -30, -20, -10, 0, 0, -10, -20, -30,
        -30, -10, 20, 30, 30, 20, -10, -30,
        -30, -10, 30, 40, 40, 30, -10, -30,
        -30, -10, 30, 40, 40, 30, -10, -30,
        -30, -10, 20, 30, 30, 20, -10, -30,
        -30, -30, 0, 0, 0, 0, -30, -30,
        -50, -30, -30, -30, -30, -30, -30, -50,
    ],
];

/// The count of all pieces at the start.
pub const TOTAL_PHASE: i64 = 24;

pub const BISHOP_PAIR_BONUS_MG: i64 = 35;

pub const BISHOP_PAIR_BONUS_EG: i64 = 50;

pub const DOUBLED_PAWNS_PENALTY_MG: i64 = -2;

pub const DOUBLED_PAWNS_PENALTY_EG: i64 = -10;

/// Bonus of a knight or slider that has every square it could have.
pub const FULL_MOBILITY: i64 = 100;

/// No evaluation is larger than this, or smaller than its negative.
pub const EVAL_LIMIT: i32 = 100_000;


/// The place of square `sq` in the placement tables for a piece of `side`:
/// the tables are written with the eighth rank first, and are read
/// upside down for Black.
pub open spec fn table_square(side: Side, sq: int) -> int {
    let s = 63 - sq;
    match side {
        Side::White => s,
        Side::Black => 8 * (7 - s / 8) + s % 8,
    }
}

/// Value of a piece by itself, in the middlegame.
pub open spec fn value_mg(piece: Piece) -> int {
    PIECES_VALUES_MG[piece.index_spec()] as int
}

/// Value of a piece by itself, in the endgame.
pub open spec fn value_eg(piece: Piece) -> int {
    PIECES_VALUES_EG[piece.index_spec()] as int
}

/// Value of a piece's place in the middlegame, by the place in the table.
pub open spec fn placement_mg(piece: Piece, place: int) -> int {
    PIECE_PLACEMENT_VALUES_MG[piece.index_spec()][place] as int
}

/// Value of a piece's place in the endgame, by the place in the table.
pub open spec fn placement_eg(piece: Piece, place: int) -> int {
    PIECE_PLACEMENT_VALUES_EG[piece.index_spec()][place] as int
}

/// How much a piece counts towards the middlegame.
pub open spec fn phase_weight(piece: Piece) -> int {
    match piece {
        Piece::Knight => 1,
        Piece::Bishop => 1,
        Piece::Rook => 2,
        Piece::Queen => 4,
        _ => 0,
    }
}

/// `value` counted up for White and down for Black.
pub open spec fn signed(side: Side, value: int) -> int {
    match side {
        Side::White => value,
        Side::Black => -value,
    }
}

/// The piece on `sq` has every square it could have: a slider sees to the
/// edge in all its directions, a knight has eight squares.
pub open spec fn full_mobility(b: Board, piece: Piece, sq: int) -> bool {
    if piece.is_slider() {
        attack_set(piece, Side::White, sq, b.all_occupancy()) & comp_ray_mask(piece, sq)
            == comp_ray_mask(piece, sq)
    } else if piece == Piece::Knight {
        2 <= file_of(sq) <= 5 && 2 <= rank_of(sq) <= 5
    } else {
        false
    }
}

/// Middlegame value of a `piece` of `side` on `sq`.
pub open spec fn piece_mg(b: Board, piece: Piece, side: Side, sq: int) -> int {
    value_mg(piece) + placement_mg(piece, table_square(side, sq)) + if full_mobility(b, piece, sq) {
        FULL_MOBILITY / 4
    } else {
        0
    }
}

/// Endgame value of a `piece` of `side` on `sq`.
pub open spec fn piece_eg(b: Board, piece: Piece, side: Side, sq: int) -> int {
    value_eg(piece) + placement_eg(piece, table_square(side, sq)) + if full_mobility(b, piece, sq) {
        FULL_MOBILITY / 10
    } else {
        0
    }
}

/// The `k`-th (side, piece, square) triple is a piece on the board.
pub open spec fn on_board_item(b: Board, k: int) -> bool {
    in_bb(b.bb(key_piece(k), key_side(k)), k % 64)
}

/// Middlegame value of the pieces among the first `k` (side, piece,
/// square) triples, White's counted up and Black's down.
pub open spec fn mg_upto(b: Board, k: int) -> int
    decreases k,
{
    if k <= 0 {
        0
    } else if on_board_item(b, k - 1) {
        mg_upto(b, k - 1) + signed(
            key_side(k - 1),
            piece_mg(b, key_piece(k - 1), key_side(k - 1), (k - 1) % 64),
        )
    } else {
        mg_upto(b, k - 1)
    }
}

/// Endgame value of the pieces among the first `k` triples.
pub open spec fn eg_upto(b: Board, k: int) -> int
    decreases k,
{
    if k <= 0 {
        0
    } else if on_board_item(b, k - 1) {
        eg_upto(b, k - 1) + signed(
            key_side(k - 1),
            piece_eg(b, key_piece(k - 1), key_side(k - 1), (k - 1) % 64),
        )
    } else {
        eg_upto(b, k - 1)
    }
}

/// What the pieces among the first `k` triples count towards the
/// middlegame.
pub open spec fn phase_upto(b: Board, k: int) -> int
    decreases k,
{
    if k <= 0 {
        0
    } else if on_board_item(b, k - 1) {
        phase_upto(b, k - 1) + phase_weight(key_piece(k - 1))
    } else {
        phase_upto(b, k - 1)
    }
}

/// Number of squares below `n` in the bitboard.
pub open spec fn count_upto(bb: u64, n: int) -> int
    decreases n,
{
    if n <= 0 {
        0
    } else if in_bb(bb, n - 1) {
        count_upto(bb, n - 1) + 1
    } else {
        count_upto(bb, n - 1)
    }
}

/// Number of pawns that stand behind another pawn of their side, on the
/// files below `f`.
pub open spec fn doubled_upto(pawns: u64, f: int) -> int
    decreases f,
{
    if f <= 0 {
        0
    } else {
        let on_file = count_upto(FILE_MASKS[f - 1] & pawns, 64);
        doubled_upto(pawns, f - 1) + if on_file > 1 {
            on_file - 1
        } else {
            0
        }
    }
}

/// Middlegame value of what a side has beyond its single pieces: the
/// bishop pair and doubled pawns.
pub open spec fn extras_mg(b: Board, side: Side) -> int {
    (if count_upto(b.bb(Piece::Bishop, side), 64) >= 2 {
        BISHOP_PAIR_BONUS_MG as int
    } else {
        0
    }) + doubled_upto(b.bb(Piece::Pawn, side), 8) * DOUBLED_PAWNS_PENALTY_MG
}

/// Endgame value of the bishop pair and doubled pawns of a side.
pub open spec fn extras_eg(b: Board, side: Side) -> int {
    (if count_upto(b.bb(Piece::Bishop, side), 64) >= 2 {
        BISHOP_PAIR_BONUS_EG as int
    } else {
        0
    }) + doubled_upto(b.bb(Piece::Pawn, side), 8) * DOUBLED_PAWNS_PENALTY_EG
}

/// How far the game has moved towards the endgame, from 0 (all pieces on
/// the board) to 256 (none).
pub open spec fn endgame_weight(b: Board) -> int {
    let left = TOTAL_PHASE - phase_upto(b, 768);
    let phase = if left < 0 {
        0
    } else {
        left
    };
    (phase * 256 + 12) / 24
}

/// `n / 256`, rounded towards zero.
pub open spec fn blend_div(n: int) -> int {
    if n >= 0 {
        n / 256
    } else {
        -((-n) / 256)
    }
}

/// The evaluation of a board in hundredths of a pawn, positive where White
/// is better: the middlegame and the endgame value blended by the material
/// left, kept within the limit.
pub open spec fn eval_spec(b: Board) -> int {
    let mg = mg_upto(b, 768) + extras_mg(b, Side::White) - extras_mg(b, Side::Black);
    let eg = eg_upto(b, 768) + extras_eg(b, Side::White) - extras_eg(b, Side::Black);
    let weight = endgame_weight(b);
    let value = blend_div(mg * (256 - weight) + eg * weight);
    if value > EVAL_LIMIT {
        EVAL_LIMIT as int
    } else if value < -EVAL_LIMIT {
        -EVAL_LIMIT
    } else {
        value
    }
}

/// Number of squares in the bitboard.
pub fn count_bits(bb: u64) -> (n: i64)
    ensures
        n == count_upto(bb, 64),
        0 <= n <= 64,
{
    let mut n: i64 = 0;
    let mut sq: usize = 0;
    while sq < 64
        invariant
            sq <= 64,
            n == count_upto(bb, sq as int),
            0 <= n <= sq,
        decreases 64 - sq,
    {
        if test_bit(bb, sq) {
            n += 1;
        }
        sq += 1;
    }
    n
}

/// Number of pawns that stand behind another pawn of their side.
pub fn doubled_pawns(pawns: u64) -> (n: i64)
    ensures
        n == doubled_upto(pawns, 8),
        0 <= n <= 504,
{
    let mut n: i64 = 0;
    let mut f: usize = 0;
    while f < 8
        invariant
            f <= 8,
            n == doubled_upto(pawns, f as int),
            0 <= n <= 63 * f,
        decreases 8 - f,
    {
        let on_file = count_bits(FILE_MASKS[f] & pawns);
        if on_file > 1 {
            n += on_file - 1;
        }
        f += 1;
    }
    n
}

/// The values of a piece of `side` on `square` in the middlegame and in
/// the endgame.
fn piece_values(game: &GameState, piece: Piece, side: Side, square: usize) -> (v: (i64, i64))
    requires
        game.wf(),
        square < 64,
    ensures
        v.0 == piece_mg(game.board, piece, side, square as int),
        v.1 == piece_eg(game.board, piece, side, square as int),
        -0x1_0000_0000 <= v.0 <= 0x1_0000_0000,
        -0x1_0000_0000 <= v.1 <= 0x1_0000_0000,
{
    let p = piece.index();
    let upside_down = 63 - square;
    let place = match side {
        Side::White => upside_down,
        Side::Black => 8 * (7 - rank(upside_down)) + file(upside_down),
    };
    let full = if piece.is_slider() {
        let moves_bb = game.slider_moves(piece, square);
        assert(game.pl_moves.wf_at(square as int));
        let all_rays = game.pl_moves.get_comp_rays(piece)[square];
        moves_bb & all_rays == all_rays
    } else if p == 1 {
        let f = file(square);
        let r = rank(square);
        2 <= f && f <= 5 && 2 <= r && r <= 5
    } else {
        false
    };
    let mobility_mg: i64 = if full {
        FULL_MOBILITY / 4
    } else {
        0
    };
    let mobility_eg: i64 = if full {
        FULL_MOBILITY / 10
    } else {
        0
    };
    (
        PIECES_VALUES_MG[p] as i64 + PIECE_PLACEMENT_VALUES_MG[p][place] as i64 + mobility_mg,
        PIECES_VALUES_EG[p] as i64 + PIECE_PLACEMENT_VALUES_EG[p][place] as i64 + mobility_eg,
    )
}

/// How much a piece counts towards the middlegame.
fn phase_of(piece: Piece) -> (w: i64)
    ensures
        w == phase_weight(piece),
        0 <= w <= 4,
{
    match piece {
        Piece::Knight => 1,
        Piece::Bishop => 1,
        Piece::Rook => 2,
        Piece::Queen => 4,
        _ => 0,
    }
}

/// The evaluation of the position in hundredths of a pawn, positive where
/// White is better. It reads the position and changes nothing.
pub fn eval(game: &GameState) -> (score: i32)
    requires
        game.wf(),
    ensures
        score == eval_spec(game.board),
        -EVAL_LIMIT <= score <= EVAL_LIMIT,
{
    let board = &game.board;
    let mut mg: i64 = 0;
    let mut eg: i64 = 0;
    let mut phase: i64 = 0;
    let mut group: usize = 0;
    while group < 12
        invariant
            game.wf(),
            board == &game.board,
            group <= 12,
            mg == mg_upto(*board, group * 64),
            eg == eg_upto(*board, group * 64),
            phase == phase_upto(*board, group * 64),
            -(group * 64) * 0x1_0000_0000 <= mg <= (group * 64) * 0x1_0000_0000,
            -(group * 64) * 0x1_0000_0000 <= eg <= (group * 64) * 0x1_0000_0000,
            0 <= phase <= (group * 64) * 4,
        decreases 12 - group,
    {
        let side = if group < 6 {
            Side::White
        } else {
            Side::Black
        };
        let piece = Piece::from_index(group % 6);
        let piece_bb = board.piece_bb(piece, side);
        let mut square: usize = 0;
        while square < 64
            invariant
                game.wf(),
                board == &game.board,
                group < 12,
                square <= 64,
                side == (if group < 6 {
                    Side::White
                } else {
                    Side::Black
                }),
                piece == Piece::of_index((group % 6) as int),
                piece_bb == board.bb(piece, side),
                mg == mg_upto(*board, group * 64 + square),
                eg == eg_upto(*board, group * 64 + square),
                phase == phase_upto(*board, group * 64 + square),
                -(group * 64 + square) * 0x1_0000_0000 <= mg <= (group * 64 + square)
                    * 0x1_0000_0000,
                -(group * 64 + square) * 0x1_0000_0000 <= eg <= (group * 64 + square)
                    * 0x1_0000_0000,
                0 <= phase <= (group * 64 + square) * 4,
            decreases 64 - square,
        {
            let ghost k = (group * 64 + square) as int;
            assert(key_side(k) == side);
            assert((k / 64) % 6 == group % 6);
            assert(k % 64 == square);
            if test_bit(piece_bb, square) {
                let (value_mg, value_eg) = piece_values(game, piece, side, square);
                match side {
                    Side::White => {
                        mg += value_mg;
                        eg += value_eg;
                    },
                    Side::Black => {
                        mg -= value_mg;
                        eg -= value_eg;
                    },
                }
                phase += phase_of(piece);
            }
            square += 1;
        }
        group += 1;
    }
    let white_bishops = count_bits(board.piece_bb(Piece::Bishop, Side::White));
    let black_bishops = count_bits(board.piece_bb(Piece::Bishop, Side::Black));
    let white_doubled = doubled_pawns(board.piece_bb(Piece::Pawn, Side::White));
    let black_doubled = doubled_pawns(board.piece_bb(Piece::Pawn, Side::Black));
    let white_pair_mg: i64 = if white_bishops >= 2 {
        BISHOP_PAIR_BONUS_MG
    } else {
        0
    };
    let white_pair_eg: i64 = if white_bishops >= 2 {
        BISHOP_PAIR_BONUS_EG
    } else {
        0
    };
    let black_pair_mg: i64 = if black_bishops >= 2 {
        BISHOP_PAIR_BONUS_MG
    } else {
        0
    };
    let black_pair_eg: i64 = if black_bishops >= 2 {
        BISHOP_PAIR_BONUS_EG
    } else {
        0
    };
    let mg_total: i64 = mg + (white_pair_mg + white_doubled * DOUBLED_PAWNS_PENALTY_MG) - (
    black_pair_mg + black_doubled * DOUBLED_PAWNS_PENALTY_MG);
    let eg_total: i64 = eg + (white_pair_eg + white_doubled * DOUBLED_PAWNS_PENALTY_EG) - (
    black_pair_eg + black_doubled * DOUBLED_PAWNS_PENALTY_EG);
    let left: i64 = if TOTAL_PHASE - phase < 0 {
        0
    } else {
        TOTAL_PHASE - phase
    };
    let weight: i64 = (left * 256 + 12) / 24;
    assert(0 <= weight <= 256);
    assert(-0x400_0000_0000 <= mg_total <= 0x400_0000_0000);
    assert(-0x400_0000_0000 <= eg_total <= 0x400_0000_0000);
    let ghost product_mg = mg_total * (256 - weight);
    let ghost product_eg = eg_total * weight;
    assert(-0x4_0000_0000_0000 <= product_mg <= 0x4_0000_0000_0000 && -0x4_0000_0000_0000
        <= product_eg <= 0x4_0000_0000_0000) by (nonlinear_arith)
        requires
            -0x400_0000_0000 <= mg_total <= 0x400_0000_0000,
            -0x400_0000_0000 <= eg_total <= 0x400_0000_0000,
            0 <= weight <= 256,
            product_mg == mg_total * (256 - weight),
            product_eg == eg_total * weight,
    ;
    let blended: i64 = mg_total * (256 - weight) + eg_total * weight;
    let value: i64 = if blended >= 0 {
        blended / 256
    } else {
        -((-blended) / 256)
    };
    if value > EVAL_LIMIT as i64 {
        EVAL_LIMIT
    } else if value < -(EVAL_LIMIT as i64) {
        -EVAL_LIMIT
    } else {
        value as i32
    }
}

} // verus!
