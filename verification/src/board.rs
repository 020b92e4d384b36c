//! Sides, pieces and the piece placement of a position.

use vstd::prelude::*;
use crate::bits::{
    bit, in_bb, lemma_bb_and, lemma_bb_bit, lemma_bb_not, lemma_bb_or, lemma_bb_shl, lemma_bb_shr,
    lemma_extensional, square_bit,
};
use crate::moves::{Move, MoveType};

verus! {

pub const BOARD_WIDTH: usize = 8;

pub const BOARD_HEIGHT: usize = 8;

pub const N_SQUARES: usize = 64;

#[derive(PartialEq, Eq, Structural, Clone, Copy, Debug)]
pub enum Side {
    White,
    Black,
}

impl Side {
    pub const N_SIDES: usize = 2;

    pub const VALUES: [Side; 2] = [Side::White, Side::Black];

    /// The number that stands for the side where tables are indexed by side.
    pub open spec fn index_spec(self) -> int {
        match self {
            Side::White => 0,
            Side::Black => 1,
        }
    }

    /// The other side.
    pub open spec fn opposite_spec(self) -> Side {
        match self {
            Side::White => Side::Black,
            Side::Black => Side::White,
        }
    }

    /// The number that stands for the side: 0 for White, 1 for Black.
    pub fn index(self) -> (r: usize)
        ensures
            r == self.index_spec(),
            r < 2,
    {
        match self {
            Side::White => 0,
            Side::Black => 1,
        }
    }

    #[verifier::when_used_as_spec(opposite_spec)]
    pub fn opposite(self) -> (r: Side)
        ensures
            r == self.opposite_spec(),
    {
        match self {
            Side::White => Side::Black,
            Side::Black => Side::White,
        }
    }
}

#[derive(PartialEq, Eq, Structural, Clone, Copy, Debug)]
pub enum Piece {
    Pawn,
    Knight,
    Bishop,
    Rook,
    Queen,
    King,
}

impl Piece {
    pub const N_PIECES: usize = 6;

    pub const N_SLIDING_PIECES: usize = 3;

    pub const SLIDER_START_VALUE: usize = 2;

    pub const VALUES: [Piece; 6] = [
        Piece::Pawn,
        Piece::Knight,
        Piece::Bishop,
        Piece::Rook,
        Piece::Queen,
        Piece::King,
    ];

    pub const ALL_BUT_KING: [Piece; 5] = [
        Piece::Pawn,
        Piece::Knight,
        Piece::Bishop,
        Piece::Rook,
        Piece::Queen,
    ];

    pub const PROMOTION_PIECES: [Piece; 4] = [
        Piece::Knight,
        Piece::Bishop,
        Piece::Rook,
        Piece::Queen,
    ];

    /// The number that stands for the piece: pawn 0, knight 1, bishop 2,
    /// rook 3, queen 4, king 5.
    pub open spec fn index_spec(self) -> int {
        match self {
            Piece::Pawn => 0,
            Piece::Knight => 1,
            Piece::Bishop => 2,
            Piece::Rook => 3,
            Piece::Queen => 4,
            Piece::King => 5,
        }
    }

    /// The piece that a number below six stands for.
    pub open spec fn of_index(i: int) -> Piece {
        if i == 0 {
            Piece::Pawn
        } else if i == 1 {
            Piece::Knight
        } else if i == 2 {
            Piece::Bishop
        } else if i == 3 {
            Piece::Rook
        } else if i == 4 {
            Piece::Queen
        } else {
            Piece::King
        }
    }

    /// The piece is a bishop, a rook or a queen.
    pub open spec fn is_slider_spec(self) -> bool {
        self == Piece::Bishop || self == Piece::Rook || self == Piece::Queen
    }

    /// The number that stands for the piece.
    pub fn index(self) -> (r: usize)
        ensures
            r == self.index_spec(),
            r < 6,
            Piece::of_index(r as int) == self,
    {
        match self {
            Piece::Pawn => 0,
            Piece::Knight => 1,
            Piece::Bishop => 2,
            Piece::Rook => 3,
            Piece::Queen => 4,
            Piece::King => 5,
        }
    }

    /// The piece with the given number.
    pub fn from_index(i: usize) -> (r: Piece)
        requires
            i < 6,
        ensures
            r == Piece::of_index(i as int),
            r.index_spec() == i,
    {
        if i == 0 {
            Piece::Pawn
        } else if i == 1 {
            Piece::Knight
        } else if i == 2 {
            Piece::Bishop
        } else if i == 3 {
            Piece::Rook
        } else if i == 4 {
            Piece::Queen
        } else {
            Piece::King
        }
    }

    /// Bishops, rooks and queens slide; their numbers form one range.
    #[verifier::when_used_as_spec(is_slider_spec)]
    pub fn is_slider(self) -> (r: bool)
        ensures
            r == self.is_slider_spec(),
            r == (1 < self.index_spec() < 5),
    {
        let self_idx = self.index();
        self_idx > 1 && self_idx < 5
    }
}


/// Replaces the entry of `side` in a pair of bitboards.
pub open spec fn set_side(pair: [u64; 2], side: Side, value: u64) -> [u64; 2] {
    match side {
        Side::White => [value, pair[1]],
        Side::Black => [pair[0], value],
    }
}

/// Replaces the entry of `side` in a pair of flags.
pub open spec fn set_flag(pair: [bool; 2], side: Side, value: bool) -> [bool; 2] {
    match side {
        Side::White => [value, pair[1]],
        Side::Black => [pair[0], value],
    }
}

/// The corner on which the rook of `side` starts that castles short.
pub open spec fn rook_short_square(side: Side) -> int {
    match side {
        Side::White => 0,
        Side::Black => 56,
    }
}

/// The corner on which the rook of `side` starts that castles long.
pub open spec fn rook_long_square(side: Side) -> int {
    match side {
        Side::White => 7,
        Side::Black => 63,
    }
}

/// The square on which the king of `side` starts.
pub open spec fn king_square(side: Side) -> int {
    match side {
        Side::White => 3,
        Side::Black => 59,
    }
}

/// The corner on which the rook of `side` starts that castles short.
pub fn rook_short_corner(side: Side) -> (r: usize)
    ensures
        r == rook_short_square(side),
{
    match side {
        Side::White => 0,
        Side::Black => 56,
    }
}

/// The corner on which the rook of `side` starts that castles long.
pub fn rook_long_corner(side: Side) -> (r: usize)
    ensures
        r == rook_long_square(side),
{
    match side {
        Side::White => 7,
        Side::Black => 63,
    }
}

/// The piece placement of a position with the state that moves depend on:
/// one bitboard for each piece and side, the side to move, the castling
/// rights, and the square a pawn has just passed over (0 for none).
#[derive(Clone, Copy, Debug, PartialEq)]
pub struct Board {
    pub pawns: [u64; 2],
    pub knights: [u64; 2],
    pub bishops: [u64; 2],
    pub rooks: [u64; 2],
    pub queens: [u64; 2],
    pub king: [u64; 2],
    pub side_to_move: Side,
    pub castling_right_long: [bool; 2],
    pub castling_right_short: [bool; 2],
    pub en_passant_square: usize,
}

impl Default for Board {
    /// The starting position.
    fn default() -> (b: Board)
        ensures
            b == Board::start(),
    {
        Board {
            pawns: [0xff00, 0x00ff_0000_0000_0000],
            knights: [0x42, 0x4200_0000_0000_0000],
            bishops: [0x24, 0x2400_0000_0000_0000],
            rooks: [0x81, 0x8100_0000_0000_0000],
            queens: [0x10, 0x1000_0000_0000_0000],
            king: [0x08, 0x0800_0000_0000_0000],
            side_to_move: Side::White,
            castling_right_long: [true, true],
            castling_right_short: [true, true],
            en_passant_square: 0,
        }
    }
}

impl Board {
    /// The starting position.
    pub open spec fn start() -> Board {
        Board {
            pawns: [0xff00, 0x00ff_0000_0000_0000],
            knights: [0x42, 0x4200_0000_0000_0000],
            bishops: [0x24, 0x2400_0000_0000_0000],
            rooks: [0x81, 0x8100_0000_0000_0000],
            queens: [0x10, 0x1000_0000_0000_0000],
            king: [0x08, 0x0800_0000_0000_0000],
            side_to_move: Side::White,
            castling_right_long: [true, true],
            castling_right_short: [true, true],
            en_passant_square: 0,
        }
    }

    /// The squares on which `side` has a `piece`.
    pub open spec fn bb(&self, piece: Piece, side: Side) -> u64 {
        match piece {
            Piece::Pawn => self.pawns[side.index_spec()],
            Piece::Knight => self.knights[side.index_spec()],
            Piece::Bishop => self.bishops[side.index_spec()],
            Piece::Rook => self.rooks[side.index_spec()],
            Piece::Queen => self.queens[side.index_spec()],
            Piece::King => self.king[side.index_spec()],
        }
    }

    /// The board with the squares of `piece` of `side` replaced by `value`.
    #[verifier::opaque]
    pub open spec fn with_bb(self, piece: Piece, side: Side, value: u64) -> Board {
        match piece {
            Piece::Pawn => Board { pawns: set_side(self.pawns, side, value), ..self },
            Piece::Knight => Board { knights: set_side(self.knights, side, value), ..self },
            Piece::Bishop => Board { bishops: set_side(self.bishops, side, value), ..self },
            Piece::Rook => Board { rooks: set_side(self.rooks, side, value), ..self },
            Piece::Queen => Board { queens: set_side(self.queens, side, value), ..self },
            Piece::King => Board { king: set_side(self.king, side, value), ..self },
        }
    }

    /// The squares that `side` occupies.
    pub open spec fn occupancy(&self, side: Side) -> u64 {
        let i = side.index_spec();
        self.pawns[i] | self.knights[i] | self.bishops[i] | self.rooks[i] | self.queens[i]
            | self.king[i]
    }

    /// The squares that any piece occupies.
    pub open spec fn all_occupancy(&self) -> u64 {
        self.occupancy(Side::White) | self.occupancy(Side::Black)
    }

    /// The en-passant square after move `m`: the square that a pawn passes
    /// over when it advances two ranks, and 0 after any other move.
    pub open spec fn en_passant_after(m: Move) -> usize {
        if m.piece == Piece::Pawn && m.move_type == MoveType::Quiet {
            if m.to_square == m.from_square + 16 {
                (m.from_square + 8) as usize
            } else if m.from_square == m.to_square + 16 {
                (m.to_square + 8) as usize
            } else {
                0
            }
        } else {
            0
        }
    }

    /// The long castling rights after move `m`: a move of the king, a move
    /// of the rook from its long corner, and the capture of that rook by
    /// the other side each end the right.
    pub open spec fn long_rights_after(&self, m: Move) -> [bool; 2] {
        let own = if m.piece == Piece::King || (m.piece == Piece::Rook && !m.is_castling_spec()
            && m.from_square == rook_long_square(m.side)) {
            set_flag(self.castling_right_long, m.side, false)
        } else {
            self.castling_right_long
        };
        if !(m.move_type is EnPassantCapture) && m.captured_spec() == Some(Piece::Rook)
            && m.to_square == rook_long_square(m.side.opposite()) {
            set_flag(own, m.side.opposite(), false)
        } else {
            own
        }
    }

    /// The short castling rights after move `m`.
    pub open spec fn short_rights_after(&self, m: Move) -> [bool; 2] {
        let own = if m.piece == Piece::King || (m.piece == Piece::Rook && !m.is_castling_spec()
            && m.from_square == rook_short_square(m.side)) {
            set_flag(self.castling_right_short, m.side, false)
        } else {
            self.castling_right_short
        };
        if !(m.move_type is EnPassantCapture) && m.captured_spec() == Some(Piece::Rook)
            && m.to_square == rook_short_square(m.side.opposite()) {
            set_flag(own, m.side.opposite(), false)
        } else {
            own
        }
    }

    /// The pieces after move `m`, everything else as it was.
    pub open spec fn pieces_after(self, m: Move) -> Board {
        let king = self.bb(Piece::King, m.side);
        let rooks = self.bb(Piece::Rook, m.side);
        match m.move_type {
            MoveType::CastleShort => {
                let corner = rook_short_square(m.side);
                self.with_bb(Piece::King, m.side, king >> 2).with_bb(
                    Piece::Rook,
                    m.side,
                    (rooks & !bit(corner)) | bit(corner + 2),
                )
            },
            MoveType::CastleLong => {
                let corner = rook_long_square(m.side);
                self.with_bb(Piece::King, m.side, king << 2).with_bb(
                    Piece::Rook,
                    m.side,
                    (rooks & !bit(corner)) | bit(corner - 3),
                )
            },
            _ => {
                let from = m.from_square as int;
                let to = m.to_square as int;
                let lifted = self.with_bb(m.piece, m.side, self.bb(m.piece, m.side) & !bit(from));
                let arriving = m.arriving_piece();
                let placed = lifted.with_bb(
                    arriving,
                    m.side,
                    lifted.bb(arriving, m.side) | bit(to),
                );
                match m.captured_spec() {
                    Some(victim) => placed.with_bb(
                        victim,
                        m.side.opposite(),
                        placed.bb(victim, m.side.opposite()) & !bit(m.capture_square_spec()),
                    ),
                    None => placed,
                }
            },
        }
    }

    /// The board after move `m`. The side to move is left as it was.
    pub open spec fn after_move(self, m: Move) -> Board {
        Board {
            en_passant_square: Self::en_passant_after(m),
            castling_right_long: self.long_rights_after(m),
            castling_right_short: self.short_rights_after(m),
            ..self
        }.pieces_after(m)
    }

    /// The pieces before move `m` was made, everything else as it is.
    pub open spec fn pieces_before(self, m: Move) -> Board {
        let king = self.bb(Piece::King, m.side);
        let rooks = self.bb(Piece::Rook, m.side);
        match m.move_type {
            MoveType::CastleShort => {
                let corner = rook_short_square(m.side);
                self.with_bb(Piece::King, m.side, king << 2).with_bb(
                    Piece::Rook,
                    m.side,
                    (rooks & !bit(corner + 2)) | bit(corner),
                )
            },
            MoveType::CastleLong => {
                let corner = rook_long_square(m.side);
                self.with_bb(Piece::King, m.side, king >> 2).with_bb(
                    Piece::Rook,
                    m.side,
                    (rooks & !bit(corner - 3)) | bit(corner),
                )
            },
            _ => {
                let from = m.from_square as int;
                let to = m.to_square as int;
                let arriving = m.arriving_piece();
                let lifted = self.with_bb(
                    arriving,
                    m.side,
                    self.bb(arriving, m.side) & !bit(to),
                );
                let placed = lifted.with_bb(m.piece, m.side, lifted.bb(m.piece, m.side) | bit(from));
                match m.captured_spec() {
                    Some(victim) => placed.with_bb(
                        victim,
                        m.side.opposite(),
                        placed.bb(victim, m.side.opposite()) | bit(m.capture_square_spec()),
                    ),
                    None => placed,
                }
            },
        }
    }

    /// The board before move `m` was made, given the castling rights and
    /// the en-passant square of that time. The other side is to move.
    pub open spec fn before_move(
        self,
        m: Move,
        long: [bool; 2],
        short: [bool; 2],
        en_passant_square: usize,
    ) -> Board {
        Board {
            castling_right_long: long,
            castling_right_short: short,
            side_to_move: self.side_to_move.opposite(),
            en_passant_square,
            ..self
        }.pieces_before(m)
    }

    /// The squares on which `side` has a `piece`.
    pub fn piece_bb(&self, piece: Piece, side: Side) -> (r: u64)
        ensures
            r == self.bb(piece, side),
    {
        let i = side.index();
        match piece {
            Piece::Pawn => self.pawns[i],
            Piece::Knight => self.knights[i],
            Piece::Bishop => self.bishops[i],
            Piece::Rook => self.rooks[i],
            Piece::Queen => self.queens[i],
            Piece::King => self.king[i],
        }
    }

    /// Replaces the squares of `piece` of `side`.
    pub fn set_piece_bb(&mut self, piece: Piece, side: Side, value: u64)
        ensures
            *final(self) == old(self).with_bb(piece, side, value),
    {
        reveal(Board::with_bb);
        let i = side.index();
        match piece {
            Piece::Pawn => {
                self.pawns[i] = value;
                assert(self.pawns@ =~= set_side(old(self).pawns, side, value)@);
                assert(self.pawns == set_side(old(self).pawns, side, value));
            },
            Piece::Knight => {
                self.knights[i] = value;
                assert(self.knights@ =~= set_side(old(self).knights, side, value)@);
                assert(self.knights == set_side(old(self).knights, side, value));
            },
            Piece::Bishop => {
                self.bishops[i] = value;
                assert(self.bishops@ =~= set_side(old(self).bishops, side, value)@);
                assert(self.bishops == set_side(old(self).bishops, side, value));
            },
            Piece::Rook => {
                self.rooks[i] = value;
                assert(self.rooks@ =~= set_side(old(self).rooks, side, value)@);
                assert(self.rooks == set_side(old(self).rooks, side, value));
            },
            Piece::Queen => {
                self.queens[i] = value;
                assert(self.queens@ =~= set_side(old(self).queens, side, value)@);
                assert(self.queens == set_side(old(self).queens, side, value));
            },
            Piece::King => {
                self.king[i] = value;
                assert(self.king@ =~= set_side(old(self).king, side, value)@);
                assert(self.king == set_side(old(self).king, side, value));
            },
        }
    }

    /// Makes move `m` on the board: moves the pieces and updates the
    /// en-passant square and the castling rights. The side to move is left
    /// as it was.
    pub fn make_move(&mut self, m: &Move)
        requires
            m.wf(),
        ensures
            *final(self) == old(self).after_move(*m),
    {
        self.update_en_passant_flag(m);
        self.update_castling_rights(m);
        let side = m.side;
        match m.move_type {
            MoveType::CastleShort => {
                let king = self.piece_bb(Piece::King, side);
                proof {
                    lemma_with_bb(*self, Piece::King, side, king >> 2);
                }
                self.set_piece_bb(Piece::King, side, king >> 2);
                let corner = rook_short_corner(side);
                let rooks = self.piece_bb(Piece::Rook, side);
                self.set_piece_bb(
                    Piece::Rook,
                    side,
                    (rooks & !square_bit(corner)) | square_bit(corner + 2),
                );
            },
            MoveType::CastleLong => {
                let king = self.piece_bb(Piece::King, side);
                proof {
                    lemma_with_bb(*self, Piece::King, side, king << 2);
                }
                self.set_piece_bb(Piece::King, side, king << 2);
                let corner = rook_long_corner(side);
                let rooks = self.piece_bb(Piece::Rook, side);
                self.set_piece_bb(
                    Piece::Rook,
                    side,
                    (rooks & !square_bit(corner)) | square_bit(corner - 3),
                );
            },
            _ => {
                let from_bit = square_bit(m.from_square);
                let to_bit = square_bit(m.to_square);
                let moving = self.piece_bb(m.piece, side);
                self.set_piece_bb(m.piece, side, moving & !from_bit);
                let arriving = m.arriving();
                let target = self.piece_bb(arriving, side);
                self.set_piece_bb(arriving, side, target | to_bit);
                match m.captured() {
                    Some(victim) => {
                        let capture_bit = square_bit(m.capture_square());
                        let theirs = self.piece_bb(victim, side.opposite());
                        self.set_piece_bb(victim, side.opposite(), theirs & !capture_bit);
                    },
                    None => {},
                }
            },
        }
    }

    /// Takes move `m` back: moves the pieces back, restores the castling
    /// rights and the en-passant square that the caller saved before the
    /// move, and hands the move to the other side.
    pub fn undo_move(
        &mut self,
        m: &Move,
        castling_right_long: &[bool; 2],
        castling_right_short: &[bool; 2],
        en_passant_square: usize,
    )
        requires
            m.wf(),
        ensures
            *final(self) == old(self).before_move(
                *m,
                *castling_right_long,
                *castling_right_short,
                en_passant_square,
            ),
    {
        self.castling_right_short = *castling_right_short;
        self.castling_right_long = *castling_right_long;
        self.side_to_move = self.side_to_move.opposite();
        self.en_passant_square = en_passant_square;
        let side = m.side;
        match m.move_type {
            MoveType::CastleShort => {
                let king = self.piece_bb(Piece::King, side);
                proof {
                    lemma_with_bb(*self, Piece::King, side, king << 2);
                }
                self.set_piece_bb(Piece::King, side, king << 2);
                let corner = rook_short_corner(side);
                let rooks = self.piece_bb(Piece::Rook, side);
                self.set_piece_bb(
                    Piece::Rook,
                    side,
                    (rooks & !square_bit(corner + 2)) | square_bit(corner),
                );
            },
            MoveType::CastleLong => {
                let king = self.piece_bb(Piece::King, side);
                proof {
                    lemma_with_bb(*self, Piece::King, side, king >> 2);
                }
                self.set_piece_bb(Piece::King, side, king >> 2);
                let corner = rook_long_corner(side);
                let rooks = self.piece_bb(Piece::Rook, side);
                self.set_piece_bb(
                    Piece::Rook,
                    side,
                    (rooks & !square_bit(corner - 3)) | square_bit(corner),
                );
            },
            _ => {
                let from_bit = square_bit(m.from_square);
                let to_bit = square_bit(m.to_square);
                let arriving = m.arriving();
                let target = self.piece_bb(arriving, side);
                self.set_piece_bb(arriving, side, target & !to_bit);
                let moving = self.piece_bb(m.piece, side);
                self.set_piece_bb(m.piece, side, moving | from_bit);
                match m.captured() {
                    Some(victim) => {
                        let capture_bit = square_bit(m.capture_square());
                        let theirs = self.piece_bb(victim, side.opposite());
                        self.set_piece_bb(victim, side.opposite(), theirs | capture_bit);
                    },
                    None => {},
                }
            },
        }
    }

    /// Sets the en-passant square for the position after move `m`: the
    /// square passed over where `m` advances a pawn two ranks, else 0.
    pub fn update_en_passant_flag(&mut self, m: &Move)
        ensures
            *final(self) == (Board { en_passant_square: Self::en_passant_after(*m), ..*old(self) }),
    {
        self.en_passant_square = 0;
        if m.piece == Piece::Pawn && m.move_type == MoveType::Quiet {
            if m.from_square <= usize::MAX - 16 && m.to_square == m.from_square + 16 {
                self.en_passant_square = m.from_square + 8;
            } else if m.to_square <= usize::MAX - 16 && m.from_square == m.to_square + 16 {
                self.en_passant_square = m.to_square + 8;
            }
        }
    }

    /// Updates the castling rights for the position after move `m`.
    pub fn update_castling_rights(&mut self, m: &Move)
        ensures
            *final(self) == (Board {
                castling_right_long: old(self).long_rights_after(*m),
                castling_right_short: old(self).short_rights_after(*m),
                ..*old(self)
            }),
    {
        let own = m.side.index();
        let other = m.side.opposite().index();
        match m.piece {
            Piece::King => {
                self.castling_right_long[own] = false;
                self.castling_right_short[own] = false;
            },
            Piece::Rook => {
                if !m.is_castling() {
                    if m.from_square == rook_short_corner(m.side) {
                        self.castling_right_short[own] = false;
                    } else if m.from_square == rook_long_corner(m.side) {
                        self.castling_right_long[own] = false;
                    }
                }
            },
            _ => {},
        }
        match m.move_type {
            MoveType::Capture(Piece::Rook) | MoveType::CapturePromotion(Piece::Rook, _) => {
                if m.to_square == rook_short_corner(m.side.opposite()) {
                    self.castling_right_short[other] = false;
                } else if m.to_square == rook_long_corner(m.side.opposite()) {
                    self.castling_right_long[other] = false;
                }
            },
            _ => {},
        }
        proof {
            assert(self.castling_right_long@ =~= old(self).long_rights_after(*m)@);
            assert(self.castling_right_short@ =~= old(self).short_rights_after(*m)@);
            assert(self.castling_right_long == old(self).long_rights_after(*m));
            assert(self.castling_right_short == old(self).short_rights_after(*m));
        }
    }

    /// The squares that `side` occupies.
    pub fn occupation_board(&self, side: Side) -> (r: u64)
        ensures
            r == self.occupancy(side),
    {
        let i = side.index();
        self.pawns[i] | self.knights[i] | self.bishops[i] | self.rooks[i] | self.queens[i]
            | self.king[i]
    }
}


impl Board {
    /// Move `m` fits the board: the moving piece stands on its square, the
    /// target square holds no piece of the kind that arrives, a captured
    /// piece stands where the move takes it, an en-passant capture goes to
    /// the en-passant square, and a castling king and rook stand on their
    /// squares with the rook's target free.
    pub open spec fn applicable(&self, m: Move) -> bool {
        let own = m.side;
        let other = m.side.opposite();
        &&& m.wf()
        &&& match m.move_type {
            MoveType::CastleShort => {
                &&& self.bb(Piece::King, own) == bit(king_square(own))
                &&& in_bb(self.bb(Piece::Rook, own), rook_short_square(own))
                &&& !in_bb(self.bb(Piece::Rook, own), rook_short_square(own) + 2)
            },
            MoveType::CastleLong => {
                &&& self.bb(Piece::King, own) == bit(king_square(own))
                &&& in_bb(self.bb(Piece::Rook, own), rook_long_square(own))
                &&& !in_bb(self.bb(Piece::Rook, own), rook_long_square(own) - 3)
            },
            _ => {
                &&& in_bb(self.bb(m.piece, own), m.from_square as int)
                &&& !in_bb(self.bb(m.arriving_piece(), own), m.to_square as int)
                &&& m.captured_spec() matches Some(victim) ==> in_bb(
                    self.bb(victim, other),
                    m.capture_square_spec(),
                )
                &&& m.move_type is EnPassantCapture ==> self.en_passant_square == m.to_square
            },
        }
    }
}

/// Reading a bitboard after one was replaced.
pub proof fn lemma_with_bb(b: Board, piece: Piece, side: Side, value: u64)
    ensures
        b.with_bb(piece, side, value).bb(piece, side) == value,
        forall|p: Piece, s: Side|
            p != piece || s != side ==> #[trigger] b.with_bb(piece, side, value).bb(p, s) == b.bb(
                p,
                s,
            ),
        b.with_bb(piece, side, value).side_to_move == b.side_to_move,
        b.with_bb(piece, side, value).castling_right_long == b.castling_right_long,
        b.with_bb(piece, side, value).castling_right_short == b.castling_right_short,
        b.with_bb(piece, side, value).en_passant_square == b.en_passant_square,
{
    reveal(Board::with_bb);
}

/// Two boards with the same bitboards and the same state are equal.
pub proof fn lemma_board_equal(a: Board, b: Board)
    requires
        forall|p: Piece, s: Side| a.bb(p, s) == b.bb(p, s),
        a.side_to_move == b.side_to_move,
        a.castling_right_long == b.castling_right_long,
        a.castling_right_short == b.castling_right_short,
        a.en_passant_square == b.en_passant_square,
    ensures
        a == b,
{
    assert(a.bb(Piece::Pawn, Side::White) == b.bb(Piece::Pawn, Side::White));
    assert(a.bb(Piece::Pawn, Side::Black) == b.bb(Piece::Pawn, Side::Black));
    assert(a.bb(Piece::Knight, Side::White) == b.bb(Piece::Knight, Side::White));
    assert(a.bb(Piece::Knight, Side::Black) == b.bb(Piece::Knight, Side::Black));
    assert(a.bb(Piece::Bishop, Side::White) == b.bb(Piece::Bishop, Side::White));
    assert(a.bb(Piece::Bishop, Side::Black) == b.bb(Piece::Bishop, Side::Black));
    assert(a.bb(Piece::Rook, Side::White) == b.bb(Piece::Rook, Side::White));
    assert(a.bb(Piece::Rook, Side::Black) == b.bb(Piece::Rook, Side::Black));
    assert(a.bb(Piece::Queen, Side::White) == b.bb(Piece::Queen, Side::White));
    assert(a.bb(Piece::Queen, Side::Black) == b.bb(Piece::Queen, Side::Black));
    assert(a.bb(Piece::King, Side::White) == b.bb(Piece::King, Side::White));
    assert(a.bb(Piece::King, Side::Black) == b.bb(Piece::King, Side::Black));
    assert(a.pawns@ =~= b.pawns@);
    assert(a.knights@ =~= b.knights@);
    assert(a.bishops@ =~= b.bishops@);
    assert(a.rooks@ =~= b.rooks@);
    assert(a.queens@ =~= b.queens@);
    assert(a.king@ =~= b.king@);
    assert(a.pawns == b.pawns);
    assert(a.knights == b.knights);
    assert(a.bishops == b.bishops);
    assert(a.rooks == b.rooks);
    assert(a.queens == b.queens);
    assert(a.king == b.king);
}

/// Taking a square out of a bitboard and putting it back in.
pub proof fn lemma_lift_place(x: u64, sq: int)
    requires
        0 <= sq < 64,
    ensures
        in_bb(x, sq) ==> (x & !bit(sq)) | bit(sq) == x,
        !in_bb(x, sq) ==> (x | bit(sq)) & !bit(sq) == x,
{
    lemma_bb_bit(sq);
    lemma_bb_not(bit(sq));
    lemma_bb_and(x, !bit(sq));
    lemma_bb_or(x & !bit(sq), bit(sq));
    lemma_bb_or(x, bit(sq));
    lemma_bb_and(x | bit(sq), !bit(sq));
    if in_bb(x, sq) {
        lemma_extensional((x & !bit(sq)) | bit(sq), x);
    } else {
        lemma_extensional((x | bit(sq)) & !bit(sq), x);
    }
}

/// Moving a piece from one square to another and back.
pub proof fn lemma_move_back(x: u64, from: int, to: int)
    requires
        0 <= from < 64,
        0 <= to < 64,
        from != to,
        in_bb(x, from),
        !in_bb(x, to),
    ensures
        (((x & !bit(from)) | bit(to)) & !bit(to)) | bit(from) == x,
{
    let lifted = x & !bit(from);
    lemma_bb_bit(from);
    lemma_bb_not(bit(from));
    lemma_bb_and(x, !bit(from));
    lemma_lift_place(lifted, to);
    lemma_lift_place(x, from);
}

/// A king on its starting square moved two files and back.
proof fn lemma_king_shift(k: u64)
    by (bit_vector)
    requires
        k == 1u64 << 3u64 || k == 1u64 << 59u64,
    ensures
        (k >> 2) << 2 == k,
        (k << 2) >> 2 == k,
{
}

impl Board {
    /// What move `m` makes of the bitboard `x` of `piece` of `side`.
    pub open spec fn bb_after(m: Move, piece: Piece, side: Side, x: u64) -> u64 {
        let own = side == m.side;
        match m.move_type {
            MoveType::CastleShort => if own && piece == Piece::King {
                x >> 2
            } else if own && piece == Piece::Rook {
                (x & !bit(rook_short_square(m.side))) | bit(rook_short_square(m.side) + 2)
            } else {
                x
            },
            MoveType::CastleLong => if own && piece == Piece::King {
                x << 2
            } else if own && piece == Piece::Rook {
                (x & !bit(rook_long_square(m.side))) | bit(rook_long_square(m.side) - 3)
            } else {
                x
            },
            _ => {
                let lifted = if own && piece == m.piece {
                    x & !bit(m.from_square as int)
                } else {
                    x
                };
                let placed = if own && piece == m.arriving_piece() {
                    lifted | bit(m.to_square as int)
                } else {
                    lifted
                };
                if !own && m.captured_spec() == Some(piece) {
                    placed & !bit(m.capture_square_spec())
                } else {
                    placed
                }
            },
        }
    }

    /// What taking move `m` back makes of the bitboard `x` of `piece` of
    /// `side`.
    pub open spec fn bb_before(m: Move, piece: Piece, side: Side, x: u64) -> u64 {
        let own = side == m.side;
        match m.move_type {
            MoveType::CastleShort => if own && piece == Piece::King {
                x << 2
            } else if own && piece == Piece::Rook {
                (x & !bit(rook_short_square(m.side) + 2)) | bit(rook_short_square(m.side))
            } else {
                x
            },
            MoveType::CastleLong => if own && piece == Piece::King {
                x >> 2
            } else if own && piece == Piece::Rook {
                (x & !bit(rook_long_square(m.side) - 3)) | bit(rook_long_square(m.side))
            } else {
                x
            },
            _ => {
                let lifted = if own && piece == m.arriving_piece() {
                    x & !bit(m.to_square as int)
                } else {
                    x
                };
                let placed = if own && piece == m.piece {
                    lifted | bit(m.from_square as int)
                } else {
                    lifted
                };
                if !own && m.captured_spec() == Some(piece) {
                    placed | bit(m.capture_square_spec())
                } else {
                    placed
                }
            },
        }
    }
}

/// Each bitboard after a move, read by itself.
pub proof fn lemma_bb_after(b: Board, m: Move, piece: Piece, side: Side)
    ensures
        b.pieces_after(m).bb(piece, side) == Board::bb_after(m, piece, side, b.bb(piece, side)),
        b.after_move(m).bb(piece, side) == Board::bb_after(m, piece, side, b.bb(piece, side)),
{
    lemma_pieces_after_bb(b, m, piece, side);
    let prepared = Board {
        en_passant_square: Board::en_passant_after(m),
        castling_right_long: b.long_rights_after(m),
        castling_right_short: b.short_rights_after(m),
        ..b
    };
    lemma_pieces_after_bb(prepared, m, piece, side);
}

/// Each bitboard after the pieces were moved, read by itself.
proof fn lemma_pieces_after_bb(b: Board, m: Move, piece: Piece, side: Side)
    ensures
        b.pieces_after(m).bb(piece, side) == Board::bb_after(m, piece, side, b.bb(piece, side)),
{
    let own = m.side;
    let king = b.bb(Piece::King, own);
    let rooks = b.bb(Piece::Rook, own);
    match m.move_type {
        MoveType::CastleShort => {
            let corner = rook_short_square(own);
            let b1 = b.with_bb(Piece::King, own, king >> 2);
            lemma_with_bb(b, Piece::King, own, king >> 2);
            lemma_with_bb(b1, Piece::Rook, own, (rooks & !bit(corner)) | bit(corner + 2));
        },
        MoveType::CastleLong => {
            let corner = rook_long_square(own);
            let b1 = b.with_bb(Piece::King, own, king << 2);
            lemma_with_bb(b, Piece::King, own, king << 2);
            lemma_with_bb(b1, Piece::Rook, own, (rooks & !bit(corner)) | bit(corner - 3));
        },
        _ => {
            let from = m.from_square as int;
            let to = m.to_square as int;
            let lifted = b.with_bb(m.piece, own, b.bb(m.piece, own) & !bit(from));
            lemma_with_bb(b, m.piece, own, b.bb(m.piece, own) & !bit(from));
            let arriving = m.arriving_piece();
            let placed = lifted.with_bb(arriving, own, lifted.bb(arriving, own) | bit(to));
            lemma_with_bb(lifted, arriving, own, lifted.bb(arriving, own) | bit(to));
            match m.captured_spec() {
                Some(victim) => {
                    lemma_with_bb(
                        placed,
                        victim,
                        own.opposite(),
                        placed.bb(victim, own.opposite()) & !bit(m.capture_square_spec()),
                    );
                },
                None => {},
            }
        },
    }
}

/// Each bitboard after a move was taken back, read by itself.
pub proof fn lemma_bb_before(b: Board, m: Move, piece: Piece, side: Side)
    ensures
        b.pieces_before(m).bb(piece, side) == Board::bb_before(m, piece, side, b.bb(piece, side)),
{
    let own = m.side;
    let king = b.bb(Piece::King, own);
    let rooks = b.bb(Piece::Rook, own);
    match m.move_type {
        MoveType::CastleShort => {
            let corner = rook_short_square(own);
            let b1 = b.with_bb(Piece::King, own, king << 2);
            lemma_with_bb(b, Piece::King, own, king << 2);
            lemma_with_bb(b1, Piece::Rook, own, (rooks & !bit(corner + 2)) | bit(corner));
        },
        MoveType::CastleLong => {
            let corner = rook_long_square(own);
            let b1 = b.with_bb(Piece::King, own, king >> 2);
            lemma_with_bb(b, Piece::King, own, king >> 2);
            lemma_with_bb(b1, Piece::Rook, own, (rooks & !bit(corner - 3)) | bit(corner));
        },
        _ => {
            let from = m.from_square as int;
            let to = m.to_square as int;
            let arriving = m.arriving_piece();
            let lifted = b.with_bb(arriving, own, b.bb(arriving, own) & !bit(to));
            lemma_with_bb(b, arriving, own, b.bb(arriving, own) & !bit(to));
            let placed = lifted.with_bb(m.piece, own, lifted.bb(m.piece, own) | bit(from));
            lemma_with_bb(lifted, m.piece, own, lifted.bb(m.piece, own) | bit(from));
            match m.captured_spec() {
                Some(victim) => {
                    lemma_with_bb(
                        placed,
                        victim,
                        own.opposite(),
                        placed.bb(victim, own.opposite()) | bit(m.capture_square_spec()),
                    );
                },
                None => {},
            }
        },
    }
}

/// One bitboard through a move and back.
pub proof fn lemma_bb_round_trip(b: Board, m: Move, piece: Piece, side: Side)
    requires
        b.applicable(m),
    ensures
        Board::bb_before(m, piece, side, Board::bb_after(m, piece, side, b.bb(piece, side)))
            == b.bb(piece, side),
{
    let x = b.bb(piece, side);
    let own = side == m.side;
    match m.move_type {
        MoveType::CastleShort => {
            if own && piece == Piece::King {
                lemma_king_shift(x);
            } else if own && piece == Piece::Rook {
                lemma_move_back(x, rook_short_square(m.side), rook_short_square(m.side) + 2);
            }
        },
        MoveType::CastleLong => {
            if own && piece == Piece::King {
                lemma_king_shift(x);
            } else if own && piece == Piece::Rook {
                lemma_move_back(x, rook_long_square(m.side), rook_long_square(m.side) - 3);
            }
        },
        _ => {
            let from = m.from_square as int;
            let to = m.to_square as int;
            if own {
                if piece == m.piece && piece == m.arriving_piece() {
                    lemma_move_back(x, from, to);
                } else if piece == m.piece {
                    lemma_lift_place(x, from);
                } else if piece == m.arriving_piece() {
                    lemma_lift_place(x, to);
                }
            } else if m.captured_spec() == Some(piece) {
                lemma_lift_place(x, m.capture_square_spec());
            }
        },
    }
}

/// Undoing a move restores the board: for a move that fits the board, made
/// and then taken back with the castling rights and the en-passant square
/// of before, the board is what it was.
pub proof fn lemma_board_round_trip(b: Board, m: Move)
    requires
        b.applicable(m),
    ensures
        (Board { side_to_move: b.side_to_move.opposite(), ..b.after_move(m) }).before_move(
            m,
            b.castling_right_long,
            b.castling_right_short,
            b.en_passant_square,
        ) == b,
{
    let made = Board { side_to_move: b.side_to_move.opposite(), ..b.after_move(m) };
    let reset = Board {
        castling_right_long: b.castling_right_long,
        castling_right_short: b.castling_right_short,
        side_to_move: made.side_to_move.opposite(),
        en_passant_square: b.en_passant_square,
        ..made
    };
    let back = reset.pieces_before(m);
    assert forall|p: Piece, s: Side| back.bb(p, s) == b.bb(p, s) by {
        lemma_bb_after(b, m, p, s);
        lemma_bb_before(reset, m, p, s);
        lemma_bb_round_trip(b, m, p, s);
        assert(reset.bb(p, s) == b.after_move(m).bb(p, s));
    }
    lemma_pieces_before_frame(reset, m);
    lemma_board_equal(back, b);
}

/// Taking the pieces back leaves the rest of the board as it is.
pub proof fn lemma_pieces_before_frame(b: Board, m: Move)
    ensures
        b.pieces_before(m).side_to_move == b.side_to_move,
        b.pieces_before(m).castling_right_long == b.castling_right_long,
        b.pieces_before(m).castling_right_short == b.castling_right_short,
        b.pieces_before(m).en_passant_square == b.en_passant_square,
{
    lemma_with_bb_frame();
}

/// Replacing a bitboard leaves the rest of the board as it is.
pub proof fn lemma_with_bb_frame()
    ensures
        forall|b: Board, piece: Piece, side: Side, value: u64|
            {
                let r = #[trigger] b.with_bb(piece, side, value);
                &&& r.side_to_move == b.side_to_move
                &&& r.castling_right_long == b.castling_right_long
                &&& r.castling_right_short == b.castling_right_short
                &&& r.en_passant_square == b.en_passant_square
            },
{
    reveal(Board::with_bb);
}


/// The state of the board after a move.
pub proof fn lemma_after_move_frame(b: Board, m: Move)
    ensures
        b.after_move(m).side_to_move == b.side_to_move,
        b.after_move(m).castling_right_long == b.long_rights_after(m),
        b.after_move(m).castling_right_short == b.short_rights_after(m),
        b.after_move(m).en_passant_square == Board::en_passant_after(m),
{
    lemma_with_bb_frame();
}

/// The state of the board after a move was taken back.
pub proof fn lemma_before_move_frame(
    b: Board,
    m: Move,
    long: [bool; 2],
    short: [bool; 2],
    en_passant_square: usize,
)
    ensures
        b.before_move(m, long, short, en_passant_square).side_to_move
            == b.side_to_move.opposite(),
        b.before_move(m, long, short, en_passant_square).castling_right_long == long,
        b.before_move(m, long, short, en_passant_square).castling_right_short == short,
        b.before_move(m, long, short, en_passant_square).en_passant_square == en_passant_square,
{
    lemma_with_bb_frame();
}


/// A square is occupied by a side exactly when one of its pieces stands on
/// it.
pub proof fn lemma_occupancy(b: Board, side: Side)
    ensures
        forall|t: int|
            #[trigger] in_bb(b.occupancy(side), t) == (in_bb(b.bb(Piece::Pawn, side), t) || in_bb(
                b.bb(Piece::Knight, side),
                t,
            ) || in_bb(b.bb(Piece::Bishop, side), t) || in_bb(b.bb(Piece::Rook, side), t) || in_bb(
                b.bb(Piece::Queen, side),
                t,
            ) || in_bb(b.bb(Piece::King, side), t)),
{
    let i = side.index_spec();
    let a1 = b.pawns[i] | b.knights[i];
    let a2 = a1 | b.bishops[i];
    let a3 = a2 | b.rooks[i];
    let a4 = a3 | b.queens[i];
    lemma_bb_or(b.pawns[i], b.knights[i]);
    lemma_bb_or(a1, b.bishops[i]);
    lemma_bb_or(a2, b.rooks[i]);
    lemma_bb_or(a3, b.queens[i]);
    lemma_bb_or(a4, b.king[i]);
}

/// A square is occupied exactly when one of the sides occupies it.
pub proof fn lemma_all_occupancy(b: Board)
    ensures
        forall|t: int|
            #[trigger] in_bb(b.all_occupancy(), t) == (in_bb(b.occupancy(Side::White), t) || in_bb(
                b.occupancy(Side::Black),
                t,
            )),
{
    lemma_bb_or(b.occupancy(Side::White), b.occupancy(Side::Black));
}


impl Board {
    /// Each side has at most one king.
    pub open spec fn kings_single(&self) -> bool {
        forall|side: Side, s: int, t: int|
            in_bb(self.bb(Piece::King, side), s) && in_bb(self.bb(Piece::King, side), t) ==> s
                == t
    }
}

/// A move that fits the board leaves each side with at most one king.
pub proof fn lemma_kings_stay_single(b: Board, m: Move)
    requires
        b.kings_single(),
        b.applicable(m),
    ensures
        b.after_move(m).kings_single(),
{
    let after = b.after_move(m);
    assert forall|side: Side, s: int, t: int|
        in_bb(after.bb(Piece::King, side), s) && in_bb(
            after.bb(Piece::King, side),
            t,
        ) implies s == t by {
        lemma_bb_after(b, m, Piece::King, side);
        let x = b.bb(Piece::King, side);
        if side == m.side {
            match m.move_type {
                MoveType::CastleShort => {
                    lemma_bb_shr(x, 2);
                },
                MoveType::CastleLong => {
                    lemma_bb_shl(x, 2);
                },
                _ => {
                    if m.piece == Piece::King {
                        let from = m.from_square as int;
                        let to = m.to_square as int;
                        lemma_bb_bit(from);
                        lemma_bb_bit(to);
                        lemma_bb_not(bit(from));
                        lemma_bb_and(x, !bit(from));
                        lemma_bb_or(x & !bit(from), bit(to));
                        assert(forall|i: int| in_bb(x, i) ==> i == from);
                    }
                },
            }
        } else {
            if m.captured_spec() == Some(Piece::King) {
            }
        }
    }
}

} // verus!
