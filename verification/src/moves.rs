//! Moves and the results of making them.

use vstd::prelude::*;
use crate::board::{Piece, Side};

verus! {

/// Deepest ply for which killer moves are kept.
pub const MAX_GAME_PLY: usize = 1024;

/// Killer moves kept for each ply.
pub const MAX_KILLER_MOVES: usize = 2;

#[derive(Debug, PartialEq, Eq, Structural, Copy, Clone)]
pub enum MoveType {
    Quiet,
    /// Capture of the pawn that has just advanced two squares.
    EnPassantCapture(Piece),
    /// Capture of the given piece on the target square.
    Capture(Piece),
    CastleLong,
    CastleShort,
    /// Promotion to the given piece.
    Promotion(Piece),
    /// Capture of the first piece and promotion to the second.
    CapturePromotion(Piece, Piece),
}

#[derive(Debug, PartialEq, Eq, Structural, Copy, Clone)]
pub enum DrawReason {
    FiftyMoveRule,
    InsufficientMaterial,
    ThreeFoldRepetition,
    Stalemate,
}

#[derive(Debug, PartialEq, Eq, Structural, Copy, Clone)]
pub enum MoveResult {
    Check,
    Checkmate,
    Draw(DrawReason),
}

/// A move of `piece` of `side`. Castling moves carry no squares.
#[derive(Debug, PartialEq, Eq, Structural, Copy, Clone)]
pub struct Move {
    pub from_square: usize,
    pub to_square: usize,
    pub move_type: MoveType,
    pub piece: Piece,
    pub side: Side,
}

/// Score of the first killer slot; each later slot scores one less.
pub const KILLER_SCORE: u32 = 5;

impl Move {
    /// A value that stands for "no move": its squares are off the board.
    pub open spec fn null_spec() -> Move {
        Move {
            from_square: 100,
            to_square: 100,
            move_type: MoveType::Quiet,
            piece: Piece::Pawn,
            side: Side::White,
        }
    }

    #[verifier::when_used_as_spec(null_spec)]
    pub fn null() -> (m: Move)
        ensures
            m == Move::null_spec(),
    {
        Move {
            from_square: 100,
            to_square: 100,
            move_type: MoveType::Quiet,
            piece: Piece::Pawn,
            side: Side::White,
        }
    }

    /// The move neither captures nor castles.
    pub open spec fn is_quiet_spec(&self) -> bool {
        self.move_type is Quiet || self.move_type is Promotion
    }

    /// The move captures.
    pub open spec fn is_capture_spec(&self) -> bool {
        self.move_type is Capture || self.move_type is CapturePromotion
            || self.move_type is EnPassantCapture
    }

    /// The move promotes a pawn.
    pub open spec fn is_promotion_spec(&self) -> bool {
        self.move_type is Promotion || self.move_type is CapturePromotion
    }

    /// The move castles.
    pub open spec fn is_castling_spec(&self) -> bool {
        self.move_type is CastleShort || self.move_type is CastleLong
    }

    /// The piece that the move captures, if it captures.
    pub open spec fn captured_spec(&self) -> Option<Piece> {
        match self.move_type {
            MoveType::Capture(victim) => Some(victim),
            MoveType::CapturePromotion(victim, _) => Some(victim),
            MoveType::EnPassantCapture(victim) => Some(victim),
            _ => None,
        }
    }

    /// The piece that the pawn becomes, if the move promotes.
    pub open spec fn promoted_spec(&self) -> Option<Piece> {
        match self.move_type {
            MoveType::Promotion(piece) => Some(piece),
            MoveType::CapturePromotion(_, piece) => Some(piece),
            _ => None,
        }
    }

    /// The square from which a capturing move removes a piece: the target
    /// square, or the square behind it for an en-passant capture.
    pub open spec fn capture_square_spec(&self) -> int {
        if self.move_type is EnPassantCapture {
            match self.side {
                Side::White => self.to_square - 8,
                Side::Black => self.to_square + 8,
            }
        } else {
            self.to_square as int
        }
    }

    /// The piece that stands on the target square after the move.
    pub open spec fn arriving_piece(&self) -> Piece {
        match self.promoted_spec() {
            Some(piece) => piece,
            None => self.piece,
        }
    }

    /// The move has the shape of a chess move: squares on the board unless
    /// it castles, a promotion of a pawn to knight, bishop, rook or queen, no
    /// capture of a king, and an en-passant capture by a pawn of a pawn that
    /// stands on the board behind the target square.
    pub open spec fn wf(&self) -> bool {
        &&& self.is_castling_spec() ==> self.piece == Piece::King
        &&& !self.is_castling_spec() ==> self.from_square < 64 && self.to_square < 64
            && self.from_square != self.to_square
        &&& self.promoted_spec() matches Some(piece) ==> self.piece == Piece::Pawn && piece
            != Piece::Pawn && piece != Piece::King
        &&& self.captured_spec() matches Some(victim) ==> victim != Piece::King
        &&& self.move_type matches MoveType::EnPassantCapture(victim) ==> {
            &&& victim == Piece::Pawn
            &&& self.piece == Piece::Pawn
            &&& self.side == Side::White ==> self.to_square >= 8
            &&& self.side == Side::Black ==> self.to_square < 56
        }
    }

    /// Neither a capture nor castling.
    #[verifier::when_used_as_spec(is_quiet_spec)]
    pub fn is_quiet(&self) -> (r: bool)
        ensures
            r == self.is_quiet_spec(),
    {
        match self.move_type {
            MoveType::Quiet => true,
            MoveType::Promotion(_) => true,
            _ => false,
        }
    }

    #[verifier::when_used_as_spec(is_capture_spec)]
    pub fn is_capture(&self) -> (r: bool)
        ensures
            r == self.is_capture_spec(),
    {
        match self.move_type {
            MoveType::Capture(_) => true,
            MoveType::CapturePromotion(_, _) => true,
            MoveType::EnPassantCapture(_) => true,
            _ => false,
        }
    }

    #[verifier::when_used_as_spec(is_promotion_spec)]
    pub fn is_promotion(&self) -> (r: bool)
        ensures
            r == self.is_promotion_spec(),
    {
        match self.move_type {
            MoveType::Promotion(_) => true,
            MoveType::CapturePromotion(_, _) => true,
            _ => false,
        }
    }

    #[verifier::when_used_as_spec(is_castling_spec)]
    pub fn is_castling(&self) -> (r: bool)
        ensures
            r == self.is_castling_spec(),
    {
        match self.move_type {
            MoveType::CastleShort => true,
            MoveType::CastleLong => true,
            _ => false,
        }
    }

    #[verifier::when_used_as_spec(captured_spec)]
    pub fn captured(&self) -> (r: Option<Piece>)
        ensures
            r == self.captured_spec(),
    {
        match self.move_type {
            MoveType::Capture(victim) => Some(victim),
            MoveType::CapturePromotion(victim, _) => Some(victim),
            MoveType::EnPassantCapture(victim) => Some(victim),
            _ => None,
        }
    }

    #[verifier::when_used_as_spec(promoted_spec)]
    pub fn promoted(&self) -> (r: Option<Piece>)
        ensures
            r == self.promoted_spec(),
    {
        match self.move_type {
            MoveType::Promotion(piece) => Some(piece),
            MoveType::CapturePromotion(_, piece) => Some(piece),
            _ => None,
        }
    }

    /// The square from which a capturing move removes a piece.
    pub fn capture_square(&self) -> (r: usize)
        requires
            self.wf(),
            !self.is_castling_spec(),
        ensures
            r == self.capture_square_spec(),
            r < 64,
    {
        match self.move_type {
            MoveType::EnPassantCapture(_) => match self.side {
                Side::White => self.to_square - 8,
                Side::Black => self.to_square + 8,
            },
            _ => self.to_square,
        }
    }

    /// The piece that stands on the target square after the move.
    pub fn arriving(&self) -> (r: Piece)
        ensures
            r == self.arriving_piece(),
    {
        match self.promoted() {
            Some(piece) => piece,
            None => self.piece,
        }
    }

    /// Score of a capture: ten for each step of the victim's value, and more
    /// the less the attacker is worth. A king is never captured.
    pub open spec fn capture_score(victim: Piece, attacker: Piece) -> int {
        if victim == Piece::King {
            0
        } else {
            10 * (victim.index_spec() + 1) + (5 - attacker.index_spec())
        }
    }

    /// Score of the first killer slot up to `upto` that holds this move at
    /// `ply`, or 0 if none does.
    pub open spec fn killer_score(
        &self,
        ply: int,
        killer_list: [[Move; 1024]; 2],
        upto: int,
    ) -> int
        decreases upto,
    {
        if upto <= 0 {
            0
        } else {
            let earlier = self.killer_score(ply, killer_list, upto - 1);
            if earlier != 0 {
                earlier
            } else if killer_list[upto - 1][ply] == *self {
                KILLER_SCORE - (upto - 1)
            } else {
                0
            }
        }
    }

    /// The priority by which moves are ordered. Captures score by victim and
    /// attacker; other moves score as killers of their ply if they are; a
    /// promotion adds the number of the new piece.
    pub open spec fn prio_spec(&self, ply: int, killer_list: [[Move; 1024]; 2]) -> int {
        (match self.captured_spec() {
            Some(victim) => Self::capture_score(victim, self.piece),
            None => self.killer_score(ply, killer_list, 2),
        }) + (match self.promoted_spec() {
            Some(piece) => piece.index_spec(),
            None => 0,
        })
    }

    /// The priority by which the move is ordered at `ply`.
    pub fn prio(&self, ply: usize, killer_list: &[[Move; 1024]; 2]) -> (score: u32)
        requires
            ply < MAX_GAME_PLY,
        ensures
            score == self.prio_spec(ply as int, *killer_list),
    {
        let mut score: u32 = 0;
        match self.captured() {
            Some(victim) => {
                if victim.index() != 5 {
                    score = 10 * (victim.index() as u32 + 1) + (5 - self.piece.index() as u32);
                }
            },
            None => {
                let mut i: usize = 0;
                while i < MAX_KILLER_MOVES && score == 0
                    invariant
                        i <= 2,
                        ply < 1024,
                        score == self.killer_score(ply as int, *killer_list, i as int),
                        score <= 5,
                    decreases 2 - i,
                {
                    let killer_move = killer_list[i][ply];
                    if *self == killer_move {
                        score = KILLER_SCORE - i as u32;
                    }
                    i += 1;
                }
                assert(score == self.killer_score(ply as int, *killer_list, 2)) by {
                    reveal_with_fuel(Move::killer_score, 3);
                }
            },
        }
        match self.promoted() {
            Some(piece) => {
                score += piece.index() as u32;
            },
            None => {},
        }
        score
    }
}

/// Move ordering puts captures first: a capture of anything but a king
/// scores higher than any move that captures nothing.
pub proof fn lemma_captures_before_quiet(
    capture: Move,
    other: Move,
    ply: int,
    killer_list: [[Move; 1024]; 2],
)
    requires
        capture.wf(),
        other.wf(),
        capture.captured_spec() is Some,
        other.captured_spec() is None,
    ensures
        capture.prio_spec(ply, killer_list) > other.prio_spec(ply, killer_list),
{
    reveal_with_fuel(Move::killer_score, 3);
}

/// Among captures the victim decides first: the capture of a more valuable
/// piece scores higher, whoever captures. Promotions aside.
pub proof fn lemma_most_valuable_victim_first(a: Move, b: Move, ply: int, killer_list: [[Move; 1024]; 2])
    requires
        a.move_type matches MoveType::Capture(va) && b.move_type matches MoveType::Capture(vb)
            && vb.index_spec() < va.index_spec() < 5,
    ensures
        a.prio_spec(ply, killer_list) > b.prio_spec(ply, killer_list),
{
}

} // verus!
