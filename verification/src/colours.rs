//! The rules do not tell the colours apart: a move is legal on a board
//! exactly when the mirrored move is legal on the mirror image. So a quiet
//! position and its mirror image get the same score with the other sign
//! from a search without depth.

use vstd::prelude::*;
use crate::bits::{in_bb, lemma_extensional};
use crate::board::{
    Board, Piece, Side, king_square, lemma_all_occupancy, lemma_occupancy, rook_long_square,
    rook_short_square,
};
use crate::legality::{attacks, king_on, lemma_after_piece, safe_after, valid};
use crate::move_bitboards::{abs_diff, file_of, pawn_forward};
use crate::game::Situation;
use crate::movegen::{
    en_passant_victim, in_check, legal_moves, lemma_legal_moves_wf, move_of, moves_to,
    pawn_advance, them, victim_on,
};
use crate::moves::{Move, MoveType};
use crate::eval::eval_spec;
use crate::rules::{
    attacked, castling_ready, legal, lemma_generator_is_exact, lemma_in_check,
    lemma_pseudo_legal_fits, playable, pseudo_legal, reaches,
};
use crate::search::{from_side_spec, root_search, terminal_score};
use crate::symmetry::{
    flip_bb, flip_square, lemma_attacks_flipped, lemma_eval_mirrored, lemma_flip_bb,
    lemma_flip_twice, lemma_mirror_bb, lemma_mirror_occupancy, lemma_quiet_score, mirror, quiet,
    two_moves,
};
use crate::zobrist::ZobristHasher;

verus! {

/// A piece stands on a square of a board exactly when the piece of the
/// other colour stands on the flipped square of the mirror image.
pub proof fn lemma_piece_mirrored(b: Board, piece: Piece, side: Side, t: int)
    requires
        0 <= t < 64,
    ensures
        in_bb(mirror(b).bb(piece, side.opposite()), flip_square(t)) == in_bb(b.bb(piece, side), t),
{
    lemma_mirror_bb(b, piece, side.opposite());
    lemma_flip_bb(b.bb(piece, side));
    lemma_flip_twice(t);
}

/// A square is occupied, by a side or at all, exactly when the flipped
/// square of the mirror image is, by the other side or at all.
pub proof fn lemma_occupied_mirrored(b: Board, side: Side, t: int)
    requires
        0 <= t < 64,
    ensures
        in_bb(mirror(b).occupancy(side.opposite()), flip_square(t)) == in_bb(b.occupancy(side), t),
        in_bb(mirror(b).all_occupancy(), flip_square(t)) == in_bb(b.all_occupancy(), t),
{
    lemma_occupancy(b, side);
    lemma_occupancy(mirror(b), side.opposite());
    lemma_piece_mirrored(b, Piece::Pawn, side, t);
    lemma_piece_mirrored(b, Piece::Knight, side, t);
    lemma_piece_mirrored(b, Piece::Bishop, side, t);
    lemma_piece_mirrored(b, Piece::Rook, side, t);
    lemma_piece_mirrored(b, Piece::Queen, side, t);
    lemma_piece_mirrored(b, Piece::King, side, t);
    lemma_mirror_occupancy(b);
    lemma_flip_bb(b.all_occupancy());
    lemma_flip_twice(t);
}

/// A piece attacks a square when given squares are occupied exactly when
/// the piece of the other colour attacks the flipped square from the
/// flipped square when the flipped squares are occupied.
pub proof fn lemma_attacks_mirrored(piece: Piece, side: Side, q: int, occ: u64, t: int)
    requires
        0 <= q < 64,
        0 <= t < 64,
    ensures
        attacks(piece, side.opposite(), flip_square(q), flip_bb(occ), flip_square(t)) == attacks(
            piece,
            side,
            q,
            occ,
            t,
        ),
{
    lemma_flip_twice(q);
    lemma_flip_twice(t);
    if piece == Piece::Pawn {
        assert(abs_diff(file_of(flip_square(q)), file_of(flip_square(t))) == abs_diff(
            file_of(q),
            file_of(t),
        ));
        assert(pawn_forward(side.opposite()) == -pawn_forward(side));
    } else {
        lemma_attacks_flipped(piece, side.opposite(), flip_square(q), occ, flip_square(t));
    }
}

/// A square is attacked exactly when the flipped square of the mirror
/// image is.
pub proof fn lemma_attacked_mirrored(b: Board, t: int)
    requires
        0 <= t < 64,
    ensures
        attacked(mirror(b), flip_square(t)) == attacked(b, t),
{
    let m = mirror(b);
    lemma_mirror_occupancy(b);
    lemma_flip_twice(t);
    if attacked(b, t) {
        let (p, q) = choose|p: Piece, q: int|
            0 <= q < 64 && in_bb(b.bb(p, them(b)), q) && #[trigger] attacks(
                p,
                them(b),
                q,
                b.all_occupancy(),
                t,
            );
        lemma_flip_twice(q);
        lemma_piece_mirrored(b, p, them(b), q);
        lemma_attacks_mirrored(p, them(b), q, b.all_occupancy(), t);
        assert(attacks(p, them(m), flip_square(q), m.all_occupancy(), flip_square(t)));
    }
    if attacked(m, flip_square(t)) {
        let (p, q) = choose|p: Piece, q: int|
            0 <= q < 64 && in_bb(m.bb(p, them(m)), q) && #[trigger] attacks(
                p,
                them(m),
                q,
                m.all_occupancy(),
                flip_square(t),
            );
        let r = flip_square(q);
        lemma_flip_twice(q);
        lemma_piece_mirrored(b, p, them(b), r);
        lemma_attacks_mirrored(p, them(b), r, b.all_occupancy(), t);
        assert(attacks(p, them(b), r, b.all_occupancy(), t));
    }
}

/// The move on the mirror image that stands for a move on the board: the
/// same move of the other side between the flipped squares.
pub open spec fn mirror_move(m: Move) -> Move {
    if m.is_castling_spec() {
        Move { side: m.side.opposite(), ..m }
    } else {
        Move {
            from_square: flip_square(m.from_square as int) as usize,
            to_square: flip_square(m.to_square as int) as usize,
            side: m.side.opposite(),
            ..m
        }
    }
}

/// The move is a castling move or lies on the board.
pub open spec fn on_the_board(m: Move) -> bool {
    m.is_castling_spec() || (m.from_square < 64 && m.to_square < 64)
}

/// Mirroring a move twice gives the move.
pub proof fn lemma_mirror_move_twice(m: Move)
    requires
        on_the_board(m),
    ensures
        on_the_board(mirror_move(m)),
        mirror_move(mirror_move(m)) == m,
{
    if !m.is_castling_spec() {
        lemma_flip_twice(m.from_square as int);
        lemma_flip_twice(m.to_square as int);
    }
}

/// The side to move is ready to castle exactly when the side to move of
/// the mirror image is.
pub proof fn lemma_castling_ready_mirrored(b: Board, short: bool)
    ensures
        castling_ready(mirror(b), short) == castling_ready(b, short),
{
    let side = b.side_to_move;
    let home = king_square(side);
    lemma_piece_mirrored(b, Piece::King, side, home);
    lemma_piece_mirrored(b, Piece::Rook, side, rook_short_square(side));
    lemma_piece_mirrored(b, Piece::Rook, side, rook_long_square(side));
    lemma_occupied_mirrored(b, side, home - 1);
    lemma_occupied_mirrored(b, side, home - 2);
    lemma_occupied_mirrored(b, side, home + 1);
    lemma_occupied_mirrored(b, side, home + 2);
    lemma_occupied_mirrored(b, side, home + 3);
}

/// The en-passant square is 0, for none, or lies between the second and
/// the seventh rank.
pub open spec fn en_passant_fits(b: Board) -> bool {
    b.en_passant_square == 0 || 8 <= b.en_passant_square < 56
}

/// Ranks on the board turned upside down: the first is the last, and a
/// step up is a step down.
pub proof fn lemma_flipped_ranks(t: int)
    requires
        0 <= t < 64,
    ensures
        0 <= flip_square(t) < 64,
        (flip_square(t) >= 56) == (t <= 7),
        (flip_square(t) <= 7) == (t >= 56),
        (flip_square(t) == 0) == (t == 56),
        t >= 8 ==> flip_square(t - 8) == flip_square(t) + 8,
        t < 56 ==> flip_square(t + 8) == flip_square(t) - 8,
        t >= 16 ==> flip_square(t - 16) == flip_square(t) + 16,
        t < 48 ==> flip_square(t + 16) == flip_square(t) - 16,
{
}

/// The en-passant square of the mirror image is the flipped en-passant
/// square, where there is one, and so is the square of the pawn that a
/// capture onto it takes.
pub proof fn lemma_en_passant_mirrored(b: Board, t: int)
    requires
        en_passant_fits(b),
        0 <= t < 64,
    ensures
        en_passant_fits(mirror(b)),
        (mirror(b).en_passant_square != 0 && flip_square(t) == mirror(b).en_passant_square) == (
        b.en_passant_square != 0 && t == b.en_passant_square),
        b.en_passant_square != 0 ==> 0 <= en_passant_victim(b) < 64 && en_passant_victim(mirror(b))
            == flip_square(en_passant_victim(b)),
{
    lemma_flip_twice(t);
    lemma_flipped_ranks(t);
    if b.en_passant_square != 0 {
        lemma_flip_twice(b.en_passant_square as int);
        lemma_flipped_ranks(b.en_passant_square as int);
    }
}

/// A pawn may advance from a square to another exactly when the pawn of
/// the other colour may advance between the flipped squares of the mirror
/// image.
pub proof fn lemma_pawn_advance_mirrored(b: Board, s: int, t: int)
    requires
        0 <= s < 64,
        0 <= t < 64,
    ensures
        pawn_advance(mirror(b), flip_square(s), flip_square(t)) == pawn_advance(b, s, t),
{
    let side = b.side_to_move;
    lemma_flip_twice(s);
    lemma_flip_twice(t);
    lemma_flipped_ranks(s);
    lemma_occupied_mirrored(b, side, t);
    let over = s + 8 * pawn_forward(side);
    if 0 <= over < 64 {
        lemma_occupied_mirrored(b, side, over);
    }
    match side {
        Side::White => {
            assert(mirror(b).side_to_move == Side::Black);
        },
        Side::Black => {
            assert(mirror(b).side_to_move == Side::White);
        },
    }
}

/// A piece can go from a square to another by the way it moves exactly
/// when the piece of the other colour can go between the flipped squares
/// of the mirror image.
pub proof fn lemma_reaches_mirrored(b: Board, piece: Piece, s: int, t: int)
    requires
        en_passant_fits(b),
        0 <= s < 64,
        0 <= t < 64,
    ensures
        reaches(mirror(b), piece, flip_square(s), flip_square(t)) == reaches(b, piece, s, t),
{
    let side = b.side_to_move;
    lemma_mirror_occupancy(b);
    lemma_attacks_mirrored(piece, side, s, b.all_occupancy(), t);
    if piece == Piece::Pawn {
        lemma_occupied_mirrored(b, them(b), t);
        lemma_en_passant_mirrored(b, t);
        lemma_pawn_advance_mirrored(b, s, t);
    }
}

/// The piece that a capture on a square takes is the piece that a capture
/// on the flipped square of the mirror image takes.
pub proof fn lemma_victim_mirrored(b: Board, t: int)
    requires
        0 <= t < 64,
    ensures
        victim_on(mirror(b), flip_square(t)) == victim_on(b, t),
{
    lemma_piece_mirrored(b, Piece::Pawn, them(b), t);
    lemma_piece_mirrored(b, Piece::Knight, them(b), t);
    lemma_piece_mirrored(b, Piece::Bishop, them(b), t);
    lemma_piece_mirrored(b, Piece::Rook, them(b), t);
    lemma_piece_mirrored(b, Piece::Queen, them(b), t);
}

/// The moves of a piece to a square are, mirrored, the moves of the piece
/// of the other colour to the flipped square of the mirror image.
pub proof fn lemma_moves_to_listed(b: Board, piece: Piece, s: int, t: int)
    requires
        en_passant_fits(b),
        0 <= s < 64,
        0 <= t < 64,
    ensures
        moves_to(mirror(b), piece, flip_square(s), flip_square(t)).len() == moves_to(
            b,
            piece,
            s,
            t,
        ).len(),
        forall|i: int|
            0 <= i < moves_to(b, piece, s, t).len() ==> #[trigger] moves_to(
                mirror(b),
                piece,
                flip_square(s),
                flip_square(t),
            )[i] == mirror_move(moves_to(b, piece, s, t)[i]),
{
    let m = mirror(b);
    let fs = flip_square(s);
    let ft = flip_square(t);
    let here = moves_to(b, piece, s, t);
    let there = moves_to(m, piece, fs, ft);
    lemma_flip_twice(s);
    lemma_flip_twice(t);
    lemma_flipped_ranks(t);
    lemma_occupied_mirrored(b, them(b), t);
    lemma_victim_mirrored(b, t);
    lemma_en_passant_mirrored(b, t);
    let capture = in_bb(b.all_occupancy(), t);
    let victim = victim_on(b, t);
    assert(in_bb(m.all_occupancy(), ft) == capture);
    assert(victim_on(m, ft) == victim);
    assert((ft >= 56 || ft <= 7) == (t >= 56 || t <= 7));
    assert forall|kind: MoveType|
        !(kind is CastleShort) && !(kind is CastleLong) implies #[trigger] move_of(
        m,
        piece,
        fs,
        ft,
        kind,
    ) == mirror_move(move_of(b, piece, s, t, kind)) by {}
    if piece == Piece::Pawn && (t >= 56 || t <= 7) {
        if capture {
            assert(there[0] == mirror_move(here[0]));
            assert(there[1] == mirror_move(here[1]));
            assert(there[2] == mirror_move(here[2]));
            assert(there[3] == mirror_move(here[3]));
        } else {
            assert(there[0] == mirror_move(here[0]));
            assert(there[1] == mirror_move(here[1]));
            assert(there[2] == mirror_move(here[2]));
            assert(there[3] == mirror_move(here[3]));
        }
    } else if capture {
        assert(there[0] == mirror_move(here[0]));
    } else if piece == Piece::Pawn && b.en_passant_square != 0 && t == b.en_passant_square {
        assert(there[0] == mirror_move(here[0]));
    } else {
        assert(there[0] == mirror_move(here[0]));
    }
}

/// A move is one of the moves of a piece to a square exactly when the
/// mirrored move is one of the moves of the piece of the other colour to
/// the flipped square of the mirror image.
pub proof fn lemma_moves_to_mirrored(b: Board, piece: Piece, s: int, t: int, m: Move)
    requires
        en_passant_fits(b),
        0 <= s < 64,
        0 <= t < 64,
        on_the_board(m),
    ensures
        moves_to(mirror(b), piece, flip_square(s), flip_square(t)).contains(mirror_move(m))
            == moves_to(b, piece, s, t).contains(m),
{
    let here = moves_to(b, piece, s, t);
    let there = moves_to(mirror(b), piece, flip_square(s), flip_square(t));
    lemma_moves_to_listed(b, piece, s, t);
    lemma_mirror_move_twice(m);
    if here.contains(m) {
        let i = choose|i: int| 0 <= i < here.len() && here[i] == m;
        assert(there[i] == mirror_move(m));
    }
    if there.contains(mirror_move(m)) {
        let i = choose|i: int| 0 <= i < there.len() && there[i] == mirror_move(m);
        assert(there[i] == mirror_move(here[i]));
        assert(here[i].from_square == s && here[i].to_square == t);
        lemma_mirror_move_twice(here[i]);
        assert(here[i] == m);
    }
}

/// A move obeys the way the pieces move exactly when the mirrored move
/// does on the mirror image.
pub proof fn lemma_pseudo_legal_mirrored(b: Board, m: Move)
    requires
        en_passant_fits(b),
        on_the_board(m),
    ensures
        pseudo_legal(mirror(b), mirror_move(m)) == pseudo_legal(b, m),
{
    if !m.is_castling_spec() {
        let s = m.from_square as int;
        let t = m.to_square as int;
        let side = b.side_to_move;
        lemma_flip_twice(s);
        lemma_flip_twice(t);
        lemma_piece_mirrored(b, m.piece, side, s);
        lemma_reaches_mirrored(b, m.piece, s, t);
        lemma_occupied_mirrored(b, side, t);
        lemma_piece_mirrored(b, Piece::King, them(b), t);
        lemma_moves_to_mirrored(b, m.piece, s, t, m);
        if moves_to(b, m.piece, s, t).contains(m) && m.move_type is EnPassantCapture {
            crate::legality::lemma_move_shape(b, m.piece, s, t, m);
            lemma_en_passant_mirrored(b, t);
            lemma_piece_mirrored(b, Piece::Pawn, them(b), en_passant_victim(b));
        }
    }
}

/// The mirror image of a well-formed move is well formed.
pub proof fn lemma_mirror_move_wf(m: Move)
    requires
        m.wf(),
    ensures
        mirror_move(m).wf(),
        on_the_board(m),
        !m.is_castling_spec() ==> mirror_move(m).capture_square_spec() == flip_square(
            m.capture_square_spec(),
        ) && 0 <= m.capture_square_spec() < 64,
{
    if !m.is_castling_spec() {
        lemma_flip_twice(m.from_square as int);
        lemma_flip_twice(m.to_square as int);
        lemma_flipped_ranks(m.to_square as int);
    }
}

/// After a move, a piece stands on a square exactly when, after the
/// mirrored move on the mirror image, the piece of the other colour stands
/// on the flipped square.
pub proof fn lemma_after_piece_mirrored(b: Board, m: Move, piece: Piece, side: Side, u: int)
    requires
        m.wf(),
        !m.is_castling_spec(),
        0 <= u < 64,
    ensures
        in_bb(mirror(b).after_move(mirror_move(m)).bb(piece, side.opposite()), flip_square(u))
            == in_bb(b.after_move(m).bb(piece, side), u),
{
    let mm = mirror_move(m);
    lemma_mirror_move_wf(m);
    lemma_flip_twice(u);
    lemma_flip_twice(m.from_square as int);
    lemma_flip_twice(m.to_square as int);
    lemma_flip_twice(m.capture_square_spec());
    lemma_after_piece(b, m, piece, side, u);
    lemma_after_piece(mirror(b), mm, piece, side.opposite(), flip_square(u));
    lemma_piece_mirrored(b, piece, side, u);
    assert((flip_square(u) == mm.from_square) == (u == m.from_square));
    assert((flip_square(u) == mm.to_square) == (u == m.to_square));
    assert((flip_square(u) == mm.capture_square_spec()) == (u == m.capture_square_spec()));
    assert((side.opposite() == mm.side) == (side == m.side));
}

/// After a move, the occupied squares of the mirror image are the
/// occupied squares turned upside down.
pub proof fn lemma_after_occupancy_mirrored(b: Board, m: Move)
    requires
        m.wf(),
        !m.is_castling_spec(),
    ensures
        mirror(b).after_move(mirror_move(m)).all_occupancy() == flip_bb(
            b.after_move(m).all_occupancy(),
        ),
{
    let here = b.after_move(m);
    let there = mirror(b).after_move(mirror_move(m));
    lemma_occupancy(here, Side::White);
    lemma_occupancy(here, Side::Black);
    lemma_all_occupancy(here);
    lemma_occupancy(there, Side::White);
    lemma_occupancy(there, Side::Black);
    lemma_all_occupancy(there);
    lemma_flip_bb(here.all_occupancy());
    assert forall|t: int| 0 <= t < 64 implies in_bb(there.all_occupancy(), t) == in_bb(
        flip_bb(here.all_occupancy()),
        t,
    ) by {
        let u = flip_square(t);
        lemma_flip_twice(t);
        lemma_after_piece_mirrored(b, m, Piece::Pawn, Side::White, u);
        lemma_after_piece_mirrored(b, m, Piece::Knight, Side::White, u);
        lemma_after_piece_mirrored(b, m, Piece::Bishop, Side::White, u);
        lemma_after_piece_mirrored(b, m, Piece::Rook, Side::White, u);
        lemma_after_piece_mirrored(b, m, Piece::Queen, Side::White, u);
        lemma_after_piece_mirrored(b, m, Piece::King, Side::White, u);
        lemma_after_piece_mirrored(b, m, Piece::Pawn, Side::Black, u);
        lemma_after_piece_mirrored(b, m, Piece::Knight, Side::Black, u);
        lemma_after_piece_mirrored(b, m, Piece::Bishop, Side::Black, u);
        lemma_after_piece_mirrored(b, m, Piece::Rook, Side::Black, u);
        lemma_after_piece_mirrored(b, m, Piece::Queen, Side::Black, u);
        lemma_after_piece_mirrored(b, m, Piece::King, Side::Black, u);
    }
    lemma_extensional(there.all_occupancy(), flip_bb(here.all_occupancy()));
}

/// A move leaves the mover's king unattacked exactly when the mirrored
/// move does on the mirror image.
pub proof fn lemma_safe_after_mirrored(b: Board, m: Move)
    requires
        m.wf(),
        !m.is_castling_spec(),
    ensures
        safe_after(mirror(b), mirror_move(m)) == safe_after(b, m),
{
    let mm = mirror_move(m);
    let here = b.after_move(m);
    let there = mirror(b).after_move(mm);
    let own = m.side;
    let other = m.side.opposite();
    lemma_after_occupancy_mirrored(b, m);
    assert(mm.side == other && mm.side.opposite() == own);
    if safe_after(b, m) {
        assert forall|piece: Piece, q: int, k: int|
            0 <= q < 64 && in_bb(there.bb(piece, own), q) && in_bb(
                there.bb(Piece::King, other),
                k,
            ) implies !#[trigger] attacks(piece, own, q, there.all_occupancy(), k) by {
            let r = flip_square(q);
            let j = flip_square(k);
            lemma_flip_twice(q);
            lemma_flip_twice(k);
            lemma_after_piece_mirrored(b, m, piece, other, r);
            lemma_after_piece_mirrored(b, m, Piece::King, own, j);
            lemma_attacks_mirrored(piece, other, r, here.all_occupancy(), j);
            assert(!attacks(piece, other, r, here.all_occupancy(), j));
        }
    }
    if safe_after(mirror(b), mm) {
        assert forall|piece: Piece, q: int, k: int|
            0 <= q < 64 && in_bb(here.bb(piece, other), q) && in_bb(
                here.bb(Piece::King, own),
                k,
            ) implies !#[trigger] attacks(piece, other, q, here.all_occupancy(), k) by {
            lemma_flip_twice(q);
            lemma_flip_twice(k);
            lemma_after_piece_mirrored(b, m, piece, other, q);
            lemma_after_piece_mirrored(b, m, Piece::King, own, k);
            lemma_attacks_mirrored(piece, other, q, here.all_occupancy(), k);
            assert(!attacks(piece, own, flip_square(q), there.all_occupancy(), flip_square(k)));
        }
    }
}

/// The mirror image of a valid board is valid, and the king of the side to
/// move stands on the flipped square.
pub proof fn lemma_valid_mirrored(b: Board)
    requires
        valid(b),
    ensures
        valid(mirror(b)),
        en_passant_fits(b),
        forall|k: int| king_on(b, k) ==> #[trigger] king_on(mirror(b), flip_square(k)),
        playable(b) ==> playable(mirror(b)),
{
    let m = mirror(b);
    assert forall|p1: Piece, s1: Side, p2: Piece, s2: Side, sq: int|
        (p1 != p2 || s1 != s2) implies !(#[trigger] in_bb(m.bb(p1, s1), sq) && #[trigger] in_bb(
        m.bb(p2, s2),
        sq,
    )) by {
        if 0 <= sq < 64 {
            lemma_flip_twice(sq);
            lemma_piece_mirrored(b, p1, s1.opposite(), flip_square(sq));
            lemma_piece_mirrored(b, p2, s2.opposite(), flip_square(sq));
        }
    }
    assert forall|side: Side, s: int, t: int|
        in_bb(m.bb(Piece::King, side), s) && in_bb(m.bb(Piece::King, side), t) implies s == t by {
        lemma_flip_twice(s);
        lemma_flip_twice(t);
        lemma_piece_mirrored(b, Piece::King, side.opposite(), flip_square(s));
        lemma_piece_mirrored(b, Piece::King, side.opposite(), flip_square(t));
        assert(flip_square(s) == flip_square(t));
    }
    if b.en_passant_square != 0 {
        lemma_flipped_ranks(b.en_passant_square as int);
        lemma_occupied_mirrored(b, Side::White, b.en_passant_square as int);
    }
    assert forall|k: int| king_on(b, k) implies #[trigger] king_on(m, flip_square(k)) by {
        lemma_flip_twice(k);
        lemma_piece_mirrored(b, Piece::King, b.side_to_move, k);
    }
    if playable(b) {
        let k = choose|k: int| #[trigger] king_on(b, k);
        assert(king_on(m, flip_square(k)));
    }
}

/// The rules do not tell the colours apart: a move is legal on a valid
/// board exactly when the mirrored move is legal on the mirror image.
pub proof fn lemma_legal_mirrored(b: Board, m: Move)
    requires
        valid(b),
        on_the_board(m),
    ensures
        legal(mirror(b), mirror_move(m)) == legal(b, m),
{
    let side = b.side_to_move;
    let home = king_square(side);
    lemma_valid_mirrored(b);
    if m.is_castling_spec() {
        lemma_castling_ready_mirrored(b, true);
        lemma_castling_ready_mirrored(b, false);
        lemma_attacked_mirrored(b, home);
        lemma_attacked_mirrored(b, home - 1);
        lemma_attacked_mirrored(b, home - 2);
        lemma_attacked_mirrored(b, home + 1);
        lemma_attacked_mirrored(b, home + 2);
    } else {
        lemma_pseudo_legal_mirrored(b, m);
        if pseudo_legal(b, m) {
            lemma_pseudo_legal_fits(b, m);
            lemma_safe_after_mirrored(b, m);
        }
    }
}

/// The legal moves of the mirror image of a playable board are the
/// mirrored legal moves of the board.
pub proof fn lemma_legal_moves_mirrored(b: Board, m: Move)
    requires
        playable(b),
        on_the_board(m),
    ensures
        legal_moves(mirror(b)).contains(mirror_move(m)) == legal_moves(b).contains(m),
{
    lemma_valid_mirrored(b);
    lemma_generator_is_exact(b, m);
    lemma_generator_is_exact(mirror(b), mirror_move(m));
    lemma_legal_mirrored(b, m);
}

/// The side to move of a playable board is in check exactly when the side
/// to move of the mirror image is.
pub proof fn lemma_in_check_mirrored(b: Board)
    requires
        playable(b),
    ensures
        in_check(mirror(b)) == in_check(b),
{
    lemma_valid_mirrored(b);
    let k = choose|k: int| #[trigger] king_on(b, k);
    assert(king_on(mirror(b), flip_square(k)));
    lemma_in_check(b, k);
    lemma_in_check(mirror(b), flip_square(k));
    lemma_attacked_mirrored(b, k);
}

/// The same counters on the mirror image of the board.
pub open spec fn mirrored_situation(situation: Situation, mirrored: Situation) -> bool {
    &&& mirrored.board == mirror(situation.board)
    &&& mirrored.half_move_number == situation.half_move_number
    &&& mirrored.half_move_of_last_capture == situation.half_move_of_last_capture
    &&& mirrored.threefold_repetition == situation.threefold_repetition
}

/// The mirror image of a quiet situation on a playable board is quiet.
pub proof fn lemma_quiet_mirrored(situation: Situation, mirrored: Situation)
    requires
        playable(situation.board),
        quiet(situation),
        mirrored_situation(situation, mirrored),
    ensures
        quiet(mirrored),
{
    let b = situation.board;
    let here = legal_moves(b);
    let there = legal_moves(mirror(b));
    lemma_valid_mirrored(b);
    lemma_in_check_mirrored(b);
    lemma_legal_moves_wf(b);
    lemma_legal_moves_wf(mirror(b));
    let (i, j) = choose|i: int, j: int|
        0 <= i < j < here.len() && #[trigger] here[i] != #[trigger] here[j];
    assert(here[i].wf() && here[j].wf());
    assert(here.contains(here[i]) && here.contains(here[j]));
    lemma_legal_moves_mirrored(b, here[i]);
    lemma_legal_moves_mirrored(b, here[j]);
    lemma_mirror_move_twice(here[i]);
    lemma_mirror_move_twice(here[j]);
    let x = choose|x: int| 0 <= x < there.len() && there[x] == mirror_move(here[i]);
    let y = choose|y: int| 0 <= y < there.len() && there[y] == mirror_move(here[j]);
    assert(there[x] != there[y]);
    if x < y {
        assert(two_moves(there));
    } else {
        assert(there[y] != there[x]);
        assert(two_moves(there));
    }
    assert forall|n: int| 0 <= n < there.len() implies !(#[trigger] there[n]).is_capture()
        && !there[n].is_promotion() by {
        let m = mirror_move(there[n]);
        assert(there[n].wf());
        lemma_mirror_move_twice(there[n]);
        lemma_legal_moves_mirrored(b, m);
        assert(there.contains(there[n]));
        assert(here.contains(m));
        let h = choose|h: int| 0 <= h < here.len() && here[h] == m;
        assert(!here[h].is_capture() && !here[h].is_promotion());
    }
}

/// The score of a quiet position: a search without depth scores the
/// mirror image of a quiet situation on a playable board, seen from
/// White's side, as it scores the situation, with the other sign. The
/// killer moves and the keys of the two searches may differ.
pub proof fn lemma_quiet_scores_mirrored(
    killer_list: [[Move; 1024]; 2],
    hasher: ZobristHasher,
    situation: Situation,
    mirror_killer_list: [[Move; 1024]; 2],
    mirror_hasher: ZobristHasher,
    mirrored: Situation,
)
    requires
        playable(situation.board),
        quiet(situation),
        mirrored_situation(situation, mirrored),
    ensures
        from_side_spec(
            mirrored.board.side_to_move,
            root_search(mirror_killer_list, mirror_hasher, mirrored, 0).score,
        ) == -from_side_spec(
            situation.board.side_to_move,
            root_search(killer_list, hasher, situation, 0).score,
        ),
        from_side_spec(
            situation.board.side_to_move,
            root_search(killer_list, hasher, situation, 0).score,
        ) == eval_spec(situation.board),
{
    lemma_quiet_mirrored(situation, mirrored);
    lemma_quiet_score(killer_list, hasher, situation);
    lemma_quiet_score(mirror_killer_list, mirror_hasher, mirrored);
    lemma_eval_mirrored(situation.board);
}

/// A search of any depth gives a position without legal moves the score
/// of the mate or of the stalemate.
pub proof fn lemma_ended_score(
    killer_list: [[Move; 1024]; 2],
    hasher: ZobristHasher,
    situation: Situation,
    depth: usize,
)
    requires
        legal_moves(situation.board).len() == 0,
    ensures
        root_search(killer_list, hasher, situation, depth).score == terminal_score(
            in_check(situation.board),
            1,
        ),
{
}

/// The score of a game that has ended: where the side to move of a
/// playable board has no legal move, a search of any depth scores the
/// mirror image, seen from White's side, as it scores the position, with
/// the other sign.
pub proof fn lemma_ended_scores_mirrored(
    killer_list: [[Move; 1024]; 2],
    hasher: ZobristHasher,
    situation: Situation,
    mirror_killer_list: [[Move; 1024]; 2],
    mirror_hasher: ZobristHasher,
    mirrored: Situation,
    depth: usize,
)
    requires
        playable(situation.board),
        legal_moves(situation.board).len() == 0,
        mirrored.board == mirror(situation.board),
    ensures
        from_side_spec(
            mirrored.board.side_to_move,
            root_search(mirror_killer_list, mirror_hasher, mirrored, depth).score,
        ) == -from_side_spec(
            situation.board.side_to_move,
            root_search(killer_list, hasher, situation, depth).score,
        ),
{
    let b = situation.board;
    let there = legal_moves(mirror(b));
    lemma_valid_mirrored(b);
    lemma_in_check_mirrored(b);
    if there.len() > 0 {
        lemma_legal_moves_wf(mirror(b));
        assert(there[0].wf());
        assert(there.contains(there[0]));
        lemma_mirror_move_twice(there[0]);
        lemma_legal_moves_mirrored(b, mirror_move(there[0]));
        assert(legal_moves(b).contains(mirror_move(there[0])));
    }
    lemma_ended_score(killer_list, hasher, situation, depth);
    lemma_ended_score(mirror_killer_list, mirror_hasher, mirrored, depth);
}

} // verus!
