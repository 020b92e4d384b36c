use pawndropper::board::{Board, Piece, Side};
use pawndropper::game::GameState;
use pawndropper::magic::MagicBitboard;
use pawndropper::move_bitboards::MoveBitboards;
use pawndropper::moves::{Move, MoveType};
use pawndropper::notation::idx_to_square;

fn board_with(white_king: u64, white_queens: u64, black_queens: u64) -> Board {
    Board {
        pawns: [0, 0],
        knights: [0, 0],
        bishops: [0, 0],
        rooks: [0, 0],
        queens: [white_queens, black_queens],
        king: [white_king, 0],
        side_to_move: Side::White,
        castling_right_long: [false, false],
        castling_right_short: [false, false],
        en_passant_square: 0,
    }
}

fn a_move(piece: Piece, from_square: usize, to_square: usize, move_type: MoveType) -> Move {
    Move { from_square, to_square, move_type, piece, side: Side::White }
}

#[test]
fn squares_have_names() {
    assert_eq!(idx_to_square(0), "h1");
    assert_eq!(idx_to_square(7), "a1");
    assert_eq!(idx_to_square(11), "e2");
    assert_eq!(idx_to_square(63), "a8");
}

#[test]
fn sides_have_names() {
    assert_eq!(Side::from_str("white"), Side::White);
    assert_eq!(Side::from_str("black"), Side::Black);
    assert_eq!(Side::White.opposite(), Side::Black);
    assert_eq!(Side::Black.opposite(), Side::White);
}

#[test]
fn sliders_are_told_by_one_range() {
    assert!(!Piece::Pawn.is_slider());
    assert!(!Piece::Knight.is_slider());
    assert!(Piece::Bishop.is_slider());
    assert!(Piece::Rook.is_slider());
    assert!(Piece::Queen.is_slider());
    assert!(!Piece::King.is_slider());
}

#[test]
fn moves_in_algebraic_notation() {
    assert_eq!(a_move(Piece::Pawn, 11, 27, MoveType::Quiet).to_algebraic(), "e4");
    assert_eq!(a_move(Piece::Knight, 1, 18, MoveType::Quiet).to_algebraic(), "Nf3");
    assert_eq!(
        a_move(Piece::Knight, 1, 18, MoveType::Capture(Piece::Pawn)).to_algebraic(),
        "Nxf3"
    );
    assert_eq!(
        a_move(Piece::Pawn, 27, 36, MoveType::Capture(Piece::Pawn)).to_algebraic(),
        "exd5"
    );
    assert_eq!(
        a_move(Piece::Pawn, 35, 44, MoveType::EnPassantCapture(Piece::Pawn)).to_algebraic(),
        "exd6"
    );
    assert_eq!(a_move(Piece::King, 0, 0, MoveType::CastleShort).to_algebraic(), "0-0");
    assert_eq!(a_move(Piece::King, 0, 0, MoveType::CastleLong).to_algebraic(), "0-0-0");
    assert_eq!(
        a_move(Piece::Pawn, 51, 59, MoveType::Promotion(Piece::Queen)).to_algebraic(),
        "e8=Q"
    );
    assert_eq!(
        a_move(Piece::Pawn, 52, 59, MoveType::CapturePromotion(Piece::Rook, Piece::Knight))
            .to_algebraic(),
        "dxe8=N"
    );
    assert_eq!(a_move(Piece::King, 3, 11, MoveType::Quiet).to_algebraic(), "Ke2");
}

#[test]
fn two_queens_to_one_square_are_told_apart() {
    let tables = MoveBitboards::init_legal_moves();
    let magics = MagicBitboard::init_precomputed(&tables).unwrap();
    // White queens on a4 and h4, the king on e1.
    let game = GameState::from_board(&tables, &magics, board_with(1 << 3, (1 << 31) | (1 << 24), 0));
    let (legal_moves, _) = game.get_legal_moves();
    let from_a = a_move(Piece::Queen, 31, 28, MoveType::Quiet);
    let from_h = a_move(Piece::Queen, 24, 28, MoveType::Quiet);
    assert!(legal_moves.contains(&from_a));
    assert!(legal_moves.contains(&from_h));
    assert_eq!(from_a.to_algebraic_with_state(&legal_moves), "Qad4");
    assert_eq!(from_h.to_algebraic_with_state(&legal_moves), "Qhd4");
    // A square that only one of them reaches needs no hint.
    let alone = a_move(Piece::Queen, 31, 63, MoveType::Quiet);
    assert!(legal_moves.contains(&alone));
    assert_eq!(alone.to_algebraic_with_state(&legal_moves), "Qa8");
}

#[test]
fn three_rivals_are_told_by_the_whole_square() {
    let moves = vec![
        a_move(Piece::Queen, 31, 28, MoveType::Quiet),
        a_move(Piece::Queen, 24, 28, MoveType::Quiet),
        a_move(Piece::Queen, 60, 28, MoveType::Quiet),
        a_move(Piece::Rook, 4, 28, MoveType::Quiet),
    ];
    assert_eq!(moves[2].to_algebraic_with_state(&moves), "Qd8d4");
    assert_eq!(moves[3].to_algebraic_with_state(&moves), "Rd4");
}

#[test]
fn pieces_have_figures() {
    assert_eq!(Piece::King.ascii(Side::White), "♚");
    assert_eq!(Piece::King.ascii(Side::Black), "♔");
    assert_eq!(Piece::Queen.ascii(Side::White), "♛");
    assert_eq!(Piece::Rook.ascii(Side::Black), "♖");
    assert_eq!(Piece::Knight.ascii(Side::White), "♞");
    assert_eq!(Piece::Bishop.ascii(Side::Black), "♗");
    assert_eq!(Piece::Pawn.ascii(Side::Black), "♙");
}

#[test]
fn board_is_printed_from_either_side() {
    let board = board_with(1 << 3, 0, 1 << 60);
    assert_eq!(
        board.to_ascii(Side::White),
        "8  . . . \x1b[31m♕\x1b[0m . . . .\n7  . . . . . . . .\n6  . . . . . . . .\n5  . . . . . . . .\n4  . . . . . . . .\n3  . . . . . . . .\n2  . . . . . . . .\n1  . . . . ♚ . . .\n\n   a b c d e f g h \n"
    );
    assert_eq!(
        board.to_ascii(Side::Black),
        "1  . . . . ♚ . . .\n2  . . . . . . . .\n3  . . . . . . . .\n4  . . . . . . . .\n5  . . . . . . . .\n6  . . . . . . . .\n7  . . . . . . . .\n8  . . . \x1b[31m♕\x1b[0m . . . .\n\n   a b c d e f g h \n"
    );
}
