use pawndropper::board::{Board, Piece, Side, BOARD_WIDTH};
use pawndropper::game::GameState;
use pawndropper::magic::MagicBitboard;
use pawndropper::move_bitboards::MoveBitboards;
use pawndropper::moves::{DrawReason, Move, MoveResult, MoveType};

#[test]
fn test_legal_moves() {
    let tables = MoveBitboards::init_legal_moves();
    let magics = MagicBitboard::init_precomputed(&tables).unwrap();
    let game = GameState::new(&tables, &magics);
    let (legal_moves, _) = game.get_legal_moves();

    assert_eq!(legal_moves.len(), 2 * 8 + 2 * 2);

    let game = GameState::from_board(
        &tables,
        &magics,
        Board {
            pawns: [
                // White pawns
                0b0000000000000000000000000000000000000000000000001110001100000000,
                // Black pawns
                0b0000000011101111000000000000000000000000000000000000000000000000,
            ],
            knights: [
                // White knights
                0b0000000000000000000000000000000000000000000000000000000000000000,
                // Black knights
                0b0100001000000000000000000000000000000000000000000000000000000000,
            ],
            bishops: [
                // White bishops
                0b0000000000000000000000000000000000000000000000000000000000100100,
                // Black bishops
                0b0010010000000000000000000000000000000000000000000000000000000000,
            ],
            rooks: [
                // White rooks
                0b0000000000000000000000000000000000000000000000000000000010000001,
                // Black rooks
                0b1000000100000000000000000000000000000000000000000000000000000000,
            ],
            queens: [
                // White queens
                0b0000000000000000000000000000000000000000000000000000000000010000,
                // Black queens
                0b0001000000000000000000000000000000000000000000000000000000000000,
            ],
            king: [
                // White king
                0b0000000000000000000000000000000000000000000000000000000000001000,
                // Black king
                0b0000100000000000000000000000000000000000000000000000000000000000,
            ],

            side_to_move: Side::White,

            en_passant_square: 0usize,
            castling_right_long: [true, true],
            castling_right_short: [true, true],
        }
    );

    let (legal_moves, _) = game.get_legal_moves();

    assert!(legal_moves.contains(&Move {
        from_square: 4,
        to_square: 60,
        move_type: MoveType::Capture(Piece::Queen),
        piece: Piece::Queen,
        side: Side::White
    }));
}

#[test]
fn test_pins() {
    let tables = MoveBitboards::init_legal_moves();
    let magics = MagicBitboard::init_precomputed(&tables).unwrap();
    // RNBQKBNR
    // pppppppp
    // ....Q...
    // ........
    // .......B
    // ........
    // ppppNppp
    // RNBQKBNR
    let game = GameState::from_board(
        &tables,
        &magics,
        Board {
            pawns: [
                // White pawns
                0b0000000000000000000000000000000000000000000000001111011100000000,
                // Black pawns
                0b0000000011111111000000000000000000000000000000000000000000000000,
            ],
            knights: [
                // White knights
                0b0000000000000000000000000000000000000000000000000000100001000010,
                // Black knights
                0b0100001000000000000000000000000000000000000000000000000000000000,
            ],
            bishops: [
                // White bishops
                0b0000000000000000000000000000000000000000000000000000000000100100,
                // Black bishops
                0b0010010000000000000000000000000000000001000000000000000000000000,
            ],
            rooks: [
                // White rooks
                0b0000000000000000000000000000000000000000000000000000000010000001,
                // Black rooks
                0b1000000100000000000000000000000000000000000000000000000000000000,
            ],
            queens: [
                // White queens
                0b0000000000000000000000000000000000000000000000000000000000010000,
                // Black queens
                0b0001000000000000000010000000000000000000000000000000000000000000,
            ],
            king: [
                // White king
                0b0000000000000000000000000000000000000000000000000000000000001000,
                // Black king
                0b0000100000000000000000000000000000000000000000000000000000000000,
            ],

            side_to_move: Side::White,

            en_passant_square: 0usize,
            castling_right_long: [true, true],
            castling_right_short: [true, true],
        }
    );
    let (legal_moves, _) = game.get_legal_moves();

    for m in &legal_moves {
        // Pieces on squares 10 and 11 are pinned by bishop and queen, respectively,
        // so they should have no legal moves
        assert_ne!(m.from_square, 10);
        assert_ne!(m.from_square, 11);
    }

    // RNBQKBNR
    // pppppppp
    // ....Q...
    // ........
    // .......B
    // ....B...
    // ppppNppp
    // RNBQKBNR
    let game = GameState::from_board(
        &tables,
        &magics,
        Board {
            pawns: [
                // White pawns
                0b0000000000000000000000000000000000000000000000001111011100000000,
                // Black pawns
                0b0000000011111111000000000000000000000000000000000000000000000000,
            ],
            knights: [
                // White knights
                0b0000000000000000000000000000000000000000000000000000100001000010,
                // Black knights
                0b0100001000000000000000000000000000000000000000000000000000000000,
            ],
            bishops: [
                // White bishops
                0b0000000000000000000000000000000000000000000010000000000000100100,
                // Black bishops
                0b0010010000000000000000000000000000000001000000000000000000000000,
            ],
            rooks: [
                // White rooks
                0b0000000000000000000000000000000000000000000000000000000010000001,
                // Black rooks
                0b1000000100000000000000000000000000000000000000000000000000000000,
            ],
            queens: [
                // White queens
                0b0000000000000000000000000000000000000000000000000000000000010000,
                // Black queens
                0b0001000000000000000010000000000000000000000000000000000000000000,
            ],
            king: [
                // White king
                0b0000000000000000000000000000000000000000000000000000000000001000,
                // Black king
                0b0000100000000000000000000000000000000000000000000000000000000000,
            ],

            side_to_move: Side::White,

            en_passant_square: 0usize,
            castling_right_long: [true, true],
            castling_right_short: [true, true],
        }
    );
    let (legal_moves, _) = game.get_legal_moves();

    // Now the knight is not pinned and can move
    assert!(legal_moves.iter().any(|m| m.from_square == 11));

    // Likewise for the bishop
    assert!(legal_moves.iter().any(|m| m.from_square == 19));

    // R.B.QB.R
    // pppppKpp
    // ......N.
    // .......B
    // ........
    // ........
    // pppppppp
    // RNBQKBNR
    let mut game = GameState::from_board(
        &tables,
        &magics,
        Board {
            pawns: [
                // White pawns
                0b0000000000000000000000000000000000000000000000001111111100000000,
                // Black pawns
                0b0000000011111011000000000000000000000000000000000000000000000000,
            ],
            knights: [
                // White knights
                0b0000000000000000000000000000000000000000000000000000000001000010,
                // Black knights
                0b0000000000000000000000100000000000000000000000000000000000000000,
            ],
            bishops: [
                // White bishops
                0b0000000000000000000000000000000100000000000000000000000000100100,
                // Black bishops
                0b0010010000000000000000000000000000000000000000000000000000000000,
            ],
            rooks: [
                // White rooks
                0b0000000000000000000000000000000000000000000000000000000010000001,
                // Black rooks
                0b1000000100000000000000000000000000000000000000000000000000000000,
            ],
            queens: [
                // White queens
                0b0000000000000000000000000000000000000000000000000000000000010000,
                // Black queens
                0b0000100000000000000000000000000000000000000000000000000000000000,
            ],
            king: [
                // White king
                0b0000000000000000000000000000000000000000000000000000000000001000,
                // Black king
                0b0000000000000100000000000000000000000000000000000000000000000000,
            ],

            side_to_move: Side::Black,

            en_passant_square: 0usize,
            castling_right_long: [true, true],
            castling_right_short: [true, true],
        }
    );
    let (legal_moves, _) = game.get_legal_moves();

    for m in &legal_moves {
        // Black's only knight is pinned, so it should have no moves
        assert_ne!(m.piece, Piece::Knight);
    }

    // R.B.QB.R
    // pppppKpp
    // ........
    // ........
    // .B......
    // ........
    // pppBpppp
    // RNBQKBNR
    let game = GameState::from_board(
        &tables,
        &magics,
        Board {
            pawns: [
                // White pawns
                0b0000000000000000000000000000000000000000000000001110111100000000,
                // Black pawns
                0b0000000011111011000000000000000000000000000000000000000000000000,
            ],
            knights: [
                // White knights
                0b0000000000000000000000000000000000000000000000000000000001000010,
                // Black knights
                0b0000000000000000000000000000000000000000000000000000000000000000,
            ],
            bishops: [
                // White bishops
                0b0000000000000000000000000000000000000000000000000001000000100100,
                // Black bishops
                0b0010010000000000000000000000000001000000000000000000000000000000,
            ],
            rooks: [
                // White rooks
                0b0000000000000000000000000000000000000000000000000000000010000001,
                // Black rooks
                0b1000000100000000000000000000000000000000000000000000000000000000,
            ],
            queens: [
                // White queens
                0b0000000000000000000000000000000000000000000000000000000000010000,
                // Black queens
                0b0000100000000000000000000000000000000000000000000000000000000000,
            ],
            king: [
                // White king
                0b0000000000000000000000000000000000000000000000000000000000001000,
                // Black king
                0b0000000000000100000000000000000000000000000000000000000000000000,
            ],

            side_to_move: Side::White,

            en_passant_square: 0usize,
            castling_right_long: [true, true],
            castling_right_short: [true, true],
        }
    );
    let (legal_moves, _) = game.get_legal_moves();
    assert!(legal_moves.contains(&Move {
        from_square: 12,
        to_square: 30,
        move_type: MoveType::Capture(Piece::Bishop),
        piece: Piece::Bishop,
        side: Side::White
    }));
    assert!(legal_moves.contains(&Move {
        from_square: 12,
        to_square: 21,
        move_type: MoveType::Quiet,
        piece: Piece::Bishop,
        side: Side::White
    }));

    // R.B.QB.R
    // p.pppppp
    // ..K....R
    // ...p....
    // ..p.....
    // ........
    // pppppppp
    // RNBQKBNR
    let mut game = GameState::from_board(
        &tables,
        &magics,
        Board {
            pawns: [
                // White pawns
                0b0000000000000000000000000001000000100000000000001111111100000000,
                // Black pawns
                0b0000000010111111000000000000000000000000000000000000000000000000,
            ],
            knights: [
                // White knights
                0b0000000000000000000000000000000000000000000000000000000001000010,
                // Black knights
                0b0000000000000000000000000000000000000000000000000000000000000000,
            ],
            bishops: [
                // White bishops
                0b0000000000000000000000000000000000000000000000000001000000100100,
                // Black bishops
                0b0010010000000000000000000000000000000000000000000000000000000000,
            ],
            rooks: [
                // White rooks
                0b0000000000000000000000010000000000000000000000000000000010000001,
                // Black rooks
                0b1000000100000000000000000000000000000000000000000000000000000000,
            ],
            queens: [
                // White queens
                0b0000000000000000000000000000000000000000000000000000000000010000,
                // Black queens
                0b0000100000000000000000000000000000000000000000000000000000000000,
            ],
            king: [
                // White king
                0b0000000000000000000000000000000000000000000000000000000000001000,
                // Black king
                0b0000000000000000001000000000000000000000000000000000000000000000,
            ],

            side_to_move: Side::Black,

            en_passant_square: 0usize,
            castling_right_long: [true, true],
            castling_right_short: [true, true],
        }
    );
    let (legal_moves, _) = game.get_legal_moves();
    let king_moves: Vec<&Move> = legal_moves.iter().filter(|m| m.piece == Piece::King).collect();
    assert!(king_moves.len() == 2);

    // Kc5
    assert_eq!(king_moves[0], &Move {
        from_square: 45,
        to_square: 45 - 8,
        move_type: MoveType::Quiet,
        piece: Piece::King,
        side: Side::Black
    });

    // Kb7
    assert_eq!(king_moves[1], &Move {
        from_square: 45,
        to_square: 45 + 9,
        move_type: MoveType::Quiet,
        piece: Piece::King,
        side: Side::Black
    });
}

#[test]
fn test_checkmate() {
    let tables = MoveBitboards::init_legal_moves();
    let magics = MagicBitboard::init_precomputed(&tables).unwrap();
    // RNBQKBNR
    // pppppppp
    // ....Q...
    // ........
    // .......B
    // ........
    // pppp..pp
    // RNBQKBNR
    let game = GameState::from_board(
        &tables,
        &magics,
        Board {
            pawns: [
                // White pawns
                0b0000000000000000000000000000000000000000000000001111001100000000,
                // Black pawns
                0b0000000011111111000000000000000000000000000000000000000000000000,
            ],
            knights: [
                // White knights
                0b0000000000000000000000000000000000000000000000000000000001000010,
                // Black knights
                0b0100001000000000000000000000000000000000000000000000000000000000,
            ],
            bishops: [
                // White bishops
                0b0000000000000000000000000000000000000000000000000000000000100100,
                // Black bishops
                0b0010010000000000000000000000000000000001000000000000000000000000,
            ],
            rooks: [
                // White rooks
                0b0000000000000000000000000000000000000000000000000000000010000001,
                // Black rooks
                0b1000000100000000000000000000000000000000000000000000000000000000,
            ],
            queens: [
                // White queens
                0b0000000000000000000000000000000000000000000000000000000000010000,
                // Black queens
                0b0001000000000000000010000000000000000000000000000000000000000000,
            ],
            king: [
                // White king
                0b0000000000000000000000000000000000000000000000000000000000001000,
                // Black king
                0b0000100000000000000000000000000000000000000000000000000000000000,
            ],

            side_to_move: Side::White,

            en_passant_square: 0usize,
            castling_right_long: [true, true],
            castling_right_short: [true, true],
        }
    );
    let (legal_moves, in_check) = game.get_legal_moves();

    assert!(in_check);
    assert_eq!(legal_moves.len(), 0);
}

#[test]
fn test_get_out_of_check() {
    let tables = MoveBitboards::init_legal_moves();
    let magics = MagicBitboard::init_precomputed(&tables).unwrap();
    // RNBQKBNR
    // pppppppp
    // ........
    // ....Q...
    // ........
    // ........
    // pppp..pp
    // RNBQKBNR
    let game = GameState::from_board(
        &tables,
        &magics,
        Board {
            pawns: [
                // White pawns
                0b0000000000000000000000000000000000000000000000001111001100000000,
                // Black pawns
                0b0000000011111111000000000000000000000000000000000000000000000000,
            ],
            knights: [
                // White knights
                0b0000000000000000000000000000000000000000000000000000000001000010,
                // Black knights
                0b0100001000000000000000000000000000000000000000000000000000000000,
            ],
            bishops: [
                // White bishops
                0b0000000000000000000000000000000000000000000000000000000000100100,
                // Black bishops
                0b0010010000000000000000000000000000000000000000000000000000000000,
            ],
            rooks: [
                // White rooks
                0b0000000000000000000000000000000000000000000000000000000010000001,
                // Black rooks
                0b1000000100000000000000000000000000000000000000000000000000000000,
            ],
            queens: [
                // White queens
                0b0000000000000000000000000000000000000000000000000000000000010000,
                // Black queens
                0b0001000000000000000000000000100000000000000000000000000000000000,
            ],
            king: [
                // White king
                0b0000000000000000000000000000000000000000000000000000000000001000,
                // Black king
                0b0000100000000000000000000000000000000000000000000000000000000000,
            ],

            side_to_move: Side::White,

            en_passant_square: 0usize,
            castling_right_long: [true, true],
            castling_right_short: [true, true],
        }
    );
    let (legal_moves, in_check) = game.get_legal_moves();

    assert!(in_check);

    // move king out of check
    assert_eq!(legal_moves[0], Move {
        from_square: 3,
        to_square: 10,
        move_type: MoveType::Quiet,
        piece: Piece::King,
        side: Side::White,
    });

    // block with knight
    assert_eq!(legal_moves[1], Move {
        from_square: 1,
        to_square: 11,
        move_type: MoveType::Quiet,
        piece: Piece::Knight,
        side: Side::White,
    });

    // block with bishop
    assert_eq!(legal_moves[2], Move {
        from_square: 2,
        to_square: 11,
        move_type: MoveType::Quiet,
        piece: Piece::Bishop,
        side: Side::White,
    });

    // block with queen
    assert_eq!(legal_moves[3], Move {
        from_square: 4,
        to_square: 11,
        move_type: MoveType::Quiet,
        piece: Piece::Queen,
        side: Side::White,
    });

    // R.B.QB.R
    // p.pppppp
    // ..KR....
    // ........
    // .B......
    // .....B..
    // pppppppp
    // RNBQKBNR
    let mut game = GameState::from_board(
        &tables,
        &magics,
        Board {
            pawns: [
                // White pawns
                0b0000000000000000000000000000000000000000000000001111111100000000,
                // Black pawns
                0b0000000010111111000000000000000000000000000000000000000000000000,
            ],
            knights: [
                // White knights
                0b0000000000000000000000000000000000000000000000000000000001000010,
                // Black knights
                0b0000000000000000000000000000000000000000000000000000000000000000,
            ],
            bishops: [
                // White bishops
                0b0000000000000000000000000000000000000000000001000001000000100100,
                // Black bishops
                0b0010010000000000000000000000000001000000000000000000000000000000,
            ],
            rooks: [
                // White rooks
                0b0000000000000000000100000000000000000000000000000000000010000001,
                // Black rooks
                0b1000000100000000000000000000000000000000000000000000000000000000,
            ],
            queens: [
                // White queens
                0b0000000000000000000000000000000000000000000000000000000000010000,
                // Black queens
                0b0000100000000000000000000000000000000000000000000000000000000000,
            ],
            king: [
                // White king
                0b0000000000000000000000000000000000000000000000000000000000001000,
                // Black king
                0b0000000000000000001000000000000000000000000000000000000000000000,
            ],

            side_to_move: Side::Black,

            en_passant_square: 0usize,
            castling_right_long: [true, true],
            castling_right_short: [true, true],
        }
    );
    let (legal_moves, in_check) = game.get_legal_moves();
    assert!(in_check);
    assert!(legal_moves.len() == 3);

    // Kc5
    assert_eq!(legal_moves[0], Move {
        from_square: 45,
        to_square: 37,
        move_type: MoveType::Quiet,
        piece: Piece::King,
        side: Side::Black,
    });

    // Kb5
    assert_eq!(legal_moves[1], Move {
        from_square: 45,
        to_square: 38,
        move_type: MoveType::Quiet,
        piece: Piece::King,
        side: Side::Black,
    });

    // Kxd5
    assert_eq!(legal_moves[2], Move {
        from_square: 45,
        to_square: 44,
        move_type: MoveType::Capture(Piece::Rook),
        piece: Piece::King,
        side: Side::Black,
    });

    // R.B.QB.R
    // p.pppppp
    // ..KR....
    // ........
    // .B......
    // .....BB.
    // pppppppp
    // RNBQKBNR
    let mut game = GameState::from_board(
        &tables,
        &magics,
        Board {
            pawns: [
                // White pawns
                0b0000000000000000000000000000000000000000000000001111111100000000,
                // Black pawns
                0b0000000010111111000000000000000000000000000000000000000000000000,
            ],
            knights: [
                // White knights
                0b0000000000000000000000000000000000000000000000000000000001000010,
                // Black knights
                0b0000000000000000000000000000000000000000000000000000000000000000,
            ],
            bishops: [
                // White bishops
                0b0000000000000000000000000000000000000000000001100001000000100100,
                // Black bishops
                0b0010010000000000000000000000000001000000000000000000000000000000,
            ],
            rooks: [
                // White rooks
                0b0000000000000000000100000000000000000000000000000000000010000001,
                // Black rooks
                0b1000000100000000000000000000000000000000000000000000000000000000,
            ],
            queens: [
                // White queens
                0b0000000000000000000000000000000000000000000000000000000000010000,
                // Black queens
                0b0000100000000000000000000000000000000000000000000000000000000000,
            ],
            king: [
                // White king
                0b0000000000000000000000000000000000000000000000000000000000001000,
                // Black king
                0b0000000000000000001000000000000000000000000000000000000000000000,
            ],

            side_to_move: Side::Black,

            en_passant_square: 0usize,
            castling_right_long: [true, true],
            castling_right_short: [true, true],
        }
    );
    let (legal_moves, in_check) = game.get_legal_moves();

    assert!(in_check);

    // Additional bishop now defends rook, so Kxd6 is illegal
    assert!(legal_moves.len() == 2);

    // Kc5
    assert_eq!(legal_moves[0], Move {
        from_square: 45,
        to_square: 37,
        move_type: MoveType::Quiet,
        piece: Piece::King,
        side: Side::Black,
    });

    // Kb5
    assert_eq!(legal_moves[1], Move {
        from_square: 45,
        to_square: 38,
        move_type: MoveType::Quiet,
        piece: Piece::King,
        side: Side::Black,
    });
}

#[test]
fn test_castling() {
    let tables = MoveBitboards::init_legal_moves();
    let magics = MagicBitboard::init_precomputed(&tables).unwrap();
    // RNBQKBNR
    // pppppppp
    // ........
    // ........
    // ........
    // ........
    // pppppppp
    // R...K..R
    let game = GameState::from_board(
        &tables,
        &magics,
        Board {
            pawns: [
                // White pawns
                0b0000000000000000000000000000000000000000000000001011111100000000,
                // Black pawns
                0b0000000011111111000000000000000000000000000000000100000000000000,
            ],
            knights: [
                // White knights
                0b0000000000000000000000000000000000000000000000000000000000000000,
                // Black knights
                0b0100001000000000000000000000000000000000000000000000000000000000,
            ],
            bishops: [
                // White bishops
                0b0000000000000000000000000000000000000000000000000000000000000000,
                // Black bishops
                0b0010010000000000000000000000000000000000000000000000000000000000,
            ],
            rooks: [
                // White rooks
                0b0000000000000000000000000000000000000000000000000000000010000001,
                // Black rooks
                0b1000000100000000000000000000000000000000000000000000000000000000,
            ],
            queens: [
                // White queens
                0b0000000000000000000000000000000000000000000000000000000000000000,
                // Black queens
                0b0001000000000000000000000000000000000000000000000000000000000000,
            ],
            king: [
                // White king
                0b0000000000000000000000000000000000000000000000000000000000001000,
                // Black king
                0b0000100000000000000000000000000000000000000000000000000000000000,
            ],

            side_to_move: Side::White,

            en_passant_square: 0usize,
            castling_right_long: [true, true],
            castling_right_short: [true, true],
        }
    );
    let (legal_moves, in_check) = game.get_legal_moves();

    assert!(!in_check);

    assert!(legal_moves.contains(&Move {
        from_square: 0,
        to_square: 0,
        move_type: MoveType::CastleShort,
        piece: Piece::King,
        side: Side::White
    }));

    // no long castle, would move through pawn check
    assert!(!legal_moves.contains(&Move {
        from_square: 0,
        to_square: 0,
        move_type: MoveType::CastleLong,
        piece: Piece::King,
        side: Side::White
    }));
}

#[test]
fn test_pawn_promotion() {
    let tables = MoveBitboards::init_legal_moves();
    let magics = MagicBitboard::init_precomputed(&tables).unwrap();
    // .B......
    // ..p.....
    // ........
    // ........
    // ........
    // ........
    // ........
    // ........
    let game = GameState::from_board(
        &tables,
        &magics,
        Board {
            pawns: [
                // White pawns
                0b0000000000100000000000000000000000000000000000000000000000000000,
                // Black pawns
                0,
            ],
            knights: [
                0, 0,
            ],
            bishops: [
                // White bishops
                0b0000000000000000000000000000000000000000000000000000000000000000,
                // Black bishops
                0b0100000000000000000000000000000000000000000000000000000000000000,
            ],
            rooks: [
                0, 0
            ],
            queens: [
                0, 0
            ],
            king: [
                0, 0
            ],

            side_to_move: Side::White,

            en_passant_square: 0usize,
            castling_right_long: [true, true],
            castling_right_short: [true, true],
        }
    );
    let (legal_moves, _) = game.get_legal_moves();

    for promotion_piece in Piece::PROMOTION_PIECES {
        let move_type = MoveType::CapturePromotion(Piece::Bishop, promotion_piece);
        assert!(legal_moves.iter().any(|m| m.move_type == move_type));
    }

    for promotion_piece in Piece::PROMOTION_PIECES {
        let move_type = MoveType::Promotion(promotion_piece);
        assert!(legal_moves.iter().any(|m| m.move_type == move_type));
    }
}

#[test]
fn test_undo_move() {
    let tables = MoveBitboards::init_legal_moves();
    let magics = MagicBitboard::init_precomputed(&tables).unwrap();
    let mut game = GameState::new(&tables, &magics);

    let board_initial = game.board.clone();

    let m = Move {
        from_square: 8,
        to_square: 24,
        move_type: MoveType::Quiet,
        piece: Piece::Pawn,
        side: Side::White,
    };

    let en_passant_square = game.board.en_passant_square;
    game.make_move(&m);
    let castling_right_long = game.board.castling_right_long;
    let castling_right_short = game.board.castling_right_short;
    let half_move_of_last_capture = game.half_move_of_last_capture;

    game.update_board_undo_move(&m, &castling_right_long, &castling_right_short, half_move_of_last_capture, en_passant_square);

    assert_eq!(game.half_move_number, 1);
    assert_eq!(game.move_number, 1);
    assert_eq!(game.board, board_initial);

    // .B......
    // ..p.....
    // ........
    // ........
    // ........
    // ........
    // ........
    // ........
    let mut game = GameState::from_board(
        &tables,
        &magics,
        Board {
            pawns: [
                // White pawns
                0b0000000000100000000000000000000000000000000000000000000000000000,
                // Black pawns
                0,
            ],
            knights: [
                0, 0,
            ],
            bishops: [
                // White bishops
                0b0000000000000000000000000000000000000000000000000000000000000000,
                // Black bishops
                0b0100000000000000000000000000000000000000000000000000000000000000,
            ],
            rooks: [
                0, 0
            ],
            queens: [
                0, 0
            ],
            king: [
                0, 0
            ],

            side_to_move: Side::White,

            en_passant_square: 0usize,
            castling_right_long: [true, true],
            castling_right_short: [true, true],
        }
    );

    let board_initial = game.board.clone();

    let m = Move {
        from_square: 53,
        to_square: 62,
        move_type: MoveType::CapturePromotion(Piece::Bishop, Piece::Queen),
        piece: Piece::Pawn,
        side: Side::White,
    };

    let castling_right_long = game.board.castling_right_long;
    let castling_right_short = game.board.castling_right_short;
    let half_move_of_last_capture = game.half_move_of_last_capture;
    let en_passant_square = game.board.en_passant_square;
    game.make_move(&m);

    game.update_board_undo_move(&m, &castling_right_long, &castling_right_short, half_move_of_last_capture, en_passant_square);

    assert_eq!(game.board, board_initial);
}

#[test]
fn test_en_passant() {
    let tables = MoveBitboards::init_legal_moves();
    let magics = MagicBitboard::init_precomputed(&tables).unwrap();
    // RNBQKBNR
    // pppppppp
    // ........
    // .p......
    // ........
    // ........
    // pppppppp
    // R...K..R
    let mut game = GameState::from_board(
        &tables,
        &magics,
        Board {
            pawns: [
                // White pawns
                0b0000000000000000000000000100000000000000000000001111111100000000,
                // Black pawns
                0b0000000011111111000000000000000000000000000000000000000000000000,
            ],
            knights: [
                // White knights
                0b0000000000000000000000000000000000000000000000000000000000000000,
                // Black knights
                0b0100001000000000000000000000000000000000000000000000000000000000,
            ],
            bishops: [
                // White bishops
                0b0000000000000000000000000000000000000000000000000000000000000000,
                // Black bishops
                0b0010010000000000000000000000000000000000000000000000000000000000,
            ],
            rooks: [
                // White rooks
                0b0000000000000000000000000000000000000000000000000000000010000001,
                // Black rooks
                0b1000000100000000000000000000000000000000000000000000000000000000,
            ],
            queens: [
                // White queens
                0b0000000000000000000000000000000000000000000000000000000000000000,
                // Black queens
                0b0001000000000000000000000000000000000000000000000000000000000000,
            ],
            king: [
                // White king
                0b0000000000000000000000000000000000000000000000000000000000001000,
                // Black king
                0b0000100000000000000000000000000000000000000000000000000000000000,
            ],

            side_to_move: Side::Black,

            en_passant_square: 0usize,
            castling_right_long: [true, true],
            castling_right_short: [true, true],
        }
    );

    let m = Move {
        from_square: 53,
        to_square: 37,
        move_type: MoveType::Quiet,
        piece: Piece::Pawn,
        side: Side::Black,
    };
    game.make_move(&m);

    assert_eq!(game.board.en_passant_square, 37 + BOARD_WIDTH);

    let (legal_moves, _) = game.get_legal_moves();

    let ep_move = Move {
        from_square: 38,
        to_square: 45,
        move_type: MoveType::EnPassantCapture(Piece::Pawn),
        piece: Piece::Pawn,
        side: Side::White
    };

    assert!(legal_moves.contains(&ep_move));

    game.make_move(&ep_move);

    assert_eq!(game.board.en_passant_square, 0);

    let board_after_ep = Board {
        pawns: [
            // White pawns
            0b0000000000000000001000000000000000000000000000001111111100000000,
            // Black pawns
            0b0000000011011111000000000000000000000000000000000000000000000000,
        ],
        knights: [
            // White knights
            0b0000000000000000000000000000000000000000000000000000000000000000,
            // Black knights
            0b0100001000000000000000000000000000000000000000000000000000000000,
        ],
        bishops: [
            // White bishops
            0b0000000000000000000000000000000000000000000000000000000000000000,
            // Black bishops
            0b0010010000000000000000000000000000000000000000000000000000000000,
        ],
        rooks: [
            // White rooks
            0b0000000000000000000000000000000000000000000000000000000010000001,
            // Black rooks
            0b1000000100000000000000000000000000000000000000000000000000000000,
        ],
        queens: [
            // White queens
            0b0000000000000000000000000000000000000000000000000000000000000000,
            // Black queens
            0b0001000000000000000000000000000000000000000000000000000000000000,
        ],
        king: [
            // White king
            0b0000000000000000000000000000000000000000000000000000000000001000,
            // Black king
            0b0000100000000000000000000000000000000000000000000000000000000000,
        ],

        side_to_move: Side::Black,

        en_passant_square: 0usize,
        castling_right_long: [true, true],
        castling_right_short: [true, true],
    };

    assert_eq!(game.board, board_after_ep);

    // En-passant from black's side
    let mut game = GameState::from_board(
        &tables,
        &magics,
        Board {
            pawns: [
                // White pawns
                0b0000000000000000000000000000000000000000000000001111111100000000,
                // Black pawns
                0b0000000011111111000000000000000000000010000000000000000000000000,
            ],
            knights: [
                // White knights
                0b0000000000000000000000000000000000000000000000000000000000000000,
                // Black knights
                0b0100001000000000000000000000000000000000000000000000000000000000,
            ],
            bishops: [
                // White bishops
                0b0000000000000000000000000000000000000000000000000000000000000000,
                // Black bishops
                0b0010010000000000000000000000000000000000000000000000000000000000,
            ],
            rooks: [
                // White rooks
                0b0000000000000000000000000000000000000000000000000000000010000001,
                // Black rooks
                0b1000000100000000000000000000000000000000000000000000000000000000,
            ],
            queens: [
                // White queens
                0b0000000000000000000000000000000000000000000000000000000000000000,
                // Black queens
                0b0001000000000000000000000000000000000000000000000000000000000000,
            ],
            king: [
                // White king
                0b0000000000000000000000000000000000000000000000000000000000001000,
                // Black king
                0b0000100000000000000000000000000000000000000000000000000000000000,
            ],

            side_to_move: Side::White,

            en_passant_square: 0usize,
            castling_right_long: [true, true],
            castling_right_short: [true, true],
        }
    );
    let m = Move {
        from_square: 8,
        to_square: 24,
        move_type: MoveType::Quiet,
        piece: Piece::Pawn,
        side: Side::White,
    };
    game.make_move(&m);

    let (legal_moves, _) = game.get_legal_moves();

    let ep_move = Move {
        from_square: 25,
        to_square: 16,
        move_type: MoveType::EnPassantCapture(Piece::Pawn),
        piece: Piece::Pawn,
        side: Side::Black
    };

    assert!(legal_moves.contains(&ep_move));

    let board_before_ep = game.board.clone();
    let ep_square_before = game.board.en_passant_square;
    let castling_right_long = game.board.castling_right_long;
    let castling_right_short = game.board.castling_right_short;
    let half_move_of_last_capture = game.half_move_of_last_capture;

    game.make_move(&ep_move);

    assert_eq!(game.board.en_passant_square, 0);

    game.update_board_undo_move(&ep_move, &castling_right_long, &castling_right_short, half_move_of_last_capture, ep_square_before);

    assert_eq!(game.board, board_before_ep);
    assert_eq!(game.board.en_passant_square, ep_square_before);
}

#[test]
fn test_threefold_repetition() {
    let tables = MoveBitboards::init_legal_moves();
    let magics = MagicBitboard::init_precomputed(&tables).unwrap();
    // .B......
    // ..p.....
    // ........
    // ........
    // ........
    // ........
    // ........
    // ........
    let mut game = GameState::from_board(
        &tables,
        &magics,
        Board {
            pawns: [
                // White pawns
                0b0000000000000000000000000000000000000000000000000000000000000000,
                // Black pawns
                0,
            ],
            knights: [
                0, 0,
            ],
            bishops: [
                // White bishops
                0b0000000000000000000000000000000000000000000000000000000000000000,
                // Black bishops
                0b0100000000000000000000000000000000000000000000000000000000000000,
            ],
            rooks: [
                0, 0
            ],
            queens: [
                0b0000000000000000000000000000000000000000000000000000000000000100,
                0b1000000000000000000000000000000000000000000000000000000000000000
            ],
            king: [
                0, 0
            ],

            side_to_move: Side::White,

            en_passant_square: 0usize,
            castling_right_long: [true, true],
            castling_right_short: [true, true],
        }
    );

    for i in 0..3 {
        // White: Qg1
        game.make_move(&Move {
            from_square: 0,
            to_square: 1,
            move_type: MoveType::Quiet,
            piece: Piece::Queen,
            side: Side::White,
        });

        // Black: Qb8
        game.make_move(&Move {
            from_square: 63,
            to_square: 62,
            move_type: MoveType::Quiet,
            piece: Piece::Queen,
            side: Side::Black,
        });

        // White: Qh1
        game.make_move(&Move {
            from_square: 1,
            to_square: 0,
            move_type: MoveType::Quiet,
            piece: Piece::Queen,
            side: Side::White,
        });

        // Black: Qa8
        game.make_move(&Move {
            from_square: 62,
            to_square: 63,
            move_type: MoveType::Quiet,
            piece: Piece::Queen,
            side: Side::Black,
        });

        if i < 2 {
            let (legal_moves, in_check) = game.get_legal_moves();
            let move_result = game.get_move_result(&legal_moves, in_check);
            assert_eq!(move_result, None);
        }
    }

    let (legal_moves, in_check) = game.get_legal_moves();
    let move_result = game.get_move_result(&legal_moves, in_check);
    assert_eq!(move_result, Some(MoveResult::Draw(DrawReason::ThreeFoldRepetition)));
}
