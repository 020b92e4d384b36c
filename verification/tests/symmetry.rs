use pawndropper::board::{Board, Piece, Side};
use pawndropper::eval::eval;
use pawndropper::game::GameState;
use pawndropper::magic::MagicBitboard;
use pawndropper::move_bitboards::MoveBitboards;
use pawndropper::moves::{Move, MoveType};
use pawndropper::search::SearchAsync;

fn board_of(fen: &str) -> Board {
    let fields: Vec<&str> = fen.split(' ').collect();
    let mut board = Board {
        pawns: [0, 0],
        knights: [0, 0],
        bishops: [0, 0],
        rooks: [0, 0],
        queens: [0, 0],
        king: [0, 0],
        side_to_move: if fields[1] == "w" { Side::White } else { Side::Black },
        castling_right_long: [fields[2].contains('Q'), fields[2].contains('q')],
        castling_right_short: [fields[2].contains('K'), fields[2].contains('k')],
        en_passant_square: 0,
    };
    let mut rank = 7usize;
    let mut file = 0usize;
    for c in fields[0].chars() {
        if c == '/' {
            rank -= 1;
            file = 0;
        } else if let Some(skip) = c.to_digit(10) {
            file += skip as usize;
        } else {
            let side = if c.is_ascii_uppercase() { 0 } else { 1 };
            let bit = 1u64 << (8 * rank + (7 - file));
            match c.to_ascii_lowercase() {
                'p' => board.pawns[side] |= bit,
                'n' => board.knights[side] |= bit,
                'b' => board.bishops[side] |= bit,
                'r' => board.rooks[side] |= bit,
                'q' => board.queens[side] |= bit,
                _ => board.king[side] |= bit,
            }
            file += 1;
        }
    }
    board
}

fn upside_down(bb: u64) -> u64 {
    bb.swap_bytes()
}

fn mirror_image(board: &Board) -> Board {
    let swap = |pair: [u64; 2]| [upside_down(pair[1]), upside_down(pair[0])];
    Board {
        pawns: swap(board.pawns),
        knights: swap(board.knights),
        bishops: swap(board.bishops),
        rooks: swap(board.rooks),
        queens: swap(board.queens),
        king: swap(board.king),
        side_to_move: board.side_to_move.opposite(),
        castling_right_long: [board.castling_right_long[1], board.castling_right_long[0]],
        castling_right_short: [board.castling_right_short[1], board.castling_right_short[0]],
        en_passant_square: if board.en_passant_square == 0 {
            0
        } else {
            board.en_passant_square ^ 56
        },
    }
}

#[test]
fn mirrored_positions_score_with_the_other_sign() {
    let tables = MoveBitboards::init_legal_moves();
    let magics = MagicBitboard::init_precomputed(&tables).unwrap();
    let fens = [
        "r3k2r/p1ppqpb1/bn2pnp1/3PN3/1p2P3/2N2Q1p/PPPBBPPP/R3K2R w KQkq -",
        "8/2p5/3p4/KP5r/1R3p1k/8/4P1P1/8 w - -",
        "r3k2r/Pppp1ppp/1b3nbN/nP6/BBP1P3/q4N2/Pp1P2PP/R2Q1RK1 w kq -",
        "rnbq1k1r/pp1Pbppp/2p5/8/2B5/8/PPP1NnPP/RNBQK2R w KQ -",
        "r4rk1/1pp1qppp/p1np1n2/2b1p1B1/2B1P1b1/P1NP1N2/1PP1QPPP/R4RK1 w - -",
        "rnbqkbnr/pppppppp/8/8/8/8/PPPPPPPP/RNBQKBNR w KQkq -",
    ];
    for fen in fens {
        let board = board_of(fen);
        for depth in 1..4 {
            let mut here = GameState::from_board(&tables, &magics, board);
            let mut there = GameState::from_board(&tables, &magics, mirror_image(&board));
            let (score, _, _) = SearchAsync::new().find_best_legal_move(&mut here, depth);
            let (other, _, _) = SearchAsync::new().find_best_legal_move(&mut there, depth);
            assert_eq!(score, -other);
        }
    }
}

#[test]
fn mirrored_positions_are_worth_the_same_to_the_other_side() {
    let tables = MoveBitboards::init_legal_moves();
    let magics = MagicBitboard::init_precomputed(&tables).unwrap();
    let fens = [
        "r3k2r/p1ppqpb1/bn2pnp1/3PN3/1p2P3/2N2Q1p/PPPBBPPP/R3K2R w KQkq -",
        "8/2p5/3p4/KP5r/1R3p1k/8/4P1P1/8 w - -",
        "r3k2r/Pppp1ppp/1b3nbN/nP6/BBP1P3/q4N2/Pp1P2PP/R2Q1RK1 w kq -",
        "rnbq1k1r/pp1Pbppp/2p5/8/2B5/8/PPP1NnPP/RNBQK2R w KQ -",
    ];
    let mut some_not_level = false;
    for fen in fens {
        let board = board_of(fen);
        let here = GameState::from_board(&tables, &magics, board);
        let there = GameState::from_board(&tables, &magics, mirror_image(&board));
        assert_eq!(eval(&here), -eval(&there));
        some_not_level = some_not_level || eval(&here) != 0;
    }
    assert!(some_not_level);
}

#[test]
fn quiet_positions_score_as_they_are_worth() {
    let tables = MoveBitboards::init_legal_moves();
    let magics = MagicBitboard::init_precomputed(&tables).unwrap();
    let fens = [
        "rnbqkbnr/pppppppp/8/8/8/8/PPPPPPPP/RNBQKBNR w KQkq -",
        "4k3/8/8/8/8/8/4P3/4K3 w - -",
        "4k3/2n5/8/8/8/8/4P3/R3K3 b - -",
    ];
    let mut some_not_level = false;
    for fen in fens {
        let board = board_of(fen);
        let mut here = GameState::from_board(&tables, &magics, board);
        let mut there = GameState::from_board(&tables, &magics, mirror_image(&board));
        for game in [&here, &there] {
            let (moves, in_check) = game.get_legal_moves();
            assert!(!in_check && moves.len() > 1);
            assert!(moves.iter().all(|m| !m.is_capture() && !m.is_promotion()));
        }
        let worth = eval(&here);
        let (score, _, _) = SearchAsync::new().find_best_legal_move(&mut here, 0);
        let (other, _, _) = SearchAsync::new().find_best_legal_move(&mut there, 0);
        assert_eq!(score, worth);
        assert_eq!(other, -worth);
        some_not_level = some_not_level || worth != 0;
    }
    assert!(some_not_level);
}

fn mirrored_move(m: &Move) -> Move {
    let castles = matches!(m.move_type, MoveType::CastleShort | MoveType::CastleLong);
    Move {
        from_square: if castles { m.from_square } else { m.from_square ^ 56 },
        to_square: if castles { m.to_square } else { m.to_square ^ 56 },
        move_type: m.move_type,
        piece: m.piece,
        side: m.side.opposite(),
    }
}

#[test]
fn mirrored_positions_have_the_mirrored_moves() {
    let tables = MoveBitboards::init_legal_moves();
    let magics = MagicBitboard::init_precomputed(&tables).unwrap();
    let fens = [
        "r3k2r/p1ppqpb1/bn2pnp1/3PN3/1p2P3/2N2Q1p/PPPBBPPP/R3K2R w KQkq -",
        "8/2p5/3p4/KP5r/1R3p1k/8/4P1P1/8 w - -",
        "r3k2r/Pppp1ppp/1b3nbN/nP6/BBP1P3/q4N2/Pp1P2PP/R2Q1RK1 w kq -",
        "rnbq1k1r/pp1Pbppp/2p5/8/2B5/8/PPP1NnPP/RNBQK2R w KQ -",
        "rnbqkbnr/pppppppp/8/8/8/8/PPPPPPPP/RNBQKBNR b KQkq -",
        "4k3/8/8/8/8/8/4r3/4K3 w - -",
    ];
    let mut castled = false;
    for fen in fens {
        let board = board_of(fen);
        let here = GameState::from_board(&tables, &magics, board);
        let there = GameState::from_board(&tables, &magics, mirror_image(&board));
        let (moves, in_check) = here.get_legal_moves();
        let (others, other_in_check) = there.get_legal_moves();
        assert_eq!(in_check, other_in_check);
        assert_eq!(moves.len(), others.len());
        for m in &moves {
            assert!(others.contains(&mirrored_move(m)));
            castled = castled || matches!(m.move_type, MoveType::CastleShort);
        }
        for m in &others {
            assert!(moves.contains(&mirrored_move(m)));
        }
    }
    assert!(castled);
}

#[test]
fn mirrored_en_passant_is_legal_too() {
    let tables = MoveBitboards::init_legal_moves();
    let magics = MagicBitboard::init_precomputed(&tables).unwrap();
    // White has just played d2-d4 beside the black pawn on e4.
    let mut board = board_of("4k3/8/8/8/3Pp3/8/8/4K3 b - -");
    board.en_passant_square = 20;
    let here = GameState::from_board(&tables, &magics, board);
    let there = GameState::from_board(&tables, &magics, mirror_image(&board));
    assert_eq!(there.board.en_passant_square, 44);
    let (moves, _) = here.get_legal_moves();
    let (others, _) = there.get_legal_moves();
    let takes = Move {
        from_square: 27,
        to_square: 20,
        move_type: MoveType::EnPassantCapture(Piece::Pawn),
        piece: Piece::Pawn,
        side: Side::Black,
    };
    assert!(moves.contains(&takes));
    assert!(others.contains(&mirrored_move(&takes)));
    assert_eq!(moves.len(), others.len());
}

#[test]
fn ended_games_score_with_the_other_sign() {
    let tables = MoveBitboards::init_legal_moves();
    let magics = MagicBitboard::init_precomputed(&tables).unwrap();
    // A mate on the back rank and a stalemate in the corner.
    let cases = [("R6k/6pp/8/8/8/8/8/K7 b - -", 199_999), ("7k/5Q2/6K1/8/8/8/8/8 b - -", 0)];
    for (fen, expected) in cases {
        let board = board_of(fen);
        for depth in 0..4 {
            let mut here = GameState::from_board(&tables, &magics, board);
            let mut there = GameState::from_board(&tables, &magics, mirror_image(&board));
            assert!(here.get_legal_moves().0.is_empty());
            assert!(there.get_legal_moves().0.is_empty());
            let (score, _, _) = SearchAsync::new().find_best_legal_move(&mut here, depth);
            let (other, _, _) = SearchAsync::new().find_best_legal_move(&mut there, depth);
            assert_eq!(score, expected);
            assert_eq!(other, -expected);
        }
    }
}
