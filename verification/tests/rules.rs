use pawndropper::board::{Board, Piece, Side};
use pawndropper::game::GameState;
use pawndropper::magic::MagicBitboard;
use pawndropper::move_bitboards::MoveBitboards;
use pawndropper::moves::{DrawReason, Move, MoveResult, MoveType};
use pawndropper::search::SearchAsync;
use pawndropper::zobrist::ZobristHasher;

fn bare(side_to_move: Side) -> Board {
    Board {
        pawns: [0, 0],
        knights: [0, 0],
        bishops: [0, 0],
        rooks: [0, 0],
        queens: [0, 0],
        king: [0, 0],
        side_to_move,
        castling_right_long: [false, false],
        castling_right_short: [false, false],
        en_passant_square: 0,
    }
}

fn quiet(piece: Piece, side: Side, from_square: usize, to_square: usize) -> Move {
    Move { from_square, to_square, move_type: MoveType::Quiet, piece, side }
}

#[test]
fn start_position_has_sixteen_pawn_and_four_knight_moves() {
    let tables = MoveBitboards::init_legal_moves();
    let magics = MagicBitboard::init_precomputed(&tables).unwrap();
    let game = GameState::new(&tables, &magics);
    let (moves, in_check) = game.get_legal_moves();
    assert!(!in_check);
    assert_eq!(moves.len(), 20);
    assert_eq!(moves.iter().filter(|m| m.piece == Piece::Pawn).count(), 16);
    assert_eq!(moves.iter().filter(|m| m.piece == Piece::Knight).count(), 4);
    let single = moves
        .iter()
        .filter(|m| m.piece == Piece::Pawn && m.to_square == m.from_square + 8)
        .count();
    let double = moves
        .iter()
        .filter(|m| m.piece == Piece::Pawn && m.to_square == m.from_square + 16)
        .count();
    assert_eq!(single, 8);
    assert_eq!(double, 8);
    assert!(moves.iter().all(|m| m.move_type == MoveType::Quiet && m.side == Side::White));
}

#[test]
fn king_leaves_the_file_of_a_checking_rook() {
    let tables = MoveBitboards::init_legal_moves();
    let magics = MagicBitboard::init_precomputed(&tables).unwrap();
    let mut board = bare(Side::White);
    board.king[0] = 1 << 3;
    board.rooks[1] = 1 << 59;
    let game = GameState::from_board(&tables, &magics, board);
    let (moves, in_check) = game.get_legal_moves();
    assert!(in_check);
    let mut targets: Vec<usize> = moves.iter().map(|m| m.to_square).collect();
    targets.sort();
    assert_eq!(targets, vec![2, 4, 10, 12]);
    assert!(moves.iter().all(|m| m.piece == Piece::King && m.from_square == 3));
}

#[test]
fn king_does_not_step_back_along_a_checking_ray() {
    let tables = MoveBitboards::init_legal_moves();
    let magics = MagicBitboard::init_precomputed(&tables).unwrap();
    // White king e4, black rook e8: e3 lies behind the king on the rook's
    // file and stays attacked once the king has left e4.
    let mut board = bare(Side::White);
    board.king[0] = 1 << 27;
    board.rooks[1] = 1 << 59;
    let game = GameState::from_board(&tables, &magics, board);
    let (moves, _) = game.get_legal_moves();
    assert!(!moves.iter().any(|m| m.to_square == 19));
    assert!(!moves.iter().any(|m| m.to_square == 35));
    assert_eq!(moves.len(), 6);
}

#[test]
fn en_passant_that_uncovers_the_king_is_left_out() {
    let tables = MoveBitboards::init_legal_moves();
    let magics = MagicBitboard::init_precomputed(&tables).unwrap();
    // White king a5, white pawn b5, black pawn c5 that has just come from
    // c7, black rook h5.
    let mut board = bare(Side::White);
    board.king[0] = 1 << 39;
    board.pawns[0] = 1 << 38;
    board.pawns[1] = 1 << 37;
    board.rooks[1] = 1 << 32;
    board.en_passant_square = 45;
    let game = GameState::from_board(&tables, &magics, board);
    let (moves, in_check) = game.get_legal_moves();
    assert!(!in_check);
    assert!(!moves.iter().any(|m| matches!(m.move_type, MoveType::EnPassantCapture(_))));
    assert!(moves.contains(&quiet(Piece::Pawn, Side::White, 38, 46)));

    // Without the rook the capture is legal.
    board.rooks[1] = 0;
    let game = GameState::from_board(&tables, &magics, board);
    let (moves, _) = game.get_legal_moves();
    assert!(moves.contains(&Move {
        from_square: 38,
        to_square: 45,
        move_type: MoveType::EnPassantCapture(Piece::Pawn),
        piece: Piece::Pawn,
        side: Side::White,
    }));
}

#[test]
fn checking_pawn_may_be_taken_en_passant() {
    let tables = MoveBitboards::init_legal_moves();
    let magics = MagicBitboard::init_precomputed(&tables).unwrap();
    // White king d4 is checked by the black pawn that has just come to e5
    // from e7; the white pawn on d5 may take it en passant.
    let mut board = bare(Side::White);
    board.king[0] = 1 << 28;
    board.pawns[0] = 1 << 36;
    board.pawns[1] = 1 << 35;
    board.king[1] = 1 << 59;
    board.en_passant_square = 43;
    let game = GameState::from_board(&tables, &magics, board);
    let (moves, in_check) = game.get_legal_moves();
    assert!(in_check);
    assert!(moves.contains(&Move {
        from_square: 36,
        to_square: 43,
        move_type: MoveType::EnPassantCapture(Piece::Pawn),
        piece: Piece::Pawn,
        side: Side::White,
    }));
}

#[test]
fn castling_needs_an_empty_path() {
    let tables = MoveBitboards::init_legal_moves();
    let magics = MagicBitboard::init_precomputed(&tables).unwrap();
    let mut board = bare(Side::White);
    board.king[0] = 1 << 3;
    board.rooks[0] = (1 << 0) | (1 << 7);
    board.king[1] = 1 << 59;
    board.castling_right_long = [true, false];
    board.castling_right_short = [true, false];
    let castles = |board: Board| {
        let game = GameState::from_board(&tables, &magics, board);
        let (moves, _) = game.get_legal_moves();
        (
            moves.iter().any(|m| m.move_type == MoveType::CastleShort),
            moves.iter().any(|m| m.move_type == MoveType::CastleLong),
        )
    };
    assert_eq!(castles(board), (true, true));
    // A piece of the other side between king and rook.
    let mut blocked = board;
    blocked.knights[1] = 1 << 1;
    assert_eq!(castles(blocked), (false, true));
    // The square next to the rook may be attacked, but not occupied.
    let mut attacked = board;
    attacked.rooks[1] = 1 << 62;
    assert_eq!(castles(attacked), (true, true));
    let mut occupied = board;
    occupied.knights[0] = 1 << 6;
    assert_eq!(castles(occupied), (true, false));
    // The king may not cross an attacked square.
    let mut crossed = board;
    crossed.rooks[1] = 1 << 60;
    assert_eq!(castles(crossed), (true, false));
    // No castling out of check.
    let mut checked = board;
    checked.rooks[1] = 1 << 59 - 8;
    assert_eq!(castles(checked), (false, false));
    // No castling without the right.
    let mut no_right = board;
    no_right.castling_right_short = [false, false];
    assert_eq!(castles(no_right), (false, true));
}

#[test]
fn castling_moves_king_and_rook_and_comes_back() {
    let tables = MoveBitboards::init_legal_moves();
    let magics = MagicBitboard::init_precomputed(&tables).unwrap();
    let mut board = bare(Side::Black);
    board.king[1] = 1 << 59;
    board.rooks[1] = (1 << 56) | (1 << 63);
    board.king[0] = 1 << 3;
    board.castling_right_long = [false, true];
    board.castling_right_short = [false, true];
    let mut game = GameState::from_board(&tables, &magics, board);
    let saved = game.save();
    let key = game.pos_hash;
    let short = Move {
        from_square: 0,
        to_square: 0,
        move_type: MoveType::CastleShort,
        piece: Piece::King,
        side: Side::Black,
    };
    game.update_board_with_move(&short);
    assert_eq!(game.board.king[1], 1 << 57);
    assert_eq!(game.board.rooks[1], (1 << 58) | (1 << 63));
    assert_eq!(game.board.castling_right_long, [false, false]);
    assert_eq!(game.board.castling_right_short, [false, false]);
    assert_eq!(game.board.side_to_move, Side::White);
    game.undo(&short, &saved);
    assert_eq!(game.board, board);
    assert_eq!(game.pos_hash, key);

    let long = Move { move_type: MoveType::CastleLong, ..short };
    game.update_board_with_move(&long);
    assert_eq!(game.board.king[1], 1 << 61);
    assert_eq!(game.board.rooks[1], (1 << 56) | (1 << 60));
    game.undo(&long, &saved);
    assert_eq!(game.board, board);
}

#[test]
fn castling_rights_end_with_rook_moves_and_rook_captures() {
    let tables = MoveBitboards::init_legal_moves();
    let magics = MagicBitboard::init_precomputed(&tables).unwrap();
    let mut board = bare(Side::White);
    board.king = [1 << 3, 1 << 59];
    board.rooks = [(1 << 0) | (1 << 7), (1 << 56) | (1 << 63)];
    board.castling_right_long = [true, true];
    board.castling_right_short = [true, true];
    let mut game = GameState::from_board(&tables, &magics, board);
    // The rook from h1 takes the rook on h8.
    game.update_board_with_move(&Move {
        from_square: 0,
        to_square: 56,
        move_type: MoveType::Capture(Piece::Rook),
        piece: Piece::Rook,
        side: Side::White,
    });
    assert_eq!(game.board.castling_right_short, [false, false]);
    assert_eq!(game.board.castling_right_long, [true, true]);
    // The rook from a8 moves.
    game.update_board_with_move(&quiet(Piece::Rook, Side::Black, 63, 62));
    assert_eq!(game.board.castling_right_long, [true, false]);
    // The white king moves.
    game.update_board_with_move(&quiet(Piece::King, Side::White, 3, 4));
    assert_eq!(game.board.castling_right_long, [false, false]);
}

#[test]
fn make_and_undo_restore_everything() {
    let tables = MoveBitboards::init_legal_moves();
    let magics = MagicBitboard::init_precomputed(&tables).unwrap();
    let mut game = GameState::new(&tables, &magics);
    // Reach a position with an en-passant square set.
    game.make_move(&quiet(Piece::Pawn, Side::White, 11, 27));
    game.make_move(&quiet(Piece::Pawn, Side::Black, 48, 40));
    game.make_move(&quiet(Piece::Pawn, Side::White, 27, 35));
    let (_, moves) = game.make_move(&quiet(Piece::Pawn, Side::Black, 52, 36));
    assert_eq!(game.board.en_passant_square, 44);
    let board = game.board;
    let key = game.pos_hash;
    let counter = game.position_occurance_counter.clone();
    let (half, full, last) =
        (game.half_move_number, game.move_number, game.half_move_of_last_capture);
    let saved = game.save();
    assert!(moves.iter().any(|m| matches!(m.move_type, MoveType::EnPassantCapture(_))));
    for m in &moves {
        game.update_board_with_move(m);
        assert_ne!(game.board, board);
        assert_eq!(game.half_move_number, half + 1);
        assert_eq!(game.position_occurance_counter[&game.pos_hash], 1);
        game.undo(m, &saved);
        assert_eq!(game.board, board);
        assert_eq!(game.pos_hash, key);
        assert_eq!(game.position_occurance_counter, counter);
        assert_eq!(game.half_move_number, half);
        assert_eq!(game.move_number, full);
        assert_eq!(game.half_move_of_last_capture, last);
        assert!(!game.threefold_repetition);
    }
}

#[test]
fn undo_brings_back_the_en_passant_square() {
    let tables = MoveBitboards::init_legal_moves();
    let magics = MagicBitboard::init_precomputed(&tables).unwrap();
    let mut game = GameState::new(&tables, &magics);
    game.make_move(&quiet(Piece::Pawn, Side::White, 11, 27));
    assert_eq!(game.board.en_passant_square, 19);
    let board = game.board;
    let key = game.pos_hash;
    let counter = game.position_occurance_counter.clone();
    let long = game.board.castling_right_long;
    let short = game.board.castling_right_short;
    let last = game.half_move_of_last_capture;
    // A knight move clears the square; taking it back sets it again.
    let knight = quiet(Piece::Knight, Side::Black, 62, 45);
    game.update_board_with_move(&knight);
    assert_eq!(game.board.en_passant_square, 0);
    assert_ne!(game.pos_hash, key);
    game.update_board_undo_move(&knight, &long, &short, last, 19);
    assert_eq!(game.board.en_passant_square, 19);
    assert_eq!(game.board, board);
    assert_eq!(game.pos_hash, key);
    assert_eq!(game.pos_hash, game.zobrist_hasher.hash(&board));
    assert_eq!(game.position_occurance_counter, counter);
    assert_eq!((game.half_move_number, game.move_number), (2, 1));

    // The board alone does the same.
    let mut plain = board;
    plain.make_move(&knight);
    assert_eq!(plain.en_passant_square, 0);
    plain.side_to_move = Side::White;
    plain.undo_move(&knight, &long, &short, 19);
    assert_eq!(plain, board);
}

#[test]
fn counters_follow_the_moves() {
    let tables = MoveBitboards::init_legal_moves();
    let magics = MagicBitboard::init_precomputed(&tables).unwrap();
    let mut game = GameState::new(&tables, &magics);
    assert_eq!((game.half_move_number, game.move_number), (1, 1));
    game.make_move(&quiet(Piece::Pawn, Side::White, 11, 27));
    assert_eq!((game.half_move_number, game.move_number), (2, 1));
    assert_eq!(game.board.side_to_move, Side::Black);
    assert_eq!(game.board.en_passant_square, 19);
    game.make_move(&quiet(Piece::Pawn, Side::Black, 52, 36));
    assert_eq!((game.half_move_number, game.move_number), (3, 2));
    assert_eq!(game.board.en_passant_square, 44);
    assert_eq!(game.half_move_of_last_capture, 0);
    game.make_move(&Move {
        from_square: 27,
        to_square: 36,
        move_type: MoveType::Capture(Piece::Pawn),
        piece: Piece::Pawn,
        side: Side::White,
    });
    assert_eq!(game.half_move_of_last_capture, 4);
    assert_eq!(game.board.en_passant_square, 0);
    assert_eq!(game.board.pawns[1] & (1 << 36), 0);
    assert_ne!(game.board.pawns[0] & (1 << 36), 0);
}

#[test]
fn key_does_not_depend_on_the_way() {
    let tables = MoveBitboards::init_legal_moves();
    let magics = MagicBitboard::init_precomputed(&tables).unwrap();
    let mut game = GameState::new(&tables, &magics);
    let first = [
        quiet(Piece::Knight, Side::White, 1, 18),
        quiet(Piece::Knight, Side::Black, 62, 45),
        quiet(Piece::Knight, Side::White, 6, 21),
        quiet(Piece::Knight, Side::Black, 57, 42),
    ];
    let second = [first[2], first[3], first[0], first[1]];
    let mut saved = Vec::new();
    for m in &first {
        saved.push(game.save());
        game.update_board_with_move(m);
    }
    let key = game.pos_hash;
    let board = game.board;
    for m in first.iter().rev() {
        game.undo(m, &saved.pop().unwrap());
    }
    for m in &second {
        game.update_board_with_move(m);
    }
    assert_eq!(game.board, board);
    assert_eq!(game.pos_hash, key);
    assert_eq!(game.pos_hash, game.zobrist_hasher.hash(&game.board));
}

#[test]
fn key_tells_side_castling_and_en_passant_apart() {
    let hasher = ZobristHasher::new();
    let board = Board::default();
    let key = hasher.hash(&board);
    assert_eq!(key, hasher.hash(&board.clone()));
    let mut other = board;
    other.side_to_move = Side::Black;
    assert_eq!(hasher.hash(&other), key ^ hasher.black_to_move_rand);
    let mut other = board;
    other.castling_right_long = [false, true];
    assert_eq!(
        hasher.hash(&other),
        key ^ hasher.castling_rands[15] ^ hasher.castling_rands[14]
    );
    let mut other = board;
    other.en_passant_square = 19;
    assert_eq!(hasher.hash(&other), key ^ hasher.ep_file_rands[3]);
    let mut other = board;
    other.pawns[0] ^= (1 << 11) | (1 << 27);
    assert_eq!(hasher.hash(&other), key ^ hasher.rands[11] ^ hasher.rands[27]);
    let mut other = board;
    other.queens[1] = 0;
    assert_eq!(hasher.hash(&other), key ^ hasher.rands[(6 + 4) * 64 + 60]);
}

#[test]
fn third_occurrence_is_a_draw_and_only_the_third() {
    let tables = MoveBitboards::init_legal_moves();
    let magics = MagicBitboard::init_precomputed(&tables).unwrap();
    let mut game = GameState::new(&tables, &magics);
    let round = [
        quiet(Piece::Knight, Side::White, 1, 18),
        quiet(Piece::Knight, Side::Black, 62, 45),
        quiet(Piece::Knight, Side::White, 18, 1),
        quiet(Piece::Knight, Side::Black, 45, 62),
    ];
    let start_key = game.pos_hash;
    let mut results = Vec::new();
    for _ in 0..3 {
        for m in &round {
            let (result, _) = game.make_move(m);
            results.push(result);
        }
    }
    assert_eq!(results.len(), 12);
    // The position after White's first move comes up for the third time
    // with the ninth half move; the flag stays set from then on.
    for result in &results[..8] {
        assert_eq!(*result, None);
    }
    for result in &results[8..] {
        assert_eq!(*result, Some(MoveResult::Draw(DrawReason::ThreeFoldRepetition)));
    }
    assert_eq!(game.pos_hash, start_key);
    assert_eq!(game.position_occurance_counter[&start_key], 3);
    let (moves, in_check) = game.get_legal_moves();
    assert_eq!(
        game.get_move_result(&moves, in_check),
        Some(MoveResult::Draw(DrawReason::ThreeFoldRepetition))
    );
}

#[test]
fn results_of_moves() {
    let tables = MoveBitboards::init_legal_moves();
    let magics = MagicBitboard::init_precomputed(&tables).unwrap();
    let mut game = GameState::new(&tables, &magics);
    let some = vec![quiet(Piece::Pawn, Side::White, 11, 27)];
    let none: Vec<Move> = Vec::new();
    assert_eq!(game.get_move_result(&some, false), None);
    assert_eq!(game.get_move_result(&some, true), Some(MoveResult::Check));
    assert_eq!(game.get_move_result(&none, true), Some(MoveResult::Checkmate));
    assert_eq!(
        game.get_move_result(&none, false),
        Some(MoveResult::Draw(DrawReason::Stalemate))
    );
    game.half_move_number = 101;
    game.half_move_of_last_capture = 1;
    assert_eq!(
        game.get_move_result(&some, false),
        Some(MoveResult::Draw(DrawReason::FiftyMoveRule))
    );
    assert_eq!(game.get_move_result(&none, true), Some(MoveResult::Checkmate));
    game.half_move_of_last_capture = 3;
    assert_eq!(game.get_move_result(&some, false), None);
    // More than fifty moves are a draw as well.
    game.half_move_number = 203;
    assert_eq!(
        game.get_move_result(&some, false),
        Some(MoveResult::Draw(DrawReason::FiftyMoveRule))
    );
    assert_eq!(
        game.get_move_result(&some, true),
        Some(MoveResult::Draw(DrawReason::FiftyMoveRule))
    );
    game.half_move_number = 101;
    game.threefold_repetition = true;
    assert_eq!(
        game.get_move_result(&some, true),
        Some(MoveResult::Draw(DrawReason::ThreeFoldRepetition))
    );
}

fn flip(bb: u64) -> u64 {
    bb.swap_bytes()
}

fn mirrored(board: &Board) -> Board {
    let swap = |pair: [u64; 2]| [flip(pair[1]), flip(pair[0])];
    Board {
        pawns: swap(board.pawns),
        knights: swap(board.knights),
        bishops: swap(board.bishops),
        rooks: swap(board.rooks),
        queens: swap(board.queens),
        king: swap(board.king),
        side_to_move: board.side_to_move.opposite(),
        castling_right_long: [board.castling_right_long[1], board.castling_right_long[0]],
        castling_right_short: [board.castling_right_short[1], board.castling_right_short[0]],
        en_passant_square: if board.en_passant_square == 0 {
            0
        } else {
            board.en_passant_square ^ 56
        },
    }
}

#[test]
fn search_scores_the_mirrored_position_with_the_other_sign() {
    let tables = MoveBitboards::init_legal_moves();
    let magics = MagicBitboard::init_precomputed(&tables).unwrap();
    let mut boards = vec![Board::default()];
    let mut game = GameState::new(&tables, &magics);
    game.make_move(&quiet(Piece::Pawn, Side::White, 11, 27));
    boards.push(game.board);
    game.make_move(&quiet(Piece::Knight, Side::Black, 57, 42));
    boards.push(game.board);
    for board in &boards {
        for depth in 1..3 {
            let mut here = GameState::from_board(&tables, &magics, *board);
            let mut there = GameState::from_board(&tables, &magics, mirrored(board));
            let (score, _, _) = SearchAsync::new().find_best_legal_move(&mut here, depth);
            let (other, _, _) = SearchAsync::new().find_best_legal_move(&mut there, depth);
            assert_eq!(score, -other);
        }
    }
}
