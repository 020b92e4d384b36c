use pawndropper::board::{Board, Piece, Side};
use pawndropper::eval::eval;
use pawndropper::game::GameState;
use pawndropper::magic::MagicBitboard;
use pawndropper::move_bitboards::MoveBitboards;
use pawndropper::moves::{Move, MoveResult, MoveType};
use pawndropper::search::{SearchAsync, TableEntry, TransitionTableFlag, INFINITY, MATE};

fn empty_board(side_to_move: Side) -> Board {
    Board {
        pawns: [0, 0],
        knights: [0, 0],
        bishops: [0, 0],
        rooks: [0, 0],
        queens: [0, 0],
        king: [0, 0],
        side_to_move,
        castling_right_long: [false, false],
        castling_right_short: [false, false],
        en_passant_square: 0,
    }
}

#[test]
fn eval_of_start_position_is_zero() {
    let tables = MoveBitboards::init_legal_moves();
    let magics = MagicBitboard::init_precomputed(&tables).unwrap();
    let game = GameState::new(&tables, &magics);
    assert_eq!(eval(&game), 0);
}

#[test]
fn eval_of_single_pawn() {
    let tables = MoveBitboards::init_legal_moves();
    let magics = MagicBitboard::init_precomputed(&tables).unwrap();
    let mut board = empty_board(Side::White);
    board.pawns[0] = 1 << 11;
    let game = GameState::from_board(&tables, &magics, board);
    // No piece counts towards the middlegame, so the endgame value stands:
    // 110 for the pawn and -30 for its place.
    assert_eq!(eval(&game), 80);

    let mut board = empty_board(Side::White);
    board.pawns[1] = 1 << 51;
    let game = GameState::from_board(&tables, &magics, board);
    assert_eq!(eval(&game), -80);
}

#[test]
fn eval_blends_by_material() {
    let tables = MoveBitboards::init_legal_moves();
    let magics = MagicBitboard::init_precomputed(&tables).unwrap();
    // A white queen on square 28 with nothing in her way.
    let mut board = empty_board(Side::White);
    board.queens[0] = 1 << 28;
    let game = GameState::from_board(&tables, &magics, board);
    // Middlegame 920 + 20 + 25, endgame 890 + 20 + 10; 20 of 24 parts of
    // the material are gone, so the endgame weighs 213 of 256.
    let expected = (965 * (256 - 213) + 920 * 213) / 256;
    assert_eq!(eval(&game), expected);
}

#[test]
fn search_keeps_the_position() {
    let tables = MoveBitboards::init_legal_moves();
    let magics = MagicBitboard::init_precomputed(&tables).unwrap();
    let mut game = GameState::new(&tables, &magics);
    let board = game.board;
    let key = game.pos_hash;
    let mut searcher = SearchAsync::new();
    let (score, best, _pv) = searcher.find_best_legal_move(&mut game, 3);
    assert_eq!(game.board, board);
    assert_eq!(game.pos_hash, key);
    assert_eq!(game.half_move_number, 1);
    assert_eq!(game.move_number, 1);
    assert!(!game.threefold_repetition);
    assert!(-INFINITY <= score && score <= INFINITY);
    let (legal, _) = game.get_legal_moves();
    assert!(legal.contains(&best));
}

#[test]
fn search_finds_mate_in_one() {
    let tables = MoveBitboards::init_legal_moves();
    let magics = MagicBitboard::init_precomputed(&tables).unwrap();
    // White: king g6, queen a7. Black: king h8.
    let mut board = empty_board(Side::White);
    board.king[0] = 1 << 41;
    board.queens[0] = 1 << 55;
    board.king[1] = 1 << 56;
    let mut game = GameState::from_board(&tables, &magics, board);
    let mut searcher = SearchAsync::new();
    let (score, best, pv) = searcher.find_best_legal_move(&mut game, 2);
    assert_eq!(score, MATE - 2);
    assert_eq!(pv[0], best);
    let (result, replies) = game.make_move(&best);
    assert_eq!(result, Some(MoveResult::Checkmate));
    assert_eq!(replies.len(), 0);
}

#[test]
fn search_scores_for_white_when_black_moves() {
    let tables = MoveBitboards::init_legal_moves();
    let magics = MagicBitboard::init_precomputed(&tables).unwrap();
    // Black: king g3, queen a2. White: king h1. Black mates in one.
    let mut board = empty_board(Side::Black);
    board.king[1] = 1 << 17;
    board.queens[1] = 1 << 15;
    board.king[0] = 1 << 0;
    let mut game = GameState::from_board(&tables, &magics, board);
    let mut searcher = SearchAsync::new();
    let (score, best, _) = searcher.find_best_legal_move(&mut game, 2);
    assert_eq!(score, -(MATE - 2));
    let (result, _) = game.make_move(&best);
    assert_eq!(result, Some(MoveResult::Checkmate));
}

#[test]
fn search_without_legal_moves_returns_no_move() {
    let tables = MoveBitboards::init_legal_moves();
    let magics = MagicBitboard::init_precomputed(&tables).unwrap();
    // Black king h8, white queen g6 and king f7: Black is to move, has no
    // legal move and is not in check.
    let mut board = empty_board(Side::Black);
    board.king[1] = 1 << 56;
    board.queens[0] = 1 << 41;
    board.king[0] = 1 << 50;
    let mut game = GameState::from_board(&tables, &magics, board);
    let (legal, in_check) = game.get_legal_moves();
    assert_eq!(legal.len(), 0);
    assert!(!in_check);
    let mut searcher = SearchAsync::new();
    let (score, best, _) = searcher.find_best_legal_move(&mut game, 2);
    assert_eq!(score, 0);
    assert_eq!(best, Move::null());
}

#[test]
fn forced_reply_extends_the_search() {
    let tables = MoveBitboards::init_legal_moves();
    let magics = MagicBitboard::init_precomputed(&tables).unwrap();
    // Black king h8 in check from the rook on h1 and the bishop on a1. The
    // rook covers h7, the bishop g7: the only reply is the king's move to g8.
    let mut board = empty_board(Side::Black);
    board.king[1] = 1 << 56;
    board.rooks[0] = 1 << 0;
    board.bishops[0] = 1 << 7;
    board.king[0] = 1 << 3;
    let mut game = GameState::from_board(&tables, &magics, board);
    let (legal, in_check) = game.get_legal_moves();
    assert!(in_check);
    if legal.len() == 1 {
        let depth = 2;
        let mut searcher = SearchAsync::new();
        let (score, best, _) = searcher.find_best_legal_move(&mut game, depth);
        assert_eq!(best, legal[0]);
        game.update_board_with_move(&best);
        let (replies, reply_check) = game.get_legal_moves();
        let mut other = SearchAsync::new();
        let mut pv = Vec::new();
        let below = other.negamax(
            &mut game,
            &replies,
            depth,
            2,
            reply_check,
            -INFINITY,
            INFINITY,
            &mut pv,
        );
        // The score at the root is White's; the node below is White's move.
        assert_eq!(score, below);
    } else {
        panic!("the position was meant to have one legal reply");
    }
}

#[test]
fn killer_moves_shift_down() {
    let mut searcher = SearchAsync::new();
    let a = Move {
        from_square: 8,
        to_square: 16,
        move_type: MoveType::Quiet,
        piece: Piece::Pawn,
        side: Side::White,
    };
    let b = Move {
        from_square: 9,
        to_square: 17,
        move_type: MoveType::Quiet,
        piece: Piece::Pawn,
        side: Side::White,
    };
    searcher.store_killer(&a, 3);
    assert_eq!(searcher.killer_list[0][3], a);
    assert_eq!(searcher.killer_list[1][3], Move::null());
    searcher.store_killer(&b, 3);
    assert_eq!(searcher.killer_list[0][3], b);
    assert_eq!(searcher.killer_list[1][3], a);
    searcher.store_killer(&b, 3);
    assert_eq!(searcher.killer_list[0][3], b);
    assert_eq!(searcher.killer_list[1][3], a);
    assert_eq!(searcher.killer_list[0][4], Move::null());
    assert_eq!(a.prio(3, &searcher.killer_list), 4);
    assert_eq!(b.prio(3, &searcher.killer_list), 5);
    assert_eq!(a.prio(4, &searcher.killer_list), 0);
}

#[test]
fn captures_are_ordered_by_victim_then_attacker() {
    let searcher = SearchAsync::new();
    let capture = |piece: Piece, victim: Piece| Move {
        from_square: 10,
        to_square: 20,
        move_type: MoveType::Capture(victim),
        piece,
        side: Side::White,
    };
    let quiet = Move {
        from_square: 10,
        to_square: 21,
        move_type: MoveType::Quiet,
        piece: Piece::Knight,
        side: Side::White,
    };
    let promotion = Move {
        from_square: 50,
        to_square: 58,
        move_type: MoveType::Promotion(Piece::Queen),
        piece: Piece::Pawn,
        side: Side::White,
    };
    assert_eq!(capture(Piece::Pawn, Piece::Queen).prio(1, &searcher.killer_list), 55);
    assert_eq!(capture(Piece::Queen, Piece::Queen).prio(1, &searcher.killer_list), 51);
    assert_eq!(capture(Piece::King, Piece::Pawn).prio(1, &searcher.killer_list), 10);
    assert_eq!(capture(Piece::Pawn, Piece::Rook).prio(1, &searcher.killer_list), 45);
    assert_eq!(quiet.prio(1, &searcher.killer_list), 0);
    assert_eq!(promotion.prio(1, &searcher.killer_list), 4);
    let mut moves = vec![
        quiet,
        capture(Piece::Queen, Piece::Queen),
        promotion,
        capture(Piece::Pawn, Piece::Rook),
        capture(Piece::Pawn, Piece::Queen),
    ];
    searcher.order_moves(&mut moves, 1);
    assert_eq!(
        moves,
        vec![
            capture(Piece::Pawn, Piece::Queen),
            capture(Piece::Queen, Piece::Queen),
            capture(Piece::Pawn, Piece::Rook),
            promotion,
            quiet,
        ]
    );
}

#[test]
fn table_entries_are_used_by_flag_and_window() {
    let entry = |flag| TableEntry { score: 50, depth: 4, flag };
    assert!(entry(TransitionTableFlag::Exact).usable(3, 0, 10));
    assert!(!entry(TransitionTableFlag::Exact).usable(4, 0, 10));
    assert!(entry(TransitionTableFlag::LowerBound).usable(3, 0, 50));
    assert!(!entry(TransitionTableFlag::LowerBound).usable(3, 0, 51));
    assert!(entry(TransitionTableFlag::UpperBound).usable(3, 50, 100));
    assert!(!entry(TransitionTableFlag::UpperBound).usable(3, 49, 100));
}
