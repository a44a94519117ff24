use chessai::chess_engine::gen_moves::Move;
use chessai::chess_engine::zobrist::Zobrist;
use chessai::chess_engine::ChessState;
use std::sync::Arc;

fn find_move(moves: &[Move], m: &str) -> Option<Move> {
    moves.iter().find(|mv| mv.to_string() == m).cloned()
}

#[test]
fn unmake_move_e2e_test4() {
    let z = Arc::new(Zobrist::init());
    let mut state = ChessState::from_fen("rnbqkbnr/pppppppp/8/8/8/8/PPPPPPPP/RNBQKBNR w KQkq - 0 1", &z).unwrap();
    let moves = state.gen_moves();
    state.make_move(&find_move(&moves, "e2e4").unwrap());

    assert_eq!(
        state.hash,
        ChessState::from_fen("rnbqkbnr/pppppppp/8/8/4P3/8/PPPP1PPP/RNBQKBNR b KQkq - 0 1", &z).unwrap().hash
    );

    state.unmake_last_move();
    assert_eq!(
        state.hash,
        ChessState::from_fen("rnbqkbnr/pppppppp/8/8/8/8/PPPPPPPP/RNBQKBNR w KQkq - 0 1", &z).unwrap().hash
    );
}

#[test]
fn unmake_move_castle_test() {
    let z = Arc::new(Zobrist::init());
    let mut state = ChessState::from_fen("r3k2r/pppppppp/8/8/8/8/PPPPPPPP/R3K2R w KQkq - 0 1", &z).unwrap();
    let moves = state.gen_moves();
    state.make_move(&find_move(&moves, "e1c1").unwrap());

    assert_eq!(
        state.hash,
        ChessState::from_fen("r3k2r/pppppppp/8/8/8/8/PPPPPPPP/2KR3R b kq - 1 1", &z).unwrap().hash
    );

    state.unmake_last_move();
    assert_eq!(
        state.hash,
        ChessState::from_fen("r3k2r/pppppppp/8/8/8/8/PPPPPPPP/R3K2R w KQkq - 0 1", &z).unwrap().hash
    );

    let mut state = ChessState::from_fen("r3k2r/pppppppp/8/8/8/8/PPPPPPPP/R3K2R w KQkq - 0 1", &z).unwrap();
    let moves = state.gen_moves();
    state.make_move(&find_move(&moves, "e1g1").unwrap());

    assert_eq!(
        state.hash,
        ChessState::from_fen("r3k2r/pppppppp/8/8/8/8/PPPPPPPP/R4RK1 b kq - 1 1", &z).unwrap().hash
    );

    state.unmake_last_move();
    assert_eq!(
        state.hash,
        ChessState::from_fen("r3k2r/pppppppp/8/8/8/8/PPPPPPPP/R3K2R w KQkq - 0 1", &z).unwrap().hash
    );

    let mut state = ChessState::from_fen("r3k2r/pppppppp/8/8/8/8/PPPPPPPP/R3K2R b KQkq - 0 1", &z).unwrap();
    let moves = state.gen_moves();
    state.make_move(&find_move(&moves, "e8c8").unwrap());

    assert_eq!(
        state.hash,
        ChessState::from_fen("2kr3r/pppppppp/8/8/8/8/PPPPPPPP/R3K2R w KQ - 1 2", &z).unwrap().hash
    );

    state.unmake_last_move();
    assert_eq!(
        state.hash,
        ChessState::from_fen("r3k2r/pppppppp/8/8/8/8/PPPPPPPP/R3K2R b KQkq - 0 1", &z).unwrap().hash
    );

    let mut state = ChessState::from_fen("r3k2r/pppppppp/8/8/8/8/PPPPPPPP/R3K2R b KQkq - 0 1", &z).unwrap();
    let moves = state.gen_moves();
    state.make_move(&find_move(&moves, "e8g8").unwrap());

    assert_eq!(
        state.hash,
        ChessState::from_fen("r4rk1/pppppppp/8/8/8/8/PPPPPPPP/R3K2R w KQ - 1 2", &z).unwrap().hash
    );

    state.unmake_last_move();
    assert_eq!(
        state.hash,
        ChessState::from_fen("r3k2r/pppppppp/8/8/8/8/PPPPPPPP/R3K2R b KQkq - 0 1", &z).unwrap().hash
    );
}

#[test]
fn unmake_move_enpassant_test() {
    let z = Arc::new(Zobrist::init());
    let mut state = ChessState::from_fen("r3k2r/pppp1ppp/8/8/4p3/8/PPPPPPPP/R3K2R w KQkq - 0 3", &z).unwrap();
    let moves = state.gen_moves();
    state.make_move(&find_move(&moves, "d2d4").unwrap());

    assert_eq!(
        state.hash,
        ChessState::from_fen("r3k2r/pppp1ppp/8/8/3Pp3/8/PPP1PPPP/R3K2R b KQkq d3 0 3", &z).unwrap().hash
    );

    state.unmake_last_move();
    assert_eq!(
        state.hash,
        ChessState::from_fen("r3k2r/pppp1ppp/8/8/4p3/8/PPPPPPPP/R3K2R w KQkq - 0 3", &z).unwrap().hash
    );

    let mut state = ChessState::from_fen("r3k2r/pppp1ppp/8/8/3Pp3/8/PPP1PPPP/R3K2R b KQkq d3 0 3", &z).unwrap();
    let moves = state.gen_moves();
    state.make_move(&find_move(&moves, "e4d3").unwrap());

    assert_eq!(
        state.hash,
        ChessState::from_fen("r3k2r/pppp1ppp/8/8/8/3p4/PPP1PPPP/R3K2R w KQkq - 0 4", &z).unwrap().hash
    );

    state.unmake_last_move();
    assert_eq!(
        state.hash,
        ChessState::from_fen("r3k2r/pppp1ppp/8/8/3Pp3/8/PPP1PPPP/R3K2R b KQkq d3 0 3", &z).unwrap().hash
    );

    let mut state = ChessState::from_fen("r3k2r/pppp1ppp/8/8/3Pp3/8/PPP1PPPP/R3K2R b KQkq d3 0 3", &z).unwrap();
    let moves = state.gen_moves();
    state.make_move(&find_move(&moves, "d7d6").unwrap());

    assert_eq!(
        state.hash,
        ChessState::from_fen("r3k2r/ppp2ppp/3p4/8/3Pp3/8/PPP1PPPP/R3K2R w KQkq - 0 4", &z).unwrap().hash
    );

    state.unmake_last_move();
    assert_eq!(
        state.hash,
        ChessState::from_fen("r3k2r/pppp1ppp/8/8/3Pp3/8/PPP1PPPP/R3K2R b KQkq d3 0 3", &z).unwrap().hash
    );
}

#[test]
fn unmake_move_test() {
    let z = Arc::new(Zobrist::init());
    let mut state = ChessState::from_fen("r3k2r/pppp1ppp/8/4p3/8/8/PPPPPPPP/R3K2R b KQkq - 0 2", &z).unwrap();
    let moves = state.gen_moves();
    state.make_move(&find_move(&moves, "e5e4").unwrap());
    let moves = state.gen_moves();
    state.make_move(&find_move(&moves, "d2d4").unwrap());
    let moves = state.gen_moves();
    state.make_move(&find_move(&moves, "e4d3").unwrap());
    let moves = state.gen_moves();
    state.make_move(&find_move(&moves, "c2d3").unwrap());
    assert_eq!(
        state.hash,
        ChessState::from_fen("r3k2r/pppp1ppp/8/8/8/3P4/PP2PPPP/R3K2R b KQkq - 0 4", &z).unwrap().hash
    );

    state.unmake_last_move();
    state.unmake_last_move();
    state.unmake_last_move();
    state.unmake_last_move();
    assert_eq!(
        state.hash,
        ChessState::from_fen("r3k2r/pppp1ppp/8/4p3/8/8/PPPPPPPP/R3K2R b KQkq - 0 2", &z).unwrap().hash
    );

    let moves = state.gen_moves();
    state.make_move(&find_move(&moves, "e8e7").unwrap());
    assert_eq!(
        state.hash,
        ChessState::from_fen("r6r/ppppkppp/8/4p3/8/8/PPPPPPPP/R3K2R w KQ - 1 3", &z).unwrap().hash
    );
    let moves = state.gen_moves();
    state.make_move(&find_move(&moves, "e2e4").unwrap());
    let moves = state.gen_moves();
    state.make_move(&find_move(&moves, "e7e6").unwrap());
    let moves = state.gen_moves();
    state.make_move(&find_move(&moves, "e1e2").unwrap());
    assert_eq!(
        state.hash,
        ChessState::from_fen("r6r/pppp1ppp/4k3/4p3/4P3/8/PPPPKPPP/R6R b - - 2 4", &z).unwrap().hash
    );
}

#[test]
fn draw_by_repetition_test() {
    let z = Arc::new(Zobrist::init());
    let mut state = ChessState::from_fen("rnbqkbnr/pppppppp/8/8/8/8/PPPPPPPP/RNBQKBNR w KQkq - 0 1", &z).unwrap();
    let mv = state.get_move("b1c3").unwrap();
    state.make_move(&mv);
    let mv = state.get_move("b8c6").unwrap();
    state.make_move(&mv);
    assert!(!state.is_draw_by_repetition);
    let mv = state.get_move("c3b1").unwrap();
    state.make_move(&mv);
    let mv = state.get_move("c6b8").unwrap();
    state.make_move(&mv);
    assert!(state.is_draw_by_repetition);
}
