use chessai::chess_engine::gen_moves::Move;
use chessai::chess_engine::search::{
    advance, best_of, child_type, child_window, entry_for, entry_type_of, keep, needs_research, no_move_score,
    order_moves, probe, sort_by_score, stand_pat_step, turn_mult, NodeType, Search, StandPat, CHECKMATE_EVAL,
    MAX_DEPTH, MAX_SEARCH_NANOS,
};
use chessai::chess_engine::transposition_table::{TranspositionEntry, TranspositionEntryType, TranspositionTable};
use chessai::chess_engine::zobrist::Zobrist;
use chessai::chess_engine::{ChessState, PieceColor, PieceType};
use std::sync::Arc;
use std::time::Duration;

fn entry(entry_type: TranspositionEntryType, depth: i32, score: i32) -> TranspositionEntry {
    TranspositionEntry {
        key: 1,
        entry_type,
        depth,
        score,
        best_move: Some(Move { piece_type: PieceType::Pawn, from: 12, to: 28, ..Move::default() }),
    }
}

#[test]
fn a_probe_without_entry_changes_nothing() {
    let p = probe(None, 3, -50, 70);
    assert_eq!((p.cutoff, p.alpha, p.beta, p.best_move), (None, -50, 70, None));
}

#[test]
fn a_probe_uses_an_entry_that_is_deep_enough() {
    let best = entry(TranspositionEntryType::Exact, 0, 0).best_move;
    let p = probe(Some(entry(TranspositionEntryType::Exact, 3, 20)), 3, -50, 70);
    assert_eq!((p.cutoff, p.alpha, p.beta, p.best_move), (Some(20), -50, 70, best));
    let p = probe(Some(entry(TranspositionEntryType::Exact, 5, 200)), 3, -50, 70);
    assert_eq!(p.cutoff, Some(200));
    let p = probe(Some(entry(TranspositionEntryType::LowerBound, 3, 20)), 3, -50, 70);
    assert_eq!((p.cutoff, p.alpha, p.beta, p.best_move), (None, 20, 70, best));
    let p = probe(Some(entry(TranspositionEntryType::LowerBound, 3, -60)), 3, -50, 70);
    assert_eq!((p.cutoff, p.alpha, p.beta), (None, -50, 70));
    let p = probe(Some(entry(TranspositionEntryType::LowerBound, 3, 70)), 3, -50, 70);
    assert_eq!((p.cutoff, p.alpha, p.beta), (Some(70), 70, 70));
    let p = probe(Some(entry(TranspositionEntryType::LowerBound, 3, 90)), 3, -50, 70);
    assert_eq!((p.cutoff, p.alpha, p.beta), (Some(90), 90, 70));
    let p = probe(Some(entry(TranspositionEntryType::UpperBound, 3, 20)), 3, -50, 70);
    assert_eq!((p.cutoff, p.alpha, p.beta, p.best_move), (None, -50, 20, best));
    let p = probe(Some(entry(TranspositionEntryType::UpperBound, 3, 80)), 3, -50, 70);
    assert_eq!((p.cutoff, p.alpha, p.beta), (None, -50, 70));
    let p = probe(Some(entry(TranspositionEntryType::UpperBound, 3, -50)), 3, -50, 70);
    assert_eq!((p.cutoff, p.alpha, p.beta), (Some(-50), -50, -50));
    let p = probe(Some(entry(TranspositionEntryType::UpperBound, 3, -80)), 3, -50, 70);
    assert_eq!((p.cutoff, p.alpha, p.beta), (Some(-80), -50, -80));
}

#[test]
fn a_probe_takes_only_the_move_of_a_shallow_entry() {
    let best = entry(TranspositionEntryType::Exact, 0, 0).best_move;
    for bound in [TranspositionEntryType::Exact, TranspositionEntryType::LowerBound, TranspositionEntryType::UpperBound] {
        let p = probe(Some(entry(bound, 2, 20)), 3, -50, 70);
        assert_eq!((p.cutoff, p.alpha, p.beta, p.best_move), (None, -50, 70, best));
    }
    let p = probe(Some(entry(TranspositionEntryType::Exact, -3, 20)), -2, -50, 70);
    assert_eq!(p.cutoff, None);
    let p = probe(Some(entry(TranspositionEntryType::Exact, -2, 20)), -3, -50, 70);
    assert_eq!(p.cutoff, Some(20));
}

#[test]
fn the_static_score_in_quiescence() {
    assert_eq!(stand_pat_step(100, -50, 70), StandPat::Return(100));
    assert_eq!(stand_pat_step(70, -50, 70), StandPat::Return(70));
    assert_eq!(stand_pat_step(69, -50, 70), StandPat::Continue(69));
    assert_eq!(stand_pat_step(-50, -50, 70), StandPat::Continue(-50));
    assert_eq!(stand_pat_step(-51, -50, 70), StandPat::Continue(-50));
    assert_eq!(stand_pat_step(-950, -50, 70), StandPat::Continue(-50));
    assert_eq!(stand_pat_step(-951, -50, 70), StandPat::Return(-50));
    assert_eq!(stand_pat_step(-100000, 1000, 1001), StandPat::Return(1000));
}

#[test]
fn the_kind_of_bound_that_a_score_is() {
    assert_eq!(entry_type_of(10, 10, 50), TranspositionEntryType::UpperBound);
    assert_eq!(entry_type_of(5, 10, 50), TranspositionEntryType::UpperBound);
    assert_eq!(entry_type_of(11, 10, 50), TranspositionEntryType::Exact);
    assert_eq!(entry_type_of(49, 10, 50), TranspositionEntryType::Exact);
    assert_eq!(entry_type_of(50, 10, 50), TranspositionEntryType::LowerBound);
    assert_eq!(entry_type_of(80, 10, 50), TranspositionEntryType::LowerBound);
}

#[test]
fn mate_and_stalemate() {
    assert_eq!(no_move_score(true, 0), -1000000);
    assert_eq!(no_move_score(true, 3), -999997);
    assert_eq!(no_move_score(false, 0), 0);
    assert_eq!(no_move_score(false, 3), 0);
    assert_eq!(CHECKMATE_EVAL, 1000000);
}

#[test]
fn the_windows_below_a_node() {
    assert_eq!(child_window(true, -50, 70), (-70, 50));
    assert_eq!(child_window(false, -50, 70), (49, 50));
    assert_eq!(child_window(false, 10, 11), (-11, -10));
    assert_eq!(child_window(true, -1000000, 1000000), (-1000000, 1000000));
    assert!(needs_research(0, -50, 70));
    assert!(needs_research(-49, -50, 70));
    assert!(needs_research(69, -50, 70));
    assert!(!needs_research(-50, -50, 70));
    assert!(!needs_research(70, -50, 70));
    assert!(!needs_research(-60, -50, 70));
    assert!(!needs_research(90, -50, 70));
}

#[test]
fn moves_in_the_order_of_their_scores() {
    let m = |from: u8| Move { from, to: 63, ..Move::default() };
    let sorted = sort_by_score(vec![(5, m(0)), (-3, m(1)), (5, m(2)), (0, m(3)), (-3, m(4)), (100, m(5))]);
    assert_eq!(sorted.iter().map(|p| p.0).collect::<Vec<_>>(), vec![-3, -3, 0, 5, 5, 100]);
    // moves of one score stay in the order in which they stood
    assert_eq!(sorted.iter().map(|p| p.1.from).collect::<Vec<_>>(), vec![1, 4, 3, 0, 2, 5]);
    assert_eq!(sort_by_score(vec![]).len(), 0);
}

#[test]
fn the_order_in_which_a_node_searches_its_moves() {
    let zobrist = Arc::new(Zobrist::init());
    let mut state =
        ChessState::from_fen("r3k2r/p1ppqpb1/bn2pnp1/3PN3/1p2P3/2N2Q1p/PPPBBPPP/R3K2R w KQkq - 0 1", &zobrist)
            .unwrap();
    let moves = state.gen_pseudo_legal_moves();
    let first = moves[10];
    let ordered = order_moves(&moves, false, Some(first));
    assert_eq!(ordered.len(), moves.len());
    assert!(ordered.windows(2).all(|w| w[0].0 <= w[1].0));
    assert_eq!(ordered[ordered.len() - 1].1, first);
    assert_eq!(ordered[ordered.len() - 1].0, CHECKMATE_EVAL);
    for m in moves.iter() {
        assert_eq!(ordered.iter().filter(|p| p.1 == *m).count(), 1);
    }
    for (score, m) in ordered.iter() {
        if *m != first {
            let value = m.ordering_score(0);
            assert!(value - 10 <= *score && *score <= value + 10);
        }
    }
    // captures come after the moves that capture nothing
    let quiet = ordered.iter().filter(|p| p.1.capture.is_none() && p.1 != first).count();
    assert!(ordered[..quiet].iter().all(|p| p.1.capture.is_none()));

    let captures = order_moves(&moves, true, None);
    assert_eq!(captures.len(), 8);
    assert!(captures.iter().all(|p| p.1.capture.is_some()));
    assert!(captures.windows(2).all(|w| w[0].0 <= w[1].0));
}

fn searched(fen: &str, depth: u32) -> (i32, Vec<Move>) {
    let zobrist = Arc::new(Zobrist::init());
    let mut table = TranspositionTable::with_entries(1 << 16);
    let mut state = ChessState::from_fen(fen, &zobrist).unwrap();
    let before = state.clone();
    let best = state.eval(&mut table, Some(depth), None);
    assert_eq!(state.pieces, before.pieces);
    assert_eq!(state.hash, before.hash);
    assert_eq!(state.unmove_stack.len(), 0);
    assert_eq!(state.position_counter, before.position_counter);
    assert_eq!(table.entries.len(), 1 << 16);
    best
}

#[test]
fn a_search_of_no_depth_gives_the_static_score() {
    assert_eq!(searched("4k3/8/8/8/8/8/8/Q3K3 w - - 0 1", 0), (923, vec![]));
    assert_eq!(searched("4k3/8/8/8/8/8/8/Q3K3 b - - 0 1", 0), (-923, vec![]));
}

#[test]
fn a_mate_in_one_is_found_and_kept() {
    let fen = "6k1/5ppp/8/8/8/8/8/4R1K1 w - - 0 1";
    let mut last = -CHECKMATE_EVAL;
    for depth in 2..=5 {
        let (score, line) = searched(fen, depth);
        assert_eq!(score, CHECKMATE_EVAL - 1);
        assert_eq!(line[0].to_string(), "e1e8");
        assert!(score >= last);
        last = score;
    }
}

#[test]
fn deeper_searches_on_one_table_do_not_lose_a_mate() {
    let zobrist = Arc::new(Zobrist::init());
    let mut table = TranspositionTable::with_entries(1 << 16);
    // mate in two: 1. Qb8+ is not it; 1. Ra8+? no: the rooks mate by 1. Ra7+ Kg8 2. Rb8
    let mut state = ChessState::from_fen("7k/8/8/8/8/8/R7/1R4K1 w - - 0 1", &zobrist).unwrap();
    let mut last = -CHECKMATE_EVAL;
    for depth in 4..=6 {
        let (score, line) = state.eval(&mut table, Some(depth), None);
        assert_eq!(score, CHECKMATE_EVAL - 3);
        assert!(score >= last);
        assert!(!line.is_empty());
        last = score;
    }
}

#[test]
fn the_side_that_is_mated_or_stalemated() {
    // mated: the back rank
    let (score, line) = searched("4R1k1/5ppp/8/8/8/8/8/6K1 b - - 0 1", 2);
    assert_eq!(score, -CHECKMATE_EVAL);
    assert!(line.is_empty());
    // stalemated
    let (score, line) = searched("7k/5Q2/6K1/8/8/8/8/8 b - - 0 1", 2);
    assert_eq!(score, 0);
    assert!(line.is_empty());
}

#[test]
fn a_draw_by_the_fifty_move_rule_scores_nothing() {
    assert_eq!(searched("4k3/8/8/8/8/8/8/Q3K3 w - - 50 80", 3).0, 0);
    assert_eq!(searched("4k3/8/8/8/8/8/8/Q3K3 w - - 99 80", 3).0, 0);
    assert!(searched("4k3/8/8/8/8/8/8/Q3K3 w - - 0 80", 1).0 > 500);
}

#[test]
fn a_position_come_back_scores_nothing() {
    let zobrist = Arc::new(Zobrist::init());
    let mut table = TranspositionTable::with_entries(1 << 16);
    let mut state =
        ChessState::from_fen("rnb1kbnr/pppppppp/8/8/8/8/PPPPPPPP/RNBQKBNR w KQkq - 0 1", &zobrist).unwrap();
    assert!(state.eval(&mut table, Some(1), None).0 > 500);
    for text in ["b1c3", "b8c6", "c3b1", "c6b8"] {
        let m = state.get_move(text).unwrap();
        state.make_move(&m);
    }
    assert!(state.is_draw_by_repetition);
    assert_eq!(state.eval(&mut table, Some(1), None).0, 0);
}

#[test]
fn a_search_wins_material() {
    // the queen on d5 hangs to the knight on c3
    let (score, line) = searched("4k3/8/8/3q4/8/2N5/8/4K3 w - - 0 1", 2);
    assert_eq!(line[0].to_string(), "c3d5");
    assert!(score > 200);
}

#[test]
fn a_search_that_has_no_time_gives_the_static_score() {
    let zobrist = Arc::new(Zobrist::init());
    let mut table = TranspositionTable::with_entries(1 << 10);
    let mut state = ChessState::from_fen("4k3/8/8/3q4/8/2N5/8/4K3 w - - 0 1", &zobrist).unwrap();
    let (score, line) = state.eval(&mut table, Some(3), Some(Duration::from_secs(0)));
    assert_eq!(score, state.static_eval());
    assert!(line.is_empty());
    assert_eq!(state.unmove_stack.len(), 0);
    let search = Search::lasting(Some(0));
    assert!(search.out_of_time());
    assert!(!Search::lasting(Some(3_600_000_000_000)).out_of_time());
    assert!(!Search::lasting(None).out_of_time());
}

#[test]
fn a_search_may_last_as_long_as_it_is_given() {
    assert_eq!(MAX_SEARCH_NANOS, 365 * 24 * 3600 * 1_000_000_000);
    assert_eq!(Search::lasting(None).max_nanos, MAX_SEARCH_NANOS);
    assert_eq!(Search::lasting(Some(0)).max_nanos, 0);
    assert_eq!(Search::lasting(Some(1_500_000_000)).max_nanos, 1_500_000_000);
    assert_eq!(Search::lasting(Some(u128::MAX)).max_nanos, u128::MAX);
    let search = Search::lasting(Some(1_000));
    assert!(!search.is_over(0));
    assert!(!search.is_over(999));
    assert!(search.is_over(1_000));
    assert!(search.is_over(1_001));
    assert!(search.is_over(u128::MAX));
    assert!(Search::lasting(Some(0)).is_over(0));
    assert!(!Search::lasting(None).is_over(MAX_SEARCH_NANOS - 1));
    assert!(Search::lasting(None).is_over(MAX_SEARCH_NANOS));
    assert!(!Search::lasting(Some(u128::MAX)).out_of_time());
}

#[test]
fn a_search_with_time_enough_is_not_cut_short() {
    let zobrist = Arc::new(Zobrist::init());
    let mut table = TranspositionTable::with_entries(1 << 12);
    let mut state = ChessState::from_fen("6k1/5ppp/8/8/8/8/8/4R1K1 w - - 0 1", &zobrist).unwrap();
    let (score, line) = state.eval(&mut table, Some(2), Some(Duration::from_secs(3600)));
    assert_eq!(score, CHECKMATE_EVAL - 1);
    assert_eq!(line[0].to_string(), "e1e8");
    let (score, line) = state.eval(&mut table, Some(2), Some(Duration::from_nanos(0)));
    assert_eq!(score, state.static_eval());
    assert!(line.is_empty());
}

#[test]
fn the_line_that_the_table_holds() {
    let zobrist = Arc::new(Zobrist::init());
    let mut table = TranspositionTable::with_entries(1 << 10);
    let mut state =
        ChessState::from_fen("rnbqkbnr/pppppppp/8/8/8/8/PPPPPPPP/RNBQKBNR w KQkq - 0 1", &zobrist).unwrap();
    let search = Search::lasting(None);
    assert!(search.best_line(&mut state, &table, 5).is_empty());
    let store = |table: &mut TranspositionTable, key: u64, m: Option<Move>| {
        table.set(
            key,
            TranspositionEntry { key, entry_type: TranspositionEntryType::Exact, depth: 1, score: 0, best_move: m },
        );
    };
    let e2e4 = state.get_move("e2e4").unwrap();
    store(&mut table, state.hash, Some(e2e4));
    state.make_move(&e2e4);
    let e7e5 = state.get_move("e7e5").unwrap();
    store(&mut table, state.hash, Some(e7e5));
    state.make_move(&e7e5);
    // a move that cannot be played here ends the line
    store(&mut table, state.hash, Some(e7e5));
    state.unmake_last_move();
    state.unmake_last_move();
    let line = search.best_line(&mut state, &table, 5);
    assert_eq!(line.iter().map(|m| m.to_string()).collect::<Vec<_>>(), vec!["e2e4", "e7e5"]);
    assert_eq!(state.unmove_stack.len(), 0);
    assert_eq!(search.best_line(&mut state, &table, 1).len(), 1);
    assert_eq!(search.best_line(&mut state, &table, 0).len(), 0);
    // an entry without a move ends the line too
    state.make_move(&e2e4);
    store(&mut table, state.hash, None);
    state.unmake_last_move();
    assert_eq!(search.best_line(&mut state, &table, 5).len(), 1);
}

#[test]
fn a_search_from_a_node_leaves_the_state_as_it_was() {
    let zobrist = Arc::new(Zobrist::init());
    let mut table = TranspositionTable::with_entries(1 << 12);
    let mut state =
        ChessState::from_fen("r3k2r/p1ppqpb1/bn2pnp1/3PN3/1p2P3/2N2Q1p/PPPBBPPP/R3K2R w KQkq - 0 1", &zobrist)
            .unwrap();
    let before = state.clone();
    let search = Search::lasting(None);
    for node_type in [NodeType::Root, NodeType::PV, NodeType::Cut] {
        let score = search.search(node_type, &mut state, &mut table, -CHECKMATE_EVAL, CHECKMATE_EVAL, 2, 0);
        assert!(-CHECKMATE_EVAL <= score && score <= CHECKMATE_EVAL);
        assert_eq!(state.pieces, before.pieces);
        assert_eq!(state.hash, before.hash);
        assert_eq!(state.unmove_stack.len(), 0);
        assert_eq!(state.position_counter, before.position_counter);
    }
    let score = search.search(NodeType::Quiesce, &mut state, &mut table, -100, 100, -1, 1);
    assert!(-CHECKMATE_EVAL <= score && score <= CHECKMATE_EVAL);
    assert_eq!(state.pieces, before.pieces);
    assert_eq!(state.unmove_stack.len(), 0);
    assert!(table.get(state.hash).is_some());
}

#[test]
fn a_move_that_leaves_the_king_attacked_is_not_searched() {
    let zobrist = Arc::new(Zobrist::init());
    let mut table = TranspositionTable::with_entries(1 << 12);
    let mut state = ChessState::from_fen("4r1k1/8/8/8/8/8/4N3/4K3 w - - 0 1", &zobrist).unwrap();
    let search = Search::lasting(None);
    let pinned = state.gen_pseudo_legal_moves().into_iter().find(|m| m.piece_type == PieceType::Knight).unwrap();
    assert_eq!(
        search.try_move(NodeType::PV, &mut state, &mut table, &pinned, true, -CHECKMATE_EVAL, CHECKMATE_EVAL, 2, 0),
        None
    );
    assert_eq!(state.unmove_stack.len(), 0);
    let king = state.get_move("e1d1").unwrap();
    assert!(search
        .try_move(NodeType::PV, &mut state, &mut table, &king, true, -CHECKMATE_EVAL, CHECKMATE_EVAL, 2, 0)
        .is_some());
    assert_eq!(state.unmove_stack.len(), 0);
}

#[test]
fn moves_that_a_state_accepts() {
    let zobrist = Arc::new(Zobrist::init());
    let mut state =
        ChessState::from_fen("r3k2r/pppp1ppp/8/8/3Pp3/8/PPP1PPPP/R3K2R b KQkq d3 0 3", &zobrist).unwrap();
    for m in state.gen_pseudo_legal_moves() {
        assert!(state.accepts(&m));
        // a move of the other side's piece
        assert!(!state.accepts(&Move { from: 8, ..m }));
        assert!(!state.accepts(&Move { from: 64, ..m }));
        assert!(!state.accepts(&Move { to: 64, ..m }));
        // a wrong word on what is captured
        let other = if m.capture.is_some() { None } else { Some(PieceType::Rook) };
        assert!(!state.accepts(&Move { capture: other, ..m }));
    }
    let e4d3 = state.get_move("e4d3").unwrap();
    assert!(e4d3.en_passant);
    assert!(!state.accepts(&Move { en_passant: false, ..e4d3 }));
    let castle = state.get_move("e8g8").unwrap();
    assert!(!state.accepts(&Move { castle_king: false, castle_queen: true, ..castle }));
    assert!(!state.accepts(&Move { castle_queen: true, ..castle }));
    let king = state.get_move("e8e7").unwrap();
    assert!(!state.accepts(&Move { promote_to: Some(PieceType::Queen), ..king }));
    assert!(!state.accepts(&Move { piece_type: PieceType::Queen, ..king }));
    assert!(!state.accepts(&Move { new_en_passant_target: Some(44), ..king }));
}

#[test]
fn a_node_after_a_move_has_scored() {
    let a = Move { from: 1, to: 18, ..Move::default() };
    let b = Move { from: 12, to: 28, ..Move::default() };
    // a score above the lower bound raises it and names the move
    let p = advance(30, b, 10, 50, Some(a));
    assert_eq!((p.lower, p.best_move, p.cutoff), (30, Some(b), false));
    let p = advance(30, b, 10, 50, None);
    assert_eq!((p.lower, p.best_move, p.cutoff), (30, Some(b), false));
    // a score at or below it changes nothing
    let p = advance(10, b, 10, 50, Some(a));
    assert_eq!((p.lower, p.best_move, p.cutoff), (10, Some(a), false));
    let p = advance(-7, b, 10, 50, None);
    assert_eq!((p.lower, p.best_move, p.cutoff), (10, None, false));
    // a score at or above the upper bound cuts off
    let p = advance(50, b, 10, 50, Some(a));
    assert_eq!((p.lower, p.best_move, p.cutoff), (50, Some(b), true));
    let p = advance(80, b, 10, 50, Some(a));
    assert_eq!((p.lower, p.best_move, p.cutoff), (80, Some(b), true));
    let p = advance(49, b, 10, 50, Some(a));
    assert_eq!((p.lower, p.best_move, p.cutoff), (49, Some(b), false));
}

#[test]
fn the_entry_that_a_node_stores() {
    let m = Move { from: 12, to: 28, ..Move::default() };
    let e = entry_for(77, 30, 10, 50, 4, Some(m));
    assert_eq!((e.key, e.score, e.depth, e.best_move), (77, 30, 4, Some(m)));
    assert_eq!(e.entry_type, TranspositionEntryType::Exact);
    assert_eq!(entry_for(77, 10, 10, 50, 4, None).entry_type, TranspositionEntryType::UpperBound);
    assert_eq!(entry_for(77, 50, 10, 50, -1, None).entry_type, TranspositionEntryType::LowerBound);
    assert_eq!(entry_for(77, 50, 10, 50, -1, None).depth, -1);
    assert_eq!(entry_for(77, 50, 10, 50, -1, None).best_move, None);
}

#[test]
fn the_type_of_the_node_below_a_move() {
    for pv in [false, true] {
        assert_eq!(child_type(NodeType::Quiesce, pv), NodeType::Quiesce);
    }
    for above in [NodeType::Root, NodeType::PV, NodeType::Cut] {
        assert_eq!(child_type(above, true), NodeType::PV);
        assert_eq!(child_type(above, false), NodeType::Cut);
    }
}

#[test]
fn what_is_kept_of_a_search() {
    let a = Move { from: 1, to: 18, ..Move::default() };
    let b = Move { from: 12, to: 28, ..Move::default() };
    assert_eq!(keep(false, (5, vec![a]), 9, vec![b, a]), (9, vec![b, a]));
    assert_eq!(keep(true, (5, vec![a]), 9, vec![b, a]), (5, vec![a]));
    assert_eq!(keep(true, (5, vec![]), 0, vec![]), (5, vec![]));
    assert_eq!(keep(false, (5, vec![a]), -3, vec![]), (-3, vec![]));
}

#[test]
fn the_best_of_the_moves_that_were_scored() {
    let m = |from: u8| Move { from, to: 63, ..Move::default() };
    let scored = vec![(m(0), 5), (m(1), 40), (m(2), -3), (m(3), 40), (m(4), 39)];
    // the last of the greatest
    assert_eq!(best_of(PieceColor::White, false, &scored), (Some(m(3)), 40));
    assert_eq!(best_of(PieceColor::Black, true, &scored), (Some(m(3)), -40));
    assert_eq!(best_of(PieceColor::White, false, &vec![(m(7), -9)]), (Some(m(7)), -9));
    // without a move: mated in check, else a draw
    assert_eq!(best_of(PieceColor::White, true, &vec![]), (None, -1000000));
    assert_eq!(best_of(PieceColor::Black, true, &vec![]), (None, 1000000));
    assert_eq!(best_of(PieceColor::White, false, &vec![]), (None, 0));
    assert_eq!(best_of(PieceColor::Black, false, &vec![]), (None, 0));
    assert_eq!(turn_mult(PieceColor::White), 1);
    assert_eq!(turn_mult(PieceColor::Black), -1);
}

#[test]
fn a_finished_node_stores_its_score() {
    let zobrist = Arc::new(Zobrist::init());
    let mut table = TranspositionTable::with_entries(1 << 12);
    let mut state = ChessState::from_fen("4k3/8/8/3q4/8/2N5/8/4K3 w - - 0 1", &zobrist).unwrap();
    let search = Search::lasting(None);
    assert!(table.get(state.hash).is_none());
    let score = search.search(NodeType::Root, &mut state, &mut table, -CHECKMATE_EVAL, CHECKMATE_EVAL, 2, 0);
    let e = table.get(state.hash).unwrap();
    assert_eq!((e.key, e.depth, e.score), (state.hash, 2, score));
    assert_eq!(e.entry_type, TranspositionEntryType::Exact);
    assert_eq!(e.best_move.unwrap().to_string(), "c3d5");
    // a score at or above the upper bound is stored as a lower bound
    let mut table = TranspositionTable::with_entries(1 << 12);
    let score = search.search(NodeType::Cut, &mut state, &mut table, 0, 1, 2, 0);
    let e = table.get(state.hash).unwrap();
    assert!(score >= 1);
    assert_eq!((e.key, e.depth, e.score, e.entry_type), (state.hash, 2, score, TranspositionEntryType::LowerBound));
    // a score that does not reach the lower bound is stored as an upper bound
    let mut table = TranspositionTable::with_entries(1 << 12);
    let score = search.search(NodeType::Cut, &mut state, &mut table, 5000, 5001, 2, 0);
    let e = table.get(state.hash).unwrap();
    assert_eq!((e.key, e.depth, e.score, e.entry_type), (state.hash, 2, 5000, TranspositionEntryType::UpperBound));
    assert_eq!(score, 5000);
    assert_eq!(e.best_move, None);
    // a node without depth stores under the depth of quiescence
    let mut table = TranspositionTable::with_entries(1 << 12);
    let score = search.search(NodeType::PV, &mut state, &mut table, -CHECKMATE_EVAL, CHECKMATE_EVAL, 0, 0);
    let e = table.get(state.hash).unwrap();
    assert_eq!((e.key, e.depth, e.score), (state.hash, -1, score));
}

#[test]
fn a_quiet_position_in_quiescence() {
    let zobrist = Arc::new(Zobrist::init());
    let mut table = TranspositionTable::with_entries(1 << 12);
    // no capture to try: the static score is returned and stored
    let mut state = ChessState::from_fen("4k3/8/8/8/8/2N5/8/4K3 w - - 0 1", &zobrist).unwrap();
    let stand = state.static_eval();
    let search = Search::lasting(Some(0));
    let score = search.search(NodeType::Quiesce, &mut state, &mut table, -CHECKMATE_EVAL, CHECKMATE_EVAL, -1, 1);
    assert_eq!(score, stand);
    let e = table.get(state.hash).unwrap();
    assert_eq!((e.key, e.depth, e.score, e.entry_type), (state.hash, -1, stand, TranspositionEntryType::Exact));
    assert_eq!(e.best_move, None);
    assert_eq!(table.entries.iter().filter(|e| e.is_some()).count(), 1);
    // a static score at or above the upper bound is returned at once
    let mut table = TranspositionTable::with_entries(1 << 12);
    let score = search.search(NodeType::Quiesce, &mut state, &mut table, -50, 50, -1, 1);
    assert_eq!(score, stand);
    assert!(stand >= 50);
    assert!(table.get(state.hash).is_none());
}

#[test]
fn a_node_without_moves_reads_no_clock() {
    let zobrist = Arc::new(Zobrist::init());
    let mut table = TranspositionTable::with_entries(1 << 12);
    let search = Search::lasting(Some(0));
    let mut mated = ChessState::from_fen("4R1k1/5ppp/8/8/8/8/8/6K1 b - - 0 1", &zobrist).unwrap();
    // the mated side has moves that obey how its pieces move, so the clock is read
    let score = search.search(NodeType::Root, &mut mated, &mut table, -CHECKMATE_EVAL, CHECKMATE_EVAL, 3, 4);
    assert!(score == 0 || score == -CHECKMATE_EVAL + 4);
    assert!(table.get(mated.hash).is_none());
    let search = Search::lasting(None);
    let score = search.search(NodeType::Root, &mut mated, &mut table, -CHECKMATE_EVAL, CHECKMATE_EVAL, 3, 4);
    assert_eq!(score, -CHECKMATE_EVAL + 4);
    assert!(table.get(mated.hash).is_none());
    // a board without pieces of the side to move has no move at all
    let mut bare = ChessState::from_fen("4k3/8/8/8/8/8/8/8 w - - 0 1", &zobrist).unwrap();
    let search = Search::lasting(Some(0));
    let score = search.search(NodeType::Root, &mut bare, &mut table, -CHECKMATE_EVAL, CHECKMATE_EVAL, 3, 0);
    assert_eq!(score, if bare.check.get(PieceColor::White) { -CHECKMATE_EVAL } else { 0 });
    assert!(table.get(bare.hash).is_none());
}

#[test]
fn a_depth_beyond_the_deepest_is_the_deepest() {
    let zobrist = Arc::new(Zobrist::init());
    let mut table = TranspositionTable::with_entries(1 << 12);
    let mut mated = ChessState::from_fen("4R1k1/5ppp/8/8/8/8/8/6K1 b - - 0 1", &zobrist).unwrap();
    assert_eq!(MAX_DEPTH, 200);
    let (score, line) = mated.eval(&mut table, Some(u32::MAX), None);
    assert_eq!(score, -CHECKMATE_EVAL);
    assert!(line.is_empty());
    let (score, line) = mated.eval(&mut table, Some(201), None);
    assert_eq!(score, -CHECKMATE_EVAL);
    assert!(line.is_empty());
}

#[test]
fn a_search_of_no_depth_leaves_the_table_as_it_was() {
    let zobrist = Arc::new(Zobrist::init());
    let mut table = TranspositionTable::with_entries(1 << 8);
    let mut state = ChessState::from_fen("4k3/8/8/3q4/8/2N5/8/4K3 w - - 0 1", &zobrist).unwrap();
    let (score, line) = state.eval(&mut table, Some(0), None);
    assert_eq!(score, state.static_eval());
    assert!(line.is_empty());
    assert!(table.entries.iter().all(|e| e.is_none()));
}

#[test]
fn a_search_that_may_last_no_time() {
    let zobrist = Arc::new(Zobrist::init());
    let mut table = TranspositionTable::with_entries(1 << 8);
    let mut state = ChessState::from_fen("4k3/8/8/3q4/8/2N5/8/4K3 w - - 0 1", &zobrist).unwrap();
    let (score, line) = state.eval_within(&mut table, Some(3), Some(0));
    assert_eq!(score, state.static_eval());
    assert!(line.is_empty());
    assert!(table.entries.iter().all(|e| e.is_none()));
    let (score, line) = state.eval_within(&mut table, None, Some(0));
    assert_eq!(score, state.static_eval());
    assert!(line.is_empty());
    assert!(table.entries.iter().all(|e| e.is_none()));
    // a node with a move to try gives 0 and stores nothing
    let search = Search::lasting(Some(0));
    for node_type in [NodeType::Root, NodeType::PV, NodeType::Cut] {
        let score = search.search(node_type, &mut state, &mut table, -CHECKMATE_EVAL, CHECKMATE_EVAL, 2, 0);
        assert_eq!(score, 0);
        assert!(table.entries.iter().all(|e| e.is_none()));
    }
    // in quiescence too, where there is a capture to try
    let score = search.search(NodeType::Quiesce, &mut state, &mut table, -CHECKMATE_EVAL, CHECKMATE_EVAL, -1, 1);
    assert_eq!(score, 0);
    assert!(table.entries.iter().all(|e| e.is_none()));
    // with time, the same calls search
    let (score, line) = state.eval_within(&mut table, Some(2), Some(3_600_000_000_000));
    assert!(score > 200);
    assert_eq!(line[0].to_string(), "c3d5");
    assert!(table.get(state.hash).is_some());
}
