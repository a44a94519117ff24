use chessai::chess_engine::gen_moves::Move;
use chessai::chess_engine::static_eval::{JITTER, LVA_MVV};
use chessai::chess_engine::zobrist::Zobrist;
use chessai::chess_engine::{ChessState, Piece, PieceColor, PieceType};
use std::sync::Arc;

fn state(fen: &str) -> ChessState {
    let zobrist = Arc::new(Zobrist::init());
    ChessState::from_fen(fen, &zobrist).unwrap()
}

#[test]
fn king_activity_endgame_test() {
    let state_0 = state("7k/4p3/8/8/8/4P3/8/K7 w - - 0 1");
    let eval_0 = state_0.static_eval();

    let state_1 = state("7k/4p3/8/8/8/4P3/1K6/8 w - - 0 1");
    let eval_1 = state_1.static_eval();

    assert!(eval_1 > eval_0);
}

#[test]
fn mvv_lva_test() {
    for attacker in [
        PieceType::Rook,
        PieceType::Bishop,
        PieceType::Knight,
        PieceType::Queen,
        PieceType::Pawn,
    ] {
        for victim in [PieceType::Rook, PieceType::Bishop, PieceType::Knight, PieceType::Queen, PieceType::Pawn] {
            let (higher_value, lower_value) = if attacker.mat_value::<false>() > victim.mat_value::<false>() {
                (attacker, victim)
            } else {
                (victim, attacker)
            };

            assert!(
                LVA_MVV[lower_value as usize][higher_value as usize] >= LVA_MVV[higher_value as usize][lower_value as usize],
                "{:?} captures {:?}",
                attacker,
                victim
            );
        }
    }
}

#[test]
fn static_eval_of_given_positions() {
    assert_eq!(state("rnbqkbnr/pppppppp/8/8/8/8/PPPPPPPP/RNBQKBNR w KQkq - 0 1").static_eval(), 0);
    assert_eq!(state("7k/4p3/8/8/8/4P3/8/K7 w - - 0 1").static_eval(), -23);
    assert_eq!(state("7k/4p3/8/8/8/4P3/1K6/8 w - - 0 1").static_eval(), 19);
    assert_eq!(state("rnbqkbnr/pppppppp/8/8/4P3/8/PPPP1PPP/RNBQKBNR b KQkq - 0 1").static_eval(), -32);
    assert_eq!(state("4k3/8/8/8/8/8/8/Q3K3 w - - 0 1").static_eval(), 923);
    assert_eq!(state("4k3/8/8/8/8/8/8/Q3K3 b - - 0 1").static_eval(), -923);
    assert_eq!(
        state("r3k2r/p1ppqpb1/bn2pnp1/3PN3/1p2P3/2N2Q1p/PPPBBPPP/R3K2R w KQkq - 0 1").static_eval(),
        56
    );
}

#[test]
fn static_eval_is_negated_for_the_other_side() {
    let white = state("r3k2r/p1ppqpb1/bn2pnp1/3PN3/1p2P3/2N2Q1p/PPPBBPPP/R3K2R w KQkq - 0 1");
    let black = state("r3k2r/p1ppqpb1/bn2pnp1/3PN3/1p2P3/2N2Q1p/PPPBBPPP/R3K2R b KQkq - 0 1");
    assert_eq!(white.static_eval(), -black.static_eval());
}

#[test]
fn material_values() {
    assert_eq!(PieceType::Pawn.mat_value::<false>(), 82);
    assert_eq!(PieceType::Knight.mat_value::<false>(), 337);
    assert_eq!(PieceType::Bishop.mat_value::<false>(), 365);
    assert_eq!(PieceType::Rook.mat_value::<false>(), 477);
    assert_eq!(PieceType::Queen.mat_value::<false>(), 1025);
    assert_eq!(PieceType::King.mat_value::<false>(), 0);
    assert_eq!(PieceType::Pawn.mat_value::<true>(), 94);
    assert_eq!(PieceType::Knight.mat_value::<true>(), 281);
    assert_eq!(PieceType::Bishop.mat_value::<true>(), 297);
    assert_eq!(PieceType::Rook.mat_value::<true>(), 512);
    assert_eq!(PieceType::Queen.mat_value::<true>(), 936);
    assert_eq!(PieceType::King.mat_value::<true>(), 0);
}

#[test]
fn middlegame_weights() {
    assert_eq!(PieceType::Pawn.middlegame_weight(), 0);
    assert_eq!(PieceType::Knight.middlegame_weight(), 1);
    assert_eq!(PieceType::Bishop.middlegame_weight(), 1);
    assert_eq!(PieceType::Rook.middlegame_weight(), 2);
    assert_eq!(PieceType::Queen.middlegame_weight(), 4);
    assert_eq!(PieceType::King.middlegame_weight(), 0);
}

#[test]
fn pos_value_mirrors_the_board_for_white() {
    let white_pawn = Piece { c: PieceColor::White, t: PieceType::Pawn };
    let black_pawn = Piece { c: PieceColor::Black, t: PieceType::Pawn };
    // a7 for White is what a2 is for Black
    assert_eq!(white_pawn.pos_value::<false>(48), 98);
    assert_eq!(black_pawn.pos_value::<false>(8), 98);
    assert_eq!(white_pawn.pos_value::<true>(55), 187);
    assert_eq!(black_pawn.pos_value::<true>(15), 187);
    let white_knight = Piece { c: PieceColor::White, t: PieceType::Knight };
    assert_eq!(white_knight.pos_value::<false>(56), -167);
    assert_eq!(white_knight.pos_value::<false>(0), -105);
}

#[test]
fn ordering_score_adds_capture_and_promotion() {
    let quiet = Move { piece_type: PieceType::Knight, from: 1, to: 18, ..Move::default() };
    assert_eq!(quiet.ordering_score(0), 0);
    assert_eq!(quiet.ordering_score(-10), -10);
    let pawn_takes_queen =
        Move { piece_type: PieceType::Pawn, from: 12, to: 21, capture: Some(PieceType::Queen), ..Move::default() };
    assert_eq!(pawn_takes_queen.ordering_score(3), 553);
    let queen_takes_pawn =
        Move { piece_type: PieceType::Queen, from: 12, to: 21, capture: Some(PieceType::Pawn), ..Move::default() };
    assert_eq!(queen_takes_pawn.ordering_score(0), 110);
    let promotion = Move {
        piece_type: PieceType::Pawn,
        from: 48,
        to: 57,
        capture: Some(PieceType::Knight),
        promote_to: Some(PieceType::Queen),
        ..Move::default()
    };
    assert_eq!(promotion.ordering_score(10), 10 + 250 + 1025);
}

#[test]
fn move_static_eval_stays_within_ten_of_its_value() {
    let capture =
        Move { piece_type: PieceType::Rook, from: 0, to: 8, capture: Some(PieceType::Bishop), ..Move::default() };
    assert_eq!(JITTER, 10);
    let mut seen = std::collections::HashSet::new();
    for _ in 0..2000 {
        let v = capture.static_eval();
        assert!(310 <= v && v <= 330);
        seen.insert(v);
    }
    assert!(seen.len() > 1);
    assert!(seen.iter().any(|v| *v < 320));
    assert!(seen.iter().any(|v| *v > 320));
}
