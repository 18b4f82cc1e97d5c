use chess_engine::board::{Board, BoardState};
use chess_engine::fen::validate_fen;
use chess_engine::loc::{valid_pos, Loc};
use chess_engine::piece::{piece_value, ChessColor, Piece, PieceNames};

const START_FEN: &str = "rnbqkbnr/pppppppp/8/8/8/8/PPPPPPPP/RNBQKBNR w KQkq - 0 1";

fn start_board() -> Board {
    Board::from_fen(START_FEN).unwrap()
}

#[test]
fn start_position_has_twenty_white_moves() {
    let board = start_board();
    assert_eq!(board.moves(ChessColor::White).len(), 20);
    assert_eq!(board.moves(ChessColor::Black).len(), 20);
}

#[test]
fn start_position_fen_round_trips_exactly() {
    let board = start_board();
    assert_eq!(board.as_fen(), START_FEN);
}

#[test]
fn fen_round_trip_preserves_position() {
    let mut board = start_board();
    board.move_piece(&Loc(4, 6), &Loc(4, 4), true);
    board.move_piece(&Loc(4, 1), &Loc(4, 3), true);
    board.move_piece(&Loc(6, 7), &Loc(5, 5), true);
    let fen = board.as_fen();
    let again = Board::from_fen(&fen).unwrap();
    assert!(board.eq_position(&again));
    assert_eq!(fen, again.as_fen());
}

#[test]
fn en_passant_state_round_trips() {
    let mut board = start_board();
    board.move_piece(&Loc(4, 6), &Loc(4, 4), true);
    assert_eq!(board.en_passent, Some((Loc(4, 4), ChessColor::White)));
    let again = Board::from_fen(&board.as_fen()).unwrap();
    assert_eq!(again.en_passent, Some((Loc(4, 4), ChessColor::White)));
}

#[test]
fn moving_flips_turn() {
    let mut board = start_board();
    assert_eq!(board.turn, ChessColor::White);
    board.move_piece(&Loc(4, 6), &Loc(4, 4), true);
    assert_eq!(board.turn, ChessColor::Black);
    board.move_piece(&Loc(4, 1), &Loc(4, 3), true);
    assert_eq!(board.turn, ChessColor::White);
}

#[test]
fn legal_moves_never_leave_own_king_attacked() {
    // Walk a short game and simulate every legal move of the side to move.
    let mut board = start_board();
    let line = [
        (Loc(4, 6), Loc(4, 4)),
        (Loc(4, 1), Loc(4, 3)),
        (Loc(6, 7), Loc(5, 5)),
        (Loc(1, 0), Loc(2, 2)),
        (Loc(5, 7), Loc(2, 4)),
        (Loc(5, 0), Loc(2, 3)),
    ];
    for (from, to) in line {
        for (mf, mt) in board.moves(board.turn) {
            let mut sim = board.clone_board();
            sim.move_piece(&mf, &mt, false);
            match board.turn {
                ChessColor::White => assert!(!sim.check_white),
                ChessColor::Black => assert!(!sim.check_black),
            }
        }
        board.move_piece(&from, &to, true);
    }
}

#[test]
fn fools_mate_is_checkmate_for_white() {
    let mut board = start_board();
    board.move_piece(&Loc(5, 6), &Loc(5, 5), true);
    board.move_piece(&Loc(4, 1), &Loc(4, 3), true);
    board.move_piece(&Loc(6, 6), &Loc(6, 4), true);
    board.move_piece(&Loc(3, 0), &Loc(7, 4), true);
    assert_eq!(board.state, BoardState::Checkmate(ChessColor::White));
    assert!(board.is_over());
    assert_eq!(board.get_score(), -20000);
}

#[test]
fn threefold_repetition_is_a_draw() {
    let mut board = start_board();
    let cycle = [
        (Loc(6, 7), Loc(5, 5)),
        (Loc(6, 0), Loc(5, 2)),
        (Loc(5, 5), Loc(6, 7)),
        (Loc(5, 2), Loc(6, 0)),
    ];
    let mut draws = 0;
    for round in 0..3 {
        for (from, to) in cycle {
            if board.is_over() {
                break;
            }
            board.move_piece(&from, &to, true);
        }
        if board.state == BoardState::Draw {
            draws += 1;
        }
        let _ = round;
    }
    assert_eq!(board.state, BoardState::Draw);
    assert!(draws >= 1);
}

#[test]
fn fifty_move_rule_is_a_draw() {
    // Forty-nine quiet half-moves already on the clock; one more draws.
    let board = Board::from_fen("k7/7r/8/8/8/8/1R6/K7 w - - 49 40").unwrap();
    assert_eq!(board.state, BoardState::Normal);
    let mut board = board;
    board.move_piece(&Loc(1, 6), &Loc(2, 6), true);
    assert_eq!(board.state, BoardState::Draw);
}

#[test]
fn bare_kings_draw_immediately() {
    let board = Board::from_fen("k7/8/8/8/8/8/8/K7 w - - 0 1").unwrap();
    assert_eq!(board.state, BoardState::Draw);
}

#[test]
fn stalemate_is_detected() {
    // Black to move, king in the corner with no legal move and not in check.
    let board = Board::from_fen("k7/8/1Q6/8/8/8/8/K7 b - - 0 1").unwrap();
    assert_eq!(board.state, BoardState::Stalemate);
}

#[test]
fn castling_moves_rook_and_revokes_rights() {
    let mut board =
        Board::from_fen("r3k2r/pppppppp/8/8/8/8/PPPPPPPP/R3K2R w KQkq - 0 1").unwrap();
    let king_moves: Vec<(Loc, Loc)> = board
        .moves(ChessColor::White)
        .into_iter()
        .filter(|m| m.0 == Loc(4, 7))
        .collect();
    assert!(king_moves.contains(&(Loc(4, 7), Loc(6, 7))));
    assert!(king_moves.contains(&(Loc(4, 7), Loc(2, 7))));
    board.move_piece(&Loc(4, 7), &Loc(6, 7), true);
    assert_eq!(
        board.get(&Loc(5, 7)).map(|p| p.name),
        Some(PieceNames::Rook)
    );
    assert_eq!(
        board.get(&Loc(6, 7)).map(|p| p.name),
        Some(PieceNames::King)
    );
    assert_eq!(board.castle_white, (false, false));
}

#[test]
fn castling_blocked_through_attacked_square() {
    // A black rook aims at f1, the square the king would cross.
    let board = Board::from_fen("4k3/8/8/8/8/5r2/PPPPP1PP/R3K2R w KQ - 0 1").unwrap();
    let king_moves: Vec<(Loc, Loc)> = board
        .moves(ChessColor::White)
        .into_iter()
        .filter(|m| m.0 == Loc(4, 7))
        .collect();
    assert!(!king_moves.contains(&(Loc(4, 7), Loc(6, 7))));
}

#[test]
fn en_passant_capture_removes_pawn() {
    let mut board = start_board();
    board.move_piece(&Loc(4, 6), &Loc(4, 4), true);
    board.move_piece(&Loc(0, 1), &Loc(0, 2), true);
    board.move_piece(&Loc(4, 4), &Loc(4, 3), true);
    board.move_piece(&Loc(3, 1), &Loc(3, 3), true);
    // e5 pawn takes d5 in passing
    assert!(board
        .moves(ChessColor::White)
        .contains(&(Loc(4, 3), Loc(3, 2))));
    let captured = board.move_piece(&Loc(4, 3), &Loc(3, 2), true);
    assert!(captured);
    assert!(board.get(&Loc(3, 3)).is_none());
}

#[test]
fn promotion_turns_pawn_into_queen() {
    let mut board = Board::from_fen("8/P6k/8/8/8/8/8/K7 w - - 0 1").unwrap();
    board.move_piece(&Loc(0, 1), &Loc(0, 0), true);
    assert_eq!(
        board.get(&Loc(0, 0)).map(|p| p.name),
        Some(PieceNames::Queen)
    );
}

#[test]
fn hash_tracks_position_not_path() {
    let mut a = start_board();
    a.move_piece(&Loc(4, 6), &Loc(4, 4), true);
    let mut b = start_board();
    b.move_piece(&Loc(4, 6), &Loc(4, 4), true);
    assert_eq!(a.hash, b.hash);
    let mut c = start_board();
    c.move_piece(&Loc(3, 6), &Loc(3, 4), true);
    assert_ne!(a.hash, c.hash);
    assert_ne!(a.hash(), c.hash());
}

#[test]
fn validate_fen_checks_rows_and_files() {
    assert!(validate_fen("rnbqkbnr/pppppppp/8/8/8/8/PPPPPPPP/RNBQKBNR"));
    assert!(validate_fen("8/8/8/8/8/8/8/8"));
    assert!(!validate_fen("9/8/8/8/8/8/8/8"));
    assert!(!validate_fen("8/8/8/8/8/8/8"));
    assert!(!validate_fen("ppppppppp/8/8/8/8/8/8/8"));
}

#[test]
fn from_fen_rejects_malformed_strings() {
    assert!(Board::from_fen("").is_err());
    assert!(Board::from_fen("rnbqkbnr/pppppppp/8/8/8/8/PPPPPPPP/RNBQKBNR").is_err());
    assert!(Board::from_fen("rnbqkbnr/pppppppp/8/8/8/8/PPPPPPPP/RNBQKBNR x KQkq - 0 1").is_err());
    assert!(Board::from_fen("rnbqkbnr/pppppppp/8/8/8/8/PPPPPPPP/RNBQKBNR w KQkq e9 0 1").is_err());
    assert!(Board::from_fen("rnbqkbnr/pppppppp/8/8/8/8/PPPPPPPP/RNBQKBNR w KQkq e3 0 1").is_err());
    assert!(Board::from_fen("rnbqkbnr/pppppppp/8/8/8/8/PPPPPPPP/RNBQKBNR w KQkq - 5 1").is_err());
    assert!(Board::from_fen("rnbqkbnr/pppppppp/8/8/8/8/PPPPPPPP/RNBQKBNR w KQkq - 0 0").is_err());
    assert!(Board::from_fen("rnbqkbnr/pppppppp/8/8/8/8/PPPPPPPP/RNBQKBNR w KQkq - 0").is_err());
}

#[test]
fn notation_round_trips() {
    assert_eq!(Loc(0, 0).as_notation(), "a8");
    assert_eq!(Loc(7, 7).as_notation(), "h1");
    assert_eq!(Loc(4, 4).as_notation(), "e4");
    assert_eq!(Loc::from_notation("a8"), Some(Loc(0, 0)));
    assert_eq!(Loc::from_notation("h1"), Some(Loc(7, 7)));
    assert_eq!(Loc::from_notation("e4"), Some(Loc(4, 4)));
    assert_eq!(Loc::from_notation("i1"), None);
    assert_eq!(Loc::from_notation("a9"), None);
    assert_eq!(Loc::from_notation("a"), None);
    assert_eq!(Loc::from_notation("a88"), None);
}

#[test]
fn location_arithmetic_flags_off_board() {
    let l = Loc(0, 0);
    let (clamped, out) = l.copy_move_i32(-1, -1);
    assert!(out);
    assert_eq!(clamped, Loc(0, 0));
    let (moved, out2) = l.copy_move_i32(2, 1);
    assert!(!out2);
    assert_eq!(moved, Loc(2, 1));
    // the flag reports the high side of the board too
    let (_, out3) = Loc(7, 7).copy_move_i32(1, 0);
    assert!(out3);
    let (_, out4) = Loc(7, 7).copy_move_i32(0, 1);
    assert!(out4);
    let mut m = Loc(3, 3);
    assert!(m.move_i32(1, -1));
    assert_eq!(m, Loc(4, 2));
    assert!(valid_pos(&m));
    assert!(!valid_pos(&Loc(8, 0)));
    let mut h = Loc(7, 0);
    assert!(!h.move_i32(1, 0));
    let mut n = Loc(0, 0);
    assert!(!n.move_i32(-1, 0));
    assert_eq!(n, Loc(0, 0));
}

#[test]
fn direct_capture_beside_en_passant_pawn_touches_nothing_else() {
    // Black's c-pawn just double-stepped to c5 and a black knight stands on
    // c4; taking the knight with the b3 pawn is a direct capture and must
    // leave the c5 pawn alone.
    let mut board = Board::from_fen(
        "rnbqkbnr/pp1ppppp/8/2p5/2n5/1P6/P1PPPPPP/RNBQKBNR w KQkq c5 0 5",
    )
    .unwrap();
    assert_eq!(board.en_passent, Some((Loc(2, 3), ChessColor::Black)));
    let captured = board.move_piece(&Loc(1, 5), &Loc(2, 4), true);
    assert!(captured);
    assert_eq!(
        board.get(&Loc(2, 3)).map(|p| p.name),
        Some(PieceNames::Pawn)
    );
    assert_eq!(
        board.get(&Loc(2, 4)).map(|p| p.name),
        Some(PieceNames::Pawn)
    );
}

#[test]
fn en_passant_capture_that_exposes_the_king_is_illegal() {
    // Taking the g5 pawn in passing would clear the fifth rank between the
    // white king and the black rook; the capture must not be offered.
    let board = Board::from_fen("6k1/8/8/1K3Ppr/8/8/8/8 w - g5 0 3").unwrap();
    let moves = board.moves(ChessColor::White);
    assert!(!moves.contains(&(Loc(5, 3), Loc(6, 2))));
    // the plain forward push keeps the rank closed and stays legal
    assert!(moves.contains(&(Loc(5, 3), Loc(5, 2))));
}

#[test]
fn both_kings_in_check_is_rejected() {
    assert!(Board::from_fen("k6R/8/8/8/8/8/8/K6r w - - 0 1").is_err());
}

#[test]
fn piece_values_are_the_classical_ones() {
    assert_eq!(piece_value(&PieceNames::Pawn), 100);
    assert_eq!(piece_value(&PieceNames::Knight), 320);
    assert_eq!(piece_value(&PieceNames::Bishop), 330);
    assert_eq!(piece_value(&PieceNames::Rook), 500);
    assert_eq!(piece_value(&PieceNames::Queen), 900);
    assert_eq!(piece_value(&PieceNames::King), 20000);
    let p = Piece::new(PieceNames::Rook, ChessColor::Black, Loc(0, 0));
    assert_eq!(p.value(), 500);
}

#[test]
fn state_messages_name_the_outcome() {
    let mate = BoardState::Checkmate(ChessColor::Black);
    assert!(mate.message(ChessColor::White).starts_with("Congrats"));
    assert!(mate.message(ChessColor::Black).starts_with("Dang"));
    assert!(BoardState::Stalemate
        .message(ChessColor::White)
        .contains("stalemate"));
    assert!(BoardState::Draw.message(ChessColor::White).contains("draw"));
}

#[test]
fn start_score_is_balanced() {
    let board = start_board();
    assert_eq!(board.score, 0);
}
