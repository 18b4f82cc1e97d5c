use std::collections::HashMap;

use chess_engine::agent::{minimax, minimax_agent, minimax_plain, random_agent, Agent};
use chess_engine::board::Board;
use chess_engine::book::OpeningBook;
use chess_engine::loc::Loc;
use chess_engine::piece::ChessColor;

const START_FEN: &str = "rnbqkbnr/pppppppp/8/8/8/8/PPPPPPPP/RNBQKBNR w KQkq - 0 1";

fn start_board() -> Board {
    Board::from_fen(START_FEN).unwrap()
}

#[test]
fn search_finds_the_mate_in_one() {
    // After 1.f3 e5 2.g4 the queen mates on h4; the agent must play it for
    // any fixed seed.
    let mut board = start_board();
    board.move_piece(&Loc(5, 6), &Loc(5, 5), true);
    board.move_piece(&Loc(4, 1), &Loc(4, 3), true);
    board.move_piece(&Loc(6, 6), &Loc(6, 4), true);
    let book = OpeningBook::new();
    let mv = minimax_agent(&board, &book, 7, 3000, false);
    assert_eq!(mv, Some((Loc(3, 0), Loc(7, 4))));
    let again = minimax_agent(&board, &book, 7, 3000, false);
    assert_eq!(again, Some((Loc(3, 0), Loc(7, 4))));
}

#[test]
fn search_returns_none_when_the_game_is_over() {
    let mut board = start_board();
    board.move_piece(&Loc(5, 6), &Loc(5, 5), true);
    board.move_piece(&Loc(4, 1), &Loc(4, 3), true);
    board.move_piece(&Loc(6, 6), &Loc(6, 4), true);
    board.move_piece(&Loc(3, 0), &Loc(7, 4), true);
    assert!(board.is_over());
    let book = OpeningBook::new();
    assert_eq!(minimax_agent(&board, &book, 0, 200, false), None);
}

#[test]
fn book_move_short_circuits_the_search() {
    // After an opening move outside the fixed-reply table, a recorded book
    // continuation is returned as is.
    let mut board = start_board();
    board.move_piece(&Loc(0, 6), &Loc(0, 5), true);
    let mut book = OpeningBook::new();
    book.insert_entry(
        board.hash,
        Loc(4, 1),
        Loc(4, 3),
        String::from("King's Pawn reply"),
    );
    let mv = minimax_agent(&board, &book, 0, 2000, false);
    assert_eq!(mv, Some((Loc(4, 1), Loc(4, 3))));
}

#[test]
fn first_move_reply_table_answers_the_kings_pawn() {
    let mut board = start_board();
    board.move_piece(&Loc(4, 6), &Loc(4, 4), true);
    let book = OpeningBook::new();
    // seed 0 picks the first recorded reply: e7 to e5
    let mv = minimax_agent(&board, &book, 0, 2000, false);
    assert_eq!(mv, Some((Loc(4, 1), Loc(4, 3))));
}

#[test]
fn random_agent_picks_by_seed_and_respects_emptiness() {
    let mut board = start_board();
    board.move_piece(&Loc(4, 6), &Loc(4, 4), true);
    let moves = board.moves(ChessColor::Black);
    let picked = random_agent(&board, 3).unwrap();
    assert_eq!(picked, moves[3 % moves.len()]);
    let picked2 = random_agent(&board, 3).unwrap();
    assert_eq!(picked, picked2);

    let mut mate = start_board();
    mate.move_piece(&Loc(5, 6), &Loc(5, 5), true);
    mate.move_piece(&Loc(4, 1), &Loc(4, 3), true);
    mate.move_piece(&Loc(6, 6), &Loc(6, 4), true);
    mate.move_piece(&Loc(3, 0), &Loc(7, 4), true);
    // the checkmated side (the agent plays white here) has no move
    let mut flipped = mate.clone_board();
    flipped.agent_color = ChessColor::White;
    assert_eq!(random_agent(&flipped, 0), None);
}

#[test]
fn control_agent_never_moves() {
    let mut board = start_board();
    board.move_piece(&Loc(4, 6), &Loc(4, 4), true);
    let book = OpeningBook::new();
    assert_eq!(Agent::Control.get_move(&board, &book, 0, 100), None);
}

#[test]
fn antimax_agent_still_plays_legal_moves() {
    let mut board = start_board();
    board.move_piece(&Loc(4, 6), &Loc(4, 4), true);
    let book = OpeningBook::new();
    let mv = Agent::Antimax.get_move(&board, &book, 0, 300).unwrap();
    assert!(board.moves(ChessColor::Black).contains(&mv));
}

#[test]
fn sorted_moves_put_the_big_capture_last_for_black() {
    // A white queen hangs on d5 where the e6 pawn can take it.
    let board =
        Board::from_fen("rnbqkbnr/pppp1ppp/4p3/3Q4/8/8/PPPP1PPP/RNB1KBNR b KQkq - 0 1").unwrap();
    let sorted = board.get_sorted_moves(ChessColor::Black);
    // black sorts ascending by move value, so its best option comes last
    let last = sorted[sorted.len() - 1];
    assert_eq!(last, (Loc(4, 2), Loc(3, 3)));
}

#[test]
fn pruning_does_not_change_the_result() {
    // A single call with a fresh transposition table and an empty book never
    // reuses entries, so it is plain alpha-beta; the unpruned search must
    // agree on score and move at the same depth.
    let positions = [
        "rnbqkbnr/pppp1ppp/4p3/3Q4/8/8/PPPP1PPP/RNB1KBNR b KQkq - 0 4",
        "r1bqkbnr/pppp1ppp/2n5/4p3/4P3/5N2/PPPP1PPP/RNBQKB1R b KQkq - 4 3",
        "rnbqkbnr/pppppppp/8/8/4P3/8/PPPP1PPP/RNBQKBNR b KQkq - 1 2",
    ];
    let book = OpeningBook::new();
    for fen in positions {
        let board = Board::from_fen(fen).unwrap();
        for depth in 1..=3u8 {
            let mut table: HashMap<u64, (u8, i32, Option<(Loc, Loc)>)> = HashMap::new();
            let pruned = minimax(
                &board,
                false,
                depth,
                i32::MIN,
                i32::MAX,
                &mut table,
                &book,
                0,
                0,
                u64::MAX,
                false,
            );
            let plain = minimax_plain(&board, false, depth);
            assert_eq!(pruned, plain);
        }
    }
}

#[test]
fn deep_enough_table_entries_are_reused_verbatim() {
    // A stored result from at least the wanted depth short-circuits the
    // search and comes back exactly as stored.
    let mut board = start_board();
    board.move_piece(&Loc(0, 6), &Loc(0, 5), true);
    let stored_move = Some((Loc(4, 1), Loc(4, 3)));
    let mut table: HashMap<u64, (u8, i32, Option<(Loc, Loc)>)> = HashMap::new();
    table.insert(board.hash, (5, 1234, stored_move));
    let book = OpeningBook::new();
    let r = minimax(
        &board,
        false,
        3,
        i32::MIN,
        i32::MAX,
        &mut table,
        &book,
        0,
        0,
        u64::MAX,
        false,
    );
    assert_eq!(r, (1234, stored_move));
    // a shallower entry is not reused, and is deepened in place
    let mut shallow: HashMap<u64, (u8, i32, Option<(Loc, Loc)>)> = HashMap::new();
    shallow.insert(board.hash, (1, 1234, stored_move));
    let r2 = minimax(
        &board,
        false,
        3,
        i32::MIN,
        i32::MAX,
        &mut shallow,
        &book,
        0,
        0,
        u64::MAX,
        false,
    );
    assert_ne!(r2, (1234, stored_move));
    assert_eq!(shallow.get(&board.hash).map(|e| e.0), Some(3));
}
