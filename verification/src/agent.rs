//! Agents that pick a move for the side the engine plays: a random agent and
//! a minimax search with alpha-beta pruning, sorted move ordering, a
//! transposition table, an opening book and iterative deepening under a time
//! budget.  The antimax variant runs the same search with the sign convention
//! flipped, playing deliberately badly.

use vstd::prelude::*;

use std::collections::HashMap;

use crate::apply::{apply_model, legal_moves_spec, movelist_ok, MAX_HALF_MOVES};
use crate::board::{at, Board, BoardModel};
use crate::eval::{lemma_sorted_moves_legal, sorted_moves_spec};
use crate::piece::Piece;
use crate::book::{book_ok, OpeningBook};
use crate::loc::Loc;
use crate::piece::{ChessColor, PieceNames};

verus! {

broadcast use vstd::std_specs::hash::group_hash_axioms;

/// The sentinel score of a forced (book or opening-table) move.
pub const MAX_SCORE: i32 = 0x7FFFFFFE;

/// The sentinel score that signals the time budget ran out mid-search.
pub const TIMEOUT_SCORE: i32 = 0x7FFFFFFD;

/// Relies on `std::time::SystemTime`: the milliseconds since the Unix epoch.
/// Nothing is assumed of the value; the clock may even move backwards.
#[verifier::external_body]
fn now_millis() -> u64 {
    std::time::SystemTime::now().duration_since(std::time::UNIX_EPOCH).map(
        |d| d.as_millis() as u64,
    ).unwrap_or(0)
}

/// Picks among the agent's legal moves by reducing `pick` modulo their
/// count; `None` exactly when the agent has no legal move.
pub fn random_agent(board: &Board, pick: u64) -> (r: Option<(Loc, Loc)>)
    requires
        board.wf(),
        board.half_moves <= MAX_HALF_MOVES,
    ensures
        ({
            let moves = legal_moves_spec(board.abs(), board.agent_color);
            if moves.len() == 0 {
                r is None
            } else {
                r == Some(moves[(pick as int) % (moves.len() as int)])
            }
        }),
        r matches Some(mv) ==> mv.0.valid() && mv.1.valid(),
{
    let moves = board.moves(board.agent_color);
    if moves.len() == 0 {
        None
    } else {
        let i = (pick % (moves.len() as u64)) as usize;
        Some(moves[i])
    }
}

/// Every move stored in a transposition table lies on the board, and no
/// stored score is one of the search sentinels: sentinels are signals, never
/// results to remember.
pub open spec fn tt_ok(t: Map<u64, (u8, i32, Option<(Loc, Loc)>)>) -> bool {
    forall|k: u64|
        t.contains_key(k) ==> {
            let e = #[trigger] t[k];
            &&& (e.2 matches Some(mv) ==> mv.0.valid() && mv.1.valid())
            &&& e.1 != MAX_SCORE
            &&& e.1 != TIMEOUT_SCORE
        }
}

/// The recorded replies to a first move reaching e4.
pub open spec fn e4_replies() -> Seq<(Loc, Loc)> {
    seq![(Loc(4, 1), Loc(4, 3)), (Loc(4, 1), Loc(4, 2)), (Loc(2, 1), Loc(2, 3))]
}

/// The recorded replies to a first move reaching d4.
pub open spec fn d4_replies() -> Seq<(Loc, Loc)> {
    seq![(Loc(3, 1), Loc(3, 3)), (Loc(6, 0), Loc(5, 2)), (Loc(1, 0), Loc(2, 2))]
}

/// The recorded replies to a first move reaching c4.
pub open spec fn c4_replies() -> Seq<(Loc, Loc)> {
    seq![(Loc(4, 1), Loc(4, 3)), (Loc(6, 0), Loc(5, 2))]
}

/// The recorded replies to a first knight move reaching f3.
pub open spec fn nf3_replies() -> Seq<(Loc, Loc)> {
    seq![(Loc(4, 1), Loc(4, 3)), (Loc(6, 0), Loc(5, 2))]
}

/// The fixed reply the table gives for this grid, chosen by `pick`.
pub open spec fn first_reply_spec(g: Seq<Option<Piece>>, pick: u64) -> Option<(Loc, Loc)> {
    if at(g, Loc(4, 4)) matches Some(p) && p.name == PieceNames::Pawn {
        Some(e4_replies()[(pick as int) % 3])
    } else if at(g, Loc(3, 4)) matches Some(p) && p.name == PieceNames::Pawn {
        Some(d4_replies()[(pick as int) % 3])
    } else if at(g, Loc(2, 4)) matches Some(p) && p.name == PieceNames::Pawn {
        Some(c4_replies()[(pick as int) % 2])
    } else if at(g, Loc(5, 5)) matches Some(p) && p.name == PieceNames::Knight {
        Some(nf3_replies()[(pick as int) % 2])
    } else {
        None
    }
}

/// The fixed first-move reply a normal search returns before anything else:
/// only when it answers the very first move of a game as black.
pub open spec fn reply_stage(m: BoardModel, pick: u64, antimax: bool) -> Option<(Loc, Loc)> {
    if !antimax && m.half_moves / 2 == 0 && m.agent_color == ChessColor::Black {
        first_reply_spec(m.grid, pick)
    } else {
        None
    }
}

/// The book continuation a normal search returns when the position's hash is
/// recorded, chosen by `pick`.
pub open spec fn book_stage(m: BoardModel, book: OpeningBook, pick: u64, antimax: bool) -> Option<
    (Loc, Loc),
> {
    if !antimax && book.entries@.contains_key(m.hash) && book.entries@[m.hash]@.len() > 0 {
        Some(
            book.entries@[m.hash]@[(pick as int) % (book.entries@[m.hash]@.len() as int)].0,
        )
    } else {
        None
    }
}

/// The engine's fixed replies to the four most common first moves, tried
/// before anything else when it answers the very first move of a game: a
/// known square the opening move reaches, the kind that reached it, and the
/// recorded replies.
fn first_move_responses(board: &Board, pick: u64) -> (r: Option<(Loc, Loc)>)
    requires
        board.wf(),
    ensures
        r == first_reply_spec(board.grid@, pick),
        r matches Some(mv) ==> mv.0.valid() && mv.1.valid(),
{
    // e4 -> e5, e6, c5
    if let Some(piece) = board.get(&Loc(4, 4)) {
        if piece.name == PieceNames::Pawn {
            let j = (pick % 3) as usize;
            let mv = if j == 0 {
                (Loc(4, 1), Loc(4, 3))
            } else if j == 1 {
                (Loc(4, 1), Loc(4, 2))
            } else {
                (Loc(2, 1), Loc(2, 3))
            };
            proof {
                assert(j as int == (pick as int) % 3);
                assert(mv == e4_replies()[(pick as int) % 3]);
            }
            return Some(mv);
        }
    }
    // d4 -> d5, Nf6, Nc6
    if let Some(piece) = board.get(&Loc(3, 4)) {
        if piece.name == PieceNames::Pawn {
            let j = (pick % 3) as usize;
            let mv = if j == 0 {
                (Loc(3, 1), Loc(3, 3))
            } else if j == 1 {
                (Loc(6, 0), Loc(5, 2))
            } else {
                (Loc(1, 0), Loc(2, 2))
            };
            proof {
                assert(j as int == (pick as int) % 3);
                assert(mv == d4_replies()[(pick as int) % 3]);
            }
            return Some(mv);
        }
    }
    // c4 -> e5, Nf6
    if let Some(piece) = board.get(&Loc(2, 4)) {
        if piece.name == PieceNames::Pawn {
            let j = (pick % 2) as usize;
            let mv = if j == 0 {
                (Loc(4, 1), Loc(4, 3))
            } else {
                (Loc(6, 0), Loc(5, 2))
            };
            proof {
                assert(j as int == (pick as int) % 2);
                assert(mv == c4_replies()[(pick as int) % 2]);
            }
            return Some(mv);
        }
    }
    // Nf3 -> e5, Nf6
    if let Some(piece) = board.get(&Loc(5, 5)) {
        if piece.name == PieceNames::Knight {
            let j = (pick % 2) as usize;
            let mv = if j == 0 {
                (Loc(4, 1), Loc(4, 3))
            } else {
                (Loc(6, 0), Loc(5, 2))
            };
            proof {
                assert(j as int == (pick as int) % 2);
                assert(mv == nf3_replies()[(pick as int) % 2]);
            }
            return Some(mv);
        }
    }
    None
}

/// The value and move of the pure alpha-beta search: as `mm_spec`, but each
/// child narrows the window and the fold stops once it closes.
pub open spec fn ab_spec(
    m: BoardModel,
    maximizing: bool,
    depth: nat,
    alpha: int,
    beta: int,
) -> (int, Option<(Loc, Loc)>)
    decreases depth, 1int, 0int,
{
    if depth == 0 || m.state.over() {
        (m.score, None::<(Loc, Loc)>)
    } else {
        ab_loop(
            m,
            maximizing,
            depth,
            sorted_moves_spec(m, m.turn),
            0,
            alpha,
            beta,
            if maximizing {
                i32::MIN as int
            } else {
                i32::MAX as int
            },
            None,
        )
    }
}

/// The pruned fold from move `i` on, with the current window and the best
/// score and move so far.
pub open spec fn ab_loop(
    m: BoardModel,
    maximizing: bool,
    depth: nat,
    moves: Seq<(Loc, Loc)>,
    i: int,
    alpha: int,
    beta: int,
    best_score: int,
    best_move: Option<(Loc, Loc)>,
) -> (int, Option<(Loc, Loc)>)
    decreases depth, 0int, moves.len() - i,
{
    if depth == 0 || i < 0 || i >= moves.len() {
        (best_score, best_move)
    } else {
        let s = ab_spec(
            apply_model(m, moves[i].0, moves[i].1, false),
            !maximizing,
            (depth - 1) as nat,
            alpha,
            beta,
        ).0;
        let improves = (maximizing && s > best_score) || (!maximizing && s < best_score);
        let bs2 = if improves {
            s
        } else {
            best_score
        };
        let bm2 = if improves {
            Some(moves[i])
        } else {
            best_move
        };
        let alpha2 = if maximizing && s > alpha {
            s
        } else {
            alpha
        };
        let beta2 = if !maximizing && s < beta {
            s
        } else {
            beta
        };
        if alpha2 >= beta2 {
            (bs2, bm2)
        } else {
            ab_loop(m, maximizing, depth, moves, i + 1, alpha2, beta2, bs2, bm2)
        }
    }
}

/// Minimax with alpha-beta pruning over best-first sorted moves, with an
/// opening book and a fixed-reply table short-circuiting the root of normal
/// play, a transposition table of results from at least the wanted depth,
/// and a cooperative timeout.  On a finished board or at depth zero the
/// board's own score comes back; a reply-table or book hit returns that
/// exact move under the forced-move sentinel; a stored result from at least
/// the wanted depth is returned as stored, and entries are only ever
/// replaced by deeper results.  When the table starts empty, any returned
/// move is a legal, reply-table or book move, and the result is the pure
/// alpha-beta value unless a sentinel reports a timeout or a forced line.
#[verifier::loop_isolation(false)]
#[verifier::rlimit(100)]
pub fn minimax(
    board: &Board,
    maximizing: bool,
    depth: u8,
    alpha: i32,
    beta: i32,
    trans_table: &mut HashMap<u64, (u8, i32, Option<(Loc, Loc)>)>,
    book: &OpeningBook,
    pick: u64,
    start_time: u64,
    budget_millis: u64,
    antimax: bool,
) -> (r: (i32, Option<(Loc, Loc)>))
    requires
        board.wf(),
        board.half_moves + depth <= MAX_HALF_MOVES,
        board.turn == (if maximizing != antimax {
            ChessColor::White
        } else {
            ChessColor::Black
        }),
        tt_ok(old(trans_table)@),
        book_ok(*book),
    ensures
        tt_ok(final(trans_table)@),
        final(trans_table)@.dom() == old(trans_table)@.dom(),
        forall|h: u64|
            old(trans_table)@.contains_key(h) ==> (#[trigger] final(trans_table)@[h]).0 >= old(
                trans_table,
            )@[h].0,
        r.1 matches Some(mv) ==> mv.0.valid() && mv.1.valid(),
        (depth == 0 || board.state.over()) ==> r == (board.score, None::<(Loc, Loc)>),
        depth > 0 && !board.state.over() ==> (r.0 == TIMEOUT_SCORE ==> r.1 is None),
        depth > 0 && !board.state.over() ==> (r.0 == MAX_SCORE ==> r.1 is Some),
        depth > 0 && !board.state.over() && reply_stage(board.abs(), pick, antimax) is Some ==> r
            == (MAX_SCORE, reply_stage(board.abs(), pick, antimax)),
        depth > 0 && !board.state.over() && reply_stage(board.abs(), pick, antimax) is None
            && book_stage(board.abs(), *book, pick, antimax) is Some ==> r == (
        MAX_SCORE,
        book_stage(board.abs(), *book, pick, antimax),
        ),
        depth > 0 && !board.state.over() && reply_stage(board.abs(), pick, antimax) is None
            && book_stage(board.abs(), *book, pick, antimax) is None && old(
            trans_table,
        )@.contains_key(board.hash) && old(trans_table)@[board.hash].0 >= depth ==> r == (
        old(trans_table)@[board.hash].1,
        old(trans_table)@[board.hash].2,
        ),
        old(trans_table)@ == Map::<u64, (u8, i32, Option<(Loc, Loc)>)>::empty() ==> (r.1
            matches Some(mv) ==> (reply_stage(board.abs(), pick, antimax) == Some(mv)
            || book_stage(board.abs(), *book, pick, antimax) == Some(mv) || legal_moves_spec(
            board.abs(),
            board.turn,
        ).contains(mv))),
        depth > 0 && !board.state.over() && reply_stage(board.abs(), pick, antimax) is None
            && book_stage(board.abs(), *book, pick, antimax) is None && old(trans_table)@
            == Map::<u64, (u8, i32, Option<(Loc, Loc)>)>::empty() ==> (r.0 == TIMEOUT_SCORE
            || r.0 == MAX_SCORE || (r.0 as int == ab_spec(
            board.abs(),
            maximizing,
            depth as nat,
            alpha as int,
            beta as int,
        ).0 && r.1 == ab_spec(
            board.abs(),
            maximizing,
            depth as nat,
            alpha as int,
            beta as int,
        ).1)),
    decreases depth,
{
    let ghost m = board.abs();
    // Base case
    if depth == 0 || board.is_over() {
        return (board.score, None);
    }

    if !antimax {
        // The very first move of a game gets a fixed reply
        if board.full_moves() == 0 && board.agent_color == ChessColor::Black {
            if let Some(mv) = first_move_responses(board, pick) {
                proof {
                    assert(reply_stage(m, pick, antimax) == Some(mv));
                }
                return (MAX_SCORE, Some(mv));
            }
        }
        proof {
            assert(reply_stage(m, pick, antimax) is None);
        }

        // Openings
        if let Some(entries) = book.lookup(board.hash) {
            if entries.len() > 0 {
                let j = (pick % (entries.len() as u64)) as usize;
                let e = &entries[j];
                proof {
                    assert(j as int == (pick as int) % (book.entries@[m.hash]@.len() as int));
                    assert(book_stage(m, *book, pick, antimax) == Some(e.0));
                }
                return (MAX_SCORE, Some(e.0));
            }
        }
        proof {
            assert(book_stage(m, *book, pick, antimax) is None);
        }
    }
    proof {
        assert(reply_stage(m, pick, antimax) is None);
        assert(book_stage(m, *book, pick, antimax) is None);
    }

    // Reuse a stored result that searched at least this deep
    let mut greater_depth = false;
    match trans_table.get(&board.hash) {
        Some(stored) => {
            if stored.0 >= depth {
                return (stored.1, stored.2);
            }
            greater_depth = true;
        },
        None => {},
    }

    // Iterate the sorted legal moves of the side to move
    let moves = board.get_sorted_moves(board.turn);

    let mut best_score: i32 = if maximizing {
        i32::MIN
    } else {
        i32::MAX
    };
    let mut best_move: Option<(Loc, Loc)> = None;
    let ghost alpha0 = alpha as int;
    let ghost beta0 = beta as int;
    let ghost tt_empty = old(trans_table)@ == Map::<u64, (u8, i32, Option<(Loc, Loc)>)>::empty();
    let mut alpha = alpha;
    let mut beta = beta;

    let mut pruned = false;
    let mut k: usize = 0;
    while k < moves.len() && !pruned
        invariant
            k <= moves@.len(),
            tt_ok(trans_table@),
            trans_table@.dom() == old(trans_table)@.dom(),
            forall|h: u64|
                old(trans_table)@.contains_key(h) ==> (#[trigger] trans_table@[h]).0 >= old(
                    trans_table,
                )@[h].0,
            best_score != MAX_SCORE,
            best_score != TIMEOUT_SCORE,
            best_move matches Some(mv) ==> moves@.contains(mv) && mv.0.valid() && mv.1.valid(),
            tt_empty && !pruned ==> ab_spec(m, maximizing, depth as nat, alpha0, beta0)
                == ab_loop(
                m,
                maximizing,
                depth as nat,
                moves@,
                k as int,
                alpha as int,
                beta as int,
                best_score as int,
                best_move,
            ),
            tt_empty && pruned ==> ab_spec(m, maximizing, depth as nat, alpha0, beta0) == (
            best_score as int,
            best_move,
            ),
            tt_empty ==> trans_table@ == Map::<u64, (u8, i32, Option<(Loc, Loc)>)>::empty(),
        decreases moves@.len() - k + (if pruned {
            0int
        } else {
            1int
        }),
    {
        let ghost pre_alpha = alpha as int;
        let ghost pre_beta = beta as int;
        let ghost pre_best = best_score as int;
        let ghost pre_bm = best_move;
        let (from, to) = moves[k];
        proof {
            assert(movelist_ok(board.abs(), moves@));
            assert({
                let mv = moves@[k as int];
                mv.0.valid() && mv.1.valid()
            });
        }
        let mut test_board = board.clone_board();
        proof {
            assert(test_board.abs() == board.abs());
        }
        test_board.move_piece(&from, &to, false);
        proof {
            assert(crate::board::at(m.grid, from) is Some);
            assert(test_board.abs() == apply_model(m, from, to, false));
            assert(test_board.abs().half_moves == m.half_moves + 1);
            assert(test_board.abs().turn == m.turn.spec_other());
        }

        let ghost tt_before = trans_table@;
        let (score, _) = minimax(
            &test_board,
            !maximizing,
            depth - 1,
            alpha,
            beta,
            trans_table,
            book,
            pick,
            start_time,
            budget_millis,
            antimax,
        );
        proof {
            assert forall|h: u64| old(trans_table)@.contains_key(h) implies (
            #[trigger] trans_table@[h]).0 >= old(trans_table)@[h].0 by {
                assert(tt_before.contains_key(h));
                assert(trans_table@[h].0 >= tt_before[h].0);
                assert(tt_before[h].0 >= old(trans_table)@[h].0);
            }
            if tt_empty {
                assert(trans_table@ =~= Map::<u64, (u8, i32, Option<(Loc, Loc)>)>::empty());
            }
        }

        if score == MAX_SCORE {
            proof {
                assert(moves@.contains(moves@[k as int]));
                lemma_sorted_moves_legal(m, m.turn, (from, to));
            }
            return (score, Some((from, to)));
        }

        // A timed-out subtree poisons the whole pass: hand the sentinel up
        if score == TIMEOUT_SCORE {
            return (TIMEOUT_SCORE, None);
        }

        // Break if taking too long
        let now = now_millis();
        if now > start_time && now - start_time > budget_millis {
            return (TIMEOUT_SCORE, None);
        }
        proof {
            if tt_empty {
                let child = apply_model(m, from, to, false);
                if depth - 1 == 0 || child.state.over() {
                    assert(score as int == child.score);
                    assert(score as int == ab_spec(
                        child,
                        !maximizing,
                        (depth - 1) as nat,
                        pre_alpha,
                        pre_beta,
                    ).0);
                } else {
                    if reply_stage(child, pick, antimax) is Some {
                        assert(score == MAX_SCORE);
                        assert(false);
                    }
                    if book_stage(child, *book, pick, antimax) is Some {
                        assert(score == MAX_SCORE);
                        assert(false);
                    }
                    assert(score as int == ab_spec(
                        child,
                        !maximizing,
                        (depth - 1) as nat,
                        pre_alpha,
                        pre_beta,
                    ).0);
                }
            }
        }

        // Update the best score and best move
        if (maximizing && score > best_score) || (!maximizing && score < best_score) {
            best_score = score;
            best_move = Some((from, to));
            proof {
                assert(moves@.contains(moves@[k as int]));
            }
        }

        // Update alpha and beta
        if maximizing {
            if score > alpha {
                alpha = score;
            }
        } else {
            if score < beta {
                beta = score;
            }
        }

        proof {
            if tt_empty {
                assert(ab_loop(
                    m,
                    maximizing,
                    depth as nat,
                    moves@,
                    k as int,
                    pre_alpha,
                    pre_beta,
                    pre_best,
                    pre_bm,
                ) == (if (alpha as int) >= (beta as int) {
                    (best_score as int, best_move)
                } else {
                    ab_loop(
                        m,
                        maximizing,
                        depth as nat,
                        moves@,
                        k as int + 1,
                        alpha as int,
                        beta as int,
                        best_score as int,
                        best_move,
                    )
                }));
            }
        }

        // Prune once the window is closed
        if alpha >= beta {
            pruned = true;
        } else {
            k += 1;
        }
    }

    // Store the result when it deepens an existing entry
    if greater_depth {
        trans_table.insert(board.hash, (depth, best_score, best_move));
        proof {
            assert(trans_table@.dom() =~= old(trans_table)@.dom());
        }
    }
    proof {
        match best_move {
            Some(mv) => {
                lemma_sorted_moves_legal(m, m.turn, mv);
            },
            None => {},
        }
    }
    (best_score, best_move)
}

/// Iterative deepening around `minimax`: keep searching one ply deeper until
/// the budget runs out, returning the best move of the last completed depth.
/// `None` comes back when the game is already over (or nothing completed);
/// any returned move is a legal, reply-table or book move.
pub fn minimax_agent(
    board: &Board,
    book: &OpeningBook,
    pick: u64,
    budget_millis: u64,
    antimax: bool,
) -> (r: Option<(Loc, Loc)>)
    requires
        board.wf(),
        board.half_moves + 255 <= MAX_HALF_MOVES,
        board.turn == ChessColor::Black,
        book_ok(*book),
    ensures
        board.state.over() ==> r is None,
        r matches Some(mv) ==> mv.0.valid() && mv.1.valid(),
        r matches Some(mv) ==> (legal_moves_spec(board.abs(), ChessColor::Black).contains(mv)
            || reply_stage(board.abs(), pick, antimax) == Some(mv) || book_stage(
            board.abs(),
            *book,
            pick,
            antimax,
        ) == Some(mv)),
{
    if board.is_over() {
        return None;
    }

    let mut trans_table: HashMap<u64, (u8, i32, Option<(Loc, Loc)>)> = HashMap::new();
    let start_time = now_millis();

    let mut best_move: Option<(Loc, Loc)> = None;
    let mut i: u8 = 1;
    loop
        invariant
            board.wf(),
            board.half_moves + 255 <= MAX_HALF_MOVES,
            board.turn == ChessColor::Black,
            book_ok(*book),
            tt_ok(trans_table@),
            trans_table@ == Map::<u64, (u8, i32, Option<(Loc, Loc)>)>::empty(),
            i >= 1,
            best_move matches Some(mv) ==> mv.0.valid() && mv.1.valid(),
            best_move matches Some(mv) ==> (legal_moves_spec(
                board.abs(),
                ChessColor::Black,
            ).contains(mv) || reply_stage(board.abs(), pick, antimax) == Some(mv) || book_stage(
                board.abs(),
                *book,
                pick,
                antimax,
            ) == Some(mv)),
        decreases 256 - i,
    {
        let (score, bm) = minimax(
            board,
            antimax,
            i,
            i32::MIN,
            i32::MAX,
            &mut trans_table,
            book,
            pick,
            start_time,
            budget_millis,
            antimax,
        );

        proof {
            assert(trans_table@ =~= Map::<u64, (u8, i32, Option<(Loc, Loc)>)>::empty());
        }
        let now = now_millis();
        if (now > start_time && now - start_time > budget_millis) || score == TIMEOUT_SCORE {
            break ;
        }

        best_move = bm;
        if score == MAX_SCORE {
            break ;
        }
        if i == 255 {
            break ;
        }
        i += 1;
    }

    best_move
}

/// The agents a board can be played by.
#[derive(Clone, Copy, Debug, PartialEq, Eq, Structural)]
pub enum Agent {
    Minimax,
    Antimax,
    Control,
    Random,
}

impl Agent {
    /// The move this agent picks, or `None` for the manual agent and for
    /// finished games.  Randomness comes in as `pick`; the time budget for
    /// the searching agents as `budget_millis`.
    pub fn get_move(
        &self,
        board: &Board,
        book: &OpeningBook,
        pick: u64,
        budget_millis: u64,
    ) -> (r: Option<(Loc, Loc)>)
        requires
            board.wf(),
            board.half_moves + 255 <= MAX_HALF_MOVES,
            (*self == Agent::Minimax || *self == Agent::Antimax) ==> board.turn
                == ChessColor::Black,
            book_ok(*book),
        ensures
            r matches Some(mv) ==> mv.0.valid() && mv.1.valid(),
            *self == Agent::Control ==> r is None,
            *self == Agent::Random ==> ({
                let moves = legal_moves_spec(board.abs(), board.agent_color);
                if moves.len() == 0 {
                    r is None
                } else {
                    r == Some(moves[(pick as int) % (moves.len() as int)])
                }
            }),
            *self == Agent::Minimax ==> (r matches Some(mv) ==> (legal_moves_spec(
                board.abs(),
                ChessColor::Black,
            ).contains(mv) || reply_stage(board.abs(), pick, false) == Some(mv) || book_stage(
                board.abs(),
                *book,
                pick,
                false,
            ) == Some(mv))),
            *self == Agent::Antimax ==> (r matches Some(mv) ==> legal_moves_spec(
                board.abs(),
                ChessColor::Black,
            ).contains(mv)),
            (*self == Agent::Minimax || *self == Agent::Antimax) && board.state.over() ==> r
                is None,
    {
        match self {
            Agent::Minimax => minimax_agent(board, book, pick, budget_millis, false),
            Agent::Antimax => minimax_agent(board, book, pick, budget_millis, true),
            Agent::Random => random_agent(board, pick),
            Agent::Control => None,
        }
    }
}

} // verus!

verus! {

/// The value and move of a plain minimax search: at depth zero or on a
/// finished board the board's own score; otherwise the fold over the sorted
/// moves of the side to move, keeping the first strict improvement.
pub open spec fn mm_spec(m: BoardModel, maximizing: bool, depth: nat) -> (
    int,
    Option<(Loc, Loc)>,
)
    decreases depth, 1int, 0int,
{
    if depth == 0 || m.state.over() {
        (m.score, None::<(Loc, Loc)>)
    } else {
        mm_loop(
            m,
            maximizing,
            depth,
            sorted_moves_spec(m, m.turn),
            0,
            if maximizing {
                i32::MIN as int
            } else {
                i32::MAX as int
            },
            None,
        )
    }
}

/// The plain minimax fold from move `i` on, with the best score and move so
/// far.
pub open spec fn mm_loop(
    m: BoardModel,
    maximizing: bool,
    depth: nat,
    moves: Seq<(Loc, Loc)>,
    i: int,
    best_score: int,
    best_move: Option<(Loc, Loc)>,
) -> (int, Option<(Loc, Loc)>)
    decreases depth, 0int, moves.len() - i,
{
    if depth == 0 || i < 0 || i >= moves.len() {
        (best_score, best_move)
    } else {
        let s = mm_spec(
            apply_model(m, moves[i].0, moves[i].1, false),
            !maximizing,
            (depth - 1) as nat,
        ).0;
        if (maximizing && s > best_score) || (!maximizing && s < best_score) {
            mm_loop(m, maximizing, depth, moves, i + 1, s, Some(moves[i]))
        } else {
            mm_loop(m, maximizing, depth, moves, i + 1, best_score, best_move)
        }
    }
}

/// Full minimax without pruning, transposition table, book or clock: the
/// reference the pruned search is measured against.  Pruning must change
/// neither the move nor the score, only the number of nodes visited.
pub fn minimax_plain(board: &Board, maximizing: bool, depth: u8) -> (r: (i32, Option<(Loc, Loc)>))
    requires
        board.wf(),
        board.half_moves + depth <= MAX_HALF_MOVES,
    ensures
        r.0 as int == mm_spec(board.abs(), maximizing, depth as nat).0,
        r.1 == mm_spec(board.abs(), maximizing, depth as nat).1,
        r.1 matches Some(mv) ==> mv.0.valid() && mv.1.valid(),
        (depth == 0 || board.state.over()) ==> r == (board.score, None::<(Loc, Loc)>),
    decreases depth,
{
    if depth == 0 || board.is_over() {
        return (board.score, None);
    }

    let ghost m = board.abs();
    let moves = board.get_sorted_moves(board.turn);

    let mut best_score: i32 = if maximizing {
        i32::MIN
    } else {
        i32::MAX
    };
    let mut best_move: Option<(Loc, Loc)> = None;

    let mut k: usize = 0;
    while k < moves.len()
        invariant
            board.wf(),
            board.half_moves + depth <= MAX_HALF_MOVES,
            depth >= 1,
            m == board.abs(),
            moves@ == sorted_moves_spec(m, m.turn),
            k <= moves@.len(),
            crate::apply::movelist_ok(board.abs(), moves@),
            best_move matches Some(mv) ==> mv.0.valid() && mv.1.valid(),
            mm_spec(m, maximizing, depth as nat) == mm_loop(
                m,
                maximizing,
                depth as nat,
                moves@,
                k as int,
                best_score as int,
                best_move,
            ),
        decreases moves@.len() - k,
    {
        let (from, to) = moves[k];
        let mut test_board = board.clone_board();
        proof {
            assert(test_board.abs() == board.abs());
        }
        test_board.move_piece(&from, &to, false);
        proof {
            assert(crate::board::at(m.grid, from) is Some);
            assert(test_board.abs() == apply_model(m, from, to, false));
            assert(test_board.abs().half_moves == m.half_moves + 1);
        }

        let (score, _) = minimax_plain(&test_board, !maximizing, depth - 1);

        if (maximizing && score > best_score) || (!maximizing && score < best_score) {
            best_score = score;
            best_move = Some((from, to));
        }
        k += 1;
    }

    (best_score, best_move)
}

} // verus!
