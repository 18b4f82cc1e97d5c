//! Move application and the derived state it refreshes: attack tables, check
//! flags, blockers, legal move lists, game state, endgame flag and score.

use vstd::prelude::*;

use crate::board::{at, capture_loc, grid_wf, Board, BoardModel, BoardState};
use crate::loc::{dist, loc_of, Loc};
use crate::movegen::piece_attacks_spec;
use crate::piece::{ChessColor, Piece, PieceNames};

verus! {

/// Square `i` holds a piece of color `c` that attacks square `l`.
pub open spec fn attacker_at(g: Seq<Option<Piece>>, c: ChessColor, l: Loc, i: int) -> bool {
    g[i] matches Some(p) && p.color == c && piece_attacks_spec(g, p).contains(l)
}

/// Some piece of color `c` among the first `n` squares attacks square `l`.
pub open spec fn attacked_prefix(
    g: Seq<Option<Piece>>,
    c: ChessColor,
    l: Loc,
    n: int,
) -> bool {
    exists|i: int| 0 <= i < n && #[trigger] attacker_at(g, c, l, i)
}

/// Some piece of color `c` attacks square `l`.
pub open spec fn attacked(g: Seq<Option<Piece>>, c: ChessColor, l: Loc) -> bool {
    attacked_prefix(g, c, l, 64)
}

/// The 64 attack flags of a color.
pub open spec fn attacks_map(g: Seq<Option<Piece>>, c: ChessColor) -> Seq<bool> {
    Seq::new(64, |j: int| attacked(g, c, loc_of(j)))
}

/// The flag table after the first `k` listed squares have been marked
/// attacked.
pub open spec fn mark_prefix(res: Seq<bool>, locs: Seq<Loc>, k: int) -> Seq<bool>
    decreases k,
{
    if k <= 0 {
        res
    } else {
        mark_prefix(res, locs, k - 1).update(locs[k - 1].index(), true)
    }
}

/// The flag table after the attacks of every piece of color `c` on the first
/// `i` squares have been marked.
pub open spec fn attacks_acc(
    g: Seq<Option<Piece>>,
    c: ChessColor,
    res: Seq<bool>,
    i: int,
) -> Seq<bool>
    decreases i,
{
    if i <= 0 {
        res
    } else {
        let prev = attacks_acc(g, c, res, i - 1);
        match g[i - 1] {
            Some(p) => if p.color == c {
                mark_prefix(prev, piece_attacks_spec(g, p), piece_attacks_spec(g, p).len() as int)
            } else {
                prev
            },
            None => prev,
        }
    }
}

/// Marking sets exactly the listed squares.
pub proof fn lemma_mark_prefix(res: Seq<bool>, locs: Seq<Loc>, k: int)
    requires
        res.len() == 64,
        forall|q: int| 0 <= q < locs.len() ==> (#[trigger] locs[q]).valid(),
        0 <= k <= locs.len(),
    ensures
        mark_prefix(res, locs, k).len() == 64,
        forall|j: int|
            0 <= j < 64 ==> #[trigger] mark_prefix(res, locs, k)[j] == (res[j] || exists|q: int|
                0 <= q < k && (#[trigger] locs[q]) == loc_of(j)),
    decreases k,
{
    if k > 0 {
        lemma_mark_prefix(res, locs, k - 1);
        let prev = mark_prefix(res, locs, k - 1);
        let cur = mark_prefix(res, locs, k);
        let tgt = locs[k - 1];
        crate::loc::lemma_loc_index(tgt, 0);
        assert forall|j: int| 0 <= j < 64 implies cur[j] == (res[j] || exists|q: int|
            0 <= q < k && (#[trigger] locs[q]) == loc_of(j)) by {
            crate::loc::lemma_loc_index(loc_of(j), j);
            if j == tgt.index() {
                assert(loc_of(j) == tgt);
                assert((#[trigger] locs[k - 1]) == loc_of(j));
                assert(cur[j]);
            } else {
                assert(cur[j] == prev[j]);
                if prev[j] && !res[j] {
                    let q = choose|q: int| 0 <= q < k - 1 && (#[trigger] locs[q]) == loc_of(j);
                    assert(0 <= q < k && locs[q] == loc_of(j));
                }
                if !prev[j] {
                    assert(!res[j]);
                    if exists|q: int| 0 <= q < k && (#[trigger] locs[q]) == loc_of(j) {
                        let q = choose|q: int| 0 <= q < k && (#[trigger] locs[q]) == loc_of(j);
                        if q < k - 1 {
                            assert(exists|q2: int|
                                0 <= q2 < k - 1 && (#[trigger] locs[q2]) == loc_of(j)) by {
                                assert(0 <= q < k - 1 && locs[q] == loc_of(j));
                            };
                            assert(prev[j]);
                        } else {
                            assert(q == k - 1);
                            assert(tgt == loc_of(j));
                        }
                        assert(false);
                    }
                }
            }
        }
    }
}

/// The accumulated marks say exactly which squares the first `i` squares'
/// pieces of color `c` attack.
pub proof fn lemma_attacks_acc(g: Seq<Option<Piece>>, c: ChessColor, res: Seq<bool>, i: int)
    requires
        grid_wf(g),
        res.len() == 64,
        forall|k: int| 0 <= k < 64 ==> !(#[trigger] res[k]),
        0 <= i <= 64,
    ensures
        attacks_acc(g, c, res, i).len() == 64,
        forall|j: int|
            0 <= j < 64 ==> attacks_acc(g, c, res, i)[j] == attacked_prefix(g, c, loc_of(j), i),
    decreases i,
{
    if i > 0 {
        lemma_attacks_acc(g, c, res, i - 1);
        let prev = attacks_acc(g, c, res, i - 1);
        let cur = attacks_acc(g, c, res, i);
        match g[i - 1] {
            Some(p0) => {
                if p0.color == c {
                    crate::movegen::lemma_piece_attacks_valid(g, p0);
                    lemma_mark_prefix(prev, piece_attacks_spec(g, p0), piece_attacks_spec(
                        g,
                        p0,
                    ).len() as int);
                    assert(cur == mark_prefix(prev, piece_attacks_spec(g, p0), piece_attacks_spec(
                        g,
                        p0,
                    ).len() as int));
                } else {
                    assert(cur == prev);
                }
            },
            None => {
                assert(cur == prev);
            },
        }
        assert forall|j: int| 0 <= j < 64 implies cur[j] == attacked_prefix(g, c, loc_of(j), i) by {
            let l2 = loc_of(j);
            crate::loc::lemma_loc_index(l2, j);
            match g[i - 1] {
                Some(p) => {
                    if p.color == c {
                        let locs = piece_attacks_spec(g, p);
                        if cur[j] {
                            if prev[j] {
                                let w = choose|w: int|
                                    0 <= w < i - 1 && #[trigger] attacker_at(g, c, l2, w);
                                assert(attacker_at(g, c, l2, w));
                                assert(attacked_prefix(g, c, l2, i));
                            } else {
                                let q = choose|q: int|
                                    0 <= q < locs.len() && (#[trigger] locs[q]) == l2;
                                assert(locs.contains(l2));
                                assert(attacker_at(g, c, l2, i - 1));
                                assert(attacked_prefix(g, c, l2, i));
                            }
                        } else {
                            if attacked_prefix(g, c, l2, i) {
                                let w = choose|w: int|
                                    0 <= w < i && #[trigger] attacker_at(g, c, l2, w);
                                if w < i - 1 {
                                    assert(attacked_prefix(g, c, l2, i - 1));
                                    assert(prev[j]);
                                    assert(cur[j] == (prev[j] || exists|q: int|
                                        0 <= q < locs.len() && (#[trigger] locs[q]) == l2));
                                    assert(false);
                                } else {
                                    assert(attacker_at(g, c, l2, i - 1));
                                    assert(locs.contains(l2));
                                    let q = choose|q: int| 0 <= q < locs.len() && locs[q] == l2;
                                    assert(exists|q2: int|
                                        0 <= q2 < locs.len() && (#[trigger] locs[q2]) == loc_of(
                                            j,
                                        )) by {
                                        assert(0 <= q < locs.len() && locs[q] == loc_of(j));
                                    };
                                    assert(cur[j]);
                                    assert(false);
                                }
                            }
                        }
                    } else {
                        assert(cur[j] == prev[j]);
                        assert(!attacker_at(g, c, l2, i - 1));
                        if attacked_prefix(g, c, l2, i) {
                            let w = choose|w: int|
                                0 <= w < i && #[trigger] attacker_at(g, c, l2, w);
                            assert(w < i - 1);
                            assert(attacked_prefix(g, c, l2, i - 1));
                        }
                        if attacked_prefix(g, c, l2, i - 1) {
                            let w = choose|w: int|
                                0 <= w < i - 1 && #[trigger] attacker_at(g, c, l2, w);
                            assert(attacked_prefix(g, c, l2, i));
                        }
                    }
                },
                None => {
                    assert(cur[j] == prev[j]);
                    assert(!attacker_at(g, c, l2, i - 1));
                    if attacked_prefix(g, c, l2, i) {
                        let w = choose|w: int| 0 <= w < i && #[trigger] attacker_at(g, c, l2, w);
                        assert(w < i - 1);
                        assert(attacked_prefix(g, c, l2, i - 1));
                    }
                    if attacked_prefix(g, c, l2, i - 1) {
                        let w = choose|w: int|
                            0 <= w < i - 1 && #[trigger] attacker_at(g, c, l2, w);
                        assert(attacked_prefix(g, c, l2, i));
                    }
                },
            }
        }
    }
}

/// The position of the last king of color `c` among the first `n` squares.
pub open spec fn last_king_prefix(g: Seq<Option<Piece>>, c: ChessColor, n: int) -> Option<Loc>
    decreases n,
{
    if n <= 0 {
        None
    } else if g[n - 1] matches Some(p) && p.name == PieceNames::King && p.color == c {
        Some(g[n - 1]->Some_0.pos)
    } else {
        last_king_prefix(g, c, n - 1)
    }
}

/// The position of color `c`'s king (the last one found when several exist).
pub open spec fn king_loc(g: Seq<Option<Piece>>, c: ChessColor) -> Option<Loc> {
    last_king_prefix(g, c, 64)
}

/// Color `c` is in check: its king stands on an attacked square.  A color
/// without a king counts as checked by convention.
pub open spec fn checked_color(g: Seq<Option<Piece>>, c: ChessColor) -> bool {
    match king_loc(g, c) {
        Some(l) => attacked(g, c.spec_other(), l),
        None => true,
    }
}

/// Square `j` holds a piece standing in the way of an enemy attacker,
/// according to the given attack tables.
pub open spec fn blocker_flag(
    g: Seq<Option<Piece>>,
    aw: Seq<bool>,
    ab: Seq<bool>,
    j: int,
) -> bool {
    ||| (aw[j] && (g[j] matches Some(p) && p.color == ChessColor::Black))
    ||| (ab[j] && (g[j] matches Some(p) && p.color == ChessColor::White))
}

/// The 64 blocker flags.
pub open spec fn blockers_from(g: Seq<Option<Piece>>, aw: Seq<bool>, ab: Seq<bool>) -> Seq<
    bool,
> {
    Seq::new(64, |j: int| blocker_flag(g, aw, ab, j))
}

/// How many of the first `n` squares are occupied.
pub open spec fn count_pieces_prefix(g: Seq<Option<Piece>>, n: int) -> int
    decreases n,
{
    if n <= 0 {
        0
    } else {
        count_pieces_prefix(g, n - 1) + (if g[n - 1] is Some {
            1int
        } else {
            0int
        })
    }
}

/// How many pieces of one kind stand among the first `n` squares.
pub open spec fn count_kind_prefix(g: Seq<Option<Piece>>, name: PieceNames, n: int) -> int
    decreases n,
{
    if n <= 0 {
        0
    } else {
        count_kind_prefix(g, name, n - 1) + (if g[n - 1] matches Some(p) && p.name == name {
            1int
        } else {
            0int
        })
    }
}

/// The endgame heuristic: the queens are gone, or the minor pieces do not
/// outnumber them.
pub open spec fn endgame_spec(g: Seq<Option<Piece>>) -> bool {
    ||| count_kind_prefix(g, PieceNames::Queen, 64) == 0
    ||| count_kind_prefix(g, PieceNames::Bishop, 64) + count_kind_prefix(g, PieceNames::Knight, 64)
        <= count_kind_prefix(g, PieceNames::Queen, 64)
}

/// How many of the first `n` recorded hashes equal `h`.
pub open spec fn count_hash_prefix(prev: Seq<u64>, h: u64, n: int) -> int
    decreases n,
{
    if n <= 0 {
        0
    } else {
        count_hash_prefix(prev, h, n - 1) + (if prev[n - 1] == h {
            1int
        } else {
            0int
        })
    }
}

/// The state a board's fields prove, in priority order: the fifty-move rule,
/// threefold repetition and bare kings each draw the game; one checked color
/// is checkmated without moves and checked with them; otherwise, when asked
/// to, an empty move list for the side to move is stalemate; any case left
/// keeps the previous state.
pub open spec fn state_model(m: BoardModel, check_stale: bool) -> BoardState {
    if m.half_moves - m.fifty_rule >= 50 {
        BoardState::Draw
    } else if count_hash_prefix(m.prev_states, m.hash, m.prev_states.len() as int) >= 3 {
        BoardState::Draw
    } else if count_pieces_prefix(m.grid, 64) == 2 {
        BoardState::Draw
    } else if m.check_white && !m.check_black {
        if m.moves_white.len() == 0 {
            BoardState::Checkmate(ChessColor::White)
        } else {
            BoardState::Check(ChessColor::White)
        }
    } else if !m.check_white && m.check_black {
        if m.moves_black.len() == 0 {
            BoardState::Checkmate(ChessColor::Black)
        } else {
            BoardState::Check(ChessColor::Black)
        }
    } else if !m.check_white && !m.check_black {
        if !check_stale {
            m.state
        } else {
            let mv = if m.turn == ChessColor::White {
                m.moves_white
            } else {
                m.moves_black
            };
            if mv.len() == 0 {
                BoardState::Stalemate
            } else {
                BoardState::Normal
            }
        }
    } else {
        m.state
    }
}

impl Board {
    /// The locations of the two kings, white first.
    pub fn kings(&self) -> (r: (Option<Loc>, Option<Loc>))
        requires
            self.wf(),
        ensures
            r.0 == king_loc(self.grid@, ChessColor::White),
            r.1 == king_loc(self.grid@, ChessColor::Black),
            r.0 matches Some(l) ==> l.valid(),
            r.1 matches Some(l) ==> l.valid(),
    {
        let mut white_king: Option<Loc> = None;
        let mut black_king: Option<Loc> = None;
        let mut i: usize = 0;
        while i < 64
            invariant
                self.wf(),
                i <= 64,
                white_king == last_king_prefix(self.grid@, ChessColor::White, i as int),
                black_king == last_king_prefix(self.grid@, ChessColor::Black, i as int),
                white_king matches Some(l) ==> l.valid(),
                black_king matches Some(l) ==> l.valid(),
            decreases 64 - i,
        {
            if let Some(piece) = self.grid[i] {
                if piece.name == PieceNames::King {
                    if piece.color == ChessColor::White {
                        white_king = Some(piece.pos);
                    } else {
                        black_king = Some(piece.pos);
                    }
                }
            }
            i += 1;
        }
        (white_king, black_king)
    }

    /// The attack table of one color: for each square, whether some piece of
    /// that color attacks it.
    pub fn attacks(&self, color: ChessColor) -> (res: Vec<bool>)
        requires
            self.wf(),
        ensures
            res@ == attacks_map(self.grid@, color),
    {
        let ghost g = self.grid@;
        let mut res: Vec<bool> = Vec::new();
        let mut j: usize = 0;
        while j < 64
            invariant
                j <= 64,
                res@.len() == j,
                forall|k: int| 0 <= k < j ==> !(#[trigger] res@[k]),
            decreases 64 - j,
        {
            res.push(false);
            j += 1;
        }
        let ghost init = res@;

        let mut i: usize = 0;
        while i < 64
            invariant
                self.wf(),
                g == self.grid@,
                i <= 64,
                init.len() == 64,
                forall|k: int| 0 <= k < 64 ==> !(#[trigger] init[k]),
                res@ == attacks_acc(g, color, init, i as int),
                res@.len() == 64,
            decreases 64 - i,
        {
            if let Some(piece) = self.grid[i] {
                if piece.color == color {
                    let locs = piece.attacks(self);
                    let ghost entry = res@;
                    proof {
                        crate::movegen::lemma_piece_attacks_valid(g, piece);
                    }
                    let mut k: usize = 0;
                    while k < locs.len()
                        invariant
                            self.wf(),
                            g == self.grid@,
                            k <= locs@.len(),
                            locs@ == piece_attacks_spec(g, piece),
                            forall|q: int| 0 <= q < locs@.len() ==> (#[trigger] locs@[q]).valid(),
                            entry.len() == 64,
                            res@ == mark_prefix(entry, locs@, k as int),
                            res@.len() == 64,
                        decreases locs@.len() - k,
                    {
                        let l = locs[k];
                        proof {
                            assert(locs@[k as int].valid());
                        }
                        let idx = l.idx();
                        res.set(idx, true);
                        k += 1;
                    }
                }
            }
            i += 1;
        }
        proof {
            lemma_attacks_acc(g, color, init, 64);
            assert(res@ =~= attacks_map(g, color));
        }
        res
    }

    /// Refresh the blocker flags from the attack tables.
    pub fn update_blockers(&mut self)
        requires
            old(self).wf(),
        ensures
            final(self).blockers@ == blockers_from(
                old(self).grid@,
                old(self).attacks_white@,
                old(self).attacks_black@,
            ),
            *final(self) == (Board { blockers: final(self).blockers, ..*old(self) }),
    {
        let ghost g = self.grid@;
        let mut bl: Vec<bool> = Vec::new();
        let mut j: usize = 0;
        while j < 64
            invariant
                self.wf(),
                *self == *old(self),
                g == self.grid@,
                j <= 64,
                bl@.len() == j,
                forall|k: int|
                    0 <= k < j ==> bl@[k] == blocker_flag(
                        g,
                        old(self).attacks_white@,
                        old(self).attacks_black@,
                        k,
                    ),
            decreases 64 - j,
        {
            let mut flag = false;
            if let Some(piece) = self.grid[j] {
                if self.attacks_white[j] && piece.color == ChessColor::Black {
                    flag = true;
                }
                if self.attacks_black[j] && piece.color == ChessColor::White {
                    flag = true;
                }
            }
            bl.push(flag);
            j += 1;
        }
        self.blockers = bl;
        proof {
            assert(self.blockers@ =~= blockers_from(
                old(self).grid@,
                old(self).attacks_white@,
                old(self).attacks_black@,
            ));
        }
    }

    /// Detect draws, check, checkmate and stalemate, in that priority order.
    fn detect_state(&mut self, check_stale: bool)
        requires
            old(self).wf(),
        ensures
            final(self).state == state_model(old(self).abs(), check_stale),
            *final(self) == (Board { state: final(self).state, ..*old(self) }),
    {
        // Fifty move rule
        if self.half_moves - self.fifty_rule >= 50 {
            self.state = BoardState::Draw;
            return ;
        }

        // Threefold repetition
        let mut sum: u32 = 0;
        let mut i: usize = 0;
        let n = self.prev_states.len();
        while i < n
            invariant
                self.wf(),
                *self == *old(self),
                n == self.prev_states@.len(),
                i <= n,
                sum as int == count_hash_prefix(self.prev_states@, self.hash, i as int),
                sum <= i,
                sum < 3,
            decreases n - i,
        {
            if self.prev_states[i] == self.hash {
                sum += 1;
                if sum >= 3 {
                    proof {
                        lemma_count_hash_monotonic(
                            self.prev_states@,
                            self.hash,
                            i as int + 1,
                            self.prev_states@.len() as int,
                        );
                    }
                    self.state = BoardState::Draw;
                    return ;
                }
            }
            i += 1;
        }

        // Draw by insufficient material
        let mut pieces: u32 = 0;
        let mut j: usize = 0;
        while j < 64
            invariant
                self.wf(),
                *self == *old(self),
                j <= 64,
                pieces as int == count_pieces_prefix(self.grid@, j as int),
                pieces <= j,
            decreases 64 - j,
        {
            if self.grid[j].is_some() {
                pieces += 1;
            }
            j += 1;
        }
        if pieces == 2 {
            self.state = BoardState::Draw;
            return ;
        }

        // Others
        match (self.check_white, self.check_black) {
            (true, false) => {
                if self.moves_white.len() == 0 {
                    self.state = BoardState::Checkmate(ChessColor::White)
                } else {
                    self.state = BoardState::Check(ChessColor::White)
                }
            },
            (false, true) => {
                if self.moves_black.len() == 0 {
                    self.state = BoardState::Checkmate(ChessColor::Black)
                } else {
                    self.state = BoardState::Check(ChessColor::Black)
                }
            },
            (false, false) => {
                if !check_stale {
                    return ;
                }
                let empty = if self.turn == ChessColor::White {
                    self.moves_white.len() == 0
                } else {
                    self.moves_black.len() == 0
                };
                if empty {
                    self.state = BoardState::Stalemate
                } else {
                    self.state = BoardState::Normal
                }
            },
            _ => {},
        }
    }
}

/// A count of matching hashes can only grow with the prefix.
pub proof fn lemma_count_hash_monotonic(prev: Seq<u64>, h: u64, n1: int, n2: int)
    requires
        0 <= n1 <= n2,
    ensures
        count_hash_prefix(prev, h, n1) <= count_hash_prefix(prev, h, n2),
    decreases n2 - n1,
{
    if n1 < n2 {
        lemma_count_hash_monotonic(prev, h, n1, n2 - 1);
    }
}

impl Board {
    /// Whether the board has reached the endgame: queens gone, or minors not
    /// outnumbering queens.
    fn compute_endgame(&self) -> (r: bool)
        requires
            self.wf(),
        ensures
            r == endgame_spec(self.grid@),
    {
        let mut queens: u32 = 0;
        let mut minors: u32 = 0;
        let mut j: usize = 0;
        while j < 64
            invariant
                self.wf(),
                j <= 64,
                queens as int == count_kind_prefix(self.grid@, PieceNames::Queen, j as int),
                minors as int == count_kind_prefix(self.grid@, PieceNames::Bishop, j as int)
                    + count_kind_prefix(self.grid@, PieceNames::Knight, j as int),
                queens <= j,
                minors <= 2 * j,
            decreases 64 - j,
        {
            if let Some(piece) = self.grid[j] {
                match piece.name {
                    PieceNames::Bishop | PieceNames::Knight => {
                        minors += 1;
                    },
                    PieceNames::Queen => {
                        queens += 1;
                    },
                    _ => {},
                }
            }
            j += 1;
        }
        queens == 0 || minors <= queens
    }
}

} // verus!

use crate::board::{move_raw_spec, fx_hash_of};
use crate::movegen::{
    check_flag, king_moves_spec, lemma_base_moves_props, move_target_ok, piece_base_moves_spec,
};

verus! {

/// Ceiling on half-move counters, leaving room for the increments that move
/// application and speculative search perform.
pub const MAX_HALF_MOVES: u32 = 999999999;

/// A two-file king shift is only ever the castle shape: from the home file
/// to file 2 or 6 of the same row.
pub open spec fn castle_ok(g: Seq<Option<Piece>>, from: Loc, to: Loc) -> bool {
    at(g, from) matches Some(p) ==> (p.name == PieceNames::King && dist(
        from.0 as int,
        to.0 as int,
    ) == 2 ==> ((to.0 == 2 || to.0 == 6) && from.0 == 4 && from.1 == to.1))
}

/// The moved piece is a pawn.
pub open spec fn is_pawn_move(g: Seq<Option<Piece>>, from: Loc) -> bool {
    at(g, from) matches Some(p) && p.name == PieceNames::Pawn
}

/// The grid after the side effects of the move but before the relocation
/// itself: the mover's recorded position (and name, on promotion) updated in
/// place, the castling rook relocated, the en-passant victim removed.
pub open spec fn grid_mid_spec(
    g: Seq<Option<Piece>>,
    ep: Option<(Loc, ChessColor)>,
    from: Loc,
    to: Loc,
) -> Seq<Option<Piece>> {
    match at(g, from) {
        None => g,
        Some(p) => {
            let g1 = g.update(from.index(), Some(Piece { name: p.name, color: p.color, pos: to }));
            match p.name {
                PieceNames::King => {
                    if dist(from.0 as int, to.0 as int) == 2 {
                        if to.0 == 2 {
                            move_raw_spec(g1, Loc(0, to.1), Loc(3, to.1))
                        } else if to.0 == 6 {
                            move_raw_spec(g1, Loc(7, to.1), Loc(5, to.1))
                        } else {
                            g1
                        }
                    } else {
                        g1
                    }
                },
                PieceNames::Pawn => {
                    let g2 = if to.1 == 0 || to.1 == 7 {
                        g1.update(
                            from.index(),
                            Some(Piece { name: PieceNames::Queen, color: p.color, pos: to }),
                        )
                    } else {
                        g1
                    };
                    if dist(from.0 as int, to.0 as int) == 1 && dist(from.1 as int, to.1 as int)
                        != 2 && at(g, to) is None {
                        match ep {
                            Some((l, c2)) => if to.0 == l.0 && dist(to.1 as int, l.1 as int) == 1
                                && p.color != c2 {
                                g2.update(l.index(), None)
                            } else {
                                g2
                            },
                            None => g2,
                        }
                    } else {
                        g2
                    }
                },
                _ => g1,
            }
        },
    }
}

/// The grid after the whole move.
pub open spec fn grid_after_spec(
    g: Seq<Option<Piece>>,
    ep: Option<(Loc, ChessColor)>,
    from: Loc,
    to: Loc,
) -> Seq<Option<Piece>> {
    move_raw_spec(grid_mid_spec(g, ep, from, to), from, to)
}

/// Castling rights lost because a rook was captured on its corner.
pub open spec fn capture_castle_after(
    g: Seq<Option<Piece>>,
    ep: Option<(Loc, ChessColor)>,
    cw: (bool, bool),
    cb: (bool, bool),
    from: Loc,
    to: Loc,
) -> ((bool, bool), (bool, bool)) {
    match capture_loc(g, ep, from, to) {
        Some(cp) => match at(g, cp) {
            Some(q) => if q.name == PieceNames::Rook {
                if q.color == ChessColor::White {
                    if q.pos == Loc(0, 7) {
                        ((false, cw.1), cb)
                    } else if q.pos == Loc(7, 7) {
                        ((cw.0, false), cb)
                    } else {
                        (cw, cb)
                    }
                } else {
                    if q.pos == Loc(0, 0) {
                        (cw, (false, cb.1))
                    } else if q.pos == Loc(7, 0) {
                        (cw, (cb.0, false))
                    } else {
                        (cw, cb)
                    }
                }
            } else {
                (cw, cb)
            },
            None => (cw, cb),
        },
        None => (cw, cb),
    }
}

/// Castling rights lost because the king or a corner rook moved.
pub open spec fn mover_castle_after(
    g: Seq<Option<Piece>>,
    cw: (bool, bool),
    cb: (bool, bool),
    from: Loc,
) -> ((bool, bool), (bool, bool)) {
    match at(g, from) {
        Some(p) => match p.name {
            PieceNames::King => if p.color == ChessColor::White {
                ((false, false), cb)
            } else {
                (cw, (false, false))
            },
            PieceNames::Rook => {
                let cb1 = (
                    if from == Loc(0, 0) {
                        false
                    } else {
                        cb.0
                    },
                    if from == Loc(7, 0) {
                        false
                    } else {
                        cb.1
                    },
                );
                let cw1 = (
                    if from == Loc(0, 7) {
                        false
                    } else {
                        cw.0
                    },
                    if from == Loc(7, 7) {
                        false
                    } else {
                        cw.1
                    },
                );
                (cw1, cb1)
            },
            _ => (cw, cb),
        },
        None => (cw, cb),
    }
}

/// Both colors' castling rights after the move.
pub open spec fn castle_after(
    g: Seq<Option<Piece>>,
    ep: Option<(Loc, ChessColor)>,
    cw: (bool, bool),
    cb: (bool, bool),
    from: Loc,
    to: Loc,
) -> ((bool, bool), (bool, bool)) {
    let caps = capture_castle_after(g, ep, cw, cb, from, to);
    mover_castle_after(g, caps.0, caps.1, from)
}

/// The recorded en-passant state after the move: set by a pawn double step,
/// cleared otherwise.
pub open spec fn ep_after(g: Seq<Option<Piece>>, from: Loc, to: Loc) -> Option<(
    Loc,
    ChessColor,
)> {
    match at(g, from) {
        Some(p) => if p.name == PieceNames::Pawn && dist(from.1 as int, to.1 as int) == 2 {
            Some((to, p.color))
        } else {
            None
        },
        None => None,
    }
}

/// The minor-piece development flags after the move.
pub open spec fn developments_after(
    g: Seq<Option<Piece>>,
    dev: ((bool, bool), (bool, bool)),
    from: Loc,
) -> ((bool, bool), (bool, bool)) {
    match at(g, from) {
        Some(p) => {
            let y: usize = if p.color == ChessColor::White {
                7
            } else {
                0
            };
            match p.name {
                PieceNames::Knight => {
                    if from == Loc(1, y) {
                        ((dev.0.0, true), dev.1)
                    } else if from == Loc(6, y) {
                        ((true, dev.0.1), dev.1)
                    } else {
                        dev
                    }
                },
                PieceNames::Bishop => {
                    if from == Loc(2, y) {
                        (dev.0, (dev.1.0, true))
                    } else if from == Loc(5, y) {
                        (dev.0, (true, dev.1.1))
                    } else {
                        dev
                    }
                },
                _ => dev,
            }
        },
        None => dev,
    }
}

/// The bounded repetition history after recording a new hash: a full buffer
/// drops its oldest entry.
pub open spec fn prev_push(prev: Seq<u64>, h: u64) -> Seq<u64> {
    if prev.len() == 24 {
        seq![h] + prev.take(23)
    } else {
        prev.push(h)
    }
}

/// The structural fields of a board after a move of the piece on `from`, the
/// derived state not yet refreshed.
pub open spec fn structural_after(m: BoardModel, from: Loc, to: Loc) -> BoardModel {
    let g2 = grid_after_spec(m.grid, m.en_passent, from, to);
    let rights = castle_after(m.grid, m.en_passent, m.castle_white, m.castle_black, from, to);
    let ep2 = ep_after(m.grid, from, to);
    let h2 = fx_hash_of(g2, rights.0, rights.1, ep2);
    let pawn = is_pawn_move(m.grid, from);
    let captured = capture_loc(m.grid, m.en_passent, from, to) is Some;
    let fifty1 = if pawn {
        m.half_moves
    } else {
        m.fifty_rule
    };
    BoardModel {
        grid: g2,
        turn: m.turn.spec_other(),
        castle_white: rights.0,
        castle_black: rights.1,
        en_passent: ep2,
        half_moves: m.half_moves + 1,
        hash: h2,
        prev_states: prev_push(
            if pawn {
                Seq::empty()
            } else {
                m.prev_states
            },
            h2,
        ),
        fifty_rule: if captured {
            m.half_moves + 1
        } else {
            fifty1
        },
        agent_developments: developments_after(m.grid, m.agent_developments, from),
        ..m
    }
}

/// Whether this move would leave `c`'s own king attacked.
pub open spec fn exposed(m: BoardModel, c: ChessColor, from: Loc, to: Loc) -> bool {
    checked_color(grid_after_spec(m.grid, m.en_passent, from, to), c)
}

/// The self-check filter keeps this target.
pub open spec fn keeps(m: BoardModel, p: Piece, to: Loc) -> bool {
    !exposed(m, p.color, p.pos, to)
}

/// The piece stands beside the recorded en-passant pawn and could take it in
/// passing, a capture that removes a second piece and so can open a line no
/// attack table foresaw.
pub open spec fn ep_candidate(m: BoardModel, p: Piece) -> bool {
    p.name == PieceNames::Pawn && (m.en_passent matches Some(e) && e.1 != p.color && e.0.1
        == p.pos.1 && dist(e.0.0 as int, p.pos.0 as int) == 1)
}

/// The piece must be simulated: it may be pinned, its side is in check, or it
/// could capture in passing.
pub open spec fn needs_sim(m: BoardModel, p: Piece) -> bool {
    m.blockers[p.pos.index()] || check_flag(m, p.color) || ep_candidate(m, p)
}

/// The first `n` king targets that are not under enemy attack.
pub open spec fn king_safe_prefix(m: BoardModel, c: ChessColor, cand: Seq<Loc>, n: int) -> Seq<
    Loc,
>
    decreases n,
{
    if n <= 0 {
        Seq::empty()
    } else {
        let prev = king_safe_prefix(m, c, cand, n - 1);
        if !crate::movegen::attack_flag(m, c.spec_other(), cand[n - 1]) {
            prev.push(cand[n - 1])
        } else {
            prev
        }
    }
}

/// The first `n` candidate targets that survive the self-check simulation.
pub open spec fn sim_filter_prefix(m: BoardModel, p: Piece, cand: Seq<Loc>, n: int) -> Seq<Loc>
    decreases n,
{
    if n <= 0 {
        Seq::empty()
    } else {
        let prev = sim_filter_prefix(m, p, cand, n - 1);
        if keeps(m, p, cand[n - 1]) {
            prev.push(cand[n - 1])
        } else {
            prev
        }
    }
}

/// A piece's pseudo-legal moves with the king's targets already restricted
/// to unattacked squares.
pub open spec fn piece_pre_moves_spec(m: BoardModel, p: Piece) -> Seq<Loc> {
    if p.name == PieceNames::King {
        king_safe_prefix(m, p.color, king_moves_spec(m, p), king_moves_spec(m, p).len() as int)
    } else {
        piece_base_moves_spec(m, p)
    }
}

/// A piece's legal moves: its pseudo-legal moves, simulated against
/// self-check whenever the piece may be pinned or its side is in check.
pub open spec fn piece_moves_spec(m: BoardModel, p: Piece) -> Seq<Loc> {
    let base = piece_pre_moves_spec(m, p);
    if needs_sim(m, p) {
        sim_filter_prefix(m, p, base, base.len() as int)
    } else {
        base
    }
}

/// A filtered list keeps the element property of its source.
pub proof fn lemma_king_safe_props(m: BoardModel, p: Piece, cand: Seq<Loc>, n: int)
    requires
        forall|q: int| 0 <= q < cand.len() ==> move_target_ok(p, #[trigger] cand[q]),
        n <= cand.len(),
    ensures
        forall|q: int|
            0 <= q < king_safe_prefix(m, p.color, cand, n).len() ==> move_target_ok(
                p,
                #[trigger] king_safe_prefix(m, p.color, cand, n)[q],
            ),
    decreases n,
{
    if n > 0 {
        lemma_king_safe_props(m, p, cand, n - 1);
        let prev = king_safe_prefix(m, p.color, cand, n - 1);
        let cur = king_safe_prefix(m, p.color, cand, n);
        assert forall|q: int| 0 <= q < cur.len() implies move_target_ok(p, #[trigger] cur[q]) by {
            if q < prev.len() {
                assert(cur[q] == prev[q]);
            } else {
                assert(cur[q] == cand[n - 1]);
            }
        }
    }
}

/// The simulation filter keeps the element property of its source.
pub proof fn lemma_sim_filter_props(m: BoardModel, p: Piece, cand: Seq<Loc>, n: int)
    requires
        forall|q: int| 0 <= q < cand.len() ==> move_target_ok(p, #[trigger] cand[q]),
        n <= cand.len(),
    ensures
        forall|q: int|
            0 <= q < sim_filter_prefix(m, p, cand, n).len() ==> move_target_ok(
                p,
                #[trigger] sim_filter_prefix(m, p, cand, n)[q],
            ),
    decreases n,
{
    if n > 0 {
        lemma_sim_filter_props(m, p, cand, n - 1);
        let prev = sim_filter_prefix(m, p, cand, n - 1);
        let cur = sim_filter_prefix(m, p, cand, n);
        assert forall|q: int| 0 <= q < cur.len() implies move_target_ok(p, #[trigger] cur[q]) by {
            if q < prev.len() {
                assert(cur[q] == prev[q]);
            } else {
                assert(cur[q] == cand[n - 1]);
            }
        }
    }
}

/// Every legal move of a piece is a proper move target.
pub proof fn lemma_piece_moves_props(m: BoardModel, p: Piece)
    requires
        p.pos.valid(),
    ensures
        forall|q: int|
            0 <= q < piece_moves_spec(m, p).len() ==> move_target_ok(
                p,
                #[trigger] piece_moves_spec(m, p)[q],
            ),
{
    lemma_base_moves_props(m, p);
    if p.name == PieceNames::King {
        assert(piece_base_moves_spec(m, p) == king_moves_spec(m, p));
        lemma_king_safe_props(m, p, king_moves_spec(m, p), king_moves_spec(m, p).len() as int);
    }
    let pre = piece_pre_moves_spec(m, p);
    assert(forall|q: int| 0 <= q < pre.len() ==> move_target_ok(p, #[trigger] pre[q]));
    if needs_sim(m, p) {
        lemma_sim_filter_props(m, p, pre, pre.len() as int);
    }
}

} // verus!

use crate::movegen::{
    bishop_moves, king_moves, knight_moves, pawn_moves, queen_moves, rook_moves,
};

verus! {

/// The legal moves of the pieces of one color standing on the first `n`
/// squares, in square order, each paired with its origin.
pub open spec fn legal_moves_prefix(m: BoardModel, color: ChessColor, n: int) -> Seq<(Loc, Loc)>
    decreases n,
{
    if n <= 0 {
        Seq::empty()
    } else {
        let prev = legal_moves_prefix(m, color, n - 1);
        match m.grid[n - 1] {
            Some(p) => if p.color == color {
                prev + piece_moves_spec(m, p).map_values(|to: Loc| (p.pos, to))
            } else {
                prev
            },
            None => prev,
        }
    }
}

/// All legal moves of one color.
pub open spec fn legal_moves_spec(m: BoardModel, color: ChessColor) -> Seq<(Loc, Loc)> {
    legal_moves_prefix(m, color, 64)
}

/// Every move of the list can be handed to `move_piece` on a board with this
/// model's grid.
pub open spec fn movelist_ok(m: BoardModel, s: Seq<(Loc, Loc)>) -> bool {
    forall|i: int|
        0 <= i < s.len() ==> {
            let mv = #[trigger] s[i];
            &&& mv.0.valid()
            &&& mv.1.valid()
            &&& mv.0 != mv.1
            &&& at(m.grid, mv.0) is Some
            &&& castle_ok(m.grid, mv.0, mv.1)
        }
}

/// The derived state that a refresh recomputes from the structural fields:
/// attack tables, check flags, blockers, optionally the move lists, then the
/// game state, the endgame flag and the score, in dependency order.
pub open spec fn derived_model(m: BoardModel, check_stale: bool) -> BoardModel {
    let m1 = BoardModel {
        attacks_white: attacks_map(m.grid, ChessColor::White),
        attacks_black: attacks_map(m.grid, ChessColor::Black),
        check_white: checked_color(m.grid, ChessColor::White),
        check_black: checked_color(m.grid, ChessColor::Black),
        blockers: blockers_from(
            m.grid,
            attacks_map(m.grid, ChessColor::White),
            attacks_map(m.grid, ChessColor::Black),
        ),
        ..m
    };
    let m2 = if check_stale {
        BoardModel {
            moves_white: legal_moves_spec(m1, ChessColor::White),
            moves_black: legal_moves_spec(m1, ChessColor::Black),
            ..m1
        }
    } else {
        m1
    };
    let m3 = BoardModel { state: state_model(m2, check_stale), ..m2 };
    let m4 = BoardModel { endgame: endgame_spec(m.grid), ..m3 };
    BoardModel { score: crate::eval::score_model(m4), ..m4 }
}

/// The model of a board after one full move: the structural change followed
/// by the derived-state refresh.
pub open spec fn apply_model(m: BoardModel, from: Loc, to: Loc, check_stale: bool) -> BoardModel {
    derived_model(structural_after(m, from, to), check_stale)
}

/// A move of a well-formed grid leaves the grid well formed.
#[verifier::rlimit(100)]
pub proof fn lemma_grid_after_wf(
    g: Seq<Option<Piece>>,
    ep: Option<(Loc, ChessColor)>,
    from: Loc,
    to: Loc,
)
    requires
        grid_wf(g),
        from.valid(),
        to.valid(),
        from != to,
        castle_ok(g, from, to),
        ep matches Some(e) ==> e.0.valid(),
    ensures
        grid_wf(grid_after_spec(g, ep, from, to)),
{
    let mid = grid_mid_spec(g, ep, from, to);
    let fin = grid_after_spec(g, ep, from, to);
    crate::loc::lemma_loc_index(from, 0);
    crate::loc::lemma_loc_index(to, 0);
    match at(g, from) {
        None => {
            assert forall|i: int|
                0 <= i < 64 implies ((#[trigger] fin[i]) matches Some(pp) ==> pp.pos.valid()
                && pp.pos.index() == i) by {}
        },
        Some(p) => {
            if p.name == PieceNames::King && dist(from.0 as int, to.0 as int) == 2 {
                crate::loc::lemma_loc_index(Loc(0, to.1), 0);
                crate::loc::lemma_loc_index(Loc(3, to.1), 0);
                crate::loc::lemma_loc_index(Loc(7, to.1), 0);
                crate::loc::lemma_loc_index(Loc(5, to.1), 0);
            }
            if p.name == PieceNames::Pawn {
                match ep {
                    Some((l, c2)) => {
                        crate::loc::lemma_loc_index(l, 0);
                    },
                    None => {},
                }
            }
            assert forall|i: int|
                0 <= i < 64 implies ((#[trigger] fin[i]) matches Some(pp) ==> pp.pos.valid()
                && pp.pos.index() == i) by {
                crate::loc::lemma_loc_index(loc_of(i), i);
            }
        },
    }
}

impl Board {
    /// Special actions a move performs besides the relocation: castling rook
    /// transport, en-passant capture, pawn promotion, revoked rights, reset
    /// repetition and fifty-move bookkeeping, development flags.
    #[verifier::rlimit(100)]
    fn move_actions(&mut self, from: &Loc, to: &Loc)
        requires
            old(self).grid@.len() == 64,
            old(self).prev_states@.len() <= 24,
            from.valid(),
            to.valid(),
            *from != *to,
            at(old(self).grid@, *from) is Some,
            castle_ok(old(self).grid@, *from, *to),
            old(self).en_passent matches Some(e) ==> e.0.valid(),
        ensures
            final(self).grid@ == grid_mid_spec(old(self).grid@, old(self).en_passent, *from, *to),
            (final(self).castle_white, final(self).castle_black) == mover_castle_after(
                old(self).grid@,
                old(self).castle_white,
                old(self).castle_black,
                *from,
            ),
            final(self).en_passent == ep_after(old(self).grid@, *from, *to),
            final(self).fifty_rule == (if is_pawn_move(old(self).grid@, *from) {
                old(self).half_moves
            } else {
                old(self).fifty_rule
            }),
            final(self).prev_states@ == (if is_pawn_move(old(self).grid@, *from) {
                Seq::<u64>::empty()
            } else {
                old(self).prev_states@
            }),
            final(self).agent_developments == developments_after(
                old(self).grid@,
                old(self).agent_developments,
                *from,
            ),
            *final(self) == (Board {
                grid: final(self).grid,
                castle_white: final(self).castle_white,
                castle_black: final(self).castle_black,
                en_passent: final(self).en_passent,
                fifty_rule: final(self).fifty_rule,
                prev_states: final(self).prev_states,
                agent_developments: final(self).agent_developments,
                ..*old(self)
            }),
    {
        let mut set_en_passent = false;
        let to_was_empty = self.get_raw(to).is_none();

        let piece = match self.get_raw(from) {
            Some(p) => p,
            None => {
                proof {
                    assert(false);
                }
                return ;
            },
        };
        let moved = Piece::new(piece.name, piece.color, *to);
        self.set(from, Some(moved));

        match piece.name {
            PieceNames::King => {
                match piece.color {
                    ChessColor::Black => self.castle_black = (false, false),
                    ChessColor::White => self.castle_white = (false, false),
                }
                let dx = if from.0 > to.0 {
                    from.0 - to.0
                } else {
                    to.0 - from.0
                };
                if dx == 2 {
                    if to.0 == 2 {
                        let rook_from = Loc(0, to.1);
                        let rook_to = Loc(3, to.1);
                        self.move_raw(&rook_from, &rook_to);
                    } else if to.0 == 6 {
                        let rook_from = Loc(7, to.1);
                        let rook_to = Loc(5, to.1);
                        self.move_raw(&rook_from, &rook_to);
                    }
                }
            },
            PieceNames::Rook => {
                if *from == Loc(0, 0) {
                    self.castle_black = (false, self.castle_black.1);
                } else if *from == Loc(7, 0) {
                    self.castle_black = (self.castle_black.0, false);
                } else if *from == Loc(0, 7) {
                    self.castle_white = (false, self.castle_white.1);
                } else if *from == Loc(7, 7) {
                    self.castle_white = (self.castle_white.0, false);
                }
            },
            PieceNames::Pawn => {
                // Promotion
                if to.1 == 0 || to.1 == 7 {
                    self.set(from, Some(Piece::new(PieceNames::Queen, piece.color, *to)));
                }

                // Setting en passant
                let dy = if from.1 > to.1 {
                    from.1 - to.1
                } else {
                    to.1 - from.1
                };
                if dy == 2 {
                    self.en_passent = Some((*to, piece.color));
                    set_en_passent = true;
                }

                // En-passant capture: a pawn stepping diagonally onto an
                // empty square beside the recorded pawn takes it in passing;
                // a diagonal step onto an occupant is a direct capture and
                // touches nothing else
                let dx = if from.0 > to.0 {
                    from.0 - to.0
                } else {
                    to.0 - from.0
                };
                if dx == 1 && to_was_empty {
                    if let Some((loc, color)) = self.en_passent {
                        let dly = if to.1 > loc.1 {
                            to.1 - loc.1
                        } else {
                            loc.1 - to.1
                        };
                        if to.0 == loc.0 && dly == 1 && piece.color != color {
                            self.set(&loc, None);
                        }
                    }
                }

                // Fifty-move rule
                self.fifty_rule = self.half_moves;

                // A pawn move makes earlier positions unrepeatable
                self.prev_states = Vec::new();
            },
            PieceNames::Knight => {
                let y: usize = if piece.color == ChessColor::White {
                    7
                } else {
                    0
                };
                if *from == Loc(1, y) {
                    self.agent_developments = (
                        (self.agent_developments.0.0, true),
                        self.agent_developments.1,
                    );
                } else if *from == Loc(6, y) {
                    self.agent_developments = (
                        (true, self.agent_developments.0.1),
                        self.agent_developments.1,
                    );
                }
            },
            PieceNames::Bishop => {
                let y: usize = if piece.color == ChessColor::White {
                    7
                } else {
                    0
                };
                if *from == Loc(2, y) {
                    self.agent_developments = (
                        self.agent_developments.0,
                        (self.agent_developments.1.0, true),
                    );
                } else if *from == Loc(5, y) {
                    self.agent_developments = (
                        self.agent_developments.0,
                        (true, self.agent_developments.1.1),
                    );
                }
            },
            _ => {},
        }

        // Reset en passant if this move did not set it
        if !set_en_passent && self.en_passent.is_some() {
            self.en_passent = None;
        }
    }
}

} // verus!

verus! {

impl Piece {
    /// The legal moves of this piece: its movement pattern, the king kept off
    /// attacked squares, and — whenever the piece may be pinned or its side
    /// is in check — each candidate simulated and rejected if it leaves the
    /// own king attacked.
    pub fn moves(&self, board: &Board) -> (res: Vec<Loc>)
        requires
            board.wf(),
            self.pos.valid(),
            at(board.grid@, self.pos) == Some(*self),
            board.half_moves <= MAX_HALF_MOVES,
        ensures
            res@ == piece_moves_spec(board.abs(), *self),
        decreases 10int,
    {
        let ghost m = board.abs();
        proof {
            lemma_base_moves_props(m, *self);
        }
        let temp_moves = match self.name {
            PieceNames::Pawn => pawn_moves(self, board),
            PieceNames::Knight => knight_moves(self, board),
            PieceNames::King => {
                let km = king_moves(self, board);
                proof {
                    assert(piece_base_moves_spec(m, *self) == king_moves_spec(m, *self));
                }
                let enemy_attacks = if self.color == ChessColor::White {
                    &board.attacks_black
                } else {
                    &board.attacks_white
                };
                let mut kept: Vec<Loc> = Vec::new();
                let mut i: usize = 0;
                while i < km.len()
                    invariant
                        board.wf(),
                        m == board.abs(),
                        self.pos.valid(),
                        km@ == king_moves_spec(m, *self),
                        forall|q: int|
                            0 <= q < km@.len() ==> move_target_ok(*self, #[trigger] km@[q]),
                        i <= km@.len(),
                        enemy_attacks@ == (if self.color == ChessColor::White {
                            m.attacks_black
                        } else {
                            m.attacks_white
                        }),
                        enemy_attacks@.len() == 64,
                        kept@ == king_safe_prefix(m, self.color, km@, i as int),
                    decreases km@.len() - i,
                {
                    let to = km[i];
                    proof {
                        assert(move_target_ok(*self, km@[i as int]));
                    }
                    if !enemy_attacks[to.idx()] {
                        kept.push(to);
                    }
                    i += 1;
                }
                kept
            },
            PieceNames::Rook => rook_moves(self, board),
            PieceNames::Bishop => bishop_moves(self, board),
            PieceNames::Queen => queen_moves(self, board),
        };
        let ghost pre = piece_pre_moves_spec(m, *self);
        proof {
            assert(temp_moves@ == pre);
            if self.name == PieceNames::King {
                lemma_king_safe_props(
                    m,
                    *self,
                    king_moves_spec(m, *self),
                    king_moves_spec(m, *self).len() as int,
                );
            }
            assert(forall|q: int| 0 <= q < pre.len() ==> move_target_ok(*self, #[trigger] pre[q]));
        }

        let simulate = {
            let in_check = if self.color == ChessColor::White {
                board.check_white
            } else {
                board.check_black
            };
            let ep_cand = if self.name == PieceNames::Pawn {
                match board.en_passent {
                    Some((l, c2)) => {
                        let dx = if l.0 > self.pos.0 {
                            l.0 - self.pos.0
                        } else {
                            self.pos.0 - l.0
                        };
                        c2 != self.color && l.1 == self.pos.1 && dx == 1
                    },
                    None => false,
                }
            } else {
                false
            };
            board.blockers[self.pos.idx()] || in_check || ep_cand
        };
        proof {
            assert(simulate == needs_sim(m, *self));
        }
        if simulate {
            let mut kept: Vec<Loc> = Vec::new();
            let mut i: usize = 0;
            while i < temp_moves.len()
                invariant
                    board.wf(),
                    m == board.abs(),
                    self.pos.valid(),
                    at(board.grid@, self.pos) == Some(*self),
                    board.half_moves <= MAX_HALF_MOVES,
                    temp_moves@ == pre,
                    forall|q: int| 0 <= q < pre.len() ==> move_target_ok(*self, #[trigger] pre[q]),
                    i <= pre.len(),
                    kept@ == sim_filter_prefix(m, *self, pre, i as int),
                decreases pre.len() - i,
            {
                let to = temp_moves[i];
                proof {
                    assert(move_target_ok(*self, pre[i as int]));
                }
                let mut test_board = board.clone_board();
                proof {
                    assert(test_board.abs() == m);
                    assert(castle_ok(test_board.grid@, self.pos, to));
                }
                test_board.move_piece(&self.pos, &to, false);
                let safe = if self.color == ChessColor::White {
                    !test_board.check_white
                } else {
                    !test_board.check_black
                };
                proof {
                    assert(test_board.abs() == apply_model(m, self.pos, to, false));
                    assert(test_board.check_white == checked_color(
                        grid_after_spec(m.grid, m.en_passent, self.pos, to),
                        ChessColor::White,
                    ));
                    assert(test_board.check_black == checked_color(
                        grid_after_spec(m.grid, m.en_passent, self.pos, to),
                        ChessColor::Black,
                    ));
                    assert(safe == keeps(m, *self, to));
                }
                if safe {
                    kept.push(to);
                }
                i += 1;
            }
            kept
        } else {
            temp_moves
        }
    }
}

impl Board {
    /// All legal moves of one color, each as an origin and target pair, in
    /// square order.
    pub fn moves(&self, color: ChessColor) -> (res: Vec<(Loc, Loc)>)
        requires
            self.wf(),
            self.half_moves <= MAX_HALF_MOVES,
        ensures
            res@ == legal_moves_spec(self.abs(), color),
            movelist_ok(self.abs(), res@),
        decreases 11int,
    {
        let ghost m = self.abs();
        let mut moves: Vec<(Loc, Loc)> = Vec::new();
        let mut j: usize = 0;
        while j < 64
            invariant
                self.wf(),
                m == self.abs(),
                self.half_moves <= MAX_HALF_MOVES,
                j <= 64,
                moves@ == legal_moves_prefix(m, color, j as int),
                movelist_ok(m, moves@),
            decreases 64 - j,
        {
            let ghost before = moves@;
            if let Some(piece) = self.grid[j] {
                if piece.color == color {
                    proof {
                        crate::loc::lemma_loc_index(piece.pos, j as int);
                        lemma_piece_moves_props(m, piece);
                    }
                    let pm = piece.moves(self);
                    let ghost f = |to: Loc| (piece.pos, to);
                    let mut k: usize = 0;
                    while k < pm.len()
                        invariant
                            self.wf(),
                            m == self.abs(),
                            piece.pos.valid(),
                            at(m.grid, piece.pos) == Some(piece),
                            pm@ == piece_moves_spec(m, piece),
                            forall|q: int|
                                0 <= q < pm@.len() ==> move_target_ok(piece, #[trigger] pm@[q]),
                            k <= pm@.len(),
                            f == (|to: Loc| (piece.pos, to)),
                            moves@ == before + pm@.take(k as int).map_values(f),
                            movelist_ok(m, moves@),
                        decreases pm@.len() - k,
                    {
                        let to = pm[k];
                        proof {
                            assert(move_target_ok(piece, pm@[k as int]));
                        }
                        moves.push((piece.pos, to));
                        proof {
                            assert(moves@ =~= before + pm@.take(k as int + 1).map_values(f));
                            assert forall|i2: int| 0 <= i2 < moves@.len() implies {
                                let mv = #[trigger] moves@[i2];
                                &&& mv.0.valid()
                                &&& mv.1.valid()
                                &&& mv.0 != mv.1
                                &&& at(m.grid, mv.0) is Some
                                &&& castle_ok(m.grid, mv.0, mv.1)
                            } by {
                                if i2 == moves@.len() - 1 {
                                    assert(moves@[i2] == (piece.pos, to));
                                }
                            }
                        }
                        k += 1;
                    }
                    proof {
                        assert(pm@.take(pm@.len() as int) =~= pm@);
                        assert(moves@ == before + piece_moves_spec(m, piece).map_values(f));
                        assert(piece_moves_spec(m, piece).map_values(f) =~= piece_moves_spec(
                            m,
                            piece,
                        ).map_values(|to: Loc| (piece.pos, to)));
                        assert(moves@ == legal_moves_prefix(m, color, j as int + 1));
                    }
                }
            }
            j += 1;
        }
        moves
    }

    /// Refresh the derived state: attack tables, check flags, blockers, the
    /// move lists when `check_stale` asks for them, then the game state, the
    /// endgame flag and the score, in that dependency order.
    pub fn update_things(&mut self, check_stale: bool)
        requires
            old(self).wf(),
            check_stale ==> old(self).half_moves <= MAX_HALF_MOVES,
            old(self).half_moves <= MAX_HALF_MOVES + 1,
        ensures
            final(self).wf(),
            final(self).abs() == derived_model(old(self).abs(), check_stale),
        decreases (if check_stale {
            12int
        } else {
            2int
        }),
    {
        let ghost m = self.abs();

        // Update attacks (relies on nothing)
        let aw = self.attacks(ChessColor::White);
        let ab = self.attacks(ChessColor::Black);
        self.attacks_white = aw;
        self.attacks_black = ab;

        // Update check (relies on attacks)
        let (white_king, black_king) = self.kings();
        self.check_white = match white_king {
            Some(l) => {
                proof {
                    crate::loc::lemma_loc_index(l, 0);
                }
                self.attacks_black[l.idx()]
            },
            None => true,
        };
        self.check_black = match black_king {
            Some(l) => {
                proof {
                    crate::loc::lemma_loc_index(l, 0);
                }
                self.attacks_white[l.idx()]
            },
            None => true,
        };

        // Update blockers (relies on attacks)
        self.update_blockers();

        let ghost m1 = BoardModel {
            attacks_white: attacks_map(m.grid, ChessColor::White),
            attacks_black: attacks_map(m.grid, ChessColor::Black),
            check_white: checked_color(m.grid, ChessColor::White),
            check_black: checked_color(m.grid, ChessColor::Black),
            blockers: blockers_from(
                m.grid,
                attacks_map(m.grid, ChessColor::White),
                attacks_map(m.grid, ChessColor::Black),
            ),
            ..m
        };
        proof {
            assert(self.abs() == m1);
        }

        // Update moves (relies on attacks and blockers)
        if check_stale {
            let mw = self.moves(ChessColor::White);
            let mb = self.moves(ChessColor::Black);
            self.moves_white = mw;
            self.moves_black = mb;
        }
        let ghost m2 = if check_stale {
            BoardModel {
                moves_white: legal_moves_spec(m1, ChessColor::White),
                moves_black: legal_moves_spec(m1, ChessColor::Black),
                ..m1
            }
        } else {
            m1
        };
        proof {
            assert(self.abs() == m2);
        }

        // Detect state (relies on check and moves)
        self.detect_state(check_stale);

        // Set endgame (relies on nothing)
        self.endgame = self.compute_endgame();

        let ghost m4 = BoardModel {
            endgame: endgame_spec(m.grid),
            ..(BoardModel { state: state_model(m2, check_stale), ..m2 })
        };
        proof {
            assert(self.abs() == m4);
        }

        // Set score (relies on state and endgame)
        self.score = self.get_score();
        proof {
            assert(self.abs() == derived_model(m, check_stale));
        }
    }

    /// Move the piece on `from` to `to`, applying every rule side effect and
    /// refreshing the derived state; true when something was captured.
    /// Moving from an empty square is a programming error and excluded by
    /// contract.
    #[verifier::rlimit(100)]
    pub fn move_piece(&mut self, from: &Loc, to: &Loc, check_stale: bool) -> (captured: bool)
        requires
            old(self).wf(),
            from.valid(),
            to.valid(),
            *from != *to,
            at(old(self).grid@, *from) is Some,
            castle_ok(old(self).grid@, *from, *to),
            old(self).half_moves <= MAX_HALF_MOVES,
            check_stale ==> old(self).half_moves < MAX_HALF_MOVES,
        ensures
            final(self).wf(),
            captured == (capture_loc(
                old(self).grid@,
                old(self).en_passent,
                *from,
                *to,
            ) is Some),
            final(self).abs() == apply_model(old(self).abs(), *from, *to, check_stale),
        decreases (if check_stale {
            13int
        } else {
            3int
        }),
    {
        let ghost m = self.abs();
        let capture_info = self.is_capture(from, to);
        let capture = capture_info.is_some();

        // Special case where a castle rook is captured
        if let Some(capture_pos) = capture_info {
            if let Some(piece) = self.get(&capture_pos) {
                if piece.name == PieceNames::Rook {
                    match piece.color {
                        ChessColor::White => {
                            if piece.pos == Loc(0, 7) {
                                self.castle_white = (false, self.castle_white.1);
                            } else if piece.pos == Loc(7, 7) {
                                self.castle_white = (self.castle_white.0, false);
                            }
                        },
                        ChessColor::Black => {
                            if piece.pos == Loc(0, 0) {
                                self.castle_black = (false, self.castle_black.1);
                            } else if piece.pos == Loc(7, 0) {
                                self.castle_black = (self.castle_black.0, false);
                            }
                        },
                    }
                }
            }
        }
        proof {
            assert((self.castle_white, self.castle_black) == capture_castle_after(
                m.grid,
                m.en_passent,
                m.castle_white,
                m.castle_black,
                *from,
                *to,
            ));
        }

        // Moving piece
        self.move_actions(from, to);
        self.move_raw(from, to);
        proof {
            assert(self.grid@ == grid_after_spec(m.grid, m.en_passent, *from, *to));
            lemma_grid_after_wf(m.grid, m.en_passent, *from, *to);
        }

        // Update turn
        self.turn = self.turn.other();
        self.half_moves = self.half_moves + 1;

        // Set hash (relies on nothing)
        self.hash = self.hash();

        // Threefold repetition history (relies on hash)
        let ghost prev_before = self.prev_states@;
        if self.prev_states.len() == 24 {
            let mut rotated: Vec<u64> = Vec::new();
            rotated.push(self.prev_states[23]);
            let mut i: usize = 0;
            while i < 23
                invariant
                    self.prev_states@ == prev_before,
                    prev_before.len() == 24,
                    i <= 23,
                    rotated@ == seq![prev_before[23]] + prev_before.take(i as int),
                decreases 23 - i,
            {
                rotated.push(self.prev_states[i]);
                proof {
                    assert(rotated@ =~= seq![prev_before[23]] + prev_before.take(i as int + 1));
                }
                i += 1;
            }
            self.prev_states = rotated;
            self.prev_states.set(0, self.hash);
            proof {
                assert(self.prev_states@ =~= prev_push(prev_before, self.hash));
            }
        } else {
            self.prev_states.push(self.hash);
        }

        // Fifty move rule (a pawn move is handled in move_actions)
        if capture {
            self.fifty_rule = self.half_moves;
        }

        proof {
            assert(self.abs() == structural_after(m, *from, *to));
        }

        // Update other metadata
        self.update_things(check_stale);

        capture
    }
}

} // verus!

verus! {

/// Applying a move never leaves the turn unchanged: whatever else the update
/// does, the side to move flips exactly once.
pub proof fn lemma_move_flips_turn(m: BoardModel, from: Loc, to: Loc, check_stale: bool)
    ensures
        apply_model(m, from, to, check_stale).turn == m.turn.spec_other(),
{
}

/// Every move the simulation filter keeps would not leave the mover's own
/// king attacked.
proof fn lemma_sim_filter_keeps(m: BoardModel, p: Piece, cand: Seq<Loc>, n: int)
    requires
        n <= cand.len(),
    ensures
        forall|q: int|
            0 <= q < sim_filter_prefix(m, p, cand, n).len() ==> keeps(
                m,
                p,
                #[trigger] sim_filter_prefix(m, p, cand, n)[q],
            ),
    decreases n,
{
    if n > 0 {
        lemma_sim_filter_keeps(m, p, cand, n - 1);
        let prev = sim_filter_prefix(m, p, cand, n - 1);
        let cur = sim_filter_prefix(m, p, cand, n);
        assert forall|q: int| 0 <= q < cur.len() implies keeps(m, p, #[trigger] cur[q]) by {
            if q < prev.len() {
                assert(cur[q] == prev[q]);
            } else {
                assert(cur[q] == cand[n - 1]);
            }
        }
    }
}

/// Every entry of the legal move list belongs to the piece standing on its
/// origin square, and its target is one of that piece's legal moves.
pub proof fn lemma_legal_moves_from_pieces(m: BoardModel, color: ChessColor, n: int, i: int)
    requires
        grid_wf(m.grid),
        n <= 64,
        0 <= i < legal_moves_prefix(m, color, n).len(),
    ensures
        ({
            let mv = legal_moves_prefix(m, color, n)[i];
            &&& at(m.grid, mv.0) matches Some(p) && p.color == color && p.pos == mv.0
                && piece_moves_spec(m, p).contains(mv.1)
        }),
    decreases n,
{
    if n > 0 {
        let prev = legal_moves_prefix(m, color, n - 1);
        let cur = legal_moves_prefix(m, color, n);
        match m.grid[n - 1] {
            Some(p) => {
                if p.color == color {
                    let f = |to: Loc| (p.pos, to);
                    let pm = piece_moves_spec(m, p).map_values(f);
                    if i < prev.len() {
                        lemma_legal_moves_from_pieces(m, color, n - 1, i);
                        assert(cur[i] == prev[i]);
                    } else {
                        let k = i - prev.len();
                        assert(cur[i] == pm[k]);
                        assert(pm[k] == (p.pos, piece_moves_spec(m, p)[k]));
                        assert(p.pos.valid() && p.pos.index() == n - 1);
                        assert(at(m.grid, p.pos) == Some(p));
                        assert(piece_moves_spec(m, p).contains(piece_moves_spec(m, p)[k]));
                    }
                } else {
                    assert(cur == prev);
                    lemma_legal_moves_from_pieces(m, color, n - 1, i);
                }
            },
            None => {
                assert(cur == prev);
                lemma_legal_moves_from_pieces(m, color, n - 1, i);
            },
        }
    }
}

/// A legal move of a piece that had to be simulated — it stood in an
/// attacker's way, its side was in check, or it could capture in passing —
/// never leaves its own king attacked afterward.  A move of any other piece
/// skips the simulation: for those the blocker table is the legality gate,
/// on the geometric ground (not proved here) that a piece whose departure
/// opens a line to the king is the line's first blocker and so stands in the
/// table.
pub proof fn lemma_legal_moves_keep_king_safe(m: BoardModel, color: ChessColor, i: int)
    requires
        grid_wf(m.grid),
        0 <= i < legal_moves_spec(m, color).len(),
    ensures
        ({
            let mv = legal_moves_spec(m, color)[i];
            at(m.grid, mv.0) matches Some(p) ==> (needs_sim(m, p) ==> !exposed(
                m,
                color,
                mv.0,
                mv.1,
            ))
        }),
{
    lemma_legal_moves_from_pieces(m, color, 64, i);
    let mv = legal_moves_spec(m, color)[i];
    match at(m.grid, mv.0) {
        Some(p) => {
            if needs_sim(m, p) {
                let pre = piece_pre_moves_spec(m, p);
                lemma_sim_filter_keeps(m, p, pre, pre.len() as int);
                assert(piece_moves_spec(m, p) == sim_filter_prefix(m, p, pre, pre.len() as int));
                let k = choose|k: int|
                    0 <= k < piece_moves_spec(m, p).len() && piece_moves_spec(m, p)[k] == mv.1;
                assert(keeps(m, p, piece_moves_spec(m, p)[k]));
                assert(p.color == color);
            }
        },
        None => {},
    }
}

} // verus!
