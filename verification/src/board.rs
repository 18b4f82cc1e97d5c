//! The board: an 8x8 grid of pieces plus turn, castling, en-passant,
//! repetition and scoring state.

use vstd::prelude::*;

use std::hash::{Hash, Hasher};

use crate::loc::Loc;
use crate::piece::{ChessColor, Piece, PieceNames};

verus! {

/// Board state: normal play, check, or one of the game-over states.
#[derive(Clone, Copy, PartialEq, Eq, Debug, Structural)]
pub enum BoardState {
    Normal,
    /// The attached color is in check.
    Check(ChessColor),
    /// The attached color is in checkmate.
    Checkmate(ChessColor),
    Stalemate,
    Draw,
}

impl BoardState {
    /// The game is over in this state.
    pub open spec fn over(self) -> bool {
        self is Checkmate || self is Stalemate || self is Draw
    }

    /// The end-of-game message for this state, seen from `player_color`'s side.
    pub fn message(&self, player_color: ChessColor) -> (r: &'static str)
        requires
            self.over(),
        ensures
            self matches BoardState::Checkmate(c) ==> r@ == (if c != player_color {
                "Congrats! You won!\nPress \"r\" to restart!"@
            } else {
                "Dang, you lost\nPress \"r\" to restart!"@
            }),
            self is Stalemate ==> r@ == "Game over, stalemate\nPress \"r\" to restart!"@,
            self is Draw ==> r@ == "Game over, draw\nPress \"r\" to restart!"@,
    {
        match self {
            BoardState::Checkmate(color) => {
                if &player_color != color {
                    "Congrats! You won!\nPress \"r\" to restart!"
                } else {
                    "Dang, you lost\nPress \"r\" to restart!"
                }
            },
            BoardState::Stalemate => "Game over, stalemate\nPress \"r\" to restart!",
            BoardState::Draw => "Game over, draw\nPress \"r\" to restart!",
            _ => "",
        }
    }
}

/// The piece standing on square `l` of grid `g`.
pub open spec fn at(g: Seq<Option<Piece>>, l: Loc) -> Option<Piece> {
    g[l.index()]
}

/// The mathematical value of a board: every field of `Board`, with the
/// vectors abstracted to sequences.  Contracts and the search specification
/// speak of boards through this model.
pub struct BoardModel {
    pub grid: Seq<Option<Piece>>,
    pub turn: ChessColor,
    pub state: BoardState,
    pub player_color: ChessColor,
    pub agent_color: ChessColor,
    pub castle_black: (bool, bool),
    pub castle_white: (bool, bool),
    pub en_passent: Option<(Loc, ChessColor)>,
    pub score: int,
    pub attacks_white: Seq<bool>,
    pub attacks_black: Seq<bool>,
    pub check_white: bool,
    pub check_black: bool,
    pub blockers: Seq<bool>,
    pub moves_white: Seq<(Loc, Loc)>,
    pub moves_black: Seq<(Loc, Loc)>,
    pub half_moves: int,
    pub prev_states: Seq<u64>,
    pub fifty_rule: int,
    pub endgame: bool,
    pub hash: u64,
    pub agent_developments: ((bool, bool), (bool, bool)),
}

impl BoardModel {
    /// Structurally well formed, as `Board::wf`.
    pub open spec fn wf(self) -> bool {
        &&& grid_wf(self.grid)
        &&& self.attacks_white.len() == 64
        &&& self.attacks_black.len() == 64
        &&& self.blockers.len() == 64
        &&& 0 <= self.fifty_rule <= self.half_moves
        &&& self.prev_states.len() <= 24
        &&& (self.en_passent matches Some(e) ==> e.0.valid())
    }
}

/// A well-formed grid: 64 squares, and every piece's recorded position
/// matches the slot that holds it.
pub open spec fn grid_wf(g: Seq<Option<Piece>>) -> bool {
    &&& g.len() == 64
    &&& forall|i: int|
        0 <= i < 64 ==> ((#[trigger] g[i]) matches Some(p) ==> p.pos.valid() && p.pos.index() == i)
}

/// What `rustc_hash::FxHasher` digests the structural data of a board to: a
/// function of the grid, the castling rights and the en-passant state alone.
pub uninterp spec fn fx_hash_of(
    grid: Seq<Option<Piece>>,
    castle_white: (bool, bool),
    castle_black: (bool, bool),
    en_passent: Option<(Loc, ChessColor)>,
) -> u64;

/// Relies on `rustc_hash::FxHasher`: the digest is deterministic and depends
/// only on the values fed to it.
#[verifier::external_body]
fn fx_hash_board(
    grid: &Vec<Option<Piece>>,
    castle_white: &(bool, bool),
    castle_black: &(bool, bool),
    en_passent: &Option<(Loc, ChessColor)>,
) -> (r: u64)
    ensures
        r == fx_hash_of(grid@, *castle_white, *castle_black, *en_passent),
{
    let mut hasher = rustc_hash::FxHasher::default();
    grid.hash(&mut hasher);
    castle_white.hash(&mut hasher);
    castle_black.hash(&mut hasher);
    en_passent.hash(&mut hasher);
    hasher.finish()
}

/// Represents a chess board and its metadata.
#[derive(Debug)]
pub struct Board {
    /// The 8x8 board, row-major: index `y * 8 + x`.
    pub grid: Vec<Option<Piece>>,
    /// Whose move it is.
    pub turn: ChessColor,
    /// State of the board (check, checkmate, ...).
    pub state: BoardState,
    /// Color the human player moves.
    pub player_color: ChessColor,
    /// Color the engine moves.
    pub agent_color: ChessColor,
    /// True while black may castle (queen side, king side).
    pub castle_black: (bool, bool),
    /// True while white may castle (queen side, king side).
    pub castle_white: (bool, bool),
    /// Square and color of a pawn that just moved two ranks.
    pub en_passent: Option<(Loc, ChessColor)>,
    /// Current score of the board, positive favors white.
    pub score: i32,
    /// Squares attacked by white pieces, one flag per square.
    pub attacks_white: Vec<bool>,
    /// Squares attacked by black pieces, one flag per square.
    pub attacks_black: Vec<bool>,
    /// Whether the white king is in check.
    pub check_white: bool,
    /// Whether the black king is in check.
    pub check_black: bool,
    /// Squares of pieces that stand in the way of an attacker, one flag per
    /// square.
    pub blockers: Vec<bool>,
    /// Cached legal moves for white.
    pub moves_white: Vec<(Loc, Loc)>,
    /// Cached legal moves for black.
    pub moves_black: Vec<(Loc, Loc)>,
    /// Number of half moves played (one per white *or* black turn).
    pub half_moves: u32,
    /// Recent position hashes, for threefold-repetition detection.
    pub prev_states: Vec<u64>,
    /// Value of `half_moves` when a piece was last captured or a pawn last
    /// moved.
    pub fifty_rule: u32,
    /// Whether the game has reached the endgame.
    pub endgame: bool,
    /// Structural hash of the board.
    pub hash: u64,
    /// Whether the agent's minor pieces have moved:
    /// `((king knight, queen knight), (king bishop, queen bishop))`.
    pub agent_developments: ((bool, bool), (bool, bool)),
}

impl Board {
    /// The mathematical value of this board.
    pub open spec fn abs(self) -> BoardModel {
        BoardModel {
            grid: self.grid@,
            turn: self.turn,
            state: self.state,
            player_color: self.player_color,
            agent_color: self.agent_color,
            castle_black: self.castle_black,
            castle_white: self.castle_white,
            en_passent: self.en_passent,
            score: self.score as int,
            attacks_white: self.attacks_white@,
            attacks_black: self.attacks_black@,
            check_white: self.check_white,
            check_black: self.check_black,
            blockers: self.blockers@,
            moves_white: self.moves_white@,
            moves_black: self.moves_black@,
            half_moves: self.half_moves as int,
            prev_states: self.prev_states@,
            fifty_rule: self.fifty_rule as int,
            endgame: self.endgame,
            hash: self.hash,
            agent_developments: self.agent_developments,
        }
    }

    /// Structurally well formed: the grid and the per-square flag tables have
    /// their fixed sizes, positions match slots, and the counters are
    /// mutually consistent.
    pub open spec fn wf(self) -> bool {
        &&& grid_wf(self.grid@)
        &&& self.attacks_white@.len() == 64
        &&& self.attacks_black@.len() == 64
        &&& self.blockers@.len() == 64
        &&& self.fifty_rule <= self.half_moves
        &&& self.prev_states@.len() <= 24
        &&& (self.en_passent matches Some(e) ==> e.0.valid())
    }

    /// An empty board with the default metadata: white to move, full castling
    /// rights, nothing attacked and nothing scored.
    pub fn new() -> (b: Board)
        ensures
            b.wf(),
            b.grid@ == Seq::new(64, |i: int| None::<Piece>),
            b.attacks_white@ == Seq::new(64, |i: int| false),
            b.attacks_black@ == Seq::new(64, |i: int| false),
            b.blockers@ == Seq::new(64, |i: int| false),
            b.turn == ChessColor::White,
            b.state == BoardState::Normal,
            b.player_color == ChessColor::White,
            b.agent_color == ChessColor::Black,
            b.castle_black == (true, true),
            b.castle_white == (true, true),
            b.en_passent is None,
            b.score == 0,
            b.check_white == false,
            b.check_black == false,
            b.moves_white@.len() == 0,
            b.moves_black@.len() == 0,
            b.half_moves == 0,
            b.prev_states@.len() == 0,
            b.fifty_rule == 0,
            b.endgame == false,
            b.hash == 0,
            b.agent_developments == ((false, false), (false, false)),
    {
        let mut grid: Vec<Option<Piece>> = Vec::new();
        let mut flags_a: Vec<bool> = Vec::new();
        let mut flags_b: Vec<bool> = Vec::new();
        let mut flags_c: Vec<bool> = Vec::new();
        let mut i: usize = 0;
        while i < 64
            invariant
                i <= 64,
                grid@ =~= Seq::new(i as nat, |j: int| None::<Piece>),
                flags_a@ =~= Seq::new(i as nat, |j: int| false),
                flags_b@ =~= Seq::new(i as nat, |j: int| false),
                flags_c@ =~= Seq::new(i as nat, |j: int| false),
            decreases 64 - i,
        {
            grid.push(None);
            flags_a.push(false);
            flags_b.push(false);
            flags_c.push(false);
            i += 1;
        }
        proof {
            assert(grid@ =~= Seq::new(64, |j: int| None::<Piece>));
            assert(flags_a@ =~= Seq::new(64, |j: int| false));
            assert(flags_b@ =~= Seq::new(64, |j: int| false));
            assert(flags_c@ =~= Seq::new(64, |j: int| false));
        }
        Board {
            grid,
            turn: ChessColor::White,
            state: BoardState::Normal,
            player_color: ChessColor::White,
            agent_color: ChessColor::Black,
            castle_black: (true, true),
            castle_white: (true, true),
            en_passent: None,
            score: 0,
            attacks_white: flags_a,
            attacks_black: flags_b,
            check_white: false,
            check_black: false,
            blockers: flags_c,
            moves_white: Vec::new(),
            moves_black: Vec::new(),
            half_moves: 0,
            prev_states: Vec::new(),
            fifty_rule: 0,
            endgame: false,
            hash: 0,
            agent_developments: ((false, false), (false, false)),
        }
    }

    /// The piece standing on `loc`.
    pub fn get(&self, loc: &Loc) -> (r: Option<Piece>)
        requires
            self.wf(),
            loc.valid(),
        ensures
            r == at(self.grid@, *loc),
    {
        self.grid[loc.idx()]
    }

    /// Put `value` on `loc`.
    pub fn set(&mut self, loc: &Loc, value: Option<Piece>)
        requires
            old(self).grid@.len() == 64,
            loc.valid(),
        ensures
            final(self).grid@ == old(self).grid@.update(loc.index(), value),
            *final(self) == (Board { grid: final(self).grid, ..*old(self) }),
    {
        let i = loc.idx();
        self.grid.set(i, value);
    }

    /// Returns the number of full moves played.
    pub fn full_moves(&self) -> (r: u32)
        ensures
            r == self.half_moves / 2,
    {
        self.half_moves / 2
    }

    /// Checks whether the game is over.
    pub fn is_over(&self) -> (r: bool)
        ensures
            r == self.state.over(),
    {
        match self.state {
            BoardState::Checkmate(_) | BoardState::Stalemate | BoardState::Draw => true,
            _ => false,
        }
    }

    /// A hash of the board, castling rights and en-passant state included.
    pub fn hash(&self) -> (h: u64)
        ensures
            h == fx_hash_of(self.grid@, self.castle_white, self.castle_black, self.en_passent),
    {
        fx_hash_board(&self.grid, &self.castle_white, &self.castle_black, &self.en_passent)
    }
}

/// The grid after the bare relocation of the content of `from` to `to`: the
/// moved piece has its position updated, the origin square is cleared.
pub open spec fn move_raw_spec(g: Seq<Option<Piece>>, from: Loc, to: Loc) -> Seq<Option<Piece>> {
    let v = match g[from.index()] {
        Some(p) => Some(Piece { pos: to, ..p }),
        None => None,
    };
    g.update(to.index(), v).update(from.index(), None)
}

impl Board {
    /// Move the content of `from` to `to` without updating any metadata.
    pub fn move_raw(&mut self, from: &Loc, to: &Loc)
        requires
            old(self).grid@.len() == 64,
            from.valid(),
            to.valid(),
        ensures
            final(self).grid@ == move_raw_spec(old(self).grid@, *from, *to),
            *final(self) == (Board { grid: final(self).grid, ..*old(self) }),
            grid_wf(old(self).grid@) ==> grid_wf(final(self).grid@),
    {
        let moved = match self.get_raw(from) {
            Some(p) => Some(Piece::new(p.name, p.color, *to)),
            None => None,
        };
        let ti = to.idx();
        let fi = from.idx();
        self.grid.set(ti, moved);
        self.grid.set(fi, None);
        proof {
            if grid_wf(old(self).grid@) {
                crate::loc::lemma_loc_index(*to, 0);
                assert(grid_wf(self.grid@));
            }
        }
    }

    /// The piece standing on `loc`, without the structural invariant.
    pub(crate) fn get_raw(&self, loc: &Loc) -> (r: Option<Piece>)
        requires
            self.grid@.len() == 64,
            loc.valid(),
        ensures
            r == at(self.grid@, *loc),
    {
        self.grid[loc.idx()]
    }
}

/// A copy of a vector of copyable elements.
pub fn clone_vec<T: Copy>(v: &Vec<T>) -> (r: Vec<T>)
    ensures
        r@ == v@,
{
    let mut r: Vec<T> = Vec::new();
    let mut i: usize = 0;
    while i < v.len()
        invariant
            i <= v@.len(),
            r@ =~= v@.take(i as int),
        decreases v@.len() - i,
    {
        r.push(v[i]);
        i += 1;
    }
    proof {
        assert(r@ =~= v@);
    }
    r
}

impl Board {
    /// An independent copy of this board; search applies candidate moves to
    /// copies so that the caller's board is never touched.
    pub fn clone_board(&self) -> (r: Board)
        ensures
            r.grid@ == self.grid@,
            r.turn == self.turn,
            r.state == self.state,
            r.player_color == self.player_color,
            r.agent_color == self.agent_color,
            r.castle_black == self.castle_black,
            r.castle_white == self.castle_white,
            r.en_passent == self.en_passent,
            r.score == self.score,
            r.attacks_white@ == self.attacks_white@,
            r.attacks_black@ == self.attacks_black@,
            r.check_white == self.check_white,
            r.check_black == self.check_black,
            r.blockers@ == self.blockers@,
            r.moves_white@ == self.moves_white@,
            r.moves_black@ == self.moves_black@,
            r.half_moves == self.half_moves,
            r.prev_states@ == self.prev_states@,
            r.fifty_rule == self.fifty_rule,
            r.endgame == self.endgame,
            r.hash == self.hash,
            r.agent_developments == self.agent_developments,
            self.wf() ==> r.wf(),
    {
        Board {
            grid: clone_vec(&self.grid),
            turn: self.turn,
            state: self.state,
            player_color: self.player_color,
            agent_color: self.agent_color,
            castle_black: self.castle_black,
            castle_white: self.castle_white,
            en_passent: self.en_passent,
            score: self.score,
            attacks_white: clone_vec(&self.attacks_white),
            attacks_black: clone_vec(&self.attacks_black),
            check_white: self.check_white,
            check_black: self.check_black,
            blockers: clone_vec(&self.blockers),
            moves_white: clone_vec(&self.moves_white),
            moves_black: clone_vec(&self.moves_black),
            half_moves: self.half_moves,
            prev_states: clone_vec(&self.prev_states),
            fifty_rule: self.fifty_rule,
            endgame: self.endgame,
            hash: self.hash,
            agent_developments: self.agent_developments,
        }
    }
}

} // verus!

verus! {

/// The square whose occupant a move from `from` to `to` captures: the
/// destination itself when occupied, else the recorded en-passant pawn when a
/// pawn steps diagonally next to it; `None` when nothing is captured.
pub open spec fn capture_loc(
    g: Seq<Option<Piece>>,
    ep: Option<(Loc, ChessColor)>,
    from: Loc,
    to: Loc,
) -> Option<Loc> {
    if at(g, to) is Some {
        Some(to)
    } else {
        match at(g, from) {
            Some(p) => if p.name == PieceNames::Pawn && crate::loc::dist(from.0 as int, to.0 as int)
                == 1 {
                match ep {
                    Some((l, color)) => if to.0 == l.0 && crate::loc::dist(to.1 as int, l.1 as int)
                        == 1 && p.color != color {
                        Some(l)
                    } else {
                        None
                    },
                    None => None,
                }
            } else {
                None
            },
            None => None,
        }
    }
}

impl Board {
    /// The square whose occupant this move captures, if any.
    pub fn is_capture(&self, from: &Loc, to: &Loc) -> (r: Option<Loc>)
        requires
            self.wf(),
            from.valid(),
            to.valid(),
        ensures
            r == capture_loc(self.grid@, self.en_passent, *from, *to),
            r matches Some(l) ==> l.valid(),
    {
        if self.get(to).is_some() {
            return Some(*to);
        }

        if let Some(piece) = self.get(from) {
            let dx = if from.0 > to.0 {
                from.0 - to.0
            } else {
                to.0 - from.0
            };
            if piece.name == PieceNames::Pawn && dx == 1 {
                if let Some((loc, color)) = self.en_passent {
                    let dy = if to.1 > loc.1 {
                        to.1 - loc.1
                    } else {
                        loc.1 - to.1
                    };
                    if to.0 == loc.0 && dy == 1 && piece.color != color {
                        return Some(loc);
                    }
                }
            }
        }

        None
    }
}

} // verus!

verus! {

impl Board {
    /// The two boards agree on what the position is: the same grid, turn,
    /// castling rights and en-passant state.
    pub fn eq_position(&self, other: &Board) -> (r: bool)
        requires
            self.wf(),
            other.wf(),
        ensures
            r == (self.grid@ == other.grid@ && self.turn == other.turn && self.castle_white
                == other.castle_white && self.castle_black == other.castle_black
                && self.en_passent == other.en_passent),
    {
        let mut i: usize = 0;
        while i < 64
            invariant
                self.wf(),
                other.wf(),
                i <= 64,
                forall|k: int| 0 <= k < i ==> self.grid@[k] == other.grid@[k],
            decreases 64 - i,
        {
            if self.grid[i] != other.grid[i] {
                return false;
            }
            i += 1;
        }
        proof {
            assert(self.grid@ =~= other.grid@);
        }
        if self.turn != other.turn {
            return false;
        }
        if self.castle_white.0 != other.castle_white.0 || self.castle_white.1
            != other.castle_white.1 {
            return false;
        }
        if self.castle_black.0 != other.castle_black.0 || self.castle_black.1
            != other.castle_black.1 {
            return false;
        }
        match (self.en_passent, other.en_passent) {
            (None, None) => true,
            (Some(a), Some(b)) => a.0 == b.0 && a.1 == b.1,
            _ => false,
        }
    }
}

} // verus!
