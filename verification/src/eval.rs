//! Static evaluation: material, piece-square tables and the move-ordering
//! heuristic used by the search.

use vstd::prelude::*;

use crate::board::{Board, BoardModel, BoardState};
use crate::loc::Loc;
use crate::piece::{spec_piece_value, ChessColor, Piece, PieceNames};

verus! {

/// Bonus for giving check, in centipawns.
pub const CHECK_VALUE: i32 = 50;

/// Score of a checkmated board, in centipawns.
pub const CHECKMATE_VALUE: i32 = 20000;

/// Score of a stalemated or drawn board, in centipawns.
pub const STALEMATE_VALUE: i32 = -100;

/// One table row of eight values.
pub open spec fn rowv(a: i32, b: i32, c: i32, d: i32, e: i32, f: i32, g: i32, h: i32) -> Seq<i32> {
    seq![a, b, c, d, e, f, g, h]
}

/// The pawn's piece-square table, seen from white's side.
pub open spec fn pawn_tbl() -> Seq<Seq<i32>> {
    seq![
        rowv(0i32, 0i32, 0i32, 0i32, 0i32, 0i32, 0i32, 0i32),
        rowv(50i32, 50i32, 50i32, 50i32, 50i32, 50i32, 50i32, 50i32),
        rowv(10i32, 10i32, 20i32, 30i32, 30i32, 20i32, 10i32, 10i32),
        rowv(5i32, 5i32, 10i32, 25i32, 25i32, 10i32, 5i32, 5i32),
        rowv(0i32, 0i32, 0i32, 20i32, 20i32, 0i32, 0i32, 0i32),
        rowv(5i32, -5i32, -10i32, 0i32, 0i32, -10i32, -5i32, 5i32),
        rowv(5i32, 10i32, 10i32, -20i32, -20i32, 10i32, 10i32, 5i32),
        rowv(0i32, 0i32, 0i32, 0i32, 0i32, 0i32, 0i32, 0i32),
    ]
}

/// The bishop's piece-square table, seen from white's side.
pub open spec fn bishop_tbl() -> Seq<Seq<i32>> {
    seq![
        rowv(-20i32, -10i32, -10i32, -10i32, -10i32, -10i32, -10i32, -20i32),
        rowv(-10i32, 0i32, 0i32, 0i32, 0i32, 0i32, 0i32, -10i32),
        rowv(-10i32, 0i32, 5i32, 10i32, 10i32, 5i32, 0i32, -10i32),
        rowv(-10i32, 5i32, 5i32, 10i32, 10i32, 5i32, 5i32, -10i32),
        rowv(-10i32, 0i32, 10i32, 10i32, 10i32, 10i32, 0i32, -10i32),
        rowv(-10i32, 10i32, 10i32, 10i32, 10i32, 10i32, 10i32, -10i32),
        rowv(-10i32, 5i32, 0i32, 0i32, 0i32, 0i32, 5i32, -10i32),
        rowv(-20i32, -10i32, -50i32, -10i32, -10i32, -50i32, -10i32, -20i32),
    ]
}

/// The knight's piece-square table, seen from white's side.
pub open spec fn knight_tbl() -> Seq<Seq<i32>> {
    seq![
        rowv(-50i32, -40i32, -30i32, -30i32, -30i32, -30i32, -40i32, -50i32),
        rowv(-40i32, -20i32, 0i32, 0i32, 0i32, 0i32, -20i32, -40i32),
        rowv(-30i32, 0i32, 10i32, 15i32, 15i32, 10i32, 0i32, -30i32),
        rowv(-30i32, 5i32, 15i32, 20i32, 20i32, 15i32, 5i32, -30i32),
        rowv(-30i32, 0i32, 15i32, 20i32, 20i32, 15i32, 0i32, -30i32),
        rowv(-30i32, 5i32, 10i32, 15i32, 15i32, 10i32, 5i32, -30i32),
        rowv(-40i32, -20i32, 0i32, 5i32, 5i32, 0i32, -20i32, -40i32),
        rowv(-50i32, -50i32, -30i32, -30i32, -30i32, -30i32, -50i32, -50i32),
    ]
}

/// The rook's piece-square table, seen from white's side.
pub open spec fn rook_tbl() -> Seq<Seq<i32>> {
    seq![
        rowv(0i32, 0i32, 0i32, 0i32, 0i32, 0i32, 0i32, 0i32),
        rowv(5i32, 10i32, 10i32, 10i32, 10i32, 10i32, 10i32, 5i32),
        rowv(-5i32, 0i32, 0i32, 0i32, 0i32, 0i32, 0i32, -5i32),
        rowv(-5i32, 0i32, 0i32, 0i32, 0i32, 0i32, 0i32, -5i32),
        rowv(-5i32, 0i32, 0i32, 0i32, 0i32, 0i32, 0i32, -5i32),
        rowv(-5i32, 0i32, 0i32, 0i32, 0i32, 0i32, 0i32, -5i32),
        rowv(-5i32, 0i32, 0i32, 0i32, 0i32, 0i32, 0i32, -5i32),
        rowv(0i32, 0i32, 0i32, 5i32, 5i32, 0i32, 0i32, 0i32),
    ]
}

/// The queen's piece-square table, seen from white's side.
pub open spec fn queen_tbl() -> Seq<Seq<i32>> {
    seq![
        rowv(-20i32, -10i32, -10i32, 5i32, -5i32, -10i32, -10i32, -20i32),
        rowv(-10i32, 0i32, 0i32, 0i32, 0i32, 0i32, 0i32, -10i32),
        rowv(-10i32, 0i32, 0i32, 0i32, 0i32, 0i32, 0i32, -10i32),
        rowv(-5i32, 0i32, 0i32, 0i32, 0i32, 0i32, 0i32, -5i32),
        rowv(0i32, 0i32, 0i32, 0i32, 0i32, 0i32, 0i32, -5i32),
        rowv(-10i32, 0i32, 0i32, 0i32, 0i32, 5i32, 0i32, -10i32),
        rowv(-10i32, 0i32, 5i32, 0i32, 0i32, 0i32, 0i32, -10i32),
        rowv(-20i32, -10i32, -10i32, 5i32, -5i32, -10i32, -10i32, -20i32),
    ]
}

/// The king's middle-game piece-square table, seen from white's side.
pub open spec fn king_mid_tbl() -> Seq<Seq<i32>> {
    seq![
        rowv(-30i32, -40i32, -40i32, -50i32, -50i32, -40i32, -40i32, -30i32),
        rowv(-30i32, -40i32, -40i32, -50i32, -50i32, -40i32, -40i32, -30i32),
        rowv(-30i32, -40i32, -40i32, -50i32, -50i32, -40i32, -40i32, -30i32),
        rowv(-30i32, -40i32, -40i32, -50i32, -50i32, -40i32, -40i32, -30i32),
        rowv(-20i32, -30i32, -30i32, -40i32, -40i32, -30i32, -30i32, -20i32),
        rowv(-10i32, -20i32, -20i32, -20i32, -20i32, -20i32, -20i32, -10i32),
        rowv(20i32, 20i32, -30i32, -30i32, -30i32, -30i32, 20i32, 20i32),
        rowv(20i32, 30i32, 10i32, -30i32, 0i32, 10i32, 30i32, 20i32),
    ]
}

/// The king's endgame piece-square table, seen from white's side.
pub open spec fn king_end_tbl() -> Seq<Seq<i32>> {
    seq![
        rowv(-50i32, -40i32, -30i32, -20i32, -20i32, -30i32, -40i32, -50i32),
        rowv(-30i32, -20i32, -10i32, 0i32, 0i32, -10i32, -20i32, -30i32),
        rowv(-30i32, -10i32, 20i32, 30i32, 30i32, 20i32, -10i32, -30i32),
        rowv(-30i32, -10i32, 30i32, 40i32, 40i32, 30i32, -10i32, -30i32),
        rowv(-30i32, -10i32, 30i32, 40i32, 40i32, 30i32, -10i32, -30i32),
        rowv(-30i32, -10i32, 20i32, 30i32, 30i32, 20i32, -10i32, -30i32),
        rowv(-30i32, -30i32, 0i32, 0i32, 0i32, 0i32, -30i32, -30i32),
        rowv(-50i32, -30i32, -30i32, -30i32, -30i32, -30i32, -30i32, -50i32),
    ]
}

/// The white-side table of a piece kind, with the king's table switched by
/// game phase.
pub open spec fn white_tbl(name: PieceNames, endgame: bool) -> Seq<Seq<i32>> {
    match name {
        PieceNames::Pawn => pawn_tbl(),
        PieceNames::Bishop => bishop_tbl(),
        PieceNames::Knight => knight_tbl(),
        PieceNames::Rook => rook_tbl(),
        PieceNames::Queen => queen_tbl(),
        PieceNames::King => if endgame {
            king_end_tbl()
        } else {
            king_mid_tbl()
        },
    }
}

/// Row `y` of a piece kind's table: white reads it as written, black reads it
/// mirrored vertically.
pub open spec fn table_row(name: PieceNames, color: ChessColor, endgame: bool, y: int) -> Seq<
    i32,
> {
    if color == ChessColor::White {
        white_tbl(name, endgame)[y]
    } else {
        white_tbl(name, endgame)[7 - y]
    }
}

/// The table value of a piece standing where it stands.
pub open spec fn table_value_spec(p: Piece, endgame: bool) -> int {
    table_row(p.name, p.color, endgame, p.pos.1 as int)[p.pos.0 as int] as int
}

/// Every entry of every table lies between -50 and 50.
pub proof fn lemma_table_entry_bounds(name: PieceNames, color: ChessColor, endgame: bool, x: int, y: int)
    requires
        0 <= x < 8,
        0 <= y < 8,
    ensures
        -50 <= table_row(name, color, endgame, y)[x] <= 50,
{
}

/// A vector of one table row.
fn row8(a: i32, b: i32, c: i32, d: i32, e: i32, f: i32, g: i32, h: i32) -> (v: Vec<i32>)
    ensures
        v@ == seq![a, b, c, d, e, f, g, h],
{
    let mut v: Vec<i32> = Vec::new();
    v.push(a);
    v.push(b);
    v.push(c);
    v.push(d);
    v.push(e);
    v.push(f);
    v.push(g);
    v.push(h);
    proof {
        assert(v@ =~= seq![a, b, c, d, e, f, g, h]);
    }
    v
}

/// The white-side table of a piece kind, as rows of eight values.
fn white_table(piece: &PieceNames, endgame: bool) -> (t: Vec<Vec<i32>>)
    ensures
        t@.len() == 8,
        forall|y: int| 0 <= y < 8 ==> (#[trigger] t@[y])@ == white_tbl(*piece, endgame)[y],
{
    let mut t: Vec<Vec<i32>> = Vec::new();
    match piece {
        PieceNames::Pawn => {
            t.push(row8(0, 0, 0, 0, 0, 0, 0, 0));
            t.push(row8(50, 50, 50, 50, 50, 50, 50, 50));
            t.push(row8(10, 10, 20, 30, 30, 20, 10, 10));
            t.push(row8(5, 5, 10, 25, 25, 10, 5, 5));
            t.push(row8(0, 0, 0, 20, 20, 0, 0, 0));
            t.push(row8(5, -5, -10, 0, 0, -10, -5, 5));
            t.push(row8(5, 10, 10, -20, -20, 10, 10, 5));
            t.push(row8(0, 0, 0, 0, 0, 0, 0, 0));
        },
        PieceNames::Bishop => {
            t.push(row8(-20, -10, -10, -10, -10, -10, -10, -20));
            t.push(row8(-10, 0, 0, 0, 0, 0, 0, -10));
            t.push(row8(-10, 0, 5, 10, 10, 5, 0, -10));
            t.push(row8(-10, 5, 5, 10, 10, 5, 5, -10));
            t.push(row8(-10, 0, 10, 10, 10, 10, 0, -10));
            t.push(row8(-10, 10, 10, 10, 10, 10, 10, -10));
            t.push(row8(-10, 5, 0, 0, 0, 0, 5, -10));
            t.push(row8(-20, -10, -50, -10, -10, -50, -10, -20));
        },
        PieceNames::Knight => {
            t.push(row8(-50, -40, -30, -30, -30, -30, -40, -50));
            t.push(row8(-40, -20, 0, 0, 0, 0, -20, -40));
            t.push(row8(-30, 0, 10, 15, 15, 10, 0, -30));
            t.push(row8(-30, 5, 15, 20, 20, 15, 5, -30));
            t.push(row8(-30, 0, 15, 20, 20, 15, 0, -30));
            t.push(row8(-30, 5, 10, 15, 15, 10, 5, -30));
            t.push(row8(-40, -20, 0, 5, 5, 0, -20, -40));
            t.push(row8(-50, -50, -30, -30, -30, -30, -50, -50));
        },
        PieceNames::Rook => {
            t.push(row8(0, 0, 0, 0, 0, 0, 0, 0));
            t.push(row8(5, 10, 10, 10, 10, 10, 10, 5));
            t.push(row8(-5, 0, 0, 0, 0, 0, 0, -5));
            t.push(row8(-5, 0, 0, 0, 0, 0, 0, -5));
            t.push(row8(-5, 0, 0, 0, 0, 0, 0, -5));
            t.push(row8(-5, 0, 0, 0, 0, 0, 0, -5));
            t.push(row8(-5, 0, 0, 0, 0, 0, 0, -5));
            t.push(row8(0, 0, 0, 5, 5, 0, 0, 0));
        },
        PieceNames::Queen => {
            t.push(row8(-20, -10, -10, 5, -5, -10, -10, -20));
            t.push(row8(-10, 0, 0, 0, 0, 0, 0, -10));
            t.push(row8(-10, 0, 0, 0, 0, 0, 0, -10));
            t.push(row8(-5, 0, 0, 0, 0, 0, 0, -5));
            t.push(row8(0, 0, 0, 0, 0, 0, 0, -5));
            t.push(row8(-10, 0, 0, 0, 0, 5, 0, -10));
            t.push(row8(-10, 0, 5, 0, 0, 0, 0, -10));
            t.push(row8(-20, -10, -10, 5, -5, -10, -10, -20));
        },
        PieceNames::King => {
            if endgame {
                t.push(row8(-50, -40, -30, -20, -20, -30, -40, -50));
                t.push(row8(-30, -20, -10, 0, 0, -10, -20, -30));
                t.push(row8(-30, -10, 20, 30, 30, 20, -10, -30));
                t.push(row8(-30, -10, 30, 40, 40, 30, -10, -30));
                t.push(row8(-30, -10, 30, 40, 40, 30, -10, -30));
                t.push(row8(-30, -10, 20, 30, 30, 20, -10, -30));
                t.push(row8(-30, -30, 0, 0, 0, 0, -30, -30));
                t.push(row8(-50, -30, -30, -30, -30, -30, -30, -50));
            } else {
                t.push(row8(-30, -40, -40, -50, -50, -40, -40, -30));
                t.push(row8(-30, -40, -40, -50, -50, -40, -40, -30));
                t.push(row8(-30, -40, -40, -50, -50, -40, -40, -30));
                t.push(row8(-30, -40, -40, -50, -50, -40, -40, -30));
                t.push(row8(-20, -30, -30, -40, -40, -30, -30, -20));
                t.push(row8(-10, -20, -20, -20, -20, -20, -20, -10));
                t.push(row8(20, 20, -30, -30, -30, -30, 20, 20));
                t.push(row8(20, 30, 10, -30, 0, 10, 30, 20));
            }
        },
    }
    t
}

/// The piece-square table of a piece kind for one color: white's as written,
/// black's mirrored vertically, the king's switched by game phase.
pub fn piece_table(piece: &PieceNames, color: &ChessColor, endgame: bool) -> (t: Vec<Vec<i32>>)
    ensures
        t@.len() == 8,
        forall|y: int| 0 <= y < 8 ==> (#[trigger] t@[y])@ == table_row(*piece, *color, endgame, y),
{
    let w = white_table(piece, endgame);
    match color {
        ChessColor::White => w,
        ChessColor::Black => {
            let mut rev: Vec<Vec<i32>> = Vec::new();
            let mut i: usize = 8;
            while i > 0
                invariant
                    w@.len() == 8,
                    forall|y: int| 0 <= y < 8 ==> (#[trigger] w@[y])@ == white_tbl(
                        *piece,
                        endgame,
                    )[y],
                    i <= 8,
                    rev@.len() == 8 - i,
                    forall|y: int| 0 <= y < 8 - i ==> (#[trigger] rev@[y])@ == white_tbl(
                        *piece,
                        endgame,
                    )[7 - y],
                decreases i,
            {
                i -= 1;
                rev.push(crate::board::clone_vec(&w[i]));
            }
            rev
        },
    }
}

/// The table value of a piece on its square.
pub fn table_value(piece: &Piece, endgame: bool) -> (v: i32)
    requires
        piece.pos.valid(),
    ensures
        v as int == table_value_spec(*piece, endgame),
        -50 <= v <= 50,
{
    let t = piece_table(&piece.name, &piece.color, endgame);
    let v = t[piece.pos.1][piece.pos.0];
    proof {
        lemma_table_entry_bounds(
            piece.name,
            piece.color,
            endgame,
            piece.pos.0 as int,
            piece.pos.1 as int,
        );
    }
    v
}

/// Material plus table value of a piece.
pub open spec fn full_piece_value_spec(p: Piece, endgame: bool) -> int {
    spec_piece_value(p.name) + table_value_spec(p, endgame)
}

/// Material plus table value of a piece.
pub fn full_piece_value(piece: &Piece, endgame: bool) -> (v: i32)
    requires
        piece.pos.valid(),
    ensures
        v as int == full_piece_value_spec(*piece, endgame),
        0 < v <= 20050,
{
    crate::piece::piece_value(&piece.name) + table_value(piece, endgame)
}

} // verus!

use crate::board::{at, capture_loc, grid_wf};
use crate::loc::dist;

verus! {

/// Sum of the signed full piece values over the first `n` squares: white
/// pieces count positive, black pieces negative.
pub open spec fn material_prefix(g: Seq<Option<Piece>>, endgame: bool, n: int) -> int
    decreases n,
{
    if n <= 0 {
        0
    } else {
        material_prefix(g, endgame, n - 1) + (match g[n - 1] {
            Some(p) => if p.color == ChessColor::White {
                full_piece_value_spec(p, endgame)
            } else {
                -full_piece_value_spec(p, endgame)
            },
            None => 0,
        })
    }
}

/// The material sum over well-formed squares stays within `n` piece values.
pub proof fn lemma_material_bound(g: Seq<Option<Piece>>, endgame: bool, n: int)
    requires
        grid_wf(g),
        0 <= n <= 64,
    ensures
        -n * 20050 <= material_prefix(g, endgame, n) <= n * 20050,
    decreases n,
{
    if n > 0 {
        lemma_material_bound(g, endgame, n - 1);
        match g[n - 1] {
            Some(p) => {
                lemma_table_entry_bounds(p.name, p.color, endgame, p.pos.0 as int, p.pos.1 as int);
            },
            None => {},
        }
        assert((n - 1) * 20050 + 20050 == n * 20050) by (nonlinear_arith);
    }
}

/// How many of the first `n` flags are set.
pub open spec fn count_true_prefix(s: Seq<bool>, n: int) -> int
    decreases n,
{
    if n <= 0 {
        0
    } else {
        count_true_prefix(s, n - 1) + (if s[n - 1] {
            1int
        } else {
            0int
        })
    }
}

/// At most `n` of the first `n` flags are set.
pub proof fn lemma_count_true_bound(s: Seq<bool>, n: int)
    requires
        0 <= n,
    ensures
        0 <= count_true_prefix(s, n) <= n,
    decreases n,
{
    if n > 0 {
        lemma_count_true_bound(s, n - 1);
    }
}

/// The score of a board, positive favoring white: terminal states score a
/// fixed value; otherwise signed material and table values, a bonus against
/// the side in check, and one point per attacked square.
pub open spec fn score_model(m: BoardModel) -> int {
    match m.state {
        BoardState::Checkmate(c) => if c == ChessColor::White {
            -(CHECKMATE_VALUE as int)
        } else {
            CHECKMATE_VALUE as int
        },
        BoardState::Stalemate => STALEMATE_VALUE as int,
        BoardState::Draw => STALEMATE_VALUE as int,
        _ => {
            let base: int = match m.state {
                BoardState::Check(c) => if c == ChessColor::White {
                    -(CHECK_VALUE as int)
                } else {
                    CHECK_VALUE as int
                },
                _ => 0,
            };
            base + material_prefix(m.grid, m.endgame, 64) + count_true_prefix(m.attacks_white, 64)
                - count_true_prefix(m.attacks_black, 64)
        },
    }
}

/// How many flags of a 64-square table are set.
fn count_attacks(flags: &Vec<bool>) -> (n: i32)
    requires
        flags@.len() == 64,
    ensures
        n as int == count_true_prefix(flags@, 64),
        0 <= n <= 64,
{
    let mut n: i32 = 0;
    let mut j: usize = 0;
    while j < 64
        invariant
            flags@.len() == 64,
            j <= 64,
            n as int == count_true_prefix(flags@, j as int),
            0 <= n <= j,
        decreases 64 - j,
    {
        if flags[j] {
            n += 1;
        }
        j += 1;
    }
    n
}

impl Board {
    /// Calculates the score of the board, positive favoring white.
    pub fn get_score(&self) -> (s: i32)
        requires
            self.wf(),
        ensures
            s as int == score_model(self.abs()),
    {
        match self.state {
            BoardState::Checkmate(check_color) => {
                return if check_color == ChessColor::White {
                    -CHECKMATE_VALUE
                } else {
                    CHECKMATE_VALUE
                };
            },
            BoardState::Stalemate | BoardState::Draw => {
                return STALEMATE_VALUE;
            },
            _ => {},
        }
        let mut score: i32 = match self.state {
            BoardState::Check(check_color) => {
                if check_color == ChessColor::White {
                    -CHECK_VALUE
                } else {
                    CHECK_VALUE
                }
            },
            _ => 0,
        };
        let ghost base = score as int;

        // Add value based on pieces
        let mut j: usize = 0;
        while j < 64
            invariant
                self.wf(),
                j <= 64,
                -50 <= base <= 50,
                score as int == base + material_prefix(self.grid@, self.endgame, j as int),
                -50 - (j as int) * 20050 <= score as int <= 50 + (j as int) * 20050,
            decreases 64 - j,
        {
            if let Some(piece) = self.grid[j] {
                let v = full_piece_value(&piece, self.endgame);
                if piece.color == ChessColor::White {
                    score += v;
                } else {
                    score -= v;
                }
            }
            proof {
                assert((j as int) * 20050 + 20050 == (j as int + 1) * 20050) by (nonlinear_arith);
            }
            j += 1;
        }

        // Add value based on attacks
        score += count_attacks(&self.attacks_white);
        score -= count_attacks(&self.attacks_black);

        score
    }

    /// The ordering value of a move: promotions first, then the table gain of
    /// the moved piece plus the exchange gain of a capture, with small
    /// penalties against early queen moves and aimless endgame king moves.
    pub fn move_value(&self, from: &Loc, to: &Loc) -> (v: i32)
        requires
            self.wf(),
            from.valid(),
            to.valid(),
        ensures
            v as int == move_value_spec(self.abs(), *from, *to),
    {
        let piece = match self.get(from) {
            Some(piece) => piece,
            None => {
                return -100;
            },
        };

        if piece.name == PieceNames::Pawn && (to.1 == 0 || to.1 == 7) {
            return i32::MAX;
        }

        let mut score: i32 = 0;

        let dx = if from.0 > to.0 {
            from.0 - to.0
        } else {
            to.0 - from.0
        };
        if piece.name == PieceNames::King && self.endgame && dx != 2 {
            score -= 20;
        }
        let dev = self.agent_developments;
        if piece.name == PieceNames::Queen && !(dev.0.0 && dev.0.1 && dev.1.0 && dev.1.1) {
            score -= 100;
        }
        proof {
            assert((dev.0.0 && dev.0.1 && dev.1.0 && dev.1.1) <==> dev == (
                (true, true),
                (true, true),
            ));
        }

        // Position change
        let tv_to = table_value(&Piece { name: piece.name, color: piece.color, pos: *to }, self.endgame);
        let tv_from = table_value(&piece, self.endgame);
        score += tv_to - tv_from;

        // Add value based on capture
        if let Some(capture_pos) = self.is_capture(from, to) {
            if let Some(captured) = self.get(&capture_pos) {
                score += captured.value() - piece.value();
            }
        }

        score
    }
}

/// The ordering value of a move, as `move_value` computes it.
pub open spec fn move_value_spec(m: BoardModel, from: Loc, to: Loc) -> int {
    match at(m.grid, from) {
        None => -100,
        Some(piece) => {
            if piece.name == PieceNames::Pawn && (to.1 == 0 || to.1 == 7) {
                i32::MAX as int
            } else {
                let pen_king: int = if piece.name == PieceNames::King && m.endgame && dist(
                    from.0 as int,
                    to.0 as int,
                ) != 2 {
                    -20
                } else {
                    0
                };
                let pen_queen: int = if piece.name == PieceNames::Queen && m.agent_developments
                    != ((true, true), (true, true)) {
                    -100
                } else {
                    0
                };
                let tables = table_value_spec(
                    Piece { name: piece.name, color: piece.color, pos: to },
                    m.endgame,
                ) - table_value_spec(piece, m.endgame);
                let cap: int = match capture_loc(m.grid, m.en_passent, from, to) {
                    Some(cp) => match at(m.grid, cp) {
                        Some(q) => spec_piece_value(q.name) - spec_piece_value(piece.name),
                        None => 0,
                    },
                    None => 0,
                };
                pen_king + pen_queen + tables + cap
            }
        },
    }
}

} // verus!

use crate::apply::{legal_moves_spec, movelist_ok, MAX_HALF_MOVES};

verus! {

/// Move `a` sorts strictly before move `b`: ascending order compares values
/// upward, descending order downward.
pub open spec fn sorts_before(m: BoardModel, asc: bool, a: (Loc, Loc), b: (Loc, Loc)) -> bool {
    if asc {
        move_value_spec(m, a.0, a.1) < move_value_spec(m, b.0, b.1)
    } else {
        move_value_spec(m, a.0, a.1) > move_value_spec(m, b.0, b.1)
    }
}

/// Stable insertion of a move into a sorted list: it goes in front of the
/// first strictly worse entry, after any of equal value.
pub open spec fn insert_sorted(
    m: BoardModel,
    asc: bool,
    x: (Loc, Loc),
    s: Seq<(Loc, Loc)>,
) -> Seq<(Loc, Loc)>
    decreases s.len(),
{
    if s.len() == 0 {
        seq![x]
    } else if sorts_before(m, asc, x, s[0]) {
        seq![x] + s
    } else {
        seq![s[0]] + insert_sorted(m, asc, x, s.drop_first())
    }
}

/// The first `n` moves of a list, insertion sorted.
pub open spec fn sort_moves_prefix(
    m: BoardModel,
    asc: bool,
    s: Seq<(Loc, Loc)>,
    n: int,
) -> Seq<(Loc, Loc)>
    decreases n,
{
    if n <= 0 {
        Seq::empty()
    } else {
        insert_sorted(m, asc, s[n - 1], sort_moves_prefix(m, asc, s, n - 1))
    }
}

/// Black's moves sort ascending by value, white's descending, so that the
/// side to move sees its best candidates first.
pub open spec fn sort_ascending(color: ChessColor) -> bool {
    color == ChessColor::Black
}

/// The legal moves of a color, ordered best first for that side.
pub open spec fn sorted_moves_spec(m: BoardModel, color: ChessColor) -> Seq<(Loc, Loc)> {
    sort_moves_prefix(
        m,
        sort_ascending(color),
        legal_moves_spec(m, color),
        legal_moves_spec(m, color).len() as int,
    )
}

/// Stable insertion inserts exactly at the first index whose entry is
/// strictly worse.
proof fn lemma_insert_sorted_at(
    m: BoardModel,
    asc: bool,
    x: (Loc, Loc),
    s: Seq<(Loc, Loc)>,
    idx: int,
)
    requires
        0 <= idx <= s.len(),
        forall|i: int| 0 <= i < idx ==> !sorts_before(m, asc, x, #[trigger] s[i]),
        idx < s.len() ==> sorts_before(m, asc, x, s[idx]),
    ensures
        insert_sorted(m, asc, x, s) == s.take(idx) + seq![x] + s.skip(idx),
    decreases s.len(),
{
    if s.len() == 0 {
        assert(insert_sorted(m, asc, x, s) =~= s.take(idx) + seq![x] + s.skip(idx));
    } else if idx == 0 {
        assert(insert_sorted(m, asc, x, s) =~= s.take(0) + seq![x] + s.skip(0));
    } else {
        assert(!sorts_before(m, asc, x, s[0]));
        let rest = s.drop_first();
        assert forall|i: int| 0 <= i < idx - 1 implies !sorts_before(
            m,
            asc,
            x,
            #[trigger] rest[i],
        ) by {
            assert(rest[i] == s[i + 1]);
        }
        if idx - 1 < rest.len() {
            assert(rest[idx - 1] == s[idx]);
        }
        lemma_insert_sorted_at(m, asc, x, rest, idx - 1);
        assert(insert_sorted(m, asc, x, s) == seq![s[0]] + (rest.take(idx - 1) + seq![x]
            + rest.skip(idx - 1)));
        assert(insert_sorted(m, asc, x, s) =~= s.take(idx) + seq![x] + s.skip(idx));
    }
}

impl Board {
    /// The legal moves of `color`, ordered best first for that side (white
    /// descending by move value, black ascending), insertion order kept
    /// among equals.
    pub fn get_sorted_moves(&self, color: ChessColor) -> (res: Vec<(Loc, Loc)>)
        requires
            self.wf(),
            self.half_moves <= MAX_HALF_MOVES,
        ensures
            res@ == sorted_moves_spec(self.abs(), color),
            movelist_ok(self.abs(), res@),
        decreases 14int,
    {
        let ghost m = self.abs();
        let moves = self.moves(color);
        let asc = color == ChessColor::Black;
        let ghost src = moves@;

        let mut res: Vec<(Loc, Loc)> = Vec::new();
        let mut n: usize = 0;
        while n < moves.len()
            invariant
                self.wf(),
                m == self.abs(),
                asc == sort_ascending(color),
                src == moves@,
                movelist_ok(m, src),
                n <= src.len(),
                res@ == sort_moves_prefix(m, asc, src, n as int),
                res@.len() == n,
                movelist_ok(m, res@),
            decreases src.len() - n,
        {
            let x = moves[n];
            proof {
                assert(movelist_ok(m, src));
                assert({
                    let mv = src[n as int];
                    mv.0.valid() && mv.1.valid()
                });
            }
            let xv = self.move_value(&x.0, &x.1);
            let mut idx: usize = 0;
            let mut stop = false;
            while idx < res.len() && !stop
                invariant
                    self.wf(),
                    m == self.abs(),
                    res@.len() == n,
                    movelist_ok(m, res@),
                    idx <= res@.len(),
                    xv as int == move_value_spec(m, x.0, x.1),
                    forall|i: int|
                        0 <= i < idx ==> !sorts_before(m, asc, x, #[trigger] res@[i]),
                    stop ==> idx < res@.len() && sorts_before(m, asc, x, res@[idx as int]),
                decreases res@.len() - idx + (if stop {
                    0int
                } else {
                    1int
                }),
            {
                let ghost cur = res@[idx as int];
                proof {
                    assert(cur.0.valid() && cur.1.valid());
                }
                let yv = self.move_value(&res[idx].0, &res[idx].1);
                let before = if asc {
                    xv < yv
                } else {
                    xv > yv
                };
                if before {
                    stop = true;
                } else {
                    idx += 1;
                }
            }
            proof {
                lemma_insert_sorted_at(m, asc, x, res@, idx as int);
            }
            res.insert(idx, x);
            proof {
                assert(res@ =~= sort_moves_prefix(m, asc, src, n as int).take(idx as int)
                    + seq![x] + sort_moves_prefix(m, asc, src, n as int).skip(idx as int));
                assert(res@ == sort_moves_prefix(m, asc, src, n as int + 1));
                assert forall|i2: int| 0 <= i2 < res@.len() implies {
                    let mv = #[trigger] res@[i2];
                    &&& mv.0.valid()
                    &&& mv.1.valid()
                    &&& mv.0 != mv.1
                    &&& crate::board::at(m.grid, mv.0) is Some
                    &&& crate::apply::castle_ok(m.grid, mv.0, mv.1)
                } by {
                    let old_sorted = sort_moves_prefix(m, asc, src, n as int);
                    if i2 < idx {
                        assert(res@[i2] == old_sorted[i2]);
                    } else if i2 == idx {
                        assert(res@[i2] == x);
                        assert(src[n as int] == x);
                    } else {
                        assert(res@[i2] == old_sorted[i2 - 1]);
                    }
                }
            }
            n += 1;
        }
        proof {
            assert(res@ == sorted_moves_spec(m, color));
        }
        res
    }
}

} // verus!

verus! {

/// Insertion keeps exactly the inserted move and the old entries.
pub proof fn lemma_insert_sorted_membership(
    m: BoardModel,
    asc: bool,
    x: (Loc, Loc),
    s: Seq<(Loc, Loc)>,
    mv: (Loc, Loc),
)
    ensures
        insert_sorted(m, asc, x, s).contains(mv) <==> (mv == x || s.contains(mv)),
    decreases s.len(),
{
    let r = insert_sorted(m, asc, x, s);
    if s.len() == 0 {
        if r.contains(mv) {
            let i = choose|i: int| 0 <= i < r.len() && r[i] == mv;
            assert(mv == x);
        }
        if mv == x {
            assert(r[0] == mv);
        }
    } else if sorts_before(m, asc, x, s[0]) {
        assert(r == seq![x] + s);
        if r.contains(mv) {
            let i = choose|i: int| 0 <= i < r.len() && r[i] == mv;
            if i == 0 {
                assert(mv == x);
            } else {
                assert(s[i - 1] == mv);
                assert(s.contains(mv));
            }
        }
        if mv == x {
            assert(r[0] == mv);
        }
        if s.contains(mv) {
            let i = choose|i: int| 0 <= i < s.len() && s[i] == mv;
            assert(r[i + 1] == mv);
        }
    } else {
        let rest = s.drop_first();
        lemma_insert_sorted_membership(m, asc, x, rest, mv);
        let inner = insert_sorted(m, asc, x, rest);
        assert(r == seq![s[0]] + inner);
        if r.contains(mv) {
            let i = choose|i: int| 0 <= i < r.len() && r[i] == mv;
            if i == 0 {
                assert(s[0] == mv);
                assert(s.contains(mv));
            } else {
                assert(inner[i - 1] == mv);
                assert(inner.contains(mv));
                if mv != x {
                    let j = choose|j: int| 0 <= j < rest.len() && rest[j] == mv;
                    assert(s[j + 1] == mv);
                    assert(s.contains(mv));
                }
            }
        }
        if mv == x {
            assert(inner.contains(mv));
            let j = choose|j: int| 0 <= j < inner.len() && inner[j] == mv;
            assert(r[j + 1] == mv);
        }
        if s.contains(mv) {
            let i = choose|i: int| 0 <= i < s.len() && s[i] == mv;
            if i == 0 {
                assert(r[0] == mv);
            } else {
                assert(rest[i - 1] == mv);
                assert(rest.contains(mv));
                assert(inner.contains(mv));
                let j = choose|j: int| 0 <= j < inner.len() && inner[j] == mv;
                assert(r[j + 1] == mv);
            }
        }
    }
}

/// A sorted prefix holds only moves of its source list.
pub proof fn lemma_sort_prefix_membership(
    m: BoardModel,
    asc: bool,
    s: Seq<(Loc, Loc)>,
    n: int,
    mv: (Loc, Loc),
)
    requires
        0 <= n <= s.len(),
    ensures
        sort_moves_prefix(m, asc, s, n).contains(mv) ==> s.contains(mv),
    decreases n,
{
    if n > 0 {
        lemma_sort_prefix_membership(m, asc, s, n - 1, mv);
        lemma_insert_sorted_membership(m, asc, s[n - 1], sort_moves_prefix(m, asc, s, n - 1), mv);
        if sort_moves_prefix(m, asc, s, n).contains(mv) {
            if mv == s[n - 1] {
                assert(s.contains(mv));
            }
        }
    }
}

/// Every sorted move is one of the color's legal moves.
pub proof fn lemma_sorted_moves_legal(m: BoardModel, color: ChessColor, mv: (Loc, Loc))
    ensures
        sorted_moves_spec(m, color).contains(mv) ==> legal_moves_spec(m, color).contains(mv),
{
    lemma_sort_prefix_membership(
        m,
        sort_ascending(color),
        legal_moves_spec(m, color),
        legal_moves_spec(m, color).len() as int,
        mv,
    );
}

} // verus!
