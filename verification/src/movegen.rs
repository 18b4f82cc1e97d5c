//! Pseudo-legal move and attack generation for every piece kind.
//!
//! Static pieces (knight, king) have fixed offset tables; directional pieces
//! (bishop, rook, queen) slide along rays until blocked; pawns have their own
//! forward, capture and en-passant rules.

use vstd::prelude::*;

use crate::board::{at, Board, BoardModel};
use crate::loc::Loc;
use crate::piece::{ChessColor, Piece};

verus! {

/// The square `dx` files and `dy` rows away; an off-board sentinel when the
/// true destination would be negative, so that it never aliases a real
/// square.
pub open spec fn off(l: Loc, dx: int, dy: int) -> Loc {
    if 0 <= l.0 + dx && 0 <= l.1 + dy {
        Loc((l.0 + dx) as usize, (l.1 + dy) as usize)
    } else {
        Loc(8, 8)
    }
}

/// The shifted square stays on the board.
pub open spec fn in_board(l: Loc, dx: int, dy: int) -> bool {
    0 <= l.0 + dx < 8 && 0 <= l.1 + dy < 8
}

/// Square `l` holds a piece of color `c`.
pub open spec fn is_friendly(g: Seq<Option<Piece>>, c: ChessColor, l: Loc) -> bool {
    at(g, l) matches Some(p) && p.color == c
}

/// Square `l` holds a piece of the color opposite to `c`.
pub open spec fn is_enemy(g: Seq<Option<Piece>>, c: ChessColor, l: Loc) -> bool {
    at(g, l) matches Some(p) && p.color != c
}

/// Offsets are small enough for the coordinate arithmetic.
pub open spec fn dirs_ok(dirs: Seq<(i32, i32)>) -> bool {
    forall|i: int|
        0 <= i < dirs.len() ==> -8 <= (#[trigger] dirs[i]).0 <= 8 && -8 <= dirs[i].1 <= 8
}

/// No offset is the null offset (a ray must make progress).
pub open spec fn dirs_nonzero(dirs: Seq<(i32, i32)>) -> bool {
    forall|i: int| 0 <= i < dirs.len() ==> (#[trigger] dirs[i]) != (0i32, 0i32)
}

/// The offsets as mathematical integers.
pub open spec fn dirs_view(dirs: Seq<(i32, i32)>) -> Seq<(int, int)> {
    dirs.map_values(|d: (i32, i32)| (d.0 as int, d.1 as int))
}

/// Targets of the first `n` offsets that are on the board and not occupied
/// by a friendly piece, in offset order.
pub open spec fn static_moves_prefix(
    g: Seq<Option<Piece>>,
    c: ChessColor,
    pos: Loc,
    dirs: Seq<(int, int)>,
    n: int,
) -> Seq<Loc>
    decreases n,
{
    if n <= 0 {
        Seq::empty()
    } else {
        let prev = static_moves_prefix(g, c, pos, dirs, n - 1);
        let d = dirs[n - 1];
        if in_board(pos, d.0, d.1) && !is_friendly(g, c, off(pos, d.0, d.1)) {
            prev.push(off(pos, d.0, d.1))
        } else {
            prev
        }
    }
}

/// All offset targets that are on the board and not friendly.
pub open spec fn static_moves_spec(
    g: Seq<Option<Piece>>,
    c: ChessColor,
    pos: Loc,
    dirs: Seq<(int, int)>,
) -> Seq<Loc> {
    static_moves_prefix(g, c, pos, dirs, dirs.len() as int)
}

/// Targets of the first `n` offsets that are on the board, occupied or not.
pub open spec fn static_attacks_prefix(pos: Loc, dirs: Seq<(int, int)>, n: int) -> Seq<Loc>
    decreases n,
{
    if n <= 0 {
        Seq::empty()
    } else {
        let prev = static_attacks_prefix(pos, dirs, n - 1);
        let d = dirs[n - 1];
        if in_board(pos, d.0, d.1) {
            prev.push(off(pos, d.0, d.1))
        } else {
            prev
        }
    }
}

/// All offset targets that are on the board.
pub open spec fn static_attacks_spec(pos: Loc, dirs: Seq<(int, int)>) -> Seq<Loc> {
    static_attacks_prefix(pos, dirs, dirs.len() as int)
}

/// The squares a ray reaches from candidate square `cand` walking by `d`:
/// empty squares up to and including the first occupied one; for moves the
/// final square counts only when it holds an enemy piece.
pub open spec fn ray_moves_from(
    g: Seq<Option<Piece>>,
    c: ChessColor,
    cand: Loc,
    d: (int, int),
    fuel: nat,
) -> Seq<Loc>
    decreases fuel,
{
    if !cand.valid() || fuel == 0 {
        Seq::empty()
    } else {
        match at(g, cand) {
            Some(q) => if q.color != c {
                seq![cand]
            } else {
                Seq::empty()
            },
            None => seq![cand] + ray_moves_from(g, c, off(cand, d.0, d.1), d, (fuel - 1) as nat),
        }
    }
}

/// Like `ray_moves_from`, but the first occupied square always counts: it is
/// attacked (or defended) whatever stands there.
pub open spec fn ray_attacks_from(
    g: Seq<Option<Piece>>,
    cand: Loc,
    d: (int, int),
    fuel: nat,
) -> Seq<Loc>
    decreases fuel,
{
    if !cand.valid() || fuel == 0 {
        Seq::empty()
    } else {
        match at(g, cand) {
            Some(q) => seq![cand],
            None => seq![cand] + ray_attacks_from(g, off(cand, d.0, d.1), d, (fuel - 1) as nat),
        }
    }
}

/// One full ray of moves in direction `d`.
pub open spec fn dir_ray_moves(
    g: Seq<Option<Piece>>,
    c: ChessColor,
    pos: Loc,
    d: (int, int),
) -> Seq<Loc> {
    ray_moves_from(g, c, off(pos, d.0, d.1), d, 8)
}

/// One full ray of attacks in direction `d`.
pub open spec fn dir_ray_attacks(g: Seq<Option<Piece>>, pos: Loc, d: (int, int)) -> Seq<Loc> {
    ray_attacks_from(g, off(pos, d.0, d.1), d, 8)
}

/// Concatenation of the move rays of the first `n` directions.
pub open spec fn ray_moves_prefix(
    g: Seq<Option<Piece>>,
    c: ChessColor,
    pos: Loc,
    dirs: Seq<(int, int)>,
    n: int,
) -> Seq<Loc>
    decreases n,
{
    if n <= 0 {
        Seq::empty()
    } else {
        ray_moves_prefix(g, c, pos, dirs, n - 1) + dir_ray_moves(g, c, pos, dirs[n - 1])
    }
}

/// Concatenation of the move rays of all directions.
pub open spec fn ray_moves_spec(
    g: Seq<Option<Piece>>,
    c: ChessColor,
    pos: Loc,
    dirs: Seq<(int, int)>,
) -> Seq<Loc> {
    ray_moves_prefix(g, c, pos, dirs, dirs.len() as int)
}

/// Concatenation of the attack rays of the first `n` directions.
pub open spec fn ray_attacks_prefix(
    g: Seq<Option<Piece>>,
    pos: Loc,
    dirs: Seq<(int, int)>,
    n: int,
) -> Seq<Loc>
    decreases n,
{
    if n <= 0 {
        Seq::empty()
    } else {
        ray_attacks_prefix(g, pos, dirs, n - 1) + dir_ray_attacks(g, pos, dirs[n - 1])
    }
}

/// Concatenation of the attack rays of all directions.
pub open spec fn ray_attacks_spec(
    g: Seq<Option<Piece>>,
    pos: Loc,
    dirs: Seq<(int, int)>,
) -> Seq<Loc> {
    ray_attacks_prefix(g, pos, dirs, dirs.len() as int)
}

/// Adds `location` to `moves` if it is on the board and does not capture a
/// friendly piece.
pub fn add_move(board: &Board, color: &ChessColor, location: Loc, moves: &mut Vec<Loc>)
    requires
        board.wf(),
    ensures
        final(moves)@ == (if location.valid() && !is_friendly(board.grid@, *color, location) {
            old(moves)@.push(location)
        } else {
            old(moves)@
        }),
{
    if crate::loc::valid_pos(&location) {
        if let Some(piece) = board.get(&location) {
            if &piece.color == color {
                return ;
            }
        }
        moves.push(location);
    }
}

/// Adds `location` to `moves` if it is on the board.
pub fn add_ff(location: Loc, moves: &mut Vec<Loc>)
    ensures
        final(moves)@ == (if location.valid() {
            old(moves)@.push(location)
        } else {
            old(moves)@
        }),
{
    if crate::loc::valid_pos(&location) {
        moves.push(location);
    }
}

/// Adds `location` to `moves` if it is on the board and empty; true when
/// added.
pub fn add_if_empty(board: &Board, location: Loc, moves: &mut Vec<Loc>) -> (r: bool)
    requires
        board.wf(),
    ensures
        r == (location.valid() && at(board.grid@, location) is None),
        final(moves)@ == (if location.valid() && at(board.grid@, location) is None {
            old(moves)@.push(location)
        } else {
            old(moves)@
        }),
{
    if crate::loc::valid_pos(&location) && board.get(&location).is_none() {
        moves.push(location);
        return true;
    }
    false
}

/// Adds `location` to `moves` if it is on the board and holds an enemy
/// piece.
pub fn add_if_capture(board: &Board, color: &ChessColor, location: Loc, moves: &mut Vec<Loc>)
    requires
        board.wf(),
    ensures
        final(moves)@ == (if location.valid() && is_enemy(board.grid@, *color, location) {
            old(moves)@.push(location)
        } else {
            old(moves)@
        }),
{
    if crate::loc::valid_pos(&location) {
        if let Some(capture) = board.get(&location) {
            if &capture.color != color {
                moves.push(location);
            }
        }
    }
}

/// All moves of a static piece: each offset target that is on the board and
/// not blocked by a friendly piece.
pub fn static_moves(piece: &Piece, board: &Board, directions: &[(i32, i32)]) -> (res: Vec<Loc>)
    requires
        board.wf(),
        piece.pos.valid(),
        dirs_ok(directions@),
    ensures
        res@ == static_moves_spec(board.grid@, piece.color, piece.pos, dirs_view(directions@)),
{
    let ghost dv = dirs_view(directions@);
    let mut moves: Vec<Loc> = Vec::new();
    let mut i: usize = 0;
    while i < directions.len()
        invariant
            board.wf(),
            piece.pos.valid(),
            dirs_ok(directions@),
            dv == dirs_view(directions@),
            i <= directions@.len(),
            moves@ == static_moves_prefix(board.grid@, piece.color, piece.pos, dv, i as int),
        decreases directions@.len() - i,
    {
        let (x, y) = directions[i];
        let (loc, out) = piece.pos.copy_move_i32(x, y);
        proof {
            assert(dv[i as int] == (x as int, y as int));
        }
        if !out {
            add_move(board, &piece.color, loc, &mut moves);
        }
        i += 1;
    }
    moves
}

/// All attack squares of a static piece: each offset target on the board.
pub fn static_attacks(piece: &Piece, directions: &[(i32, i32)]) -> (res: Vec<Loc>)
    requires
        piece.pos.valid(),
        dirs_ok(directions@),
    ensures
        res@ == static_attacks_spec(piece.pos, dirs_view(directions@)),
{
    let ghost dv = dirs_view(directions@);
    let mut moves: Vec<Loc> = Vec::new();
    let mut i: usize = 0;
    while i < directions.len()
        invariant
            piece.pos.valid(),
            dirs_ok(directions@),
            dv == dirs_view(directions@),
            i <= directions@.len(),
            moves@ == static_attacks_prefix(piece.pos, dv, i as int),
        decreases directions@.len() - i,
    {
        let (x, y) = directions[i];
        let (loc, out) = piece.pos.copy_move_i32(x, y);
        proof {
            assert(dv[i as int] == (x as int, y as int));
        }
        if !out {
            add_ff(loc, &mut moves);
        }
        i += 1;
    }
    moves
}

} // verus!

use crate::piece::PieceNames;

verus! {

/// All moves of a directional piece: for each direction, the ray of empty
/// squares plus a final enemy square, near to far.
pub fn directional_moves(piece: &Piece, board: &Board, directions: &[(i32, i32)]) -> (res: Vec<
    Loc,
>)
    requires
        board.wf(),
        piece.pos.valid(),
        dirs_ok(directions@),
        dirs_nonzero(directions@),
    ensures
        res@ == ray_moves_spec(board.grid@, piece.color, piece.pos, dirs_view(directions@)),
{
    let ghost gr = board.grid@;
    let ghost dv = dirs_view(directions@);
    let mut moves: Vec<Loc> = Vec::new();
    let mut di: usize = 0;
    while di < directions.len()
        invariant
            board.wf(),
            piece.pos.valid(),
            dirs_ok(directions@),
            dirs_nonzero(directions@),
            gr == board.grid@,
            dv == dirs_view(directions@),
            di <= directions@.len(),
            moves@ == ray_moves_prefix(gr, piece.color, piece.pos, dv, di as int),
        decreases directions@.len() - di,
    {
        let (x, y) = directions[di];
        let ghost d = (x as int, y as int);
        proof {
            assert(dv[di as int] == d);
        }
        let (mut loc, out) = piece.pos.copy_move_i32(x, y);
        if !out {
            let ghost full = dir_ray_moves(gr, piece.color, piece.pos, d);
            let ghost pre = moves@;
            let ghost mut k: int = 0;
            proof {
                assert(off(piece.pos, d.0, d.1) == loc);
                assert(piece.pos.0 + (0 + 1) * d.0 == piece.pos.0 + d.0) by (nonlinear_arith);
                assert(piece.pos.1 + (0 + 1) * d.1 == piece.pos.1 + d.1) by (nonlinear_arith);
            }
            while loc.0 < 8 && loc.1 < 8
                invariant_except_break
                    board.wf(),
                    piece.pos.valid(),
                    gr == board.grid@,
                    d == (x as int, y as int),
                    -8 <= d.0 <= 8,
                    -8 <= d.1 <= 8,
                    d != (0int, 0int),
                    0 <= k <= 7,
                    loc.0 == piece.pos.0 + (k + 1) * d.0,
                    loc.1 == piece.pos.1 + (k + 1) * d.1,
                    moves@ + ray_moves_from(gr, piece.color, loc, d, (8 - k) as nat) == pre
                        + full,
                ensures
                    board.wf(),
                    gr == board.grid@,
                    moves@ == pre + full,
                decreases 8 - k,
            {
                proof {
                    assert(k <= 6) by (nonlinear_arith)
                        requires
                            0 <= k <= 7,
                            -8 <= d.0 <= 8,
                            -8 <= d.1 <= 8,
                            d != (0int, 0int),
                            0 <= piece.pos.0 + (k + 1) * d.0 < 8,
                            0 <= piece.pos.1 + (k + 1) * d.1 < 8,
                            piece.pos.0 < 8,
                            piece.pos.1 < 8,
                            0 <= piece.pos.0,
                            0 <= piece.pos.1,
                    ;
                }
                match board.get(&loc) {
                    Some(capture) => {
                        if capture.color != piece.color {
                            moves.push(loc);
                        }
                        break ;
                    },
                    None => {
                        moves.push(loc);
                        let ghost prev_loc = loc;
                        let end = loc.move_i32(x, y);
                        proof {
                            assert(ray_moves_from(gr, piece.color, prev_loc, d, (8 - k) as nat)
                                == seq![prev_loc] + ray_moves_from(
                                gr,
                                piece.color,
                                off(prev_loc, d.0, d.1),
                                d,
                                (8 - k - 1) as nat,
                            ));
                            k = k + 1;
                            if prev_loc.0 + d.0 >= 0 && prev_loc.1 + d.1 >= 0 {
                                assert(loc == off(prev_loc, d.0, d.1));
                                assert(piece.pos.0 + k * d.0 + d.0 == piece.pos.0 + (k + 1)
                                    * d.0) by (nonlinear_arith);
                                assert(piece.pos.1 + k * d.1 + d.1 == piece.pos.1 + (k + 1)
                                    * d.1) by (nonlinear_arith);
                            } else {
                                assert(!off(prev_loc, d.0, d.1).valid());
                                assert(ray_moves_from(
                                    gr,
                                    piece.color,
                                    off(prev_loc, d.0, d.1),
                                    d,
                                    (8 - k) as nat,
                                ) =~= Seq::<Loc>::empty());
                            }
                        }
                        if !end {
                            break ;
                        }
                    },
                }
            }
            proof {
                assert(moves@ == ray_moves_prefix(gr, piece.color, piece.pos, dv, di as int)
                    + dir_ray_moves(gr, piece.color, piece.pos, dv[di as int]));
            }
        } else {
            proof {
                assert(!off(piece.pos, d.0, d.1).valid());
                assert(dir_ray_moves(gr, piece.color, piece.pos, d) =~= Seq::<Loc>::empty());
                assert(moves@ =~= moves@ + dir_ray_moves(gr, piece.color, piece.pos, d));
            }
        }
        di += 1;
    }
    moves
}

/// All attack squares of a directional piece: for each direction, the ray of
/// empty squares plus the first occupied square, whatever its color.
pub fn directional_attacks(piece: &Piece, board: &Board, directions: &[(i32, i32)]) -> (res: Vec<
    Loc,
>)
    requires
        board.wf(),
        piece.pos.valid(),
        dirs_ok(directions@),
        dirs_nonzero(directions@),
    ensures
        res@ == ray_attacks_spec(board.grid@, piece.pos, dirs_view(directions@)),
{
    let ghost gr = board.grid@;
    let ghost dv = dirs_view(directions@);
    let mut moves: Vec<Loc> = Vec::new();
    let mut di: usize = 0;
    while di < directions.len()
        invariant
            board.wf(),
            piece.pos.valid(),
            dirs_ok(directions@),
            dirs_nonzero(directions@),
            gr == board.grid@,
            dv == dirs_view(directions@),
            di <= directions@.len(),
            moves@ == ray_attacks_prefix(gr, piece.pos, dv, di as int),
        decreases directions@.len() - di,
    {
        let (x, y) = directions[di];
        let ghost d = (x as int, y as int);
        proof {
            assert(dv[di as int] == d);
        }
        let (mut loc, out) = piece.pos.copy_move_i32(x, y);
        if !out {
            let ghost full = dir_ray_attacks(gr, piece.pos, d);
            let ghost pre = moves@;
            let ghost mut k: int = 0;
            proof {
                assert(off(piece.pos, d.0, d.1) == loc);
                assert(piece.pos.0 + (0 + 1) * d.0 == piece.pos.0 + d.0) by (nonlinear_arith);
                assert(piece.pos.1 + (0 + 1) * d.1 == piece.pos.1 + d.1) by (nonlinear_arith);
            }
            while loc.0 < 8 && loc.1 < 8
                invariant_except_break
                    board.wf(),
                    piece.pos.valid(),
                    gr == board.grid@,
                    d == (x as int, y as int),
                    -8 <= d.0 <= 8,
                    -8 <= d.1 <= 8,
                    d != (0int, 0int),
                    0 <= k <= 7,
                    loc.0 == piece.pos.0 + (k + 1) * d.0,
                    loc.1 == piece.pos.1 + (k + 1) * d.1,
                    moves@ + ray_attacks_from(gr, loc, d, (8 - k) as nat) == pre + full,
                ensures
                    board.wf(),
                    gr == board.grid@,
                    moves@ == pre + full,
                decreases 8 - k,
            {
                proof {
                    assert(k <= 6) by (nonlinear_arith)
                        requires
                            0 <= k <= 7,
                            -8 <= d.0 <= 8,
                            -8 <= d.1 <= 8,
                            d != (0int, 0int),
                            0 <= piece.pos.0 + (k + 1) * d.0 < 8,
                            0 <= piece.pos.1 + (k + 1) * d.1 < 8,
                            piece.pos.0 < 8,
                            piece.pos.1 < 8,
                            0 <= piece.pos.0,
                            0 <= piece.pos.1,
                    ;
                }
                if board.get(&loc).is_some() {
                    moves.push(loc);
                    break ;
                }
                moves.push(loc);
                let ghost prev_loc = loc;
                let end = loc.move_i32(x, y);
                proof {
                    assert(ray_attacks_from(gr, prev_loc, d, (8 - k) as nat) == seq![prev_loc]
                        + ray_attacks_from(gr, off(prev_loc, d.0, d.1), d, (8 - k - 1) as nat));
                    k = k + 1;
                    if prev_loc.0 + d.0 >= 0 && prev_loc.1 + d.1 >= 0 {
                        assert(loc == off(prev_loc, d.0, d.1));
                        assert(piece.pos.0 + k * d.0 + d.0 == piece.pos.0 + (k + 1) * d.0)
                            by (nonlinear_arith);
                        assert(piece.pos.1 + k * d.1 + d.1 == piece.pos.1 + (k + 1) * d.1)
                            by (nonlinear_arith);
                    } else {
                        assert(!off(prev_loc, d.0, d.1).valid());
                        assert(ray_attacks_from(gr, off(prev_loc, d.0, d.1), d, (8 - k) as nat)
                            =~= Seq::<Loc>::empty());
                    }
                }
                if !end {
                    break ;
                }
            }
            proof {
                assert(moves@ == ray_attacks_prefix(gr, piece.pos, dv, di as int)
                    + dir_ray_attacks(gr, piece.pos, dv[di as int]));
            }
        } else {
            proof {
                assert(!off(piece.pos, d.0, d.1).valid());
                assert(dir_ray_attacks(gr, piece.pos, d) =~= Seq::<Loc>::empty());
                assert(moves@ =~= moves@ + dir_ray_attacks(gr, piece.pos, d));
            }
        }
        di += 1;
    }
    moves
}

} // verus!

verus! {

/// The knight's eight jump offsets.
pub open spec fn knight_dirs() -> Seq<(int, int)> {
    seq![(1, 2), (2, 1), (2, -1), (1, -2), (-1, -2), (-2, -1), (-2, 1), (-1, 2)]
}

/// The king's eight step offsets.
pub open spec fn king_dirs() -> Seq<(int, int)> {
    seq![(0, -1), (0, 1), (1, -1), (1, 0), (1, 1), (-1, -1), (-1, 0), (-1, 1)]
}

/// The rook's four ray directions.
pub open spec fn rook_dirs() -> Seq<(int, int)> {
    seq![(0, -1), (0, 1), (1, 0), (-1, 0)]
}

/// The bishop's four ray directions.
pub open spec fn bishop_dirs() -> Seq<(int, int)> {
    seq![(1, 1), (1, -1), (-1, 1), (-1, -1)]
}

/// The queen's eight ray directions: the rook's, then the bishop's.
pub open spec fn queen_dirs() -> Seq<(int, int)> {
    rook_dirs() + bishop_dirs()
}

/// Moves of a knight.
pub fn knight_moves(piece: &Piece, board: &Board) -> (res: Vec<Loc>)
    requires
        board.wf(),
        piece.pos.valid(),
    ensures
        res@ == static_moves_spec(board.grid@, piece.color, piece.pos, knight_dirs()),
{
    let directions: [(i32, i32); 8] = [
        (1, 2),
        (2, 1),
        (2, -1),
        (1, -2),
        (-1, -2),
        (-2, -1),
        (-2, 1),
        (-1, 2),
    ];
    proof {
        assert(dirs_view(directions@) =~= knight_dirs());
    }
    static_moves(piece, board, directions.as_slice())
}

/// Squares a knight attacks.
pub fn knight_attacks(piece: &Piece) -> (res: Vec<Loc>)
    requires
        piece.pos.valid(),
    ensures
        res@ == static_attacks_spec(piece.pos, knight_dirs()),
{
    let directions: [(i32, i32); 8] = [
        (1, 2),
        (2, 1),
        (2, -1),
        (1, -2),
        (-1, -2),
        (-2, -1),
        (-2, 1),
        (-1, 2),
    ];
    proof {
        assert(dirs_view(directions@) =~= knight_dirs());
    }
    static_attacks(piece, directions.as_slice())
}

/// Moves of a bishop.
pub fn bishop_moves(piece: &Piece, board: &Board) -> (res: Vec<Loc>)
    requires
        board.wf(),
        piece.pos.valid(),
    ensures
        res@ == ray_moves_spec(board.grid@, piece.color, piece.pos, bishop_dirs()),
{
    let directions: [(i32, i32); 4] = [(1, 1), (1, -1), (-1, 1), (-1, -1)];
    proof {
        assert(dirs_view(directions@) =~= bishop_dirs());
    }
    directional_moves(piece, board, directions.as_slice())
}

/// Squares a bishop attacks.
pub fn bishop_attacks(piece: &Piece, board: &Board) -> (res: Vec<Loc>)
    requires
        board.wf(),
        piece.pos.valid(),
    ensures
        res@ == ray_attacks_spec(board.grid@, piece.pos, bishop_dirs()),
{
    let directions: [(i32, i32); 4] = [(1, 1), (1, -1), (-1, 1), (-1, -1)];
    proof {
        assert(dirs_view(directions@) =~= bishop_dirs());
    }
    directional_attacks(piece, board, directions.as_slice())
}

/// Moves of a rook.
pub fn rook_moves(piece: &Piece, board: &Board) -> (res: Vec<Loc>)
    requires
        board.wf(),
        piece.pos.valid(),
    ensures
        res@ == ray_moves_spec(board.grid@, piece.color, piece.pos, rook_dirs()),
{
    let directions: [(i32, i32); 4] = [(0, -1), (0, 1), (1, 0), (-1, 0)];
    proof {
        assert(dirs_view(directions@) =~= rook_dirs());
    }
    directional_moves(piece, board, directions.as_slice())
}

/// Squares a rook attacks.
pub fn rook_attacks(piece: &Piece, board: &Board) -> (res: Vec<Loc>)
    requires
        board.wf(),
        piece.pos.valid(),
    ensures
        res@ == ray_attacks_spec(board.grid@, piece.pos, rook_dirs()),
{
    let directions: [(i32, i32); 4] = [(0, -1), (0, 1), (1, 0), (-1, 0)];
    proof {
        assert(dirs_view(directions@) =~= rook_dirs());
    }
    directional_attacks(piece, board, directions.as_slice())
}

/// Moves of a queen.
pub fn queen_moves(piece: &Piece, board: &Board) -> (res: Vec<Loc>)
    requires
        board.wf(),
        piece.pos.valid(),
    ensures
        res@ == ray_moves_spec(board.grid@, piece.color, piece.pos, queen_dirs()),
{
    let directions: [(i32, i32); 8] = [
        (0, -1),
        (0, 1),
        (1, 0),
        (-1, 0),
        (1, 1),
        (1, -1),
        (-1, 1),
        (-1, -1),
    ];
    proof {
        assert(dirs_view(directions@) =~= queen_dirs());
    }
    directional_moves(piece, board, directions.as_slice())
}

/// Squares a queen attacks.
pub fn queen_attacks(piece: &Piece, board: &Board) -> (res: Vec<Loc>)
    requires
        board.wf(),
        piece.pos.valid(),
    ensures
        res@ == ray_attacks_spec(board.grid@, piece.pos, queen_dirs()),
{
    let directions: [(i32, i32); 8] = [
        (0, -1),
        (0, 1),
        (1, 0),
        (-1, 0),
        (1, 1),
        (1, -1),
        (-1, 1),
        (-1, -1),
    ];
    proof {
        assert(dirs_view(directions@) =~= queen_dirs());
    }
    directional_attacks(piece, board, directions.as_slice())
}

/// The row a pawn of color `c` moves toward decreases (white) or increases
/// (black) by this step.
pub open spec fn pawn_dir(c: ChessColor) -> int {
    if c == ChessColor::White {
        -1
    } else {
        1
    }
}

/// The row a pawn of color `c` starts on.
pub open spec fn home_row(c: ChessColor) -> int {
    if c == ChessColor::White {
        6
    } else {
        1
    }
}

/// The moves of a pawn: a single forward step when unblocked, a double step
/// from the home row when both squares are free, diagonal captures, and the
/// capture of the recorded en-passant pawn.
pub open spec fn pawn_moves_spec(
    g: Seq<Option<Piece>>,
    ep: Option<(Loc, ChessColor)>,
    p: Piece,
) -> Seq<Loc> {
    let dir = pawn_dir(p.color);
    let fwd = off(p.pos, 0, dir);
    let fwd_ok = in_board(p.pos, 0, dir) && at(g, fwd) is None;
    let s1: Seq<Loc> = if fwd_ok {
        seq![fwd]
    } else {
        Seq::empty()
    };
    let dbl = off(p.pos, 0, 2 * dir);
    let s2 = if fwd_ok && p.pos.1 == home_row(p.color) && in_board(p.pos, 0, 2 * dir) && at(g, dbl)
        is None {
        s1.push(dbl)
    } else {
        s1
    };
    let capl = off(p.pos, -1, dir);
    let s3 = if in_board(p.pos, -1, dir) && is_enemy(g, p.color, capl) {
        s2.push(capl)
    } else {
        s2
    };
    let capr = off(p.pos, 1, dir);
    let s4 = if in_board(p.pos, 1, dir) && is_enemy(g, p.color, capr) {
        s3.push(capr)
    } else {
        s3
    };
    match ep {
        Some((l, c2)) => {
            if c2 != p.color && l.1 == p.pos.1 {
                if l.0 == p.pos.0 + 1 && in_board(p.pos, 1, dir) && !is_friendly(
                    g,
                    p.color,
                    capr,
                ) {
                    s4.push(capr)
                } else if p.pos.0 >= 1 && l.0 == p.pos.0 - 1 && in_board(p.pos, -1, dir)
                    && !is_friendly(g, p.color, capl) {
                    s4.push(capl)
                } else {
                    s4
                }
            } else {
                s4
            }
        },
        None => s4,
    }
}

/// Moves of a pawn.
pub fn pawn_moves(piece: &Piece, board: &Board) -> (res: Vec<Loc>)
    requires
        board.wf(),
        piece.pos.valid(),
    ensures
        res@ == pawn_moves_spec(board.grid@, board.en_passent, *piece),
{
    let mut moves: Vec<Loc> = Vec::new();
    let direction: i32 = if piece.color == ChessColor::White {
        -1
    } else {
        1
    };

    // Forward movement
    let (fwd, fwd_out) = piece.pos.copy_move_i32(0, direction);
    let mut advanced = false;
    if !fwd_out {
        advanced = add_if_empty(board, fwd, &mut moves);
    }
    let home = if piece.color == ChessColor::White {
        piece.pos.1 == 6
    } else {
        piece.pos.1 == 1
    };
    if advanced && home {
        let (dbl, dbl_out) = piece.pos.copy_move_i32(0, direction * 2);
        if !dbl_out {
            add_if_empty(board, dbl, &mut moves);
        }
    }

    // Diagonal captures
    let (left, left_out) = piece.pos.copy_move_i32(-1, direction);
    if !left_out {
        add_if_capture(board, &piece.color, left, &mut moves);
    }
    let (right, right_out) = piece.pos.copy_move_i32(1, direction);
    if !right_out {
        add_if_capture(board, &piece.color, right, &mut moves);
    }

    // En passant
    if let Some(en_passent) = board.en_passent {
        if en_passent.1 != piece.color && en_passent.0.1 == piece.pos.1 {
            if en_passent.0.0 == piece.pos.0 + 1 {
                if !right_out {
                    add_move(board, &piece.color, right, &mut moves);
                }
            } else if piece.pos.0 != 0 && en_passent.0.0 == piece.pos.0 - 1 {
                if !left_out {
                    add_move(board, &piece.color, left, &mut moves);
                }
            }
        }
    }

    proof {
        assert(moves@ =~= pawn_moves_spec(board.grid@, board.en_passent, *piece));
    }
    moves
}

/// The two diagonal squares a pawn threatens (right, then left).
pub open spec fn pawn_attacks_spec(p: Piece) -> Seq<Loc> {
    let dir = pawn_dir(p.color);
    let r = off(p.pos, 1, dir);
    let s1: Seq<Loc> = if in_board(p.pos, 1, dir) {
        seq![r]
    } else {
        Seq::empty()
    };
    let l = off(p.pos, -1, dir);
    if in_board(p.pos, -1, dir) {
        s1.push(l)
    } else {
        s1
    }
}

/// Squares a pawn attacks: the two forward diagonals only.
pub fn pawn_attacks(piece: &Piece) -> (res: Vec<Loc>)
    requires
        piece.pos.valid(),
    ensures
        res@ == pawn_attacks_spec(*piece),
{
    let mut moves: Vec<Loc> = Vec::new();
    let direction: i32 = if piece.color == ChessColor::White {
        -1
    } else {
        1
    };
    let (right, right_out) = piece.pos.copy_move_i32(1, direction);
    if !right_out {
        add_ff(right, &mut moves);
    }
    let (left, left_out) = piece.pos.copy_move_i32(-1, direction);
    if !left_out {
        add_ff(left, &mut moves);
    }
    proof {
        assert(moves@ =~= pawn_attacks_spec(*piece));
    }
    moves
}

} // verus!

verus! {

/// The castle rights of a color: (queen side, king side).
pub open spec fn castle_rights(m: BoardModel, c: ChessColor) -> (bool, bool) {
    if c == ChessColor::White {
        m.castle_white
    } else {
        m.castle_black
    }
}

/// The cached check flag of a color.
pub open spec fn check_flag(m: BoardModel, c: ChessColor) -> bool {
    if c == ChessColor::White {
        m.check_white
    } else {
        m.check_black
    }
}

/// The cached attack table says color `c` attacks square `l`.
pub open spec fn attack_flag(m: BoardModel, c: ChessColor, l: Loc) -> bool {
    if c == ChessColor::White {
        m.attacks_white[l.index()]
    } else {
        m.attacks_black[l.index()]
    }
}

/// Every square with file in `x_lo ..= x_hi` on row `y` is empty.
pub open spec fn range_empty(g: Seq<Option<Piece>>, x_lo: int, x_hi: int, y: int) -> bool {
    forall|x: int| x_lo <= x <= x_hi ==> #[trigger] at(g, Loc(x as usize, y as usize)) is None
}

/// True when some square with file in `x_lo ..= x_hi` on row `y` is occupied.
fn range_has_piece(board: &Board, x_lo: usize, x_hi: usize, y: usize) -> (r: bool)
    requires
        board.wf(),
        0 < x_lo <= x_hi,
        x_hi < 8,
        y < 8,
    ensures
        r == !range_empty(board.grid@, x_lo as int, x_hi as int, y as int),
{
    let mut x = x_lo;
    while x <= x_hi
        invariant
            board.wf(),
            x_lo <= x <= x_hi + 1,
            x_hi < 8,
            y < 8,
            forall|x2: int|
                x_lo <= x2 < x ==> #[trigger] at(board.grid@, Loc(x2 as usize, y as usize)) is None,
        decreases 8 - x,
    {
        if board.get(&Loc(x, y)).is_some() {
            proof {
                assert(!(at(board.grid@, Loc((x as int) as usize, (y as int) as usize)) is None));
            }
            return true;
        }
        x += 1;
    }
    false
}

/// The moves of a king: one step in any direction onto a square that is not
/// friendly, and, when neither in check nor the right lost, castling two
/// files toward a rook over empty squares whose crossed square is not under
/// attack.  The landing square's safety is enforced by the caller's filter.
pub open spec fn king_moves_spec(m: BoardModel, p: Piece) -> Seq<Loc> {
    let base = static_moves_spec(m.grid, p.color, p.pos, king_dirs());
    if check_flag(m, p.color) || p.pos.0 != 4 {
        base
    } else {
        let qs = castle_rights(m, p.color).0;
        let ks = castle_rights(m, p.color).1;
        let y = p.pos.1 as int;
        let enemy = p.color.spec_other();
        let base2 = if qs && range_empty(m.grid, 1, 3, y) && !attack_flag(
            m,
            enemy,
            Loc(3, p.pos.1),
        ) {
            base.push(Loc(2, p.pos.1))
        } else {
            base
        };
        if ks && range_empty(m.grid, 5, 6, y) && !attack_flag(m, enemy, Loc(5, p.pos.1)) {
            base2.push(Loc(6, p.pos.1))
        } else {
            base2
        }
    }
}

/// Moves of a king, castling included.
pub fn king_moves(piece: &Piece, board: &Board) -> (res: Vec<Loc>)
    requires
        board.wf(),
        piece.pos.valid(),
    ensures
        res@ == king_moves_spec(board.abs(), *piece),
{
    let directions: [(i32, i32); 8] = [
        (0, -1),
        (0, 1),
        (1, -1),
        (1, 0),
        (1, 1),
        (-1, -1),
        (-1, 0),
        (-1, 1),
    ];
    proof {
        assert(dirs_view(directions@) =~= king_dirs());
    }
    let mut moves = static_moves(piece, board, directions.as_slice());

    // Castling is possible only for an unmoved king out of check; an unmoved
    // king stands on the e-file.
    let in_check = if piece.color == ChessColor::White {
        board.check_white
    } else {
        board.check_black
    };
    if in_check || piece.pos.0 != 4 {
        return moves;
    }

    let (queen_side, king_side) = if piece.color == ChessColor::White {
        board.castle_white
    } else {
        board.castle_black
    };

    let enemy_attacks = if piece.color == ChessColor::White {
        &board.attacks_black
    } else {
        &board.attacks_white
    };

    if queen_side && !range_has_piece(board, 1, 3, piece.pos.1) {
        let crossed = Loc(3, piece.pos.1);
        if !enemy_attacks[crossed.idx()] {
            moves.push(Loc(2, piece.pos.1));
        }
    }

    if king_side && !range_has_piece(board, 5, 6, piece.pos.1) {
        let crossed = Loc(5, piece.pos.1);
        if !enemy_attacks[crossed.idx()] {
            moves.push(Loc(6, piece.pos.1));
        }
    }

    moves
}

/// Squares a king attacks.
pub fn king_attacks(piece: &Piece) -> (res: Vec<Loc>)
    requires
        piece.pos.valid(),
    ensures
        res@ == static_attacks_spec(piece.pos, king_dirs()),
{
    let directions: [(i32, i32); 8] = [
        (0, -1),
        (0, 1),
        (1, -1),
        (1, 0),
        (1, 1),
        (-1, -1),
        (-1, 0),
        (-1, 1),
    ];
    proof {
        assert(dirs_view(directions@) =~= king_dirs());
    }
    static_attacks(piece, directions.as_slice())
}

/// Every square a piece threatens, by its kind's attack pattern.
pub open spec fn piece_attacks_spec(g: Seq<Option<Piece>>, p: Piece) -> Seq<Loc> {
    match p.name {
        PieceNames::Pawn => pawn_attacks_spec(p),
        PieceNames::Knight => static_attacks_spec(p.pos, knight_dirs()),
        PieceNames::King => static_attacks_spec(p.pos, king_dirs()),
        PieceNames::Rook => ray_attacks_spec(g, p.pos, rook_dirs()),
        PieceNames::Bishop => ray_attacks_spec(g, p.pos, bishop_dirs()),
        PieceNames::Queen => ray_attacks_spec(g, p.pos, queen_dirs()),
    }
}

/// Every pseudo-legal move of a piece, before the self-check filter: the
/// kind's movement pattern, with the king's castling options included.
pub open spec fn piece_base_moves_spec(m: BoardModel, p: Piece) -> Seq<Loc> {
    match p.name {
        PieceNames::Pawn => pawn_moves_spec(m.grid, m.en_passent, p),
        PieceNames::Knight => static_moves_spec(m.grid, p.color, p.pos, knight_dirs()),
        PieceNames::King => king_moves_spec(m, p),
        PieceNames::Rook => ray_moves_spec(m.grid, p.color, p.pos, rook_dirs()),
        PieceNames::Bishop => ray_moves_spec(m.grid, p.color, p.pos, bishop_dirs()),
        PieceNames::Queen => ray_moves_spec(m.grid, p.color, p.pos, queen_dirs()),
    }
}

impl Piece {
    /// Get the squares that are attacked by this piece.
    pub fn attacks(&self, board: &Board) -> (res: Vec<Loc>)
        requires
            board.wf(),
            self.pos.valid(),
        ensures
            res@ == piece_attacks_spec(board.grid@, *self),
    {
        match self.name {
            PieceNames::Pawn => pawn_attacks(self),
            PieceNames::Knight => knight_attacks(self),
            PieceNames::King => king_attacks(self),
            PieceNames::Rook => rook_attacks(self, board),
            PieceNames::Bishop => bishop_attacks(self, board),
            PieceNames::Queen => queen_attacks(self, board),
        }
    }
}

} // verus!

verus! {

/// Every square in a static-attack list lies on the board.
pub proof fn lemma_static_attacks_valid(pos: Loc, dirs: Seq<(int, int)>, n: int)
    ensures
        forall|q: int|
            0 <= q < static_attacks_prefix(pos, dirs, n).len() ==> (
            #[trigger] static_attacks_prefix(pos, dirs, n)[q]).valid(),
    decreases n,
{
    if n > 0 {
        lemma_static_attacks_valid(pos, dirs, n - 1);
        let prev = static_attacks_prefix(pos, dirs, n - 1);
        let cur = static_attacks_prefix(pos, dirs, n);
        assert forall|q: int| 0 <= q < cur.len() implies (#[trigger] cur[q]).valid() by {
            if q < prev.len() {
                assert(cur[q] == prev[q]);
            }
        }
    }
}

/// Every square in an attack ray lies on the board.
pub proof fn lemma_ray_attacks_valid(
    g: Seq<Option<Piece>>,
    cand: Loc,
    d: (int, int),
    fuel: nat,
)
    ensures
        forall|q: int|
            0 <= q < ray_attacks_from(g, cand, d, fuel).len() ==> (#[trigger] ray_attacks_from(
                g,
                cand,
                d,
                fuel,
            )[q]).valid(),
    decreases fuel,
{
    if cand.valid() && fuel > 0 && at(g, cand) is None {
        lemma_ray_attacks_valid(g, off(cand, d.0, d.1), d, (fuel - 1) as nat);
        let rest = ray_attacks_from(g, off(cand, d.0, d.1), d, (fuel - 1) as nat);
        let cur = ray_attacks_from(g, cand, d, fuel);
        assert forall|q: int| 0 <= q < cur.len() implies (#[trigger] cur[q]).valid() by {
            if q > 0 {
                assert(cur[q] == rest[q - 1]);
            } else {
                assert(cur[q] == cand);
            }
        }
    }
}

/// Every square in a list of attack rays lies on the board.
pub proof fn lemma_ray_attacks_dirs_valid(
    g: Seq<Option<Piece>>,
    pos: Loc,
    dirs: Seq<(int, int)>,
    n: int,
)
    ensures
        forall|q: int|
            0 <= q < ray_attacks_prefix(g, pos, dirs, n).len() ==> (#[trigger] ray_attacks_prefix(
                g,
                pos,
                dirs,
                n,
            )[q]).valid(),
    decreases n,
{
    if n > 0 {
        lemma_ray_attacks_dirs_valid(g, pos, dirs, n - 1);
        lemma_ray_attacks_valid(g, off(pos, dirs[n - 1].0, dirs[n - 1].1), dirs[n - 1], 8);
        let prev = ray_attacks_prefix(g, pos, dirs, n - 1);
        let ray = dir_ray_attacks(g, pos, dirs[n - 1]);
        let cur = ray_attacks_prefix(g, pos, dirs, n);
        assert forall|q: int| 0 <= q < cur.len() implies (#[trigger] cur[q]).valid() by {
            if q < prev.len() {
                assert(cur[q] == prev[q]);
            } else {
                assert(cur[q] == ray[q - prev.len()]);
            }
        }
    }
}

/// Every square a piece attacks lies on the board.
pub proof fn lemma_piece_attacks_valid(g: Seq<Option<Piece>>, p: Piece)
    ensures
        forall|q: int|
            0 <= q < piece_attacks_spec(g, p).len() ==> (#[trigger] piece_attacks_spec(
                g,
                p,
            )[q]).valid(),
{
    match p.name {
        PieceNames::Pawn => {},
        PieceNames::Knight => {
            lemma_static_attacks_valid(p.pos, knight_dirs(), knight_dirs().len() as int);
        },
        PieceNames::King => {
            lemma_static_attacks_valid(p.pos, king_dirs(), king_dirs().len() as int);
        },
        PieceNames::Rook => {
            lemma_ray_attacks_dirs_valid(g, p.pos, rook_dirs(), rook_dirs().len() as int);
        },
        PieceNames::Bishop => {
            lemma_ray_attacks_dirs_valid(g, p.pos, bishop_dirs(), bishop_dirs().len() as int);
        },
        PieceNames::Queen => {
            lemma_ray_attacks_dirs_valid(g, p.pos, queen_dirs(), queen_dirs().len() as int);
        },
    }
}

} // verus!

verus! {

/// What applying a move requires of the generated target: on the board, not
/// the origin square, and a two-file king shift only in castle shape from
/// the king's home file.
pub open spec fn move_target_ok(p: Piece, to: Loc) -> bool {
    &&& to.valid()
    &&& to != p.pos
    &&& (p.name == PieceNames::King && crate::loc::dist(p.pos.0 as int, to.0 as int) == 2 ==> ((
    to.0 == 2 || to.0 == 6) && p.pos.0 == 4 && p.pos.1 == to.1))
}

/// Static-move targets are proper move targets; a king's offsets stay within
/// one file.
pub proof fn lemma_static_moves_props(
    g: Seq<Option<Piece>>,
    p: Piece,
    dirs: Seq<(int, int)>,
    n: int,
)
    requires
        p.pos.valid(),
        n <= dirs.len(),
        forall|i: int|
            0 <= i < dirs.len() ==> ((#[trigger] dirs[i]).0 != 0 || dirs[i].1 != 0),
        p.name == PieceNames::King ==> forall|i: int|
            0 <= i < dirs.len() ==> -1 <= (#[trigger] dirs[i]).0 <= 1,
    ensures
        forall|q: int|
            0 <= q < static_moves_prefix(g, p.color, p.pos, dirs, n).len() ==> move_target_ok(
                p,
                #[trigger] static_moves_prefix(g, p.color, p.pos, dirs, n)[q],
            ),
    decreases n,
{
    if n > 0 {
        lemma_static_moves_props(g, p, dirs, n - 1);
        let prev = static_moves_prefix(g, p.color, p.pos, dirs, n - 1);
        let cur = static_moves_prefix(g, p.color, p.pos, dirs, n);
        let d = dirs[n - 1];
        assert forall|q: int| 0 <= q < cur.len() implies move_target_ok(p, #[trigger] cur[q]) by {
            if q < prev.len() {
                assert(cur[q] == prev[q]);
                assert(move_target_ok(p, prev[q]));
            } else {
                assert(d.0 != 0 || d.1 != 0);
                assert(cur[q] == off(p.pos, d.0, d.1));
            }
        }
    }
}

/// Ray-move targets are proper move targets: the walk starts one step away
/// from the origin and only moves further along the same direction.
pub proof fn lemma_ray_moves_props(
    g: Seq<Option<Piece>>,
    c: ChessColor,
    cand: Loc,
    d: (int, int),
    fuel: nat,
    p: Piece,
)
    requires
        p.color == c,
        p.name != PieceNames::King,
        -8 <= d.0 <= 8,
        -8 <= d.1 <= 8,
        cand.valid() && d.0 > 0 ==> cand.0 > p.pos.0,
        cand.valid() && d.0 < 0 ==> cand.0 < p.pos.0,
        cand.valid() && d.0 == 0 ==> cand.0 == p.pos.0,
        cand.valid() && d.1 > 0 ==> cand.1 > p.pos.1,
        cand.valid() && d.1 < 0 ==> cand.1 < p.pos.1,
        cand.valid() && d.1 == 0 ==> cand.1 == p.pos.1,
        d.0 != 0 || d.1 != 0,
    ensures
        forall|q: int|
            0 <= q < ray_moves_from(g, c, cand, d, fuel).len() ==> move_target_ok(
                p,
                #[trigger] ray_moves_from(g, c, cand, d, fuel)[q],
            ),
    decreases fuel,
{
    if cand.valid() && fuel > 0 {
        assert(cand != p.pos);
        match at(g, cand) {
            Some(q) => {},
            None => {
                let nxt = off(cand, d.0, d.1);
                lemma_ray_moves_props(g, c, nxt, d, (fuel - 1) as nat, p);
                let rest = ray_moves_from(g, c, nxt, d, (fuel - 1) as nat);
                let cur = ray_moves_from(g, c, cand, d, fuel);
                assert forall|q: int| 0 <= q < cur.len() implies move_target_ok(
                    p,
                    #[trigger] cur[q],
                ) by {
                    if q == 0 {
                        assert(cur[q] == cand);
                    } else {
                        assert(cur[q] == rest[q - 1]);
                    }
                }
            },
        }
    }
}

/// All rays of a non-king piece yield proper move targets.
pub proof fn lemma_ray_moves_dirs_props(
    g: Seq<Option<Piece>>,
    p: Piece,
    dirs: Seq<(int, int)>,
    n: int,
)
    requires
        p.pos.valid(),
        p.name != PieceNames::King,
        n <= dirs.len(),
        forall|i: int|
            0 <= i < dirs.len() ==> ((#[trigger] dirs[i]).0 != 0 || dirs[i].1 != 0),
        forall|i: int|
            0 <= i < dirs.len() ==> -8 <= (#[trigger] dirs[i]).0 <= 8 && -8 <= dirs[i].1 <= 8,
    ensures
        forall|q: int|
            0 <= q < ray_moves_prefix(g, p.color, p.pos, dirs, n).len() ==> move_target_ok(
                p,
                #[trigger] ray_moves_prefix(g, p.color, p.pos, dirs, n)[q],
            ),
    decreases n,
{
    if n > 0 {
        lemma_ray_moves_dirs_props(g, p, dirs, n - 1);
        let prev = ray_moves_prefix(g, p.color, p.pos, dirs, n - 1);
        let cur = ray_moves_prefix(g, p.color, p.pos, dirs, n);
        let d = dirs[n - 1];
        assert(d.0 != 0 || d.1 != 0);
        lemma_ray_moves_props(g, p.color, off(p.pos, d.0, d.1), d, 8, p);
        let ray = dir_ray_moves(g, p.color, p.pos, d);
        assert forall|q: int| 0 <= q < cur.len() implies move_target_ok(p, #[trigger] cur[q]) by {
            if q < prev.len() {
                assert(cur[q] == prev[q]);
            } else {
                assert(cur[q] == ray[q - prev.len()]);
            }
        }
    }
}

/// Every pseudo-legal base move of a piece is a proper move target.
pub proof fn lemma_base_moves_props(m: BoardModel, p: Piece)
    requires
        p.pos.valid(),
    ensures
        forall|q: int|
            0 <= q < piece_base_moves_spec(m, p).len() ==> move_target_ok(
                p,
                #[trigger] piece_base_moves_spec(m, p)[q],
            ),
{
    match p.name {
        PieceNames::Pawn => {
            let base = pawn_moves_spec(m.grid, m.en_passent, p);
            assert forall|q: int| 0 <= q < base.len() implies move_target_ok(
                p,
                #[trigger] base[q],
            ) by {
                reveal_with_fuel(pawn_moves_spec, 1);
            }
        },
        PieceNames::Knight => {
            lemma_static_moves_props(m.grid, p, knight_dirs(), knight_dirs().len() as int);
        },
        PieceNames::King => {
            lemma_static_moves_props(m.grid, p, king_dirs(), king_dirs().len() as int);
            let base = static_moves_spec(m.grid, p.color, p.pos, king_dirs());
            let full = king_moves_spec(m, p);
            assert forall|q: int| 0 <= q < full.len() implies move_target_ok(
                p,
                #[trigger] full[q],
            ) by {
                if q < base.len() {
                    assert(full[q] == base[q]);
                } else {
                    assert(full[q] == Loc(2, p.pos.1) || full[q] == Loc(6, p.pos.1));
                    assert(p.pos.0 == 4);
                }
            }
        },
        PieceNames::Rook => {
            lemma_ray_moves_dirs_props(m.grid, p, rook_dirs(), rook_dirs().len() as int);
        },
        PieceNames::Bishop => {
            lemma_ray_moves_dirs_props(m.grid, p, bishop_dirs(), bishop_dirs().len() as int);
        },
        PieceNames::Queen => {
            lemma_ray_moves_dirs_props(m.grid, p, queen_dirs(), queen_dirs().len() as int);
        },
    }
}

} // verus!
