//! Reading and writing boards as position strings: piece placement by rank
//! with digit runs for empty squares, then turn, castling rights, en-passant
//! square, halfmove clock and fullmove number.

use vstd::prelude::*;

use crate::ascii::{all_ascii, ascii_string, chars_of_bytes};
use crate::board::{at, Board, BoardModel};
use crate::loc::{file_char, rank_char, Loc};
use crate::piece::{ChessColor, Piece, PieceNames};

verus! {

/// The digit character of `n` in 0..=9.
pub open spec fn digit_char(n: int) -> char {
    ((48 + n) as u8) as char
}

/// The lower-case letter of a piece kind.
pub open spec fn name_char(n: PieceNames) -> char {
    match n {
        PieceNames::Pawn => 'p',
        PieceNames::Rook => 'r',
        PieceNames::Knight => 'n',
        PieceNames::Bishop => 'b',
        PieceNames::Queen => 'q',
        PieceNames::King => 'k',
    }
}

/// The placement character of a piece: upper case for white.
pub open spec fn piece_char_spec(name: PieceNames, color: ChessColor) -> char {
    match color {
        ChessColor::White => match name {
            PieceNames::Pawn => 'P',
            PieceNames::Rook => 'R',
            PieceNames::Knight => 'N',
            PieceNames::Bishop => 'B',
            PieceNames::Queen => 'Q',
            PieceNames::King => 'K',
        },
        ChessColor::Black => name_char(name),
    }
}

/// The piece kind a placement character denotes, either case.
pub open spec fn char_piece_spec(c: char) -> Option<PieceNames> {
    if c == 'p' || c == 'P' {
        Some(PieceNames::Pawn)
    } else if c == 'n' || c == 'N' {
        Some(PieceNames::Knight)
    } else if c == 'b' || c == 'B' {
        Some(PieceNames::Bishop)
    } else if c == 'r' || c == 'R' {
        Some(PieceNames::Rook)
    } else if c == 'q' || c == 'Q' {
        Some(PieceNames::Queen)
    } else if c == 'k' || c == 'K' {
        Some(PieceNames::King)
    } else {
        None
    }
}

/// Converts a piece kind to its lower-case letter.
pub fn piece_to_char(name: &PieceNames) -> (c: u8)
    ensures
        c < 128,
        c as char == name_char(*name),
{
    match name {
        PieceNames::Pawn => 112,
        PieceNames::Rook => 114,
        PieceNames::Knight => 110,
        PieceNames::Bishop => 98,
        PieceNames::Queen => 113,
        PieceNames::King => 107,
    }
}

/// Converts a placement character to a piece kind; anything unknown is
/// rejected.
pub fn char_to_piece(c: &u8) -> (r: Option<PieceNames>)
    requires
        *c < 128,
    ensures
        r == char_piece_spec(*c as char),
{
    match *c {
        112 | 80 => Some(PieceNames::Pawn),
        110 | 78 => Some(PieceNames::Knight),
        98 | 66 => Some(PieceNames::Bishop),
        114 | 82 => Some(PieceNames::Rook),
        113 | 81 => Some(PieceNames::Queen),
        107 | 75 => Some(PieceNames::King),
        _ => None,
    }
}

/// The remaining characters of one placement row, writing from file `x` with
/// `empty` empty squares pending.
pub open spec fn row_chars(g: Seq<Option<Piece>>, y: int, x: int, empty: int) -> Seq<char>
    decreases 8 - x,
{
    if x >= 8 {
        if empty > 0 {
            seq![digit_char(empty)]
        } else {
            Seq::empty()
        }
    } else {
        match at(g, Loc(x as usize, y as usize)) {
            Some(p) => (if empty > 0 {
                seq![digit_char(empty)]
            } else {
                Seq::empty()
            }) + seq![piece_char_spec(p.name, p.color)] + row_chars(g, y, x + 1, 0),
            None => row_chars(g, y, x + 1, empty + 1),
        }
    }
}

/// The placement rows from row `y` down, separated by slashes.
pub open spec fn placement_chars(g: Seq<Option<Piece>>, y: int) -> Seq<char>
    decreases 8 - y,
{
    if y >= 7 {
        row_chars(g, 7, 0, 0)
    } else {
        row_chars(g, y, 0, 0) + seq!['/'] + placement_chars(g, y + 1)
    }
}

/// The castling-rights field: `K`/`Q` for white and `k`/`q` for black, king
/// side first, or a dash when all rights are gone.
pub open spec fn castle_chars(cw: (bool, bool), cb: (bool, bool)) -> Seq<char> {
    if !cw.0 && !cw.1 && !cb.0 && !cb.1 {
        seq!['-']
    } else {
        (if cw.1 {
            seq!['K']
        } else {
            Seq::empty()
        }) + (if cw.0 {
            seq!['Q']
        } else {
            Seq::empty()
        }) + (if cb.1 {
            seq!['k']
        } else {
            Seq::empty()
        }) + (if cb.0 {
            seq!['q']
        } else {
            Seq::empty()
        })
    }
}

/// The en-passant field: the recorded pawn's square, or a dash.
pub open spec fn ep_chars(ep: Option<(Loc, ChessColor)>) -> Seq<char> {
    match ep {
        Some((l, c)) => seq![file_char(l.0 as int), rank_char(l.1 as int)],
        None => seq!['-'],
    }
}

/// The decimal digits of a nonnegative number.
pub open spec fn dec_chars(n: int) -> Seq<char>
    decreases n,
{
    if n < 10 {
        seq![digit_char(n)]
    } else {
        dec_chars(n / 10) + seq![digit_char(n % 10)]
    }
}

/// The position string of a board: placement, turn, castling rights,
/// en-passant square, halfmove clock and fullmove number.
pub open spec fn fen_chars(m: BoardModel) -> Seq<char> {
    placement_chars(m.grid, 0) + seq![' '] + seq![
        if m.turn == ChessColor::White {
            'w'
        } else {
            'b'
        },
    ] + seq![' '] + castle_chars(m.castle_white, m.castle_black) + seq![' '] + ep_chars(
        m.en_passent,
    ) + seq![' '] + dec_chars(m.half_moves - m.fifty_rule) + seq![' '] + dec_chars(
        m.half_moves / 2 + 1,
    )
}

/// Makes sure the placement part of a position string is well formed: eight
/// rows whose pieces and digit runs each cover exactly eight files.  It does
/// not count kings or pawns.
pub fn validate_fen(fen: &str) -> (r: bool)
    ensures
        r == valid_placement(fen@),
{
    if !fen.is_ascii() {
        proof {
            lemma_nonascii_invalid(fen@);
        }
        return false;
    }
    let bytes = fen.as_bytes_vec();
    proof {
        broadcast use vstd::string::is_ascii_spec_bytes;

        assert(bytes@ =~= Seq::new(fen@.len(), |i: int| fen@[i] as u8));
    }
    let ghost s = fen@;
    let mut rows_len: u32 = 1;
    let mut sum: u32 = 0;
    let mut ok = true;
    let mut i: usize = 0;
    while i < bytes.len()
        invariant
            bytes@.len() == s.len(),
            forall|k: int| 0 <= k < s.len() ==> bytes@[k] == s[k] as u8,
            vstd::utf8::is_ascii_chars(s),
            i <= s.len(),
            1 <= rows_len <= 9,
            sum <= 9,
            (ok, rows_len as int, sum as int) == scan_placement(s, i as int),
        decreases bytes@.len() - i,
    {
        let c = bytes[i];
        proof {
            assert(s[i as int] as u8 == c);
            assert('\0' <= s[i as int] <= '\u{7f}');
        }
        if c == 47 {
            if sum != 8 {
                ok = false;
            }
            sum = 0;
            rows_len = if rows_len >= 9 {
                9
            } else {
                rows_len + 1
            };
        } else if 48 <= c && c <= 57 {
            let d = (c - 48) as u32;
            sum = if sum + d > 9 {
                9
            } else {
                sum + d
            };
        } else {
            sum = if sum >= 9 {
                9
            } else {
                sum + 1
            };
        }
        i += 1;
    }
    ok && rows_len == 8 && sum == 8
}

/// The scan state after the first `i` characters of a placement string: all
/// finished rows summed to eight files, the number of rows seen, and the
/// running file count of the current row.  Counts cap just past eight, which
/// the verdicts never distinguish.
pub open spec fn scan_placement(s: Seq<char>, i: int) -> (bool, int, int)
    decreases i,
{
    if i <= 0 {
        (true, 1, 0)
    } else {
        let prev = scan_placement(s, i - 1);
        let c = s[i - 1];
        if c == '/' {
            (
                prev.0 && prev.2 == 8,
                if prev.1 >= 9 {
                    9int
                } else {
                    prev.1 + 1
                },
                0,
            )
        } else if '0' <= c && c <= '9' {
            (
                prev.0,
                prev.1,
                if prev.2 + (c as int - 48) > 9 {
                    9int
                } else {
                    prev.2 + (c as int - 48)
                },
            )
        } else {
            (
                prev.0,
                prev.1,
                if prev.2 >= 9 {
                    9int
                } else {
                    prev.2 + 1
                },
            )
        }
    }
}

/// The placement string scans to eight rows of eight files each.
pub open spec fn valid_placement(s: Seq<char>) -> bool {
    &&& vstd::utf8::is_ascii_chars(s)
    &&& scan_placement(s, s.len() as int).0
    &&& scan_placement(s, s.len() as int).1 == 8
    &&& scan_placement(s, s.len() as int).2 == 8
}

/// A string with a character beyond ASCII never scans as a valid placement.
proof fn lemma_nonascii_invalid(s: Seq<char>)
    requires
        !vstd::utf8::is_ascii_chars(s),
    ensures
        !valid_placement(s),
{
}

} // verus!

use crate::apply::{derived_model, MAX_HALF_MOVES};
use crate::board::{grid_wf, BoardState};
use crate::loc::notation_loc;

verus! {

/// The placement byte of a piece: upper case for white.
fn piece_byte(name: PieceNames, color: ChessColor) -> (b: u8)
    ensures
        b < 128,
        b as char == piece_char_spec(name, color),
{
    match color {
        ChessColor::White => match name {
            PieceNames::Pawn => 80,
            PieceNames::Rook => 82,
            PieceNames::Knight => 78,
            PieceNames::Bishop => 66,
            PieceNames::Queen => 81,
            PieceNames::King => 75,
        },
        ChessColor::Black => piece_to_char(&name),
    }
}

/// Append the decimal digits of `n`.
fn push_dec(out: &mut Vec<u8>, n: u32)
    requires
        all_ascii(old(out)@),
    ensures
        all_ascii(final(out)@),
        chars_of_bytes(final(out)@) == chars_of_bytes(old(out)@) + dec_chars(n as int),
    decreases n,
{
    if n >= 10 {
        push_dec(out, n / 10);
    }
    let ghost mid = out@;
    let b: u8 = 48 + (n % 10) as u8;
    out.push(b);
    proof {
        assert(out@ == mid.push(b));
        assert(b as char == digit_char((n as int) % 10));
        assert(chars_of_bytes(out@) =~= chars_of_bytes(mid).push(digit_char((n as int) % 10)));
        if n >= 10 {
            assert((n / 10) as int == n as int / 10);
            assert((n % 10) as int == (n as int) % 10);
            assert(chars_of_bytes(mid) == chars_of_bytes(old(out)@) + dec_chars(n as int / 10));
            assert(dec_chars(n as int) == dec_chars(n as int / 10) + seq![
                digit_char((n as int) % 10),
            ]);
        } else {
            assert(chars_of_bytes(mid) == chars_of_bytes(old(out)@));
            assert((n as int) % 10 == n as int);
            assert(dec_chars(n as int) == seq![digit_char(n as int)]);
        }
        assert(chars_of_bytes(out@) =~= chars_of_bytes(old(out)@) + dec_chars(n as int));
    }
}

impl Board {
    /// Append one placement row.
    fn push_row(&self, out: &mut Vec<u8>, y: usize)
        requires
            self.wf(),
            y < 8,
            all_ascii(old(out)@),
        ensures
            all_ascii(final(out)@),
            chars_of_bytes(final(out)@) == chars_of_bytes(old(out)@) + row_chars(
                self.grid@,
                y as int,
                0,
                0,
            ),
    {
        let ghost g = self.grid@;
        let mut empty: u8 = 0;
        let mut x: usize = 0;
        while x < 8
            invariant
                self.wf(),
                g == self.grid@,
                y < 8,
                x <= 8,
                empty <= x,
                all_ascii(out@),
                chars_of_bytes(out@) + row_chars(g, y as int, x as int, empty as int)
                    == chars_of_bytes(old(out)@) + row_chars(g, y as int, 0, 0),
            decreases 8 - x,
        {
            let ghost before = out@;
            match self.get(&Loc(x, y)) {
                Some(p) => {
                    if empty != 0 {
                        out.push(48 + empty);
                    }
                    out.push(piece_byte(p.name, p.color));
                    proof {
                        assert(chars_of_bytes(out@) =~= chars_of_bytes(before) + (if empty > 0 {
                            seq![digit_char(empty as int)]
                        } else {
                            Seq::<char>::empty()
                        }) + seq![piece_char_spec(p.name, p.color)]);
                        assert(chars_of_bytes(out@) + row_chars(g, y as int, x as int + 1, 0)
                            =~= chars_of_bytes(before) + row_chars(
                            g,
                            y as int,
                            x as int,
                            empty as int,
                        ));
                    }
                    empty = 0;
                },
                None => {
                    empty += 1;
                },
            }
            x += 1;
        }
        if empty != 0 {
            out.push(48 + empty);
        }
        proof {
            assert(row_chars(g, y as int, 8, empty as int) == (if empty > 0 {
                seq![digit_char(empty as int)]
            } else {
                Seq::<char>::empty()
            }));
            assert(chars_of_bytes(out@) =~= chars_of_bytes(old(out)@) + row_chars(
                g,
                y as int,
                0,
                0,
            ));
        }
    }

    /// Export the board as a position string.
    pub fn as_fen(&self) -> (r: String)
        requires
            self.wf(),
        ensures
            r@ == fen_chars(self.abs()),
    {
        let ghost m = self.abs();
        let mut out: Vec<u8> = Vec::new();

        // Piece placement
        let mut y: usize = 0;
        while y < 8
            invariant
                self.wf(),
                m == self.abs(),
                y <= 8,
                all_ascii(out@),
                chars_of_bytes(out@) + (if y < 8 {
                    placement_chars(m.grid, y as int)
                } else {
                    Seq::<char>::empty()
                }) == placement_chars(m.grid, 0),
            decreases 8 - y,
        {
            let ghost pre = out@;
            self.push_row(&mut out, y);
            let ghost midr = out@;
            if y < 7 {
                out.push(47);
            }
            proof {
                if y < 7 {
                    assert(out@ == midr.push(47));
                    assert(chars_of_bytes(out@) =~= chars_of_bytes(midr).push('/'));
                    assert(placement_chars(m.grid, y as int) == row_chars(m.grid, y as int, 0, 0)
                        + seq!['/'] + placement_chars(m.grid, y as int + 1));
                    assert(chars_of_bytes(out@) + placement_chars(m.grid, y as int + 1)
                        =~= chars_of_bytes(pre) + placement_chars(m.grid, y as int));
                    assert(chars_of_bytes(out@) + placement_chars(m.grid, y as int + 1)
                        =~= placement_chars(m.grid, 0));
                } else {
                    assert(placement_chars(m.grid, 7) == row_chars(m.grid, 7, 0, 0));
                    assert(chars_of_bytes(out@) =~= placement_chars(m.grid, 0));
                    assert(chars_of_bytes(out@) + Seq::<char>::empty() =~= placement_chars(
                        m.grid,
                        0,
                    ));
                }
            }
            y += 1;
        }

        out.push(32);
        out.push(if self.turn == ChessColor::White {
            119
        } else {
            98
        });
        out.push(32);
        let ghost seg1 = out@;
        proof {
            assert(chars_of_bytes(seg1) =~= placement_chars(m.grid, 0) + seq![' '] + seq![
                if m.turn == ChessColor::White {
                    'w'
                } else {
                    'b'
                },
            ] + seq![' ']);
        }

        // Castling rights
        if !self.castle_white.0 && !self.castle_white.1 && !self.castle_black.0
            && !self.castle_black.1 {
            out.push(45);
        } else {
            if self.castle_white.1 {
                out.push(75);
            }
            let ghost ck = out@;
            proof {
                assert(chars_of_bytes(ck) =~= chars_of_bytes(seg1) + (if m.castle_white.1 {
                    seq!['K']
                } else {
                    Seq::<char>::empty()
                }));
            }
            if self.castle_white.0 {
                out.push(81);
            }
            let ghost cq = out@;
            proof {
                assert(chars_of_bytes(cq) =~= chars_of_bytes(ck) + (if m.castle_white.0 {
                    seq!['Q']
                } else {
                    Seq::<char>::empty()
                }));
            }
            if self.castle_black.1 {
                out.push(107);
            }
            let ghost clk = out@;
            proof {
                assert(chars_of_bytes(clk) =~= chars_of_bytes(cq) + (if m.castle_black.1 {
                    seq!['k']
                } else {
                    Seq::<char>::empty()
                }));
            }
            if self.castle_black.0 {
                out.push(113);
            }
            proof {
                assert(chars_of_bytes(out@) =~= chars_of_bytes(clk) + (if m.castle_black.0 {
                    seq!['q']
                } else {
                    Seq::<char>::empty()
                }));
            }
        }
        proof {
            assert(chars_of_bytes(out@) =~= chars_of_bytes(seg1) + castle_chars(
                m.castle_white,
                m.castle_black,
            ));
        }
        out.push(32);

        // En passant
        match self.en_passent {
            Some((l, _)) => {
                out.push(97 + l.0 as u8);
                out.push(56 - l.1 as u8);
            },
            None => {
                out.push(45);
            },
        }
        out.push(32);
        let ghost seg2 = out@;
        proof {
            assert(chars_of_bytes(seg2) =~= chars_of_bytes(seg1) + castle_chars(
                m.castle_white,
                m.castle_black,
            ) + seq![' '] + ep_chars(m.en_passent) + seq![' ']);
        }

        // Halfmove clock and fullmove number
        push_dec(&mut out, self.half_moves - self.fifty_rule);
        out.push(32);
        push_dec(&mut out, self.half_moves / 2 + 1);

        let r = ascii_string(&out);
        proof {
            assert(chars_of_bytes(out@) =~= chars_of_bytes(seg2) + dec_chars(
                m.half_moves - m.fifty_rule,
            ) + seq![' '] + dec_chars(m.half_moves / 2 + 1));
            assert(r@ =~= fen_chars(m));
        }
        r
    }
}

} // verus!

verus! {

/// A 64-square grid with nothing on it.
pub open spec fn empty_grid() -> Seq<Option<Piece>> {
    Seq::new(64, |i: int| None::<Piece>)
}

/// The parsed fields of a position string.
pub struct ParsedFen {
    pub grid: Seq<Option<Piece>>,
    pub turn: ChessColor,
    pub castle_white: (bool, bool),
    pub castle_black: (bool, bool),
    pub en_passent: Option<(Loc, ChessColor)>,
    pub clock: int,
    pub full_moves: int,
}

/// Parse the placement field from position `i` in row `y` at file `x`:
/// digits skip files, letters place pieces, slashes close rows of exactly
/// eight files, and a space after eight full rows ends the field.
pub open spec fn parse_placement(
    s: Seq<char>,
    i: int,
    x: int,
    y: int,
    g: Seq<Option<Piece>>,
) -> Option<(int, Seq<Option<Piece>>)>
    decreases s.len() - i,
{
    if i < 0 || i >= s.len() {
        None
    } else {
        let c = s[i];
        if c == ' ' {
            if x == 8 && y == 7 {
                Some((i + 1, g))
            } else {
                None
            }
        } else if c == '/' {
            if x == 8 && y < 7 {
                parse_placement(s, i + 1, 0, y + 1, g)
            } else {
                None
            }
        } else if '0' <= c && c <= '9' {
            if x + (c as int - 48) <= 8 {
                parse_placement(s, i + 1, x + (c as int - 48), y, g)
            } else {
                None
            }
        } else {
            match char_piece_spec(c) {
                Some(name) => if 0 <= x < 8 && 0 <= y < 8 {
                    let color = if 'A' <= c && c <= 'Z' {
                        ChessColor::White
                    } else {
                        ChessColor::Black
                    };
                    parse_placement(
                        s,
                        i + 1,
                        x + 1,
                        y,
                        g.update(
                            y * 8 + x,
                            Some(
                                Piece {
                                    name,
                                    color,
                                    pos: Loc(x as usize, y as usize),
                                },
                            ),
                        ),
                    )
                } else {
                    None
                },
                None => None,
            }
        }
    }
}

/// Parse the turn field: `w` or `b` followed by a space.
pub open spec fn parse_turn(s: Seq<char>, i: int) -> Option<(int, ChessColor)> {
    if 0 <= i && i + 1 < s.len() && (s[i] == 'w' || s[i] == 'b') && s[i + 1] == ' ' {
        Some(
            (
                i + 2,
                if s[i] == 'w' {
                    ChessColor::White
                } else {
                    ChessColor::Black
                },
            ),
        )
    } else {
        None
    }
}

/// Accumulate castling-right letters until the closing space.
pub open spec fn parse_castle_loop(
    s: Seq<char>,
    i: int,
    cw: (bool, bool),
    cb: (bool, bool),
    any: bool,
) -> Option<(int, (bool, bool), (bool, bool))>
    decreases s.len() - i,
{
    if i < 0 || i >= s.len() {
        None
    } else if s[i] == ' ' {
        if any {
            Some((i + 1, cw, cb))
        } else {
            None
        }
    } else if s[i] == 'K' {
        parse_castle_loop(s, i + 1, (cw.0, true), cb, true)
    } else if s[i] == 'Q' {
        parse_castle_loop(s, i + 1, (true, cw.1), cb, true)
    } else if s[i] == 'k' {
        parse_castle_loop(s, i + 1, cw, (cb.0, true), true)
    } else if s[i] == 'q' {
        parse_castle_loop(s, i + 1, cw, (true, cb.1), true)
    } else {
        None
    }
}

/// Parse the castling field: a dash for no rights, else right letters.
pub open spec fn parse_castle(s: Seq<char>, i: int) -> Option<(int, (bool, bool), (bool, bool))> {
    if 0 <= i && i < s.len() && s[i] == '-' {
        if i + 1 < s.len() && s[i + 1] == ' ' {
            Some((i + 2, (false, false), (false, false)))
        } else {
            None
        }
    } else {
        parse_castle_loop(s, i, (false, false), (false, false), false)
    }
}

/// Parse the en-passant field: a dash, or the square of the pawn that just
/// double-stepped, which must be occupied so its color can be read.
pub open spec fn parse_ep(s: Seq<char>, i: int, g: Seq<Option<Piece>>) -> Option<
    (int, Option<(Loc, ChessColor)>),
> {
    if 0 <= i && i < s.len() && s[i] == '-' {
        if i + 1 < s.len() && s[i + 1] == ' ' {
            Some((i + 2, None))
        } else {
            None
        }
    } else if 0 <= i && i + 2 < s.len() && s[i + 2] == ' ' {
        match notation_loc(seq![s[i], s[i + 1]]) {
            Some(l) => match at(g, l) {
                Some(p) => Some((i + 3, Some((l, p.color)))),
                None => None,
            },
            None => None,
        }
    } else {
        None
    }
}

/// Accumulate at most nine decimal digits.
pub open spec fn parse_num_loop(s: Seq<char>, i: int, acc: int, digits: int) -> Option<(int, int)>
    decreases s.len() - i,
{
    if 0 <= i && i < s.len() && '0' <= s[i] && s[i] <= '9' {
        if digits >= 9 {
            None
        } else {
            parse_num_loop(s, i + 1, acc * 10 + (s[i] as int - 48), digits + 1)
        }
    } else if digits >= 1 && 0 <= i <= s.len() {
        Some((i, acc))
    } else {
        None
    }
}

/// Parse a whole position string into its fields.
pub open spec fn parse_fen(s: Seq<char>) -> Option<ParsedFen> {
    match parse_placement(s, 0, 0, 0, empty_grid()) {
        Some((i1, g)) => match parse_turn(s, i1) {
            Some((i2, turn)) => match parse_castle(s, i2) {
                Some((i3, cw, cb)) => match parse_ep(s, i3, g) {
                    Some((i4, ep)) => match parse_num_loop(s, i4, 0, 0) {
                        Some((i5, clock)) => if i5 < s.len() && s[i5] == ' ' {
                            match parse_num_loop(s, i5 + 1, 0, 0) {
                                Some((i6, full)) => if i6 == s.len() {
                                    Some(
                                        ParsedFen {
                                            grid: g,
                                            turn,
                                            castle_white: cw,
                                            castle_black: cb,
                                            en_passent: ep,
                                            clock,
                                            full_moves: full,
                                        },
                                    )
                                } else {
                                    None
                                },
                                None => None,
                            }
                        } else {
                            None
                        },
                        None => None,
                    },
                    None => None,
                },
                None => None,
            },
            None => None,
        },
        None => None,
    }
}

/// The board a parse stands for before its derived state is computed: the
/// parsed fields over fresh metadata.
pub open spec fn start_model(pf: ParsedFen, half: int) -> BoardModel {
    BoardModel {
        grid: pf.grid,
        turn: pf.turn,
        state: BoardState::Normal,
        player_color: ChessColor::White,
        agent_color: ChessColor::Black,
        castle_black: pf.castle_black,
        castle_white: pf.castle_white,
        en_passent: pf.en_passent,
        score: 0,
        attacks_white: Seq::new(64, |i: int| false),
        attacks_black: Seq::new(64, |i: int| false),
        check_white: false,
        check_black: false,
        blockers: Seq::new(64, |i: int| false),
        moves_white: Seq::empty(),
        moves_black: Seq::empty(),
        half_moves: half,
        prev_states: Seq::empty(),
        fifty_rule: half - pf.clock,
        endgame: false,
        hash: 0,
        agent_developments: ((false, false), (false, false)),
    }
}

/// The board a position string denotes, derived state refreshed, or `None`
/// when the string is rejected.  A position string is ASCII text; the
/// fullmove number starts at one and stays within the counter ceiling, the
/// halfmove clock cannot exceed the half moves played, and a position with
/// both kings in check at once is illegal and refused.
pub open spec fn fen_model(s: Seq<char>) -> Option<BoardModel> {
    if !vstd::utf8::is_ascii_chars(s) {
        None
    } else {
        match parse_fen(s) {
            Some(pf) => {
                let half = (pf.full_moves - 1) * 2 + (if pf.turn == ChessColor::Black {
                    1int
                } else {
                    0int
                });
                if pf.full_moves >= 1 && pf.clock <= half && pf.full_moves <= 400000000 {
                    let d = derived_model(start_model(pf, half), true);
                    if d.check_white && d.check_black {
                        None
                    } else {
                        Some(d)
                    }
                } else {
                    None
                }
            },
            None => None,
        }
    }
}

} // verus!

verus! {

/// Ten to the power `n`.
pub open spec fn pow10(n: int) -> int
    decreases n,
{
    if n <= 0 {
        1
    } else {
        10 * pow10(n - 1)
    }
}

/// Powers of ten grow with the exponent.
proof fn lemma_pow10_le(a: int, b: int)
    requires
        a <= b,
    ensures
        pow10(a) <= pow10(b),
    decreases b,
{
    if a < b && b > 0 {
        lemma_pow10_le(a, b - 1);
        assert(pow10(b - 1) >= 1) by {
            lemma_pow10_pos(b - 1);
        }
    }
}

/// Powers of ten are positive.
proof fn lemma_pow10_pos(n: int)
    ensures
        pow10(n) >= 1,
    decreases n,
{
    if n > 0 {
        lemma_pow10_pos(n - 1);
    }
}

impl Board {
    /// Generate a board from a position string, rejecting anything
    /// malformed: bad placement rows, unknown fields, a missing en-passant
    /// pawn, counters that cannot fit together, or the illegal state of both
    /// kings in check at once.
    #[verifier::loop_isolation(false)]
    #[verifier::rlimit(100)]
    pub fn from_fen(fen: &str) -> (r: Result<Board, &'static str>)
        ensures
            r matches Ok(b) ==> b.wf() && fen_model(fen@) == Some(b.abs()),
            r is Err ==> fen_model(fen@) is None,
    {
        let ghost s = fen@;
        if !fen.is_ascii() {
            return Err("Invalid FEN: not ASCII text");
        }
        let bytes = fen.as_bytes_vec();
        proof {
            broadcast use vstd::string::is_ascii_spec_bytes;

            assert(bytes@ =~= Seq::new(s.len(), |i: int| s[i] as u8));
        }
        let n = bytes.len();

        /* -------------------------------- Placement ------------------------------- */
        let mut grid: Vec<Option<Piece>> = Vec::new();
        let mut j: usize = 0;
        while j < 64
            invariant
                j <= 64,
                grid@ =~= Seq::new(j as nat, |i: int| None::<Piece>),
            decreases 64 - j,
        {
            grid.push(None);
            j += 1;
        }
        proof {
            assert(grid@ =~= empty_grid());
        }

        let mut gi: usize = 0;
        let mut x: u32 = 0;
        let mut y: u32 = 0;
        let mut done = false;
        while !done
            invariant
                gi <= n,
                x <= 8,
                y <= 7,
                grid@.len() == 64,
                grid_wf(grid@),
                !done ==> parse_placement(s, 0, 0, 0, empty_grid()) == parse_placement(
                    s,
                    gi as int,
                    x as int,
                    y as int,
                    grid@,
                ),
                done ==> parse_placement(s, 0, 0, 0, empty_grid()) == Some((gi as int, grid@)),
            decreases n - gi + (if done {
                0int
            } else {
                1int
            }),
        {
            if gi >= n {
                return Err("Invalid FEN: truncated placement");
            }
            let c = bytes[gi];
            proof {
                assert(s[gi as int] as u8 == c);
                assert('\0' <= s[gi as int] <= '\u{7f}');
            }
            if c == 32 {
                if x == 8 && y == 7 {
                    gi += 1;
                    done = true;
                } else {
                    return Err("Invalid FEN: placement does not cover the board");
                }
            } else if c == 47 {
                if x == 8 && y < 7 {
                    x = 0;
                    y += 1;
                    gi += 1;
                } else {
                    return Err("Invalid FEN: malformed placement row");
                }
            } else if 48 <= c && c <= 57 {
                let d = (c - 48) as u32;
                if x + d <= 8 {
                    x += d;
                    gi += 1;
                } else {
                    return Err("Invalid FEN: placement row too wide");
                }
            } else {
                match char_to_piece(&c) {
                    Some(name) => {
                        if x < 8 {
                            let color = if 65 <= c && c <= 90 {
                                ChessColor::White
                            } else {
                                ChessColor::Black
                            };
                            let loc = Loc(x as usize, y as usize);
                            proof {
                                crate::loc::lemma_loc_index(loc, 0);
                            }
                            grid.set((y * 8 + x) as usize, Some(Piece::new(name, color, loc)));
                            x += 1;
                            gi += 1;
                        } else {
                            return Err("Invalid FEN: placement row too wide");
                        }
                    },
                    None => {
                        return Err("Invalid FEN: unknown placement character");
                    },
                }
            }
        }
        proof {
            assert(parse_placement(s, 0, 0, 0, empty_grid()) == Some((gi as int, grid@)));
        }

        /* ---------------------------------- Turn ---------------------------------- */
        if n - gi < 2 {
            return Err("Invalid FEN: missing turn");
        }
        let tc = bytes[gi];
        let tsp = bytes[gi + 1];
        proof {
            assert(s[gi as int] as u8 == tc);
            assert(s[gi as int + 1] as u8 == tsp);
            assert('\0' <= s[gi as int] <= '\u{7f}');
            assert('\0' <= s[gi as int + 1] <= '\u{7f}');
        }
        if !(tc == 119 || tc == 98) || tsp != 32 {
            return Err("Invalid FEN: bad turn field");
        }
        let turn = if tc == 119 {
            ChessColor::White
        } else {
            ChessColor::Black
        };
        proof {
            assert(parse_turn(s, gi as int) == Some((gi as int + 2, turn)));
        }
        gi += 2;

        /* -------------------------------- Castling -------------------------------- */
        let ghost castle_start = gi as int;
        let mut cw: (bool, bool) = (false, false);
        let mut cb: (bool, bool) = (false, false);
        let mut dash = false;
        if gi < n && bytes[gi] == 45 {
            proof {
                assert(s[gi as int] as u8 == 45);
                assert('\0' <= s[gi as int] <= '\u{7f}');
            }
            if n - gi >= 2 && bytes[gi + 1] == 32 {
                proof {
                    assert(s[gi as int + 1] as u8 == 32);
                    assert('\0' <= s[gi as int + 1] <= '\u{7f}');
                }
                dash = true;
                gi += 2;
            } else {
                proof {
                    if gi as int + 1 < s.len() {
                        assert(s[gi as int + 1] as u8 == bytes@[gi as int + 1]);
                        assert('\0' <= s[gi as int + 1] <= '\u{7f}');
                    }
                }
                return Err("Invalid FEN: bad castling field");
            }
        }
        if !dash {
            let mut any = false;
            let mut cdone = false;
            while !cdone
                invariant
                    gi <= n,
                    !cdone ==> parse_castle(s, castle_start) == parse_castle_loop(
                        s,
                        gi as int,
                        cw,
                        cb,
                        any,
                    ),
                    cdone ==> parse_castle(s, castle_start) == Some((gi as int, cw, cb)),
                decreases n - gi + (if cdone {
                    0int
                } else {
                    1int
                }),
            {
                if gi >= n {
                    return Err("Invalid FEN: truncated castling field");
                }
                let c = bytes[gi];
                proof {
                    assert(s[gi as int] as u8 == c);
                    assert('\0' <= s[gi as int] <= '\u{7f}');
                }
                if c == 32 {
                    if any {
                        gi += 1;
                        cdone = true;
                    } else {
                        return Err("Invalid FEN: empty castling field");
                    }
                } else if c == 75 {
                    cw = (cw.0, true);
                    any = true;
                    gi += 1;
                } else if c == 81 {
                    cw = (true, cw.1);
                    any = true;
                    gi += 1;
                } else if c == 107 {
                    cb = (cb.0, true);
                    any = true;
                    gi += 1;
                } else if c == 113 {
                    cb = (true, cb.1);
                    any = true;
                    gi += 1;
                } else {
                    return Err("Invalid FEN: unknown castling character");
                }
            }
        }
        proof {
            assert(parse_castle(s, castle_start) == Some((gi as int, cw, cb)));
        }

        /* -------------------------------- En passant ------------------------------- */
        let ghost ep_start = gi as int;
        let mut en_passent: Option<(Loc, ChessColor)> = None;
        if gi < n && bytes[gi] == 45 {
            proof {
                assert(s[gi as int] as u8 == 45);
                assert('\0' <= s[gi as int] <= '\u{7f}');
            }
            if n - gi >= 2 && bytes[gi + 1] == 32 {
                proof {
                    assert(s[gi as int + 1] as u8 == 32);
                    assert('\0' <= s[gi as int + 1] <= '\u{7f}');
                }
                gi += 2;
            } else {
                proof {
                    if gi as int + 1 < s.len() {
                        assert('\0' <= s[gi as int + 1] <= '\u{7f}');
                    }
                }
                return Err("Invalid FEN: bad en-passant field");
            }
        } else {
            if n - gi < 3 {
                proof {
                    if (gi as int) < s.len() {
                        assert('\0' <= s[gi as int] <= '\u{7f}');
                    }
                }
                return Err("Invalid FEN: truncated en-passant field");
            }
            let c0 = bytes[gi];
            let c1 = bytes[gi + 1];
            let c2 = bytes[gi + 2];
            proof {
                assert(s[gi as int] as u8 == c0);
                assert(s[gi as int + 1] as u8 == c1);
                assert(s[gi as int + 2] as u8 == c2);
                assert('\0' <= s[gi as int] <= '\u{7f}');
                assert('\0' <= s[gi as int + 1] <= '\u{7f}');
                assert('\0' <= s[gi as int + 2] <= '\u{7f}');
            }
            if c2 != 32 {
                return Err("Invalid FEN: bad en-passant field");
            }
            if !(97 <= c0 && c0 <= 104 && 49 <= c1 && c1 <= 56) {
                proof {
                    assert(notation_loc(seq![s[gi as int], s[gi as int + 1]]) is None);
                }
                return Err("Invalid FEN: bad en-passant square");
            }
            let l = Loc((c0 - 97) as usize, (56 - c1) as usize);
            proof {
                assert(notation_loc(seq![s[gi as int], s[gi as int + 1]]) == Some(l));
                crate::loc::lemma_loc_index(l, 0);
            }
            match grid[l.idx()] {
                Some(p) => {
                    en_passent = Some((l, p.color));
                },
                None => {
                    return Err("Invalid FEN: en-passant square is empty");
                },
            }
            gi += 3;
        }
        proof {
            assert(parse_ep(s, ep_start, grid@) == Some((gi as int, en_passent)));
        }

        /* --------------------------------- Numbers --------------------------------- */
        let ghost clock_start = gi as int;
        let mut clock: u32 = 0;
        let mut digits: u32 = 0;
        let mut ndone = false;
        while !ndone
            invariant
                gi <= n,
                digits <= 9,
                (clock as int) < pow10(digits as int),
                clock < 1000000000,
                !ndone ==> parse_num_loop(s, clock_start, 0, 0) == parse_num_loop(
                    s,
                    gi as int,
                    clock as int,
                    digits as int,
                ),
                ndone ==> parse_num_loop(s, clock_start, 0, 0) == (if digits >= 1 {
                    Some((gi as int, clock as int))
                } else {
                    None::<(int, int)>
                }),
            decreases n - gi + (if ndone {
                0int
            } else {
                1int
            }),
        {
            if gi >= n {
                ndone = true;
            } else {
                let c = bytes[gi];
                proof {
                    assert(s[gi as int] as u8 == c);
                    assert('\0' <= s[gi as int] <= '\u{7f}');
                }
                if !(48 <= c && c <= 57) {
                    ndone = true;
                } else {
                    if digits >= 9 {
                        return Err("Invalid FEN: halfmove clock too large");
                    }
                    proof {
                        lemma_pow10_le(digits as int, 8);
                        reveal_with_fuel(pow10, 11);
                        assert(pow10(8) == 100000000);
                        assert((clock as int) < 100000000);
                        lemma_pow10_le(digits as int + 1, 9);
                        assert(pow10(9) == 1000000000);
                    }
                    clock = clock * 10 + (c - 48) as u32;
                    digits += 1;
                    gi += 1;
                }
            }
        }
        if digits == 0 {
            proof {
                if gi < n {
                    assert('\0' <= s[gi as int] <= '\u{7f}');
                }
            }
            return Err("Invalid FEN: missing halfmove clock");
        }
        proof {
            assert(parse_num_loop(s, clock_start, 0, 0) == Some((gi as int, clock as int)));
        }
        if gi >= n || bytes[gi] != 32 {
            proof {
                if gi < n {
                    assert(s[gi as int] as u8 == bytes@[gi as int]);
                    assert('\0' <= s[gi as int] <= '\u{7f}');
                }
            }
            return Err("Invalid FEN: missing fullmove number");
        }
        proof {
            assert(s[gi as int] as u8 == 32);
            assert('\0' <= s[gi as int] <= '\u{7f}');
        }
        gi += 1;

        let ghost full_start = gi as int;
        let mut full: u32 = 0;
        let mut fdigits: u32 = 0;
        let mut fdone = false;
        while !fdone
            invariant
                gi <= n,
                fdigits <= 9,
                (full as int) < pow10(fdigits as int),
                full < 1000000000,
                !fdone ==> parse_num_loop(s, full_start, 0, 0) == parse_num_loop(
                    s,
                    gi as int,
                    full as int,
                    fdigits as int,
                ),
                fdone ==> parse_num_loop(s, full_start, 0, 0) == (if fdigits >= 1 {
                    Some((gi as int, full as int))
                } else {
                    None::<(int, int)>
                }),
            decreases n - gi + (if fdone {
                0int
            } else {
                1int
            }),
        {
            if gi >= n {
                fdone = true;
            } else {
                let c = bytes[gi];
                proof {
                    assert(s[gi as int] as u8 == c);
                    assert('\0' <= s[gi as int] <= '\u{7f}');
                }
                if !(48 <= c && c <= 57) {
                    fdone = true;
                } else {
                    if fdigits >= 9 {
                        return Err("Invalid FEN: fullmove number too large");
                    }
                    proof {
                        lemma_pow10_le(fdigits as int, 8);
                        reveal_with_fuel(pow10, 11);
                        assert(pow10(8) == 100000000);
                        assert((full as int) < 100000000);
                        lemma_pow10_le(fdigits as int + 1, 9);
                        assert(pow10(9) == 1000000000);
                    }
                    full = full * 10 + (c - 48) as u32;
                    fdigits += 1;
                    gi += 1;
                }
            }
        }
        if fdigits == 0 {
            proof {
                if gi < n {
                    assert('\0' <= s[gi as int] <= '\u{7f}');
                }
            }
            return Err("Invalid FEN: missing fullmove number");
        }
        proof {
            assert(parse_num_loop(s, full_start, 0, 0) == Some((gi as int, full as int)));
        }
        if gi != n {
            proof {
                assert('\0' <= s[gi as int] <= '\u{7f}');
            }
            return Err("Invalid FEN: trailing text");
        }

        /* --------------------------------- Assembly -------------------------------- */
        if full < 1 {
            return Err("Invalid FEN: fullmove number starts at one");
        }
        if full > 400000000 {
            return Err("Invalid FEN: fullmove number too large");
        }
        let half: u32 = (full - 1) * 2 + (if turn == ChessColor::Black {
            1
        } else {
            0
        });
        if clock > half {
            return Err("Invalid FEN: halfmove clock exceeds the moves played");
        }

        let mut board = Board::new();
        board.grid = grid;
        board.turn = turn;
        board.castle_white = cw;
        board.castle_black = cb;
        board.en_passent = en_passent;
        board.half_moves = half;
        board.fifty_rule = half - clock;
        proof {
            let pf = parse_fen(s)->Some_0;
            assert(board.moves_white@ =~= Seq::<(Loc, Loc)>::empty());
            assert(board.moves_black@ =~= Seq::<(Loc, Loc)>::empty());
            assert(board.prev_states@ =~= Seq::<u64>::empty());
            assert(board.abs() == start_model(pf, half as int));
        }
        board.update_things(true);
        if board.check_white && board.check_black {
            return Err("Invalid FEN: both kings are in check at once");
        }
        Ok(board)
    }
}

} // verus!
