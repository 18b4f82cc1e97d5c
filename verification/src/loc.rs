//! Board coordinates with safe off-board arithmetic.

use vstd::prelude::*;

use crate::ascii::{ascii_string, chars_of_bytes};

verus! {

/// The file letter (a..h) of column `x` in algebraic notation.
pub open spec fn file_char(x: int) -> char {
    ((97 + x) as u8) as char
}

/// The rank digit (8..1) of row `y` in algebraic notation.
pub open spec fn rank_char(y: int) -> char {
    ((56 - y) as u8) as char
}

/// The square that a two-character algebraic name (a1..h8) denotes, or
/// `None` when the text is not such a name.
pub open spec fn notation_loc(s: Seq<char>) -> Option<Loc> {
    if s.len() == 2 && 'a' <= s[0] && s[0] <= 'h' && '1' <= s[1] && s[1] <= '8' {
        Some(Loc((s[0] as u32 - 97) as usize, (56 - s[1] as u32) as usize))
    } else {
        None
    }
}

/// A square of the board: file `self.0` (0 = the a-file) and row `self.1`
/// (row 0 is the rank written "8" in algebraic notation).
#[derive(Clone, Copy, PartialEq, Eq, Hash, Debug, Structural)]
pub struct Loc(pub usize, pub usize);

impl Loc {
    /// Both coordinates lie on the 8x8 board.
    pub open spec fn valid(self) -> bool {
        self.0 < 8 && self.1 < 8
    }

    /// Position of this square in a row-major flat grid of 64 squares.
    pub open spec fn index(self) -> int {
        self.1 * 8 + self.0
    }

    /// Row-major flat index of a valid square.
    pub fn idx(&self) -> (r: usize)
        requires
            self.valid(),
        ensures
            r == self.index(),
    {
        self.1 * 8 + self.0
    }

    /// A copy of this square shifted by `x_diff` and `y_diff`.  The flag is
    /// true whenever the true destination fell outside the board, on any
    /// side; negative coordinates are clamped to zero, never wrapped, and a
    /// flagged result never silently stands in for a valid square.
    pub fn copy_move_i32(&self, x_diff: i32, y_diff: i32) -> (res: (Loc, bool))
        requires
            self.valid(),
            i32::MIN + 8 < x_diff as int,
            (x_diff as int) < i32::MAX - 8,
            i32::MIN + 8 < y_diff as int,
            (y_diff as int) < i32::MAX - 8,
        ensures
            res.1 == !(0 <= self.0 + x_diff < 8 && 0 <= self.1 + y_diff < 8),
            res.0.0 == if self.0 + x_diff < 0 { 0int } else { self.0 + x_diff },
            res.0.1 == if self.1 + y_diff < 0 { 0int } else { self.1 + y_diff },
    {
        let new_x = self.0 as i32 + x_diff;
        let new_y = self.1 as i32 + y_diff;

        let out = new_x < 0 || new_y < 0 || new_x >= 8 || new_y >= 8;
        let cx = if new_x < 0 { 0 } else { new_x };
        let cy = if new_y < 0 { 0 } else { new_y };
        (Loc(cx as usize, cy as usize), out)
    }

    /// Shift this square in place; true exactly when the destination is a
    /// board square (the inverse convention of `copy_move_i32`'s flag).
    pub fn move_i32(&mut self, x_diff: i32, y_diff: i32) -> (ok: bool)
        requires
            old(self).valid(),
            i32::MIN + 8 < x_diff as int,
            (x_diff as int) < i32::MAX - 8,
            i32::MIN + 8 < y_diff as int,
            (y_diff as int) < i32::MAX - 8,
        ensures
            ok == (0 <= old(self).0 + x_diff < 8 && 0 <= old(self).1 + y_diff < 8),
            final(self).0 == if old(self).0 + x_diff < 0 { 0int } else { old(self).0 + x_diff },
            final(self).1 == if old(self).1 + y_diff < 0 { 0int } else { old(self).1 + y_diff },
    {
        let new_x = self.0 as i32 + x_diff;
        let new_y = self.1 as i32 + y_diff;

        let ok = !(new_x < 0 || new_y < 0 || new_x >= 8 || new_y >= 8);
        self.0 = if new_x < 0 { 0 } else { new_x as usize };
        self.1 = if new_y < 0 { 0 } else { new_y as usize };
        ok
    }

    /// The algebraic name of this square: `Loc(0, 0)` becomes `"a8"`.
    pub fn as_notation(&self) -> (r: String)
        requires
            self.valid(),
        ensures
            r@ == seq![file_char(self.0 as int), rank_char(self.1 as int)],
            notation_loc(r@) == Some(*self),
    {
        let mut bytes: Vec<u8> = Vec::new();
        bytes.push(97 + self.0 as u8);
        bytes.push(56 - self.1 as u8);
        let r = ascii_string(&bytes);
        proof {
            assert(r@ =~= seq![file_char(self.0 as int), rank_char(self.1 as int)]);
        }
        r
    }

    /// The square that an algebraic name denotes: `"a8"` becomes `Loc(0, 0)`.
    /// Anything that is not a name between a1 and h8 is rejected.
    pub fn from_notation(notation: &str) -> (r: Option<Loc>)
        ensures
            r == notation_loc(notation@),
            r matches Some(l) ==> l.valid(),
    {
        proof {
            broadcast use vstd::string::is_ascii_spec_bytes;

        }
        if !notation.is_ascii() {
            proof {
                let s = notation@;
                assert(!vstd::utf8::is_ascii_chars(s));
                if s.len() == 2 {
                    assert(!('\0' <= s[0] <= '\u{7f}') || !('\0' <= s[1] <= '\u{7f}'));
                }
            }
            return None;
        }
        let bytes = notation.as_bytes_vec();
        proof {
            assert(bytes@ =~= Seq::new(notation@.len(), |i: int| notation@[i] as u8));
        }
        if bytes.len() != 2 {
            return None;
        }
        let c0 = bytes[0];
        let c1 = bytes[1];
        if 97 <= c0 && c0 <= 104 && 49 <= c1 && c1 <= 56 {
            let l = Loc((c0 - 97) as usize, (56 - c1) as usize);
            proof {
                let s = notation@;
                assert(s[0] as u32 == c0 && s[1] as u32 == c1);
            }
            Some(l)
        } else {
            None
        }
    }
}

/// True when the location lies on the board.
pub fn valid_pos(location: &Loc) -> (r: bool)
    ensures
        r == location.valid(),
{
    !(location.0 >= 8 || location.1 >= 8)
}

/// Distance between two coordinates.
pub open spec fn dist(a: int, b: int) -> int {
    if a >= b {
        a - b
    } else {
        b - a
    }
}

/// The square whose row-major flat index is `j`.
pub open spec fn loc_of(j: int) -> Loc {
    Loc((j % 8) as usize, (j / 8) as usize)
}

/// `index` and `loc_of` are inverse on the board.
pub proof fn lemma_loc_index(l: Loc, j: int)
    requires
        l.valid(),
        0 <= j < 64,
    ensures
        loc_of(l.index()) == l,
        loc_of(j).valid(),
        loc_of(j).index() == j,
{
    assert(loc_of(l.index()) == l) by {
        assert((l.1 * 8 + l.0) % 8 == l.0 && (l.1 * 8 + l.0) / 8 == l.1) by (nonlinear_arith)
            requires l.0 < 8 && l.1 < 8;
    };
    assert(loc_of(j).valid() && loc_of(j).index() == j) by {
        assert(0 <= j % 8 < 8 && 0 <= j / 8 < 8 && (j / 8) * 8 + j % 8 == j) by (nonlinear_arith)
            requires 0 <= j < 64;
    };
}

} // verus!
