use vstd::prelude::*;
use crate::colors::{at_least_zero, visible_len, visible_length};
use crate::geometry::{PartView, RenderPart};
use crate::style::Align;

verus! {

/// One character at a cell of the grid.
#[derive(Clone, Copy, Debug, PartialEq, Eq)]
pub struct Cell {
    pub x: u64,
    pub y: u64,
    pub ch: char,
}

pub open spec fn cell_views(cs: Seq<Cell>) -> Seq<(int, int, char)> {
    cs.map_values(|c: Cell| (c.x as int, c.y as int, c.ch))
}

/// The column of the first character of text `n` cells wide: the left edge, the right edge
/// less `n`, or half way between; text wider than the part starts at the left edge.
pub open spec fn start_col(p: PartView, n: int) -> int {
    match p.h_align {
        Align::Right => p.x + at_least_zero(p.width - n),
        Align::Center => p.x + at_least_zero(p.width - n) / 2,
        _ => p.x,
    }
}

/// The row of the first character: the top row, the middle row (rounded down) or the
/// bottom row.
pub open spec fn start_row(p: PartView) -> int {
    match p.v_align {
        Align::Center => p.y + p.height / 2,
        Align::Bottom => p.y + at_least_zero(p.height - 1),
        _ => p.y,
    }
}

/// Wrapped placement of `text` from character `i` on, the cursor at `(col, row)`: after each
/// character the cursor moves right, and back to column `left` one row down once it reaches
/// column `right`; nothing is placed from row `bottom` on.
pub open spec fn wrap_cells(text: Seq<char>, i: int, col: int, row: int, left: int, right: int, bottom: int) -> Seq<(int, int, char)>
    decreases text.len() - i,
{
    if i < 0 || i >= text.len() || row >= bottom {
        seq![]
    } else if col + 1 >= right {
        seq![(col, row, text[i])] + wrap_cells(text, i + 1, left, row + 1, left, right, bottom)
    } else {
        seq![(col, row, text[i])] + wrap_cells(text, i + 1, col + 1, row, left, right, bottom)
    }
}

/// Unwrapped placement: one run from `(col, row)`, cut at column `right`, and nothing on a
/// row from `bottom` on.
pub open spec fn run_cells(text: Seq<char>, col: int, row: int, right: int, bottom: int) -> Seq<(int, int, char)> {
    let room = at_least_zero(right - col);
    let n = if row >= bottom { 0 } else if text.len() < room { text.len() as int } else { room };
    Seq::new(n as nat, |i: int| (col + i, row, text[i]))
}

/// Where the content of a part lands on the grid.
pub open spec fn placement(p: PartView) -> Seq<(int, int, char)> {
    let n = visible_length(p.content);
    if n == 0 {
        seq![]
    } else if p.wrap {
        wrap_cells(p.content, 0, start_col(p, n), start_row(p), p.x, p.x + p.width, p.y + p.height)
    } else {
        run_cells(p.content, start_col(p, n), start_row(p), p.x + p.width, p.y + p.height)
    }
}

impl RenderPart {
    /// The cells at which the content of this part is drawn, in drawing order.
    pub fn place(&self) -> (r: Vec<Cell>)
        ensures
            cell_views(r@) == placement(self@),
    {
        let p = Ghost(self@);
        let text = self.contaiment.as_str();
        let n = visible_len(text);
        let mut r: Vec<Cell> = Vec::new();
        if n == 0 {
            return r;
        }
        let (w, h, x, y) = (self.geometry.0 as u64, self.geometry.1 as u64, self.geometry.2 as u64, self.geometry.3 as u64);
        let room: u64 = if w > n as u64 { w - n as u64 } else { 0 };
        let mut col: u64 = match self.h_align {
            Align::Right => x + room,
            Align::Center => x + room / 2,
            _ => x,
        };
        let mut row: u64 = match self.v_align {
            Align::Center => y + h / 2,
            Align::Bottom => y + if h >= 1 { h - 1 } else { 0 },
            _ => y,
        };
        let right = x + w;
        let bottom = y + h;
        assert(col == start_col(p@, n as int));
        assert(row == start_row(p@));
        let len = text.unicode_len();
        let mut i: usize = 0;
        if self.wrap_contaiment {
            while i < len && row < bottom
                invariant
                    p@ == self@,
                    text@ == p@.content,
                    len == text@.len(),
                    n as int == visible_length(p@.content),
                    n > 0,
                    p@.wrap,
                    right == p@.x + p@.width,
                    bottom == p@.y + p@.height,
                    x == p@.x,
                    right <= 2 * 0xffff_ffff,
                    bottom <= 2 * 0xffff_ffff,
                    col <= right || i == 0,
                    col <= 3 * 0xffff_ffff,
                    row <= bottom || i == 0,
                    row <= 3 * 0xffff_ffff,
                    i <= len,
                    cell_views(r@) + wrap_cells(text@, i as int, col as int, row as int, x as int, right as int, bottom as int) == placement(p@),
                decreases len - i,
            {
                let ghost before = r@;
                r.push(Cell { x: col, y: row, ch: text.get_char(i) });
                assert(cell_views(r@) =~= cell_views(before).push((col as int, row as int, text@[i as int])));
                if col + 1 >= right {
                    col = x;
                    row = row + 1;
                } else {
                    col = col + 1;
                }
                i += 1;
            }
            proof {
                assert(wrap_cells(text@, i as int, col as int, row as int, x as int, right as int, bottom as int) == Seq::<(int, int, char)>::empty());
                assert(cell_views(r@) =~= placement(p@));
            }
        } else {
            let ghost want = run_cells(text@, col as int, row as int, right as int, bottom as int);
            let avail: u64 = if row >= bottom { 0 } else if right > col { right - col } else { 0 };
            while i < len && (i as u64) < avail
                invariant
                    text@ == p@.content,
                    len == text@.len(),
                    want == run_cells(text@, col as int, row as int, right as int, bottom as int),
                    avail == (if row >= bottom { 0 } else { at_least_zero(right - col) }),
                    i <= len,
                    i <= avail,
                    col <= 3 * 0xffff_ffff,
                    r@.len() == i,
                    forall|j: int| 0 <= j < i ==> (#[trigger] cell_views(r@)[j]) == want[j],
                decreases len - i,
            {
                let ghost before = r@;
                r.push(Cell { x: col + i as u64, y: row, ch: text.get_char(i) });
                assert(cell_views(r@) =~= cell_views(before).push((col + i, row as int, text@[i as int])));
                i += 1;
            }
            proof {
                assert(cell_views(r@) =~= want);
            }
        }
        r
    }
}

} // verus!
