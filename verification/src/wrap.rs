//! Display-row accounting: how many terminal rows a line of text occupies
//! once greedily word-wrapped at a given width (ratatui's
//! `Wrap { trim: false }` behaviour), counted without ratatui's private
//! wrapper.

use vstd::prelude::*;
use crate::chars::{from_chars, to_chars};
use crate::text::{display_width, str_width};

verus! {

/// `s` scanned left to right into finished space-terminated pieces and the
/// piece still being read.
pub open spec fn scan_spaces(s: Seq<char>) -> (Seq<Seq<char>>, Seq<char>)
    decreases s.len(),
{
    if s.len() == 0 {
        (Seq::empty(), Seq::empty())
    } else {
        let (done, cur) = scan_spaces(s.drop_last());
        let cur2 = cur.push(s.last());
        if s.last() == ' ' {
            (done.push(cur2), Seq::empty())
        } else {
            (done, cur2)
        }
    }
}

/// The pieces of `s` split after every space, each keeping its space, with
/// a final piece for any text after the last space (as
/// `str::split_inclusive(' ')`).
pub open spec fn split_after_spaces(s: Seq<char>) -> Seq<Seq<char>> {
    let (done, cur) = scan_spaces(s);
    if cur.len() == 0 {
        done
    } else {
        done.push(cur)
    }
}

/// Placing an overlong piece: every full `width` it still exceeds starts a
/// new row; what is left of it sets the column.
pub open spec fn place_overlong(rows: nat, rest: nat, width: nat) -> (nat, nat)
    decreases rest,
{
    if width > 0 && rest > width {
        place_overlong(rows + 1, (rest - width) as nat, width)
    } else {
        (rows, rest)
    }
}

/// `(rows, column)` after placing a piece `w` columns wide at `(rows, col)`.
pub open spec fn place_piece(rows: nat, col: nat, w: nat, width: nat) -> (nat, nat) {
    if w > width {
        place_overlong(if col > 0 { rows + 1 } else { rows }, w, width)
    } else if col + w > width {
        (rows + 1, w)
    } else {
        (rows, col + w)
    }
}

/// `(rows, column)` after placing pieces of widths `ws`, from one empty row.
pub open spec fn place_pieces(ws: Seq<usize>, width: nat) -> (nat, nat)
    decreases ws.len(),
{
    if ws.len() == 0 {
        (1, 0)
    } else {
        let (rows, col) = place_pieces(ws.drop_last(), width);
        place_piece(rows, col, ws.last() as nat, width)
    }
}

/// Rows taken by pieces of widths `ws` wrapped at `width` columns, capped
/// at `u32::MAX`. A width of 0 always takes one row.
pub open spec fn rows_for_widths(ws: Seq<usize>, width: nat) -> nat {
    if width == 0 {
        1
    } else {
        let rows = place_pieces(ws, width).0;
        if rows > u32::MAX { u32::MAX as nat } else { rows }
    }
}

/// Column widths of the space-split pieces of `s`.
pub open spec fn piece_widths(s: Seq<char>) -> Seq<usize> {
    split_after_spaces(s).map_values(|p: Seq<char>| display_width(p))
}

/// Rows `text` takes once wrapped at `width` columns; empty text, or a
/// width of 0, takes one row.
pub open spec fn wrapped_rows(text: Seq<char>, width: nat) -> nat {
    if width == 0 || text.len() == 0 {
        1
    } else {
        rows_for_widths(piece_widths(text), width)
    }
}

proof fn lemma_place_overlong_bounds(rows: nat, rest: nat, width: nat)
    requires
        width > 0,
    ensures
        place_overlong(rows, rest, width).0 >= rows,
        rest > 0 ==> 0 < place_overlong(rows, rest, width).1 <= width,
        rest <= width ==> place_overlong(rows, rest, width) == (rows, rest),
    decreases rest,
{
    if rest > width {
        lemma_place_overlong_bounds(rows + 1, (rest - width) as nat, width);
    }
}

proof fn lemma_place_pieces_bounds(ws: Seq<usize>, width: nat)
    requires
        width > 0,
    ensures
        place_pieces(ws, width).0 >= 1,
        place_pieces(ws, width).1 <= width,
    decreases ws.len(),
{
    if ws.len() > 0 {
        lemma_place_pieces_bounds(ws.drop_last(), width);
        let (rows, col) = place_pieces(ws.drop_last(), width);
        let w = ws.last() as nat;
        if w > width {
            lemma_place_overlong_bounds(if col > 0 { rows + 1 } else { rows }, w, width);
        }
    }
}

/// The total width of pieces `ws`.
pub open spec fn total_width(ws: Seq<usize>) -> nat
    decreases ws.len(),
{
    if ws.len() == 0 {
        0
    } else {
        total_width(ws.drop_last()) + ws.last() as nat
    }
}

proof fn lemma_place_overlong_exact(rows: nat, rest: nat, width: nat)
    requires
        width > 0,
        rows >= 1,
    ensures
        ({
            let (r, c) = place_overlong(rows, rest, width);
            &&& r >= 1
            &&& (r - 1) * width + c == (rows - 1) * width + rest
            &&& r + c <= rows + rest
        }),
    decreases rest,
{
    if rest > width {
        lemma_place_overlong_exact(rows + 1, (rest - width) as nat, width);
        assert(((rows + 1) - 1) * width + (rest - width) == (rows - 1) * width + rest) by (nonlinear_arith)
            requires
                rows >= 1,
                rest > width,
        ;
    }
}

proof fn lemma_place_pieces_columns(ws: Seq<usize>, width: nat)
    requires
        width > 0,
    ensures
        ({
            let (r, c) = place_pieces(ws, width);
            &&& r >= 1
            &&& c <= width
            &&& total_width(ws) <= (r - 1) * width + c
            &&& r - 1 + c <= total_width(ws)
            &&& total_width(ws) > 0 ==> c > 0
            &&& total_width(ws) <= width ==> r == 1 && c == total_width(ws)
        }),
    decreases ws.len(),
{
    lemma_place_pieces_bounds(ws, width);
    if ws.len() > 0 {
        let prev = ws.drop_last();
        lemma_place_pieces_columns(prev, width);
        lemma_place_pieces_bounds(prev, width);
        let (rows, col) = place_pieces(prev, width);
        let w = ws.last() as nat;
        let t0 = total_width(prev);
        if w > width {
            let r0: nat = if col > 0 { rows + 1 } else { rows };
            lemma_place_overlong_exact(r0, w, width);
            lemma_place_overlong_bounds(r0, w, width);
            if col > 0 {
                assert((r0 - 1) * width == (rows - 1) * width + width) by (nonlinear_arith)
                    requires
                        r0 == rows + 1,
                        rows >= 1,
                ;
            }
        } else if col + w > width {
            assert(rows * width == (rows - 1) * width + width) by (nonlinear_arith)
                requires
                    rows >= 1,
            ;
        }
    }
}

/// No column is lost in wrapping: for non-empty text and a positive width,
/// the rows hold the full width of the text's pieces (unless the count is
/// capped at `u32::MAX`), text no wider than a row takes one row, and no
/// row is started without a column to fill it.
pub proof fn lemma_no_column_lost(text: Seq<char>, width: nat)
    requires
        text.len() > 0,
        width > 0,
    ensures
        ({
            let total = total_width(piece_widths(text));
            let rows = wrapped_rows(text, width);
            &&& rows == u32::MAX || total <= rows * width
            &&& total <= width ==> rows == 1
            &&& rows <= if total > 1 { total } else { 1 }
        }),
{
    let ws = piece_widths(text);
    lemma_place_pieces_columns(ws, width);
    let (r, c) = place_pieces(ws, width);
    assert((r - 1) * width + c <= r * width) by (nonlinear_arith)
        requires
            r >= 1,
            c <= width,
    ;
    if r > u32::MAX {
    }
}

fn sat_inc(x: usize) -> (r: usize)
    ensures
        r == (if x == usize::MAX { x as int } else { x + 1 }),
{
    if x == usize::MAX {
        x
    } else {
        x + 1
    }
}

/// Rows taken by pieces `widths` columns wide, greedily wrapped at `width`
/// columns: a piece that does not fit on the current row starts a new one,
/// and a piece wider than a whole row is broken across as many rows as it
/// needs. Capped at `u32::MAX`; a width of 0 takes one row.
pub fn rows_for_piece_widths(widths: &Vec<usize>, width: u16) -> (r: u32)
    ensures
        r == rows_for_widths(widths@, width as nat),
{
    if width == 0 {
        return 1;
    }
    let width = width as usize;
    let mut rows: usize = 1;
    let mut col: usize = 0;
    let mut i: usize = 0;
    while i < widths.len()
        invariant
            width > 0,
            i <= widths@.len(),
            col == place_pieces(widths@.subrange(0, i as int), width as nat).1,
            rows as nat == (if place_pieces(widths@.subrange(0, i as int), width as nat).0
                > usize::MAX { usize::MAX as nat } else { place_pieces(
                widths@.subrange(0, i as int),
                width as nat,
            ).0 }),
            col <= width,
        decreases widths.len() - i,
    {
        let ghost prefix = widths@.subrange(0, i as int);
        let ghost next = widths@.subrange(0, i + 1);
        assert(next.drop_last() == prefix);
        proof {
            lemma_place_pieces_bounds(prefix, width as nat);
        }
        let w = widths[i];
        let ghost srows = place_pieces(prefix, width as nat).0;
        if w > width {
            if col > 0 {
                rows = sat_inc(rows);
            }
            let ghost start = if col > 0 { srows + 1 } else { srows };
            let mut remaining = w;
            let ghost mut grows: nat = start;
            while remaining > width
                invariant
                    width > 0,
                    remaining >= 1,
                    place_overlong(grows, remaining as nat, width as nat) == place_overlong(
                        start,
                        w as nat,
                        width as nat,
                    ),
                    rows as nat == (if grows > usize::MAX { usize::MAX as nat } else { grows }),
                decreases remaining,
            {
                rows = sat_inc(rows);
                remaining = remaining - width;
                proof {
                    grows = grows + 1;
                }
            }
            col = remaining;
        } else if w > width - col {
            rows = sat_inc(rows);
            col = w;
        } else {
            col = col + w;
        }
        i = i + 1;
    }
    assert(widths@.subrange(0, widths@.len() as int) == widths@);
    if rows > u32::MAX as usize {
        u32::MAX
    } else {
        rows as u32
    }
}

/// The column widths of the pieces of `s` split after each space.
fn space_piece_widths(s: &[char]) -> (r: Vec<usize>)
    ensures
        r@ == piece_widths(s@),
{
    let mut done: Vec<usize> = Vec::new();
    let mut cur: Vec<char> = Vec::new();
    let ghost mut pieces: Seq<Seq<char>> = Seq::empty();
    let mut i: usize = 0;
    while i < s.len()
        invariant
            i <= s@.len(),
            scan_spaces(s@.subrange(0, i as int)) == (pieces, cur@),
            done@ == pieces.map_values(|p: Seq<char>| display_width(p)),
        decreases s.len() - i,
    {
        let c = s[i];
        assert(s@.subrange(0, i + 1).drop_last() == s@.subrange(0, i as int));
        cur.push(c);
        if c == ' ' {
            let piece = from_chars(&cur);
            let w = str_width(piece.as_str());
            proof {
                pieces = pieces.push(cur@);
            }
            done.push(w);
            cur = Vec::new();
            assert(done@ =~= pieces.map_values(|p: Seq<char>| display_width(p)));
        }
        i = i + 1;
    }
    assert(s@.subrange(0, s@.len() as int) == s@);
    if cur.len() > 0 {
        let piece = from_chars(&cur);
        let w = str_width(piece.as_str());
        done.push(w);
        assert(done@ =~= pieces.push(cur@).map_values(|p: Seq<char>| display_width(p)));
    }
    done
}

/// How many terminal rows `text` occupies once word-wrapped at `width`
/// columns. Empty text, or a width of 0, always takes exactly one row.
/// The count is capped at `u32::MAX` rather than `u16::MAX`, so that totals
/// summed from it keep their precision above what a `u16` scroll offset can
/// reach.
pub fn wrapped_row_count(text: &str, width: u16) -> (r: u32)
    ensures
        r == wrapped_rows(text@, width as nat),
        r >= 1,
{
    if width == 0 || text.is_empty() {
        return 1;
    }
    let cs = to_chars(text);
    let widths = space_piece_widths(cs.as_slice());
    let r = rows_for_piece_widths(&widths, width);
    proof {
        lemma_place_pieces_bounds(widths@, width as nat);
    }
    r
}

} // verus!
