//! Where a character goes: the DDRAM address of each row, and the cell of
//! each character of a text that wraps over the visible rows.

use crate::consts::LCD_SETDDRAMADDR;
use crate::error::LcdError;
use crate::state::Geometry;
use vstd::arithmetic::div_mod::{
    lemma_basic_div, lemma_div_by_multiple, lemma_div_is_ordered, lemma_fundamental_div_mod,
    lemma_fundamental_div_mod_converse, lemma_mod_bound, lemma_mod_twice,
};
use vstd::prelude::*;

verus! {

/// The DDRAM address at which each row starts. Only displays of one, two or
/// four rows have such a table.
pub open spec fn row_offsets(rows: u8) -> Option<Seq<u8>> {
    if rows == 1 {
        Some(seq![0x00u8])
    } else if rows == 2 {
        Some(seq![0x00u8, 0x40u8])
    } else if rows == 4 {
        Some(seq![0x00u8, 0x40u8, 0x14u8, 0x54u8])
    } else {
        None
    }
}

/// The table of `row_offsets`, or `None` for a row count that has none.
pub fn row_offset_table(rows: u8) -> (table: Option<Vec<u8>>)
    ensures
        table is Some <==> row_offsets(rows) is Some,
        table matches Some(t) ==> t@ == row_offsets(rows)->0,
{
    if rows == 1 {
        let mut t: Vec<u8> = Vec::new();
        t.push(0x00);
        Some(t)
    } else if rows == 2 {
        let mut t: Vec<u8> = Vec::new();
        t.push(0x00);
        t.push(0x40);
        Some(t)
    } else if rows == 4 {
        let mut t: Vec<u8> = Vec::new();
        t.push(0x00);
        t.push(0x40);
        t.push(0x14);
        t.push(0x54);
        Some(t)
    } else {
        None
    }
}

/// What a request for `row` comes to: the row's DDRAM offset, or the reason
/// why the display has no such row.
pub open spec fn row_start(geometry: Geometry, row: u8) -> Result<u8, LcdError> {
    if row >= geometry.rows {
        Err(LcdError::RowOutOfBounds)
    } else {
        match row_offsets(geometry.rows) {
            Some(table) => Ok(table[row as int]),
            None => Err(LcdError::UnsupportedGeometry),
        }
    }
}

/// The DDRAM offset of `row`. The row is checked against the row count
/// first, the row count against the tables second.
pub fn row_offset(geometry: Geometry, row: u8) -> (res: Result<u8, LcdError>)
    ensures
        res == row_start(geometry, row),
{
    if row >= geometry.rows {
        return Err(LcdError::RowOutOfBounds);
    }
    if geometry.rows == 1 {
        Ok(0x00)
    } else if geometry.rows == 2 {
        if row == 0 {
            Ok(0x00)
        } else {
            Ok(0x40)
        }
    } else if geometry.rows == 4 {
        if row == 0 {
            Ok(0x00)
        } else if row == 1 {
            Ok(0x40)
        } else if row == 2 {
            Ok(0x14)
        } else {
            Ok(0x54)
        }
    } else {
        Err(LcdError::UnsupportedGeometry)
    }
}

/// Whether the address of column `col` in `row` fits in a byte. It does for
/// every column below 172, whatever the row.
pub open spec fn addressable(geometry: Geometry, col: u8, row: u8) -> bool {
    row_start(geometry, row) matches Ok(offset) ==> col + offset <= u8::MAX
}

/// Whether the address of column `col` in `row` fits in a byte.
pub fn can_address(geometry: Geometry, col: u8, row: u8) -> (ok: bool)
    ensures
        ok == addressable(geometry, col, row),
{
    match row_offset(geometry, row) {
        Ok(offset) => col <= u8::MAX - offset,
        Err(_) => true,
    }
}

/// The command that moves the cursor to the cell at `offset + col`.
pub open spec fn cursor_command(col: u8, offset: u8) -> u8 {
    LCD_SETDDRAMADDR | ((col + offset) as u8)
}

/// The column of character `i` of a wrapped text.
pub open spec fn wrapped_col(geometry: Geometry, i: nat) -> u8 {
    (i % (geometry.cols as nat)) as u8
}

/// The row of character `i` of a wrapped text: rows fill from the top, and
/// what runs past the last row goes to the first.
pub open spec fn wrapped_row(geometry: Geometry, i: nat) -> u8 {
    if i / (geometry.cols as nat) >= geometry.rows {
        0
    } else {
        (i / (geometry.cols as nat)) as u8
    }
}

/// How many rows lie wholly before character `i` of a wrapped text, counted
/// no further than the display's rows.
pub open spec fn filled_rows(geometry: Geometry, i: nat) -> u8 {
    if i / (geometry.cols as nat) >= geometry.rows {
        geometry.rows
    } else {
        (i / (geometry.cols as nat)) as u8
    }
}

/// The row for a character that has `filled` rows before it.
pub fn row_after(geometry: Geometry, filled: u8) -> (row: u8)
    ensures
        row == (if filled >= geometry.rows {
            0u8
        } else {
            filled
        }),
{
    if filled >= geometry.rows {
        0
    } else {
        filled
    }
}

/// From the place of character `i` of a wrapped text to that of the next:
/// one column on, or to the start of a new row.
pub(crate) fn advance(geometry: Geometry, col: u8, filled: u8, Ghost(i): Ghost<nat>) -> (next: (
    u8,
    u8,
))
    requires
        geometry.cols > 0,
        col == wrapped_col(geometry, i),
        filled == filled_rows(geometry, i),
    ensures
        next.0 == wrapped_col(geometry, i + 1),
        next.1 == filled_rows(geometry, i + 1),
{
    proof {
        let c = geometry.cols as int;
        let q = (i as int) / c;
        let m = (i as int) % c;
        lemma_fundamental_div_mod(i as int, c);
        if m + 1 < c {
            assert(i + 1 == q * c + (m + 1)) by (nonlinear_arith)
                requires
                    i == c * q + m,
            ;
            lemma_fundamental_div_mod_converse(i as int + 1, c, q, m + 1);
        } else {
            assert(i + 1 == (q + 1) * c + 0) by (nonlinear_arith)
                requires
                    i == c * q + m,
                    m + 1 == c,
            ;
            lemma_fundamental_div_mod_converse(i as int + 1, c, q + 1, 0);
        }
    }
    if col + 1 < geometry.cols {
        (col + 1, filled)
    } else if filled < geometry.rows {
        (0, filled + 1)
    } else {
        (0, filled)
    }
}

/// Whether a wrapped text of `len` characters can be printed: the display
/// has columns, and the cell of each character can be addressed.
pub fn wrapped_text_fits(geometry: Geometry, len: usize) -> (ok: bool)
    ensures
        ok <==> geometry.cols > 0 && forall|i: nat|
            i < len ==> #[trigger] addressable(
                geometry,
                wrapped_col(geometry, i),
                wrapped_row(geometry, i),
            ),
{
    if geometry.cols == 0 {
        return false;
    }
    assert(geometry.cols * geometry.rows <= 255 * 255) by (nonlinear_arith)
        requires
            geometry.cols <= 255,
            geometry.rows <= 255,
    ;
    let cells: usize = (geometry.cols as usize) * (geometry.rows as usize);
    let limit: usize = if len < cells {
        len
    } else {
        cells
    };
    let mut col: u8 = 0;
    let mut filled: u8 = 0;
    let mut i: usize = 0;
    while i < limit
        invariant
            geometry.cols > 0,
            i <= limit <= len,
            col == wrapped_col(geometry, i as nat),
            filled == filled_rows(geometry, i as nat),
            forall|j: nat|
                j < i ==> #[trigger] addressable(
                    geometry,
                    wrapped_col(geometry, j),
                    wrapped_row(geometry, j),
                ),
        decreases limit - i,
    {
        let row: u8 = row_after(geometry, filled);
        if !can_address(geometry, col, row) {
            assert(row == wrapped_row(geometry, i as nat));
            assert(!addressable(
                geometry,
                wrapped_col(geometry, i as nat),
                wrapped_row(geometry, i as nat),
            ));
            return false;
        }
        let next = advance(geometry, col, filled, Ghost(i as nat));
        col = next.0;
        filled = next.1;
        i = i + 1;
    }
    proof {
        assert forall|k: nat| k < len implies #[trigger] addressable(
            geometry,
            wrapped_col(geometry, k),
            wrapped_row(geometry, k),
        ) by {
            if k >= limit {
                lemma_past_the_last_row(geometry, k);
                let j = k % (geometry.cols as nat);
                if geometry.rows > 0 {
                    assert(j < cells) by (nonlinear_arith)
                        requires
                            j < geometry.cols,
                            geometry.rows >= 1,
                            cells == geometry.cols * geometry.rows,
                    ;
                    assert(addressable(
                        geometry,
                        wrapped_col(geometry, j),
                        wrapped_row(geometry, j),
                    ));
                }
            }
        }
    }
    true
}

/// A character past the last row goes where the character of its column in
/// the first row went.
proof fn lemma_past_the_last_row(geometry: Geometry, k: nat)
    requires
        geometry.cols > 0,
        k >= geometry.cols * geometry.rows,
    ensures
        wrapped_row(geometry, k) == 0,
        k % (geometry.cols as nat) < geometry.cols,
        wrapped_col(geometry, k % (geometry.cols as nat)) == wrapped_col(geometry, k),
        wrapped_row(geometry, k % (geometry.cols as nat)) == 0,
{
    let c = geometry.cols as int;
    let r = geometry.rows as int;
    let j = (k as int) % c;
    lemma_mod_bound(k as int, c);
    lemma_mod_twice(k as int, c);
    lemma_basic_div(j, c);
    lemma_div_is_ordered(c * r, k as int, c);
    lemma_div_by_multiple(r, c);
    assert(c * r == r * c) by (nonlinear_arith);
}

} // verus!
