//! What holds of the driver whatever it is asked to do.

use crate::bus::{BusKind, BusOp, Line};
use crate::consts::{
    CGRAM_SLOTS, EN, ENABLE_HOLD_US, ENABLE_SETTLE_US, LCD_BACKLIGHT, LCD_SETCGRAMADDR, RS, RW,
};
use crate::error::LcdError;
use crate::layout::{row_offsets, row_start, wrapped_col, wrapped_row};
use crate::lcd::LcdModel;
use crate::plan::glyph_commands;
use crate::protocol::{
    backlight_bit, frame_ops, high_byte, low_byte, nibble_ops, present_ops, pulse_ops, Command,
    Mode,
};
use crate::state::Geometry;
use vstd::arithmetic::div_mod::{
    lemma_div_by_multiple, lemma_div_by_multiple_is_strongly_ordered, lemma_div_is_ordered,
    lemma_fundamental_div_mod, lemma_mod_bound,
};
use vstd::prelude::*;

verus! {

/// A byte for the controller goes out as exactly two nibble transactions,
/// the high nibble first. The two nibble bytes carry the byte's two halves
/// in their upper four bits, the register-select bit of the mode and the
/// backlight bit, with enable and read/write low.
pub proof fn lemma_two_nibbles(kind: BusKind, value: u8, mode: Mode, backlight: bool)
    ensures
        ({
            let high = high_byte(value, mode, backlight);
            let low = low_byte(value, mode, backlight);
            &&& frame_ops(kind, value, mode, backlight) == nibble_ops(kind, high, backlight)
                + nibble_ops(kind, low, backlight)
            &&& (high & 0xf0) | ((low & 0xf0) >> 4) == value
            &&& high & RS == mode.bit() && low & RS == mode.bit()
            &&& high & LCD_BACKLIGHT == backlight_bit(backlight)
            &&& low & LCD_BACKLIGHT == backlight_bit(backlight)
            &&& high & EN == 0 && low & EN == 0
            &&& high & RW == 0 && low & RW == 0
        }),
{
    let m = mode.bit();
    let b = backlight_bit(backlight);
    assert((m == 0 || m == 1) && (b == 0 || b == 8) ==> {
        let high = ((value & 0xf0) | m) | b;
        let low = (((value << 4) & 0xf0) | m) | b;
        &&& (high & 0xf0) | ((low & 0xf0) >> 4) == value
        &&& high & 1 == m && low & 1 == m
        &&& high & 8 == b && low & 8 == b
        &&& high & 4 == 0 && low & 4 == 0
        &&& high & 2 == 0 && low & 2 == 0
    }) by (bit_vector);
}

/// A nibble transaction is the nibble put on the link and, at once after
/// it, one pulse on enable: raised, held for at least 1 microsecond,
/// lowered, left to settle for at least 50 microseconds. On an expander the
/// two bytes of the pulse are the nibble byte with enable set and with
/// enable clear.
pub proof fn lemma_one_pulse(kind: BusKind, data: u8, backlight: bool)
    ensures
        nibble_ops(kind, data, backlight) == present_ops(kind, data) + pulse_ops(
            kind,
            data,
            backlight,
        ),
        ({
            let pulse = pulse_ops(kind, data, backlight);
            &&& pulse.len() == 4
            &&& pulse[1] == BusOp::DelayUs(ENABLE_HOLD_US) && ENABLE_HOLD_US >= 1
            &&& pulse[3] == BusOp::DelayUs(ENABLE_SETTLE_US) && ENABLE_SETTLE_US >= 50
            &&& kind == BusKind::Discrete ==> pulse[0] == BusOp::Drive(Line::Enable, true)
                && pulse[2] == BusOp::Drive(Line::Enable, false)
            &&& kind == BusKind::Expander ==> (pulse[0] matches BusOp::Write(raised) && raised & EN
                == EN && raised & 0xf3 == data & 0xf3)
            &&& kind == BusKind::Expander ==> (pulse[2] matches BusOp::Write(lowered) && lowered
                & EN == 0 && lowered & 0xf3 == data & 0xf3)
        }),
{
    let b = backlight_bit(backlight);
    assert(b == 0 || b == 8 ==> {
        let raised = (data | 4) | b;
        let lowered = (data & !4u8) | b;
        raised & 4 == 4 && lowered & 4 == 0 && raised & 0xf3 == data & 0xf3 && lowered & 0xf3
            == data & 0xf3
    }) by (bit_vector);
}

/// Every byte that goes to an expander in a frame carries the backlight
/// bit as the driver holds it, so no write ever switches the backlight by
/// accident.
pub proof fn lemma_backlight_latched(value: u8, mode: Mode, backlight: bool, i: int)
    requires
        0 <= i < frame_ops(BusKind::Expander, value, mode, backlight).len(),
    ensures
        (frame_ops(BusKind::Expander, value, mode, backlight)[i] matches BusOp::Write(byte)
            ==> byte & LCD_BACKLIGHT == backlight_bit(backlight)),
{
    let high = high_byte(value, mode, backlight);
    let low = low_byte(value, mode, backlight);
    let b = backlight_bit(backlight);
    lemma_two_nibbles(BusKind::Expander, value, mode, backlight);
    assert(forall|d: u8, l: u8|
        (l == 0 || l == 8) && d & 8 == l ==> #[trigger] ((d | 4) | l) & 8 == l && #[trigger] ((d
            & !4u8) | l) & 8 == l) by (bit_vector);
    assert(((high | EN) | b) & 8 == b);
    assert(((high & !EN) | b) & 8 == b);
    assert(((low | EN) | b) & 8 == b);
    assert(((low & !EN) | b) & 8 == b);
}

/// Moving the cursor to a row that the display does not have fails as out
/// of bounds, whatever the column, and leaves the driver and the link as
/// they were.
pub proof fn lemma_row_out_of_bounds(m: LcdModel, col: u8, row: u8)
    requires
        row >= m.geometry.rows,
    ensures
        m.cursor_to(col, row) == (m, Err::<(), LcdError>(LcdError::RowOutOfBounds)),
{
}

/// Only displays of one, two or four rows have a row-offset table. On any
/// other, moving the cursor to a row below the row count fails as an
/// unsupported geometry and sends nothing, and so do printing a wrapped
/// text and stepping to a next line that lies below the row count.
pub proof fn lemma_unsupported_rows(m: LcdModel, col: u8, row: u8, text: Seq<char>)
    requires
        m.geometry.rows != 1,
        m.geometry.rows != 2,
        m.geometry.rows != 4,
    ensures
        row_offsets(m.geometry.rows) is None,
        row < m.geometry.rows ==> m.cursor_to(col, row) == (
            m,
            Err::<(), LcdError>(LcdError::UnsupportedGeometry),
        ),
        0 < m.geometry.rows ==> m.print_wrapped(text) == (
            m,
            Err::<(), LcdError>(LcdError::UnsupportedGeometry),
        ),
        m.line_below() < m.geometry.rows ==> m.to_next_line().1 == Err::<(), LcdError>(
            LcdError::UnsupportedGeometry,
        ) && m.to_next_line().0.bus == m.bus,
{
}

/// On a display with a row-offset table every row below the row count has
/// its offset, and the cursor command for it goes out as one frame.
pub proof fn lemma_supported_rows(geometry: Geometry, row: u8)
    requires
        geometry.rows == 1 || geometry.rows == 2 || geometry.rows == 4,
        row < geometry.rows,
    ensures
        (row_offsets(geometry.rows) matches Some(table) && table.len() == geometry.rows
            && row_start(geometry, row) == Ok::<u8, LcdError>(table[row as int])),
{
}

/// A glyph for a slot above 7 is refused and nothing is sent. For a slot up
/// to 7 exactly nine bytes go to the controller: the slot's address, then
/// the eight rows of the glyph in order.
pub proof fn lemma_glyph_frames(m: LcdModel, slot: u8, bitmap: Seq<u8>)
    requires
        bitmap.len() == 8,
    ensures
        slot >= CGRAM_SLOTS ==> m.store_glyph(slot, bitmap) == (
            m,
            Err::<(), LcdError>(LcdError::SlotOutOfBounds),
        ),
        slot < CGRAM_SLOTS ==> m.store_glyph(slot, bitmap) == m.transmit(
            m.frames(glyph_commands(slot, bitmap)),
        ),
        glyph_commands(slot, bitmap).len() == 9,
        glyph_commands(slot, bitmap)[0] == Command::instruction(LCD_SETCGRAMADDR | (slot << 3)),
        forall|i: int|
            0 <= i < 8 ==> #[trigger] glyph_commands(slot, bitmap)[1 + i] == Command::data(
                bitmap[i],
            ),
{
}

/// Every character of a wrapped text lands in a cell of the display: its
/// column is below the column count and its row below the row count. The
/// characters of the first `rows` lines keep their line; all later ones
/// go to the first row.
pub proof fn lemma_wrapped_cell(geometry: Geometry, i: nat)
    requires
        geometry.cols > 0,
        geometry.rows > 0,
    ensures
        wrapped_col(geometry, i) < geometry.cols,
        wrapped_row(geometry, i) < geometry.rows,
        wrapped_col(geometry, i) == i % (geometry.cols as nat),
        i < geometry.cols * geometry.rows ==> wrapped_row(geometry, i) == i / (
        geometry.cols as nat),
        i >= geometry.cols * geometry.rows ==> wrapped_row(geometry, i) == 0,
{
    let c = geometry.cols as int;
    let r = geometry.rows as int;
    lemma_fundamental_div_mod(i as int, c);
    lemma_mod_bound(i as int, c);
    if i < c * r {
        lemma_div_by_multiple_is_strongly_ordered(
            i as int,
            c * r,
            r,
            c,
        );
        lemma_div_by_multiple(r, c);
        assert(c * r == r * c) by (nonlinear_arith);
    } else {
        lemma_div_is_ordered(c * r, i as int, c);
        lemma_div_by_multiple(r, c);
        assert(c * r == r * c) by (nonlinear_arith);
    }
}

} // verus!
