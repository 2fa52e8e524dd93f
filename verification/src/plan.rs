//! What each of the longer operations sends, as a run of bytes for the
//! controller or as traffic on the link.

use crate::bus::{BusKind, BusOp, Line};
use crate::consts::{
    BOOT_MARGIN_MS, HANDSHAKE_US, HOME_SETTLE_US, LCD_1LINE, LCD_2LINE, LCD_4BITMODE,
    LCD_5X8DOTS, LCD_CLEARDISPLAY, LCD_DISPLAYCONTROL, LCD_ENTRYMODESET, LCD_FUNCTIONSET,
    LCD_RETURNHOME, LCD_SETCGRAMADDR, POWER_UP_MS,
};
use crate::layout::{cursor_command, row_start, wrapped_col, wrapped_row};
use crate::protocol::{backlight_bit, frame_ops, nibble_ops, Command, Mode};
use crate::state::{DisplayControl, EntryMode, Geometry};
use vstd::prelude::*;

verus! {

/// Writing the backlight bit to the expander on its own. Discrete lines
/// have no backlight to latch.
pub open spec fn latch_ops(kind: BusKind, backlight: bool) -> Seq<BusOp> {
    match kind {
        BusKind::Expander => seq![BusOp::Write(backlight_bit(backlight))],
        BusKind::Discrete => Seq::empty(),
    }
}

/// The first thing on the link after power-up: the expander's latch takes
/// the backlight bit; discrete lines take register select and enable low.
pub open spec fn power_on_ops(kind: BusKind, backlight: bool) -> Seq<BusOp> {
    match kind {
        BusKind::Expander => seq![BusOp::Write(backlight_bit(backlight))],
        BusKind::Discrete => seq![
            BusOp::Drive(Line::Rs, false),
            BusOp::Drive(Line::Enable, false),
        ],
    }
}

/// The function-set command: 4-bit transfers, 5x8 font, and two lines for
/// every display of more than one row.
pub open spec fn function_set(rows: u8) -> u8 {
    LCD_FUNCTIONSET | ((LCD_4BITMODE | (if rows > 1 {
        LCD_2LINE
    } else {
        LCD_1LINE
    })) | LCD_5X8DOTS)
}

/// Clearing the display: the command, then the wait the controller needs.
pub open spec fn clear_ops(kind: BusKind, backlight: bool) -> Seq<BusOp> {
    frame_ops(kind, LCD_CLEARDISPLAY, Mode::Command, backlight) + seq![
        BusOp::DelayUs(HOME_SETTLE_US),
    ]
}

/// Sending the cursor home: the command, then the wait the controller needs.
pub open spec fn home_ops(kind: BusKind, backlight: bool) -> Seq<BusOp> {
    frame_ops(kind, LCD_RETURNHOME, Mode::Command, backlight) + seq![
        BusOp::DelayUs(HOME_SETTLE_US),
    ]
}

/// One knock on the controller's door: nibble 3, taken as half of an
/// 8-bit function set, and the wait before the next.
pub open spec fn knock_ops(kind: BusKind, backlight: bool) -> Seq<BusOp> {
    nibble_ops(kind, 0x30u8 | backlight_bit(backlight), backlight) + seq![
        BusOp::DelayUs(HANDSHAKE_US),
    ]
}

/// Power-up: the link takes its first state, and the driver waits for
/// the supply to settle and, with a wide margin, for slow hardware.
pub open spec fn power_up_ops(kind: BusKind, backlight: bool) -> Seq<BusOp> {
    power_on_ops(kind, backlight) + seq![BusOp::DelayMs(POWER_UP_MS)] + seq![
        BusOp::DelayMs(BOOT_MARGIN_MS),
    ]
}

/// Waking the controller: power-up, three knocks, and nibble 2, which
/// commits the controller to 4-bit transfers.
pub open spec fn wake_ops(kind: BusKind, backlight: bool) -> Seq<BusOp> {
    power_up_ops(kind, backlight) + knock_ops(kind, backlight) + knock_ops(kind, backlight)
        + knock_ops(kind, backlight) + nibble_ops(
        kind,
        0x20u8 | backlight_bit(backlight),
        backlight,
    )
}

/// Setting the controller up, in whole bytes: function set, display
/// control, clear, entry mode, return home.
pub open spec fn setup_ops(kind: BusKind, rows: u8, backlight: bool) -> Seq<BusOp> {
    frame_ops(kind, function_set(rows), Mode::Command, backlight) + frame_ops(
        kind,
        LCD_DISPLAYCONTROL | DisplayControl::initial().bits(),
        Mode::Command,
        backlight,
    ) + clear_ops(kind, backlight) + frame_ops(
        kind,
        LCD_ENTRYMODESET | EntryMode::initial().bits(),
        Mode::Command,
        backlight,
    ) + home_ops(kind, backlight)
}

/// The power-on handshake, from the first write to the last wait.
pub open spec fn init_ops(kind: BusKind, rows: u8, backlight: bool) -> Seq<BusOp> {
    wake_ops(kind, backlight) + setup_ops(kind, rows, backlight)
}

/// A text as bytes for the controller: one data byte for each character.
pub open spec fn text_commands(text: Seq<char>) -> Seq<Command> {
    Seq::new(text.len(), |i: int| Command::character(text[i]))
}

/// A glyph as bytes for the controller: the address of its slot in
/// character-generator RAM, then its eight rows as data, top row first.
pub open spec fn glyph_commands(slot: u8, bitmap: Seq<u8>) -> Seq<Command> {
    seq![Command::instruction(LCD_SETCGRAMADDR | (slot << 3))] + Seq::new(
        8,
        |i: int| Command::data(bitmap[i]),
    )
}

/// The command that moves the cursor to column `col` of `row`, on a display
/// that has that row.
pub open spec fn cell_command(geometry: Geometry, col: u8, row: u8) -> Command {
    Command::instruction(
        cursor_command(
            col,
            match row_start(geometry, row) {
                Ok(offset) => offset,
                Err(_) => 0u8,
            },
        ),
    )
}

/// A wrapped text as bytes for the controller: the cursor goes to the first
/// cell, and then, for each character, to the character's cell before the
/// character itself is sent.
pub open spec fn wrapped_commands(geometry: Geometry, text: Seq<char>) -> Seq<Command> {
    seq![cell_command(geometry, 0, 0)] + Seq::new(
        2 * text.len(),
        |j: int|
            if j % 2 == 0 {
                cell_command(
                    geometry,
                    wrapped_col(geometry, (j / 2) as nat),
                    wrapped_row(geometry, (j / 2) as nat),
                )
            } else {
                Command::character(text[j / 2])
            },
    )
}

} // verus!
