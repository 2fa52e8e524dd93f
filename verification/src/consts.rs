//! Command opcodes and flag bits of the HD44780 controller, the bit layout
//! of the expander byte, and the delays the controller's datasheet asks for.

use vstd::prelude::*;

verus! {

// Commands.
pub const LCD_CLEARDISPLAY: u8 = 0x01;
pub const LCD_RETURNHOME: u8 = 0x02;
pub const LCD_ENTRYMODESET: u8 = 0x04;
pub const LCD_DISPLAYCONTROL: u8 = 0x08;
pub const LCD_CURSORSHIFT: u8 = 0x10;
pub const LCD_FUNCTIONSET: u8 = 0x20;
pub const LCD_SETCGRAMADDR: u8 = 0x40;
pub const LCD_SETDDRAMADDR: u8 = 0x80;

// Flags for the entry mode.
pub const LCD_ENTRYRIGHT: u8 = 0x00;
pub const LCD_ENTRYLEFT: u8 = 0x02;
pub const LCD_ENTRYSHIFTINCREMENT: u8 = 0x01;
pub const LCD_ENTRYSHIFTDECREMENT: u8 = 0x00;

// Flags for display control.
pub const LCD_DISPLAYON: u8 = 0x04;
pub const LCD_DISPLAYOFF: u8 = 0x00;
pub const LCD_CURSORON: u8 = 0x02;
pub const LCD_CURSOROFF: u8 = 0x00;
pub const LCD_BLINKON: u8 = 0x01;
pub const LCD_BLINKOFF: u8 = 0x00;

// Flags for shifting the display or the cursor.
pub const LCD_DISPLAYMOVE: u8 = 0x08;
pub const LCD_CURSORMOVE: u8 = 0x00;
pub const LCD_MOVERIGHT: u8 = 0x04;
pub const LCD_MOVELEFT: u8 = 0x00;

// Flags for the function set.
pub const LCD_8BITMODE: u8 = 0x10;
pub const LCD_4BITMODE: u8 = 0x00;
pub const LCD_2LINE: u8 = 0x08;
pub const LCD_1LINE: u8 = 0x00;
pub const LCD_5X10DOTS: u8 = 0x04;
pub const LCD_5X8DOTS: u8 = 0x00;

// The expander byte: D7 D6 D5 D4 | backlight | enable | read/write | register select.
pub const LCD_BACKLIGHT: u8 = 0x08;
pub const LCD_NOBACKLIGHT: u8 = 0x00;
pub const EN: u8 = 0x04;
pub const RW: u8 = 0x02;
pub const RS: u8 = 0x01;

/// The expander's default address on the I2C bus.
pub const LCD_ADDRESS: u8 = 0x27;

// Delays, in the unit the name ends in.
pub const POWER_UP_MS: u32 = 50;
pub const BOOT_MARGIN_MS: u32 = 1000;
pub const HANDSHAKE_US: u32 = 4500;
pub const HOME_SETTLE_US: u32 = 2000;
pub const ENABLE_HOLD_US: u32 = 1;
pub const ENABLE_SETTLE_US: u32 = 50;

/// Glyph slots in character-generator RAM.
pub const CGRAM_SLOTS: u8 = 8;

} // verus!
