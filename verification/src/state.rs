//! What the driver remembers of the display: its size and the flags it has
//! last sent.

use crate::consts::{
    LCD_BLINKOFF, LCD_BLINKON, LCD_CURSOROFF, LCD_CURSORON, LCD_DISPLAYOFF, LCD_DISPLAYON,
    LCD_ENTRYLEFT, LCD_ENTRYRIGHT, LCD_ENTRYSHIFTDECREMENT, LCD_ENTRYSHIFTINCREMENT,
};
use vstd::prelude::*;

verus! {

/// Columns and rows of the display. Fixed once the driver is built.
#[derive(Clone, Copy, Debug, PartialEq, Eq, Structural)]
pub struct Geometry {
    pub cols: u8,
    pub rows: u8,
}

/// The flags of the display-control command.
#[derive(Clone, Copy, Debug, PartialEq, Eq, Structural)]
pub struct DisplayControl {
    pub display: bool,
    pub cursor: bool,
    pub blink: bool,
}

/// The flags of the entry-mode command.
#[derive(Clone, Copy, Debug, PartialEq, Eq, Structural)]
pub struct EntryMode {
    pub left_to_right: bool,
    pub autoscroll: bool,
}

/// Everything about the display that changes while it is in use.
#[derive(Clone, Copy, Debug, PartialEq, Eq, Structural)]
pub struct DisplayState {
    pub control: DisplayControl,
    pub mode: EntryMode,
    pub backlight: bool,
    pub current_line: u8,
}

impl DisplayControl {
    /// The flags as the controller takes them.
    pub open spec fn bits(self) -> u8 {
        ((if self.display {
            LCD_DISPLAYON
        } else {
            LCD_DISPLAYOFF
        }) | (if self.cursor {
            LCD_CURSORON
        } else {
            LCD_CURSOROFF
        })) | (if self.blink {
            LCD_BLINKON
        } else {
            LCD_BLINKOFF
        })
    }

    /// Display on, cursor off, blink off.
    pub open spec fn initial() -> DisplayControl {
        DisplayControl { display: true, cursor: false, blink: false }
    }

    pub fn to_bits(&self) -> (bits: u8)
        ensures
            bits == self.bits(),
    {
        let display: u8 = if self.display {
            LCD_DISPLAYON
        } else {
            LCD_DISPLAYOFF
        };
        let cursor: u8 = if self.cursor {
            LCD_CURSORON
        } else {
            LCD_CURSOROFF
        };
        let blink: u8 = if self.blink {
            LCD_BLINKON
        } else {
            LCD_BLINKOFF
        };
        (display | cursor) | blink
    }
}

impl EntryMode {
    /// The flags as the controller takes them.
    pub open spec fn bits(self) -> u8 {
        (if self.left_to_right {
            LCD_ENTRYLEFT
        } else {
            LCD_ENTRYRIGHT
        }) | (if self.autoscroll {
            LCD_ENTRYSHIFTINCREMENT
        } else {
            LCD_ENTRYSHIFTDECREMENT
        })
    }

    /// Text runs left to right and the display does not shift.
    pub open spec fn initial() -> EntryMode {
        EntryMode { left_to_right: true, autoscroll: false }
    }

    pub fn to_bits(&self) -> (bits: u8)
        ensures
            bits == self.bits(),
    {
        let direction: u8 = if self.left_to_right {
            LCD_ENTRYLEFT
        } else {
            LCD_ENTRYRIGHT
        };
        let shift: u8 = if self.autoscroll {
            LCD_ENTRYSHIFTINCREMENT
        } else {
            LCD_ENTRYSHIFTDECREMENT
        };
        direction | shift
    }
}

impl DisplayState {
    /// The state a driver starts in: display on, left to right, backlight
    /// off, first line.
    pub open spec fn initial() -> DisplayState {
        DisplayState {
            control: DisplayControl::initial(),
            mode: EntryMode::initial(),
            backlight: false,
            current_line: 0,
        }
    }
}

/// Each flag of display control is one bit of its own: the bits give the
/// flags back, and no other bit is ever set.
pub proof fn lemma_control_bits(c: DisplayControl)
    ensures
        c.bits() & LCD_DISPLAYON == (if c.display {
            LCD_DISPLAYON
        } else {
            0u8
        }),
        c.bits() & LCD_CURSORON == (if c.cursor {
            LCD_CURSORON
        } else {
            0u8
        }),
        c.bits() & LCD_BLINKON == (if c.blink {
            LCD_BLINKON
        } else {
            0u8
        }),
        c.bits() & 0xf8 == 0,
        c.bits() == (if c.display {
            4int
        } else {
            0int
        }) + (if c.cursor {
            2int
        } else {
            0int
        }) + (if c.blink {
            1int
        } else {
            0int
        }),
{
    assert((4u8 | 2u8) | 1u8 == 7u8 && (4u8 | 2u8) | 0u8 == 6u8 && (4u8 | 0u8) | 1u8 == 5u8 && (4u8
        | 0u8) | 0u8 == 4u8 && (0u8 | 2u8) | 1u8 == 3u8 && (0u8 | 2u8) | 0u8 == 2u8 && (0u8 | 0u8)
        | 1u8 == 1u8 && (0u8 | 0u8) | 0u8 == 0u8) by (bit_vector);
    assert(7u8 & 4u8 == 4u8 && 6u8 & 4u8 == 4u8 && 5u8 & 4u8 == 4u8 && 4u8 & 4u8 == 4u8 && 3u8 & 4u8
        == 0u8 && 2u8 & 4u8 == 0u8 && 1u8 & 4u8 == 0u8 && 0u8 & 4u8 == 0u8) by (bit_vector);
    assert(7u8 & 2u8 == 2u8 && 6u8 & 2u8 == 2u8 && 5u8 & 2u8 == 0u8 && 4u8 & 2u8 == 0u8 && 3u8 & 2u8
        == 2u8 && 2u8 & 2u8 == 2u8 && 1u8 & 2u8 == 0u8 && 0u8 & 2u8 == 0u8) by (bit_vector);
    assert(7u8 & 1u8 == 1u8 && 6u8 & 1u8 == 0u8 && 5u8 & 1u8 == 1u8 && 4u8 & 1u8 == 0u8 && 3u8 & 1u8
        == 1u8 && 2u8 & 1u8 == 0u8 && 1u8 & 1u8 == 1u8 && 0u8 & 1u8 == 0u8) by (bit_vector);
    assert(forall|b: u8| b <= 7 ==> #[trigger] (b & 0xf8) == 0) by (bit_vector);
}

/// Each flag of the entry mode is one bit of its own.
pub proof fn lemma_mode_bits(m: EntryMode)
    ensures
        m.bits() & LCD_ENTRYLEFT == (if m.left_to_right {
            LCD_ENTRYLEFT
        } else {
            0u8
        }),
        m.bits() & LCD_ENTRYSHIFTINCREMENT == (if m.autoscroll {
            LCD_ENTRYSHIFTINCREMENT
        } else {
            0u8
        }),
        m.bits() & 0xfc == 0,
        m.bits() == (if m.left_to_right {
            2int
        } else {
            0int
        }) + (if m.autoscroll {
            1int
        } else {
            0int
        }),
{
    assert(2u8 | 1u8 == 3u8 && 2u8 | 0u8 == 2u8 && 0u8 | 1u8 == 1u8 && 0u8 | 0u8 == 0u8)
        by (bit_vector);
    assert(3u8 & 2u8 == 2u8 && 2u8 & 2u8 == 2u8 && 1u8 & 2u8 == 0u8 && 0u8 & 2u8 == 0u8)
        by (bit_vector);
    assert(3u8 & 1u8 == 1u8 && 2u8 & 1u8 == 0u8 && 1u8 & 1u8 == 1u8 && 0u8 & 1u8 == 0u8)
        by (bit_vector);
    assert(forall|b: u8| b <= 3 ==> #[trigger] (b & 0xfc) == 0) by (bit_vector);
}

} // verus!
