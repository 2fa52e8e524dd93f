//! The ways a display operation can fail.

use vstd::prelude::*;

verus! {

/// Every failure is handed back to the caller; none aborts.
#[derive(Clone, Copy, Debug, PartialEq, Eq, Structural)]
pub enum LcdError {
    /// The row is not below the display's row count.
    RowOutOfBounds,
    /// The display's row count has no row-offset table.
    UnsupportedGeometry,
    /// The glyph slot is above 7.
    SlotOutOfBounds,
    /// A one-row display has no next line.
    UnsupportedOnSingleRow,
    /// The bus refused a write.
    BusWriteFailure,
    /// The bus refused a write during the power-on handshake.
    InitializationFailed,
}

impl LcdError {
    /// The text of the message for each failure.
    pub open spec fn text(self) -> Seq<char> {
        match self {
            LcdError::RowOutOfBounds => "Row out of bounds"@,
            LcdError::UnsupportedGeometry => "Invalid number of rows"@,
            LcdError::SlotOutOfBounds => "Custom character location out of bounds"@,
            LcdError::UnsupportedOnSingleRow => "Next line not supported on 1 row display"@,
            LcdError::BusWriteFailure => "Failed to write to expander"@,
            LcdError::InitializationFailed => "Failed to initialize the display"@,
        }
    }

    /// A message for people.
    pub fn message(&self) -> (s: &'static str)
        ensures
            s@ == self.text(),
    {
        match self {
            LcdError::RowOutOfBounds => "Row out of bounds",
            LcdError::UnsupportedGeometry => "Invalid number of rows",
            LcdError::SlotOutOfBounds => "Custom character location out of bounds",
            LcdError::UnsupportedOnSingleRow => "Next line not supported on 1 row display",
            LcdError::BusWriteFailure => "Failed to write to expander",
            LcdError::InitializationFailed => "Failed to initialize the display",
        }
    }
}

} // verus!
