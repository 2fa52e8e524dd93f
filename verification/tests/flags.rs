use lcd_i2c_rs::bus::{Bus, BusKind, BusOp};
use lcd_i2c_rs::consts::{
    LCD_BLINKON, LCD_CURSORON, LCD_DISPLAYON, LCD_ENTRYLEFT, LCD_ENTRYSHIFTINCREMENT,
};
use lcd_i2c_rs::error::LcdError;
use lcd_i2c_rs::lcd::Lcd;
use lcd_i2c_rs::state::{DisplayControl, DisplayState, EntryMode, Geometry};

fn flag_frames(log: &[BusOp]) -> Vec<(u8, bool)> {
    let writes: Vec<u8> = log
        .iter()
        .filter_map(|op| match op {
            BusOp::Write(byte) => Some(*byte),
            _ => None,
        })
        .collect();
    assert_eq!(writes.len() % 6, 0);
    writes
        .chunks(6)
        .map(|w| ((w[0] & 0xF0) | (w[3] >> 4), w[0] & 0x01 != 0))
        .collect()
}

fn fresh() -> Lcd {
    Lcd::new(Bus::new(BusKind::Expander), 16, 2)
}

#[test]
fn new_starts_with_display_on_and_backlight_off() {
    let lcd = fresh();
    assert_eq!(lcd.cols(), 16);
    assert_eq!(lcd.rows(), 2);
    assert_eq!(lcd.geometry(), Geometry { cols: 16, rows: 2 });
    assert_eq!(lcd.display_control(), LCD_DISPLAYON);
    assert_eq!(lcd.display_mode(), LCD_ENTRYLEFT);
    assert!(!lcd.backlight());
    assert_eq!(lcd.current_line(), 0);
    assert_eq!(
        lcd.state(),
        DisplayState {
            control: DisplayControl { display: true, cursor: false, blink: false },
            mode: EntryMode { left_to_right: true, autoscroll: false },
            backlight: false,
            current_line: 0,
        }
    );
    assert!(lcd.bus().log().is_empty());
    assert_eq!(lcd.bus().kind(), BusKind::Expander);
}

#[test]
fn control_flags_as_bits() {
    for n in 0..8u8 {
        let control = DisplayControl { display: n & 4 != 0, cursor: n & 2 != 0, blink: n & 1 != 0 };
        assert_eq!(control.to_bits(), n);
    }
    for n in 0..4u8 {
        let mode = EntryMode { left_to_right: n & 2 != 0, autoscroll: n & 1 != 0 };
        assert_eq!(mode.to_bits(), n);
    }
}

#[test]
fn display_off_and_on_resend_the_whole_command() {
    let mut lcd = fresh();
    assert_eq!(lcd.cursor(true), Ok(()));
    assert_eq!(lcd.display_off(), Ok(()));
    assert_eq!(lcd.display_control(), LCD_CURSORON);
    assert_eq!(lcd.display_on(), Ok(()));
    assert_eq!(lcd.display_control(), LCD_DISPLAYON | LCD_CURSORON);
    assert_eq!(
        flag_frames(lcd.bus().log()),
        vec![(0x0E, false), (0x0A, false), (0x0E, false)]
    );
}

#[test]
fn cursor_and_blink_change_one_flag_each() {
    let mut lcd = fresh();
    assert_eq!(lcd.blink(true), Ok(()));
    assert_eq!(lcd.display_control(), LCD_DISPLAYON | LCD_BLINKON);
    assert_eq!(lcd.cursor(true), Ok(()));
    assert_eq!(lcd.display_control(), LCD_DISPLAYON | LCD_CURSORON | LCD_BLINKON);
    assert_eq!(lcd.blink(false), Ok(()));
    assert_eq!(lcd.display_control(), LCD_DISPLAYON | LCD_CURSORON);
    assert_eq!(lcd.cursor(false), Ok(()));
    assert_eq!(lcd.display_control(), LCD_DISPLAYON);
    assert_eq!(lcd.display_mode(), LCD_ENTRYLEFT);
    assert_eq!(
        flag_frames(lcd.bus().log()),
        vec![(0x0D, false), (0x0F, false), (0x0E, false), (0x0C, false)]
    );
}

#[test]
fn entry_mode_flags() {
    let mut lcd = fresh();
    assert_eq!(lcd.autoscroll(true), Ok(()));
    assert_eq!(lcd.display_mode(), LCD_ENTRYLEFT | LCD_ENTRYSHIFTINCREMENT);
    assert_eq!(lcd.right_to_left(), Ok(()));
    assert_eq!(lcd.display_mode(), LCD_ENTRYSHIFTINCREMENT);
    assert_eq!(lcd.autoscroll(false), Ok(()));
    assert_eq!(lcd.display_mode(), 0);
    assert_eq!(lcd.left_to_right(), Ok(()));
    assert_eq!(lcd.display_mode(), LCD_ENTRYLEFT);
    assert_eq!(lcd.display_control(), LCD_DISPLAYON);
    assert_eq!(
        flag_frames(lcd.bus().log()),
        vec![(0x07, false), (0x05, false), (0x04, false), (0x06, false)]
    );
}

#[test]
fn scrolling_shifts_the_display() {
    let mut lcd = fresh();
    assert_eq!(lcd.scroll_left(), Ok(()));
    assert_eq!(lcd.scroll_right(), Ok(()));
    assert_eq!(flag_frames(lcd.bus().log()), vec![(0x18, false), (0x1C, false)]);
}

#[test]
fn backlight_is_latched_at_once() {
    let mut lcd = fresh();
    assert_eq!(lcd.backlight_on(), Ok(()));
    assert!(lcd.backlight());
    assert_eq!(lcd.backlight_off(), Ok(()));
    assert!(!lcd.backlight());
    assert_eq!(lcd.bus().log(), &vec![BusOp::Write(0x08), BusOp::Write(0x00)]);
}

#[test]
fn backlight_on_discrete_lines_writes_nothing() {
    let mut lcd = Lcd::new(Bus::failing_after(BusKind::Discrete, 0), 16, 2);
    assert_eq!(lcd.backlight_on(), Ok(()));
    assert!(lcd.backlight());
    assert!(lcd.bus().log().is_empty());
}

#[test]
fn a_flag_is_remembered_even_if_the_link_fails() {
    let mut lcd = Lcd::new(Bus::failing_after(BusKind::Expander, 2), 16, 2);
    assert_eq!(lcd.cursor(true), Err(LcdError::BusWriteFailure));
    assert_eq!(lcd.display_control(), LCD_DISPLAYON | LCD_CURSORON);
    let mut dark = Lcd::new(Bus::failing_after(BusKind::Expander, 0), 16, 2);
    assert_eq!(dark.backlight_on(), Err(LcdError::BusWriteFailure));
    assert!(dark.backlight());
}

#[test]
fn error_messages() {
    assert_eq!(LcdError::RowOutOfBounds.message(), "Row out of bounds");
    assert_eq!(LcdError::UnsupportedGeometry.message(), "Invalid number of rows");
    assert_eq!(
        LcdError::SlotOutOfBounds.message(),
        "Custom character location out of bounds"
    );
    assert_eq!(
        LcdError::UnsupportedOnSingleRow.message(),
        "Next line not supported on 1 row display"
    );
    assert_eq!(LcdError::BusWriteFailure.message(), "Failed to write to expander");
    assert_eq!(LcdError::InitializationFailed.message(), "Failed to initialize the display");
}

#[test]
fn a_driver_can_change_links() {
    let mut lcd = fresh();
    assert_eq!(lcd.cursor(true), Ok(()));
    let old = lcd.replace_bus(Bus::failing_after(BusKind::Expander, 1));
    assert_eq!(old.log().len(), 10);
    assert_eq!(lcd.bus().acks(), Some(1));
    assert_eq!(lcd.display_control(), LCD_DISPLAYON | LCD_CURSORON);
    let copy = lcd.clone();
    assert_eq!(copy.state(), lcd.state());
    assert_eq!(copy.geometry(), lcd.geometry());
    assert_eq!(copy.bus().acks(), Some(1));
}
