use lcd_i2c_rs::bus::{Bus, BusKind, BusOp};
use lcd_i2c_rs::error::LcdError;
use lcd_i2c_rs::lcd::Lcd;

fn text_display(cols: u8, rows: u8) -> Lcd {
    Lcd::new(Bus::new(BusKind::Expander), cols, rows)
}

/// The bytes for the controller that a log of expander traffic carries,
/// each with its register-select bit.
fn text_frames(log: &[BusOp]) -> Vec<(u8, bool)> {
    let writes: Vec<u8> = log
        .iter()
        .filter_map(|op| match op {
            BusOp::Write(byte) => Some(*byte),
            _ => None,
        })
        .collect();
    assert_eq!(writes.len() % 6, 0);
    writes
        .chunks(6)
        .map(|w| ((w[0] & 0xF0) | (w[3] >> 4), w[0] & 0x01 != 0))
        .collect()
}

#[test]
fn print_sends_the_character_code_as_data() {
    let mut lcd = text_display(16, 2);
    assert_eq!(lcd.print('A'), Ok(()));
    assert_eq!(lcd.print('*'), Ok(()));
    assert_eq!(text_frames(lcd.bus().log()), vec![(0x41, true), (0x2A, true)]);
}

#[test]
fn print_cuts_a_wide_character_to_one_byte() {
    let mut lcd = text_display(16, 2);
    assert_eq!(lcd.print('\u{e9}'), Ok(()));
    assert_eq!(lcd.print('\u{20ac}'), Ok(()));
    assert_eq!(lcd.print('\u{1f600}'), Ok(()));
    assert_eq!(
        text_frames(lcd.bus().log()),
        vec![(0xE9, true), (0xAC, true), (0x00, true)]
    );
}

#[test]
fn print_str_sends_each_character_in_order() {
    let mut lcd = text_display(16, 2);
    assert_eq!(lcd.print_str("Hi!"), Ok(()));
    assert_eq!(
        text_frames(lcd.bus().log()),
        vec![(0x48, true), (0x69, true), (0x21, true)]
    );
    assert_eq!(lcd.current_line(), 0);
}

#[test]
fn print_str_of_nothing_sends_nothing() {
    let mut lcd = text_display(16, 2);
    assert_eq!(lcd.print_str(""), Ok(()));
    assert!(lcd.bus().log().is_empty());
}

#[test]
fn print_str_stops_at_the_first_failure() {
    let mut lcd = Lcd::new(Bus::failing_after(BusKind::Expander, 15), 16, 2);
    assert_eq!(lcd.print_str("abcdef"), Err(LcdError::BusWriteFailure));
    let log = lcd.take_log();
    let writes = log.iter().filter(|op| matches!(op, BusOp::Write(_))).count();
    assert_eq!(writes, 15);
    assert_eq!(text_frames(&log[..20]), vec![(0x61, true), (0x62, true)]);
}

#[test]
fn print_long_str_wraps_to_the_first_row() {
    let mut lcd = text_display(16, 2);
    let text = "0123456789abcdefghijklmnopqrstuvwxy";
    assert_eq!(text.chars().count(), 35);
    assert_eq!(lcd.print_long_str(text), Ok(()));
    let frames = text_frames(lcd.bus().log());
    assert_eq!(frames.len(), 1 + 2 * 35);
    assert_eq!(frames[0], (0x80, false));
    let bytes = text.as_bytes();
    for i in 0..35usize {
        let col = (i % 16) as u8;
        let row = if i / 16 >= 2 { 0 } else { i / 16 };
        let offset = [0x00u8, 0x40][row];
        assert_eq!(frames[1 + 2 * i], (0x80 | (col + offset), false));
        assert_eq!(frames[2 + 2 * i], (bytes[i], true));
    }
    assert_eq!(frames[1 + 2 * 15], (0x8F, false));
    assert_eq!(frames[1 + 2 * 16], (0xC0, false));
    assert_eq!(frames[1 + 2 * 31], (0xCF, false));
    assert_eq!(frames[1 + 2 * 32], (0x80, false));
    assert_eq!(frames[2 + 2 * 32], (b'w', true));
    assert_eq!(frames[1 + 2 * 34], (0x82, false));
    assert_eq!(lcd.current_line(), 0);
}

#[test]
fn print_long_str_ends_on_the_row_of_the_last_character() {
    let mut lcd = text_display(16, 2);
    assert_eq!(lcd.print_long_str("0123456789abcdefXYZ"), Ok(()));
    assert_eq!(lcd.current_line(), 1);
    let mut wide = text_display(20, 4);
    let text: String = std::iter::repeat('x').take(61).collect();
    assert_eq!(wide.print_long_str(&text), Ok(()));
    assert_eq!(wide.current_line(), 3);
    let frames = text_frames(wide.bus().log());
    assert_eq!(frames[1 + 2 * 20], (0xC0, false));
    assert_eq!(frames[1 + 2 * 40], (0x94, false));
    assert_eq!(frames[1 + 2 * 60], (0xD4, false));
}

#[test]
fn print_long_str_of_nothing_homes_the_cursor() {
    let mut lcd = text_display(16, 2);
    assert_eq!(lcd.set_cursor(4, 1), Ok(()));
    lcd.take_log();
    assert_eq!(lcd.print_long_str(""), Ok(()));
    assert_eq!(text_frames(lcd.bus().log()), vec![(0x80, false)]);
    assert_eq!(lcd.current_line(), 0);
}

#[test]
fn print_long_str_past_256_characters_keeps_counting() {
    let mut lcd = text_display(20, 1);
    let text: String = std::iter::repeat('z').take(258).collect();
    assert_eq!(lcd.print_long_str(&text), Ok(()));
    let frames = text_frames(lcd.bus().log());
    assert_eq!(frames[1 + 2 * 256], (0x80 | 16, false));
    assert_eq!(frames[1 + 2 * 257], (0x80 | 17, false));
}

#[test]
fn print_long_str_on_no_rows_is_out_of_bounds() {
    let mut lcd = text_display(16, 0);
    assert_eq!(lcd.print_long_str("abc"), Err(LcdError::RowOutOfBounds));
    assert!(lcd.bus().log().is_empty());
}

#[test]
fn print_long_str_remembers_the_last_row_that_went_out() {
    let text = "0123456789abcdefghij";
    // The link gives out in the data frame of character 17, after its cursor
    // command has gone out.
    let mut lcd = Lcd::new(Bus::failing_after(BusKind::Expander, 6 * (2 + 2 * 17) + 3), 16, 2);
    assert_eq!(lcd.print_long_str(text), Err(LcdError::BusWriteFailure));
    assert_eq!(lcd.current_line(), 1);
    // The link gives out in the cursor command of character 16.
    let mut lcd = Lcd::new(Bus::failing_after(BusKind::Expander, 6 * (1 + 2 * 16)), 16, 2);
    assert_eq!(lcd.print_long_str(text), Err(LcdError::BusWriteFailure));
    assert_eq!(lcd.current_line(), 0);
    assert_eq!(text_frames(lcd.bus().log()).len(), 1 + 2 * 16);
    // The link gives out before the first cursor command is through.
    let mut lcd = Lcd::new(Bus::failing_after(BusKind::Expander, 5), 16, 2);
    assert_eq!(lcd.set_cursor(0, 1), Err(LcdError::BusWriteFailure));
    let mut lcd = Lcd::new(Bus::failing_after(BusKind::Expander, 6 + 5), 16, 2);
    assert_eq!(lcd.set_cursor(0, 1), Ok(()));
    assert_eq!(lcd.print_long_str(text), Err(LcdError::BusWriteFailure));
    assert_eq!(lcd.current_line(), 1);
}
