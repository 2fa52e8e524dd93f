use lcd_i2c_rs::bus::{Bus, BusKind, BusOp, Line};
use lcd_i2c_rs::consts::{LCD_DISPLAYON, LCD_ENTRYLEFT};
use lcd_i2c_rs::error::LcdError;
use lcd_i2c_rs::lcd::Lcd;

fn nibble(byte: u8, light: u8) -> Vec<BusOp> {
    vec![
        BusOp::Write(byte | light),
        BusOp::Write(byte | light | 0x04),
        BusOp::DelayUs(1),
        BusOp::Write(byte | light),
        BusOp::DelayUs(50),
    ]
}

fn command(value: u8, light: u8) -> Vec<BusOp> {
    let mut ops = nibble(value & 0xF0, light);
    ops.extend(nibble((value << 4) & 0xF0, light));
    ops
}

fn handshake(function_set: u8, light: u8) -> Vec<BusOp> {
    let mut ops = vec![BusOp::Write(light), BusOp::DelayMs(50), BusOp::DelayMs(1000)];
    for _ in 0..3 {
        ops.extend(nibble(0x30, light));
        ops.push(BusOp::DelayUs(4500));
    }
    ops.extend(nibble(0x20, light));
    ops.extend(command(function_set, light));
    ops.extend(command(0x0C, light));
    ops.extend(command(0x01, light));
    ops.push(BusOp::DelayUs(2000));
    ops.extend(command(0x06, light));
    ops.extend(command(0x02, light));
    ops.push(BusOp::DelayUs(2000));
    ops
}

fn init_frames(log: &[BusOp]) -> Vec<(u8, bool)> {
    let writes: Vec<u8> = log
        .iter()
        .filter_map(|op| match op {
            BusOp::Write(byte) => Some(*byte),
            _ => None,
        })
        .collect();
    assert_eq!(writes.len() % 6, 0);
    writes
        .chunks(6)
        .map(|w| ((w[0] & 0xF0) | (w[3] >> 4), w[0] & 0x01 != 0))
        .collect()
}

#[test]
fn init_runs_the_handshake_in_order() {
    let mut lcd = Lcd::new(Bus::new(BusKind::Expander), 16, 2);
    assert_eq!(lcd.init(), Ok(()));
    assert_eq!(lcd.bus().log(), &handshake(0x28, 0x00));
    assert_eq!(lcd.display_control(), LCD_DISPLAYON);
    assert_eq!(lcd.display_mode(), LCD_ENTRYLEFT);
    assert_eq!(lcd.current_line(), 0);
}

#[test]
fn init_of_a_single_row_asks_for_one_line() {
    let mut lcd = Lcd::new(Bus::new(BusKind::Expander), 8, 1);
    assert_eq!(lcd.init(), Ok(()));
    assert_eq!(lcd.bus().log(), &handshake(0x20, 0x00));
    let mut four = Lcd::new(Bus::new(BusKind::Expander), 20, 4);
    assert_eq!(four.init(), Ok(()));
    assert_eq!(four.bus().log(), &handshake(0x28, 0x00));
}

#[test]
fn init_keeps_the_backlight_lit() {
    let mut lcd = Lcd::new(Bus::new(BusKind::Expander), 16, 2);
    assert_eq!(lcd.backlight_on(), Ok(()));
    lcd.take_log();
    assert_eq!(lcd.init(), Ok(()));
    assert_eq!(lcd.bus().log(), &handshake(0x28, 0x08));
    assert!(lcd.backlight());
}

#[test]
fn init_sets_the_flags_back() {
    let mut lcd = Lcd::new(Bus::new(BusKind::Expander), 16, 2);
    assert_eq!(lcd.cursor(true), Ok(()));
    assert_eq!(lcd.right_to_left(), Ok(()));
    assert_eq!(lcd.set_cursor(0, 1), Ok(()));
    lcd.take_log();
    assert_eq!(lcd.init(), Ok(()));
    assert_eq!(lcd.display_control(), LCD_DISPLAYON);
    assert_eq!(lcd.display_mode(), LCD_ENTRYLEFT);
    assert_eq!(lcd.current_line(), 0);
    assert_eq!(lcd.bus().log(), &handshake(0x28, 0x00));
}

#[test]
fn init_fails_as_a_whole_when_a_write_is_refused() {
    let whole = handshake(0x28, 0x00);
    let writes = whole.iter().filter(|op| matches!(op, BusOp::Write(_))).count();
    assert_eq!(writes, 1 + 4 * 3 + 5 * 6);
    for acks in [0usize, 1, 5, 12, 13, 20, writes - 1] {
        let mut lcd = Lcd::new(Bus::failing_after(BusKind::Expander, acks), 16, 2);
        assert_eq!(lcd.init(), Err(LcdError::InitializationFailed));
        let log = lcd.take_log();
        assert_eq!(log.iter().filter(|op| matches!(op, BusOp::Write(_))).count(), acks);
        assert_eq!(&log[..], &whole[..log.len()]);
    }
    let mut lcd = Lcd::new(Bus::failing_after(BusKind::Expander, writes), 16, 2);
    assert_eq!(lcd.init(), Ok(()));
    assert_eq!(lcd.bus().log(), &whole);
}

#[test]
fn init_on_discrete_lines_starts_with_the_lines_low() {
    let mut lcd = Lcd::new(Bus::new(BusKind::Discrete), 16, 2);
    assert_eq!(lcd.init(), Ok(()));
    let log = lcd.take_log();
    assert_eq!(
        &log[..13],
        &[
            BusOp::Drive(Line::Rs, false),
            BusOp::Drive(Line::Enable, false),
            BusOp::DelayMs(50),
            BusOp::DelayMs(1000),
            BusOp::Drive(Line::Rs, false),
            BusOp::Drive(Line::D4, true),
            BusOp::Drive(Line::D5, true),
            BusOp::Drive(Line::D6, false),
            BusOp::Drive(Line::D7, false),
            BusOp::Drive(Line::Enable, true),
            BusOp::DelayUs(1),
            BusOp::Drive(Line::Enable, false),
            BusOp::DelayUs(50),
        ]
    );
    assert_eq!(log[13], BusOp::DelayUs(4500));
    let drives = log.iter().filter(|op| matches!(op, BusOp::Drive(_, _))).count();
    assert_eq!(drives, 2 + 4 * 7 + 5 * 14);
    assert_eq!(log.last(), Some(&BusOp::DelayUs(2000)));
}

#[test]
fn birthday_greeting_end_to_end() {
    let mut lcd = Lcd::new(Bus::new(BusKind::Expander), 16, 2);
    assert_eq!(lcd.init(), Ok(()));
    assert_eq!(lcd.display_control(), LCD_DISPLAYON);
    assert_eq!(lcd.current_line(), 0);
    let log = lcd.take_log();
    let tail: Vec<BusOp> = log[log.len() - 11..].to_vec();
    let mut home = command(0x02, 0x00);
    home.push(BusOp::DelayUs(2000));
    assert_eq!(tail, home);

    assert_eq!(lcd.set_cursor(0, 0), Ok(()));
    assert_eq!(lcd.print_str("Happy Bday!"), Ok(()));
    assert_eq!(lcd.set_cursor(0, 1), Ok(()));
    assert_eq!(lcd.print_str("Enjoy your day!"), Ok(()));
    let frames = init_frames(lcd.bus().log());
    let mut expected: Vec<(u8, bool)> = vec![(0x80, false)];
    expected.extend("Happy Bday!".bytes().map(|b| (b, true)));
    expected.push((0xC0, false));
    expected.extend("Enjoy your day!".bytes().map(|b| (b, true)));
    assert_eq!(frames, expected);
    assert_eq!(frames[1..12].len(), 11);
    assert_eq!(lcd.current_line(), 1);
}
