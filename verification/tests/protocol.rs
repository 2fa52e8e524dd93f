use lcd_i2c_rs::bus::{Bus, BusKind, BusOp, Line};
use lcd_i2c_rs::error::LcdError;
use lcd_i2c_rs::lcd::Lcd;
use lcd_i2c_rs::protocol::Mode;

fn expander_16x2() -> Lcd {
    Lcd::new(Bus::new(BusKind::Expander), 16, 2)
}

fn discrete_16x2() -> Lcd {
    Lcd::new(Bus::new(BusKind::Discrete), 16, 2)
}

#[test]
fn send_command_is_two_nibbles_high_first() {
    let mut lcd = expander_16x2();
    assert_eq!(lcd.send(0xA5, Mode::Command), Ok(()));
    assert_eq!(
        lcd.bus().log(),
        &vec![
            BusOp::Write(0xA0),
            BusOp::Write(0xA4),
            BusOp::DelayUs(1),
            BusOp::Write(0xA0),
            BusOp::DelayUs(50),
            BusOp::Write(0x50),
            BusOp::Write(0x54),
            BusOp::DelayUs(1),
            BusOp::Write(0x50),
            BusOp::DelayUs(50),
        ]
    );
}

#[test]
fn send_data_sets_register_select_in_every_byte() {
    let mut lcd = expander_16x2();
    assert_eq!(lcd.send(0x48, Mode::Data), Ok(()));
    assert_eq!(
        lcd.bus().log(),
        &vec![
            BusOp::Write(0x41),
            BusOp::Write(0x45),
            BusOp::DelayUs(1),
            BusOp::Write(0x41),
            BusOp::DelayUs(50),
            BusOp::Write(0x81),
            BusOp::Write(0x85),
            BusOp::DelayUs(1),
            BusOp::Write(0x81),
            BusOp::DelayUs(50),
        ]
    );
}

#[test]
fn send_carries_the_backlight_bit_in_every_byte() {
    let mut lcd = expander_16x2();
    assert_eq!(lcd.backlight_on(), Ok(()));
    lcd.take_log();
    assert_eq!(lcd.send(0x01, Mode::Command), Ok(()));
    let log = lcd.take_log();
    let mut writes = 0;
    for op in log.iter() {
        if let BusOp::Write(byte) = op {
            writes += 1;
            assert_eq!(byte & 0x08, 0x08);
        }
    }
    assert_eq!(writes, 6);
    assert_eq!(log[0], BusOp::Write(0x08));
    assert_eq!(log[1], BusOp::Write(0x0C));
    assert_eq!(log[5], BusOp::Write(0x18));
    assert_eq!(log[6], BusOp::Write(0x1C));
}

#[test]
fn every_pulse_holds_and_settles_long_enough() {
    let mut lcd = expander_16x2();
    assert_eq!(lcd.send(0xFF, Mode::Data), Ok(()));
    let log = lcd.take_log();
    assert_eq!(log.len(), 10);
    for nibble in 0..2 {
        let base = nibble * 5;
        let presented = match log[base] {
            BusOp::Write(byte) => byte,
            _ => panic!("a nibble starts with a write"),
        };
        assert_eq!(log[base + 1], BusOp::Write(presented | 0x04));
        match log[base + 2] {
            BusOp::DelayUs(us) => assert!(us >= 1),
            _ => panic!("enable is held"),
        }
        assert_eq!(log[base + 3], BusOp::Write(presented & !0x04));
        match log[base + 4] {
            BusOp::DelayUs(us) => assert!(us >= 50),
            _ => panic!("enable settles"),
        }
    }
}

#[test]
fn send_on_discrete_lines_drives_each_line() {
    let mut lcd = discrete_16x2();
    assert_eq!(lcd.send(0xA5, Mode::Data), Ok(()));
    assert_eq!(
        lcd.bus().log(),
        &vec![
            BusOp::Drive(Line::Rs, true),
            BusOp::Drive(Line::D4, false),
            BusOp::Drive(Line::D5, true),
            BusOp::Drive(Line::D6, false),
            BusOp::Drive(Line::D7, true),
            BusOp::Drive(Line::Enable, true),
            BusOp::DelayUs(1),
            BusOp::Drive(Line::Enable, false),
            BusOp::DelayUs(50),
            BusOp::Drive(Line::Rs, true),
            BusOp::Drive(Line::D4, true),
            BusOp::Drive(Line::D5, false),
            BusOp::Drive(Line::D6, true),
            BusOp::Drive(Line::D7, false),
            BusOp::Drive(Line::Enable, true),
            BusOp::DelayUs(1),
            BusOp::Drive(Line::Enable, false),
            BusOp::DelayUs(50),
        ]
    );
}

#[test]
fn send_stops_at_the_first_refused_write() {
    let mut lcd = Lcd::new(Bus::failing_after(BusKind::Expander, 4), 16, 2);
    assert_eq!(lcd.send(0xA5, Mode::Command), Err(LcdError::BusWriteFailure));
    assert_eq!(
        lcd.bus().log(),
        &vec![
            BusOp::Write(0xA0),
            BusOp::Write(0xA4),
            BusOp::DelayUs(1),
            BusOp::Write(0xA0),
            BusOp::DelayUs(50),
            BusOp::Write(0x50),
        ]
    );
    assert_eq!(lcd.bus().acks(), Some(0));
}

#[test]
fn send_on_a_dead_link_writes_nothing() {
    let mut lcd = Lcd::new(Bus::failing_after(BusKind::Expander, 0), 16, 2);
    assert_eq!(lcd.send(0x01, Mode::Command), Err(LcdError::BusWriteFailure));
    assert!(lcd.bus().log().is_empty());
    let mut lines = Lcd::new(Bus::failing_after(BusKind::Discrete, 0), 16, 2);
    assert_eq!(lines.send(0x01, Mode::Command), Err(LcdError::BusWriteFailure));
    assert!(lines.bus().log().is_empty());
}

#[test]
fn bus_logs_in_order_and_counts_acknowledgements() {
    let mut bus = Bus::failing_after(BusKind::Expander, 2);
    assert_eq!(bus.kind(), BusKind::Expander);
    assert_eq!(bus.write(0x11), Ok(()));
    bus.delay_us(7);
    bus.delay_ms(3);
    assert_eq!(bus.drive(Line::Rs, true), Ok(()));
    assert_eq!(bus.write(0x22), Err(LcdError::BusWriteFailure));
    assert_eq!(bus.perform(BusOp::DelayUs(9)), Ok(()));
    assert_eq!(
        bus.log(),
        &vec![
            BusOp::Write(0x11),
            BusOp::DelayUs(7),
            BusOp::DelayMs(3),
            BusOp::Drive(Line::Rs, true),
            BusOp::DelayUs(9),
        ]
    );
    let taken = bus.take_log();
    assert_eq!(taken.len(), 5);
    assert!(bus.log().is_empty());
    assert_eq!(bus.acks(), Some(0));
    let copy = bus.clone();
    assert_eq!(copy.acks(), Some(0));
    assert_eq!(Bus::new(BusKind::Discrete).acks(), None);
}

#[test]
fn mode_bit_is_register_select() {
    assert_eq!(Mode::Command.to_bit(), 0x00);
    assert_eq!(Mode::Data.to_bit(), 0x01);
}
