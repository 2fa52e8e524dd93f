//! How one byte for the controller becomes traffic on the link: two
//! nibbles, high one first, each latched by a pulse on the enable signal.

use crate::bus::{
    lemma_run_acks, lemma_run_concat, lemma_writes_concat, lemma_writes_push, writes, BusKind,
    BusModel, BusOp, Line,
};
use crate::consts::{EN, ENABLE_HOLD_US, ENABLE_SETTLE_US, LCD_BACKLIGHT, LCD_NOBACKLIGHT, RS};
use vstd::prelude::*;

verus! {

/// Which register of the controller a byte is for.
#[derive(Clone, Copy, Debug, PartialEq, Eq, Structural)]
pub enum Mode {
    /// The instruction register.
    Command,
    /// The data register: a character code or a row of a glyph.
    Data,
}

impl Mode {
    /// The register-select bit for this mode.
    pub open spec fn bit(self) -> u8 {
        match self {
            Mode::Command => 0u8,
            Mode::Data => RS,
        }
    }

    pub fn to_bit(&self) -> (bit: u8)
        ensures
            bit == self.bit(),
    {
        match self {
            Mode::Command => 0u8,
            Mode::Data => RS,
        }
    }
}

/// The backlight's bit in every expander byte.
pub open spec fn backlight_bit(on: bool) -> u8 {
    if on {
        LCD_BACKLIGHT
    } else {
        LCD_NOBACKLIGHT
    }
}

/// The expander byte that carries the high nibble of `value`.
pub open spec fn high_byte(value: u8, mode: Mode, backlight: bool) -> u8 {
    ((value & 0xf0) | mode.bit()) | backlight_bit(backlight)
}

/// The expander byte that carries the low nibble of `value`.
pub open spec fn low_byte(value: u8, mode: Mode, backlight: bool) -> u8 {
    (((value << 4) & 0xf0) | mode.bit()) | backlight_bit(backlight)
}

/// Putting a nibble byte on the link: the byte itself goes to an expander;
/// on discrete lines its register-select bit and its four data bits are
/// driven one by one.
pub open spec fn present_ops(kind: BusKind, data: u8) -> Seq<BusOp> {
    match kind {
        BusKind::Expander => seq![BusOp::Write(data)],
        BusKind::Discrete => seq![
            BusOp::Drive(Line::Rs, data & RS != 0),
            BusOp::Drive(Line::D4, data & 0x10 != 0),
            BusOp::Drive(Line::D5, data & 0x20 != 0),
            BusOp::Drive(Line::D6, data & 0x40 != 0),
            BusOp::Drive(Line::D7, data & 0x80 != 0),
        ],
    }
}

/// One pulse on enable: raised, held, lowered, left to settle. An expander
/// takes the nibble byte again each time, with the backlight bit in it.
pub open spec fn pulse_ops(kind: BusKind, data: u8, backlight: bool) -> Seq<BusOp> {
    match kind {
        BusKind::Expander => seq![
            BusOp::Write((data | EN) | backlight_bit(backlight)),
            BusOp::DelayUs(ENABLE_HOLD_US),
            BusOp::Write((data & !EN) | backlight_bit(backlight)),
            BusOp::DelayUs(ENABLE_SETTLE_US),
        ],
        BusKind::Discrete => seq![
            BusOp::Drive(Line::Enable, true),
            BusOp::DelayUs(ENABLE_HOLD_US),
            BusOp::Drive(Line::Enable, false),
            BusOp::DelayUs(ENABLE_SETTLE_US),
        ],
    }
}

/// One nibble transaction: the nibble is put on the link and latched.
pub open spec fn nibble_ops(kind: BusKind, data: u8, backlight: bool) -> Seq<BusOp> {
    present_ops(kind, data) + pulse_ops(kind, data, backlight)
}

/// One byte for the controller: the transaction of its high nibble, then
/// that of its low nibble.
pub open spec fn frame_ops(kind: BusKind, value: u8, mode: Mode, backlight: bool) -> Seq<BusOp> {
    nibble_ops(kind, high_byte(value, mode, backlight), backlight) + nibble_ops(
        kind,
        low_byte(value, mode, backlight),
        backlight,
    )
}

/// One byte for the controller and the register it is for.
#[derive(Clone, Copy, Debug, PartialEq, Eq, Structural)]
pub struct Command {
    pub value: u8,
    pub mode: Mode,
}

impl Command {
    /// An instruction.
    pub open spec fn instruction(value: u8) -> Command {
        Command { value, mode: Mode::Command }
    }

    /// A byte of data.
    pub open spec fn data(value: u8) -> Command {
        Command { value, mode: Mode::Data }
    }

    /// The character `c` as data: its code, cut to one byte.
    pub open spec fn character(c: char) -> Command {
        Command { value: c as u8, mode: Mode::Data }
    }
}

/// The traffic for a run of bytes for the controller: one frame after the
/// other, in order.
pub open spec fn frames_ops(kind: BusKind, commands: Seq<Command>, backlight: bool) -> Seq<BusOp>
    decreases commands.len(),
{
    if commands.len() == 0 {
        Seq::empty()
    } else {
        frame_ops(kind, commands[0].value, commands[0].mode, backlight) + frames_ops(
            kind,
            commands.drop_first(),
            backlight,
        )
    }
}

/// The writes in one frame: six bytes to an expander, fourteen line levels
/// on discrete lines.
pub open spec fn frame_writes(kind: BusKind) -> nat {
    match kind {
        BusKind::Expander => 6,
        BusKind::Discrete => 14,
    }
}

/// One nibble transaction has half the writes of a frame.
proof fn lemma_nibble_writes(kind: BusKind, data: u8, backlight: bool)
    ensures
        2 * writes(nibble_ops(kind, data, backlight)) == frame_writes(kind),
{
    let present = present_ops(kind, data);
    let pulse = pulse_ops(kind, data, backlight);
    let none = Seq::<BusOp>::empty();
    lemma_writes_concat(present, pulse);
    lemma_writes_push(none, pulse[0]);
    lemma_writes_push(none.push(pulse[0]), pulse[1]);
    lemma_writes_push(none.push(pulse[0]).push(pulse[1]), pulse[2]);
    lemma_writes_push(none.push(pulse[0]).push(pulse[1]).push(pulse[2]), pulse[3]);
    assert(none.push(pulse[0]).push(pulse[1]).push(pulse[2]).push(pulse[3]) =~= pulse);
    lemma_writes_push(none, present[0]);
    match kind {
        BusKind::Expander => {
            assert(none.push(present[0]) =~= present);
        },
        BusKind::Discrete => {
            let lines = none.push(present[0]);
            lemma_writes_push(lines, present[1]);
            lemma_writes_push(lines.push(present[1]), present[2]);
            lemma_writes_push(lines.push(present[1]).push(present[2]), present[3]);
            lemma_writes_push(
                lines.push(present[1]).push(present[2]).push(present[3]),
                present[4],
            );
            assert(lines.push(present[1]).push(present[2]).push(present[3]).push(present[4])
                =~= present);
        },
    }
}

/// Every frame has the same number of writes, whatever it carries.
pub proof fn lemma_frame_writes(kind: BusKind, value: u8, mode: Mode, backlight: bool)
    ensures
        writes(frame_ops(kind, value, mode, backlight)) == frame_writes(kind),
{
    let high = high_byte(value, mode, backlight);
    let low = low_byte(value, mode, backlight);
    lemma_writes_concat(nibble_ops(kind, high, backlight), nibble_ops(kind, low, backlight));
    lemma_nibble_writes(kind, high, backlight);
    lemma_nibble_writes(kind, low, backlight);
}

/// A frame goes out whole exactly when the link has an acknowledgement for
/// each of its writes, and then it uses them up.
pub proof fn lemma_frame_acks(bus: BusModel, value: u8, mode: Mode, backlight: bool)
    ensures
        bus.completes(frame_ops(bus.kind, value, mode, backlight)) <==> (bus.acks matches Some(n)
            ==> n >= frame_writes(bus.kind)),
        bus.completes(frame_ops(bus.kind, value, mode, backlight)) ==> bus.run(
            frame_ops(bus.kind, value, mode, backlight),
        ).acks == (match bus.acks {
            Some(n) => Some((n - frame_writes(bus.kind)) as nat),
            None => None,
        }),
{
    let frame = frame_ops(bus.kind, value, mode, backlight);
    lemma_frame_writes(bus.kind, value, mode, backlight);
    if bus.completes(frame) {
        lemma_run_acks(bus, frame);
    }
}

/// Sending a run of bytes from its `k`-th on is sending the `k`-th and,
/// if that goes out whole, the run from the next on.
pub proof fn lemma_next_frame(bus: BusModel, commands: Seq<Command>, k: int, backlight: bool)
    requires
        0 <= k < commands.len(),
    ensures
        ({
            let frame = frame_ops(bus.kind, commands[k].value, commands[k].mode, backlight);
            let from_k = frames_ops(bus.kind, commands.skip(k), backlight);
            let from_next = frames_ops(bus.kind, commands.skip(k + 1), backlight);
            &&& bus.run(frame).kind == bus.kind
            &&& bus.completes(from_k) == (bus.completes(frame) && bus.run(frame).completes(
                from_next,
            ))
            &&& bus.run(from_k) == (if bus.completes(frame) {
                bus.run(frame).run(from_next)
            } else {
                bus.run(frame)
            })
        }),
{
    let frame = frame_ops(bus.kind, commands[k].value, commands[k].mode, backlight);
    assert(commands.skip(k)[0] == commands[k]);
    assert(commands.skip(k).drop_first() =~= commands.skip(k + 1));
    lemma_run_concat(bus, frame, frames_ops(bus.kind, commands.skip(k + 1), backlight));
}

} // verus!
