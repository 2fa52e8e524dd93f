//! The driver: every operation on the display, as the bytes and waits it
//! puts on the link and the state it leaves behind.

use crate::bus::{
    lemma_run_concat, lemma_run_empty, lemma_run_one, lemma_run_push, Bus, BusKind, BusModel,
    BusOp, Line,
};
use crate::consts::{
    BOOT_MARGIN_MS, CGRAM_SLOTS, EN, ENABLE_HOLD_US, ENABLE_SETTLE_US, HANDSHAKE_US,
    HOME_SETTLE_US, LCD_1LINE, LCD_2LINE, LCD_4BITMODE, LCD_5X8DOTS, LCD_BACKLIGHT,
    LCD_CLEARDISPLAY, LCD_CURSORSHIFT, LCD_DISPLAYCONTROL, LCD_DISPLAYMOVE, LCD_ENTRYMODESET,
    LCD_FUNCTIONSET, LCD_MOVELEFT, LCD_MOVERIGHT, LCD_NOBACKLIGHT, LCD_RETURNHOME,
    LCD_SETCGRAMADDR, LCD_SETDDRAMADDR, POWER_UP_MS, RS,
};
use crate::error::LcdError;
use crate::layout::{
    addressable, advance, cursor_command, filled_rows, row_after, row_offset, row_start,
    wrapped_col, wrapped_row,
};
use crate::plan::{
    clear_ops, glyph_commands, home_ops, init_ops, knock_ops, latch_ops, power_on_ops,
    power_up_ops, setup_ops, text_commands, wake_ops, wrapped_commands,
};
use crate::protocol::{
    backlight_bit, frame_ops, frame_writes, frames_ops, lemma_frame_acks, lemma_next_frame,
    nibble_ops, present_ops, pulse_ops, Command, Mode,
};
use crate::state::{DisplayControl, DisplayState, EntryMode, Geometry};
use vstd::prelude::*;

verus! {

/// A driver as contracts see it.
pub struct LcdModel {
    pub geometry: Geometry,
    pub state: DisplayState,
    pub bus: BusModel,
}

impl LcdModel {
    /// The traffic for one byte to the controller, as this driver frames it.
    pub open spec fn frame(self, value: u8, mode: Mode) -> Seq<BusOp> {
        frame_ops(self.bus.kind, value, mode, self.state.backlight)
    }

    /// The traffic for one nibble transaction, as this driver frames it.
    pub open spec fn nibble(self, data: u8) -> Seq<BusOp> {
        nibble_ops(self.bus.kind, data, self.state.backlight)
    }

    /// The driver and its answer after `plan` was attempted: the link has
    /// run the plan, and the state is `done` if all of it went out and
    /// `stopped` if a write was refused.
    pub open spec fn attempt(
        self,
        plan: Seq<BusOp>,
        done: DisplayState,
        stopped: DisplayState,
    ) -> (LcdModel, Result<(), LcdError>) {
        if self.bus.completes(plan) {
            (LcdModel { geometry: self.geometry, state: done, bus: self.bus.run(plan) }, Ok(()))
        } else {
            (
                LcdModel { geometry: self.geometry, state: stopped, bus: self.bus.run(plan) },
                Err(LcdError::BusWriteFailure),
            )
        }
    }

    /// An attempt that leaves the state alone.
    pub open spec fn transmit(self, plan: Seq<BusOp>) -> (LcdModel, Result<(), LcdError>) {
        self.attempt(plan, self.state, self.state)
    }

    /// Taking on the display-control flags `control`: they are remembered,
    /// and the whole command is sent again.
    pub open spec fn with_control(self, control: DisplayControl) -> (
        LcdModel,
        Result<(), LcdError>,
    ) {
        let state = DisplayState { control, ..self.state };
        self.attempt(self.frame(LCD_DISPLAYCONTROL | control.bits(), Mode::Command), state, state)
    }

    /// Taking on the entry-mode flags `mode`: they are remembered, and the
    /// whole command is sent again.
    pub open spec fn with_mode(self, mode: EntryMode) -> (LcdModel, Result<(), LcdError>) {
        let state = DisplayState { mode, ..self.state };
        self.attempt(self.frame(LCD_ENTRYMODESET | mode.bits(), Mode::Command), state, state)
    }

    /// Switching the backlight: the flag is remembered and latched at once.
    pub open spec fn with_backlight(self, backlight: bool) -> (LcdModel, Result<(), LcdError>) {
        let state = DisplayState { backlight, ..self.state };
        self.attempt(latch_ops(self.bus.kind, backlight), state, state)
    }

    /// Moving the cursor to column `col` of `row`. A row the display does
    /// not have, or a row count without a table, sends nothing; the current
    /// line follows once the command has gone out.
    pub open spec fn cursor_to(self, col: u8, row: u8) -> (LcdModel, Result<(), LcdError>) {
        match row_start(self.geometry, row) {
            Err(e) => (self, Err(e)),
            Ok(offset) => self.attempt(
                self.frame(cursor_command(col, offset), Mode::Command),
                DisplayState { current_line: row, ..self.state },
                self.state,
            ),
        }
    }

    /// The traffic for a run of bytes to the controller, as this driver
    /// frames it.
    pub open spec fn frames(self, commands: Seq<Command>) -> Seq<BusOp> {
        frames_ops(self.bus.kind, commands, self.state.backlight)
    }

    /// Storing a glyph: a slot above 7 sends nothing; else the slot's
    /// address goes out and the eight rows after it.
    pub open spec fn store_glyph(self, slot: u8, bitmap: Seq<u8>) -> (
        LcdModel,
        Result<(), LcdError>,
    ) {
        if slot >= CGRAM_SLOTS {
            (self, Err(LcdError::SlotOutOfBounds))
        } else {
            self.transmit(self.frames(glyph_commands(slot, bitmap)))
        }
    }

    /// How many whole frames the link still carries, counted no further
    /// than `limit`.
    pub open spec fn frames_carried(self, limit: nat) -> nat {
        match self.bus.acks {
            Some(n) if n / frame_writes(self.bus.kind) < limit => n / frame_writes(self.bus.kind),
            _ => limit,
        }
    }

    /// The current line once the first `sent` frames of a wrapped text have
    /// gone out: the row of the last cursor command among them.
    pub open spec fn line_after(self, sent: nat) -> u8 {
        if sent == 0 {
            self.state.current_line
        } else if sent == 1 {
            0u8
        } else {
            wrapped_row(self.geometry, ((sent - 2) / 2) as nat)
        }
    }

    /// Printing a wrapped text. A display without a first row, or with a
    /// row count without a table, sends nothing. Else the text's frames go
    /// out up to the first refused write, and the current line is the row
    /// of the last cursor command that went out whole.
    pub open spec fn print_wrapped(self, text: Seq<char>) -> (LcdModel, Result<(), LcdError>) {
        match row_start(self.geometry, 0) {
            Err(e) => (self, Err(e)),
            Ok(_) => {
                let commands = wrapped_commands(self.geometry, text);
                let state = DisplayState {
                    current_line: self.line_after(self.frames_carried(commands.len())),
                    ..self.state
                };
                self.attempt(self.frames(commands), state, state)
            },
        }
    }

    /// The state the handshake leaves: display on, cursor and blink off,
    /// left to right without shift, first line. The backlight stays.
    pub open spec fn reset_state(self) -> DisplayState {
        DisplayState { backlight: self.state.backlight, ..DisplayState::initial() }
    }

    /// Running the power-on handshake: the flags and the current line are
    /// set back before anything is sent, and the handshake goes out up to
    /// the first refused write.
    pub open spec fn initialized(self) -> (LcdModel, Result<(), LcdError>) {
        let plan = init_ops(self.bus.kind, self.geometry.rows, self.state.backlight);
        (
            LcdModel {
                geometry: self.geometry,
                state: self.reset_state(),
                bus: self.bus.run(plan),
            },
            if self.bus.completes(plan) {
                Ok(())
            } else {
                Err(LcdError::InitializationFailed)
            },
        )
    }

    /// The line that follows the current one; the first line when the
    /// current one is not below the row count.
    pub open spec fn line_below(self) -> u8 {
        if self.state.current_line >= self.geometry.rows {
            0u8
        } else {
            (self.state.current_line + 1) as u8
        }
    }

    /// Stepping to the next line: the current line moves on first, then the
    /// cursor is sent to its start.
    pub open spec fn to_next_line(self) -> (LcdModel, Result<(), LcdError>) {
        if self.geometry.rows == 1 {
            (self, Err(LcdError::UnsupportedOnSingleRow))
        } else {
            let line = self.line_below();
            let stepped = LcdModel {
                state: DisplayState { current_line: line, ..self.state },
                ..self
            };
            stepped.cursor_to(0, line)
        }
    }
}

/// Between `before` and `after` exactly `sent` frames went out whole, and
/// nothing else was written.
#[verifier::opaque]
spec fn sent_whole(before: BusModel, after: BusModel, sent: nat) -> bool {
    &&& after.kind == before.kind
    &&& match before.acks {
        Some(n) => n >= sent * frame_writes(before.kind) && after.acks == Some(
            (n - sent * frame_writes(before.kind)) as nat,
        ),
        None => after.acks is None,
    }
}

/// Nothing has gone out between a link and itself.
proof fn lemma_sent_none(bus: BusModel)
    ensures
        sent_whole(bus, bus, 0),
{
    reveal(sent_whole);
}

/// One more frame after `sent` whole ones: if the link refuses it, the link
/// carried just `sent` frames of any longer run; if it goes out, `sent + 1`
/// frames went out whole.
proof fn lemma_sent_more(m: LcdModel, now: BusModel, value: u8, mode: Mode, sent: nat, limit: nat)
    requires
        sent_whole(m.bus, now, sent),
        sent < limit,
    ensures
        ({
            let frame = frame_ops(now.kind, value, mode, m.state.backlight);
            &&& !now.completes(frame) ==> m.frames_carried(limit) == sent
            &&& now.completes(frame) ==> sent_whole(m.bus, now.run(frame), sent + 1)
        }),
{
    reveal(sent_whole);
    lemma_frame_acks(now, value, mode, m.state.backlight);
    let frame = frame_ops(now.kind, value, mode, m.state.backlight);
    lemma_run_concat(now, frame, Seq::empty());
    match m.bus.kind {
        BusKind::Expander => {
            assert(frame_writes(m.bus.kind) == 6);
        },
        BusKind::Discrete => {
            assert(frame_writes(m.bus.kind) == 14);
        },
    }
}

/// A link on which all `limit` frames went out whole carried them all.
proof fn lemma_sent_all(m: LcdModel, now: BusModel, limit: nat)
    requires
        sent_whole(m.bus, now, limit),
    ensures
        m.frames_carried(limit) == limit,
{
    reveal(sent_whole);
    match m.bus.kind {
        BusKind::Expander => {
            assert(frame_writes(m.bus.kind) == 6);
        },
        BusKind::Discrete => {
            assert(frame_writes(m.bus.kind) == 14);
        },
    }
}

/// The two frames for character `i` of a wrapped text, and the line that is
/// current after each.
proof fn lemma_wrapped_pair(m: LcdModel, text: Seq<char>, i: nat, filled: u8)
    requires
        i < text.len(),
        m.geometry.cols > 0,
        row_start(m.geometry, 0) is Ok,
        filled == filled_rows(m.geometry, i),
    ensures
        ({
            let commands = wrapped_commands(m.geometry, text);
            let col = wrapped_col(m.geometry, i);
            let row = wrapped_row(m.geometry, i);
            &&& commands.len() == 1 + 2 * text.len()
            &&& row == (if filled >= m.geometry.rows {
                0u8
            } else {
                filled
            })
            &&& row < m.geometry.rows
            &&& row_start(m.geometry, row) is Ok
            &&& commands[1 + 2 * (i as int)] == Command::instruction(
                cursor_command(col, row_start(m.geometry, row)->Ok_0),
            )
            &&& commands[2 + 2 * (i as int)] == Command::character(text[i as int])
            &&& m.line_after(2 + 2 * i) == row
            &&& m.line_after(3 + 2 * i) == row
        }),
{
    let j = 2 * i;
    assert(j % 2 == 0 && j / 2 == i);
    assert((j + 1) % 2 == 1 && (j + 1) / 2 == i);
}

/// Where the printing of a wrapped text stands when every frame before
/// character `i` has gone out: `now` is the driver then.
#[verifier::opaque]
spec fn wrapped_so_far(start: LcdModel, text: Seq<char>, i: nat, now: LcdModel) -> bool {
    let commands = wrapped_commands(start.geometry, text);
    &&& i <= text.len()
    &&& start.geometry.cols > 0
    &&& row_start(start.geometry, 0) is Ok
    &&& now.geometry == start.geometry
    &&& now.state == (DisplayState {
        current_line: start.line_after(1 + 2 * i),
        ..start.state
    })
    &&& start.bus.run(start.frames(commands)) == now.bus.run(
        start.frames(commands.skip(1 + 2 * (i as int))),
    )
    &&& start.bus.completes(start.frames(commands)) == now.bus.completes(
        start.frames(commands.skip(1 + 2 * (i as int))),
    )
    &&& sent_whole(start.bus, now.bus, 1 + 2 * i)
}

/// The first cursor command of a wrapped text either ends the printing or
/// leaves it before character 0.
proof fn lemma_wrapped_first(start: LcdModel, text: Seq<char>)
    requires
        start.geometry.cols > 0,
    ensures
        ({
            let (next, res) = start.cursor_to(0, 0);
            &&& res is Err ==> (next, res) == start.print_wrapped(text)
            &&& res is Ok ==> wrapped_so_far(start, text, 0, next)
        }),
{
    reveal(wrapped_so_far);
    reveal(sent_whole);
    let commands = wrapped_commands(start.geometry, text);
    let limit = commands.len();
    if row_start(start.geometry, 0) is Ok {
        assert(commands.skip(0) =~= commands);
        lemma_next_frame(start.bus, commands, 0, start.state.backlight);
        lemma_sent_none(start.bus);
        lemma_sent_more(start, start.bus, commands[0].value, commands[0].mode, 0, limit);
    }
}

/// The two frames for character `i` of a wrapped text either end the
/// printing, at the first or at the second, or leave it before the next
/// character.
proof fn lemma_wrapped_next(start: LcdModel, text: Seq<char>, i: nat, filled: u8, now: LcdModel)
    requires
        wrapped_so_far(start, text, i, now),
        i < text.len(),
        filled == filled_rows(start.geometry, i),
    ensures
        ({
            let col = wrapped_col(start.geometry, i);
            let row = wrapped_row(start.geometry, i);
            let (at, moved) = now.cursor_to(col, row);
            let (next, res) = at.transmit(at.frame(text[i as int] as u8, Mode::Data));
            &&& row == (if filled >= start.geometry.rows {
                0u8
            } else {
                filled
            })
            &&& moved is Err ==> (at, moved) == start.print_wrapped(text)
            &&& moved is Ok && res is Err ==> (next, res) == start.print_wrapped(text)
            &&& moved is Ok && res is Ok ==> wrapped_so_far(start, text, i + 1, next)
        }),
{
    reveal(wrapped_so_far);
    let commands = wrapped_commands(start.geometry, text);
    let limit = commands.len();
    let cursor = commands[1 + 2 * (i as int)];
    let col = wrapped_col(start.geometry, i);
    let row = wrapped_row(start.geometry, i);
    assert(now.bus.kind == start.bus.kind) by {
        reveal(sent_whole);
    }
    lemma_wrapped_pair(start, text, i, filled);
    lemma_next_frame(now.bus, commands, 1 + 2 * (i as int), start.state.backlight);
    lemma_sent_more(start, now.bus, cursor.value, cursor.mode, 1 + 2 * i, limit);
    let (at, moved) = now.cursor_to(col, row);
    if moved is Ok {
        assert(at.bus.kind == start.bus.kind);
        lemma_next_frame(at.bus, commands, 2 + 2 * (i as int), start.state.backlight);
        lemma_sent_more(start, at.bus, text[i as int] as u8, Mode::Data, 2 + 2 * i, limit);
        let (next, res) = at.transmit(at.frame(text[i as int] as u8, Mode::Data));
        if res is Ok {
            assert(1 + 2 * (i + 1) == 3 + 2 * i);
            let done = 2 + 2 * (i as int) + 1;
            assert(commands.skip(done) == commands.skip(1 + 2 * ((i + 1) as int)));
        }
    }
}

/// When every frame of a wrapped text has gone out, the printing has ended
/// well.
proof fn lemma_wrapped_last(start: LcdModel, text: Seq<char>, now: LcdModel)
    requires
        wrapped_so_far(start, text, text.len(), now),
    ensures
        (now, Ok::<(), LcdError>(())) == start.print_wrapped(text),
{
    reveal(wrapped_so_far);
    let commands = wrapped_commands(start.geometry, text);
    lemma_sent_all(start, now.bus, commands.len());
    assert(commands.skip(commands.len() as int).len() == 0);
}

/// One display and the link to it.
#[derive(Debug)]
pub struct Lcd {
    bus: Bus,
    geometry: Geometry,
    state: DisplayState,
}

impl View for Lcd {
    type V = LcdModel;

    closed spec fn view(&self) -> LcdModel {
        LcdModel { geometry: self.geometry, state: self.state, bus: self.bus@ }
    }
}

impl Clone for Lcd {
    fn clone(&self) -> (copy: Lcd)
        ensures
            copy@ == self@,
    {
        Lcd { bus: self.bus.clone(), geometry: self.geometry, state: self.state }
    }
}

impl Lcd {
    /// A driver for a display of `cols` by `rows` cells on `bus`. Nothing is
    /// sent yet.
    pub fn new(bus: Bus, cols: u8, rows: u8) -> (lcd: Lcd)
        ensures
            lcd@ == (LcdModel {
                geometry: Geometry { cols, rows },
                state: DisplayState::initial(),
                bus: bus@,
            }),
    {
        Lcd {
            bus,
            geometry: Geometry { cols, rows },
            state: DisplayState {
                control: DisplayControl { display: true, cursor: false, blink: false },
                mode: EntryMode { left_to_right: true, autoscroll: false },
                backlight: false,
                current_line: 0,
            },
        }
    }

    pub fn geometry(&self) -> (geometry: Geometry)
        ensures
            geometry == self@.geometry,
    {
        self.geometry
    }

    pub fn cols(&self) -> (cols: u8)
        ensures
            cols == self@.geometry.cols,
    {
        self.geometry.cols
    }

    pub fn rows(&self) -> (rows: u8)
        ensures
            rows == self@.geometry.rows,
    {
        self.geometry.rows
    }

    pub fn state(&self) -> (state: DisplayState)
        ensures
            state == self@.state,
    {
        self.state
    }

    /// The display-control flags as the controller takes them.
    pub fn display_control(&self) -> (bits: u8)
        ensures
            bits == self@.state.control.bits(),
    {
        self.state.control.to_bits()
    }

    /// The entry-mode flags as the controller takes them.
    pub fn display_mode(&self) -> (bits: u8)
        ensures
            bits == self@.state.mode.bits(),
    {
        self.state.mode.to_bits()
    }

    pub fn backlight(&self) -> (on: bool)
        ensures
            on == self@.state.backlight,
    {
        self.state.backlight
    }

    /// The row the cursor was last sent to.
    pub fn current_line(&self) -> (line: u8)
        ensures
            line == self@.state.current_line,
    {
        self.state.current_line
    }

    pub fn bus(&self) -> (bus: &Bus)
        ensures
            bus@ == self@.bus,
    {
        &self.bus
    }

    /// Hands out what was sent since the log was last taken.
    pub fn take_log(&mut self) -> (log: Vec<BusOp>)
        ensures
            log@ == old(self)@.bus.log,
            final(self)@ == (LcdModel {
                bus: BusModel { log: Seq::empty(), ..old(self)@.bus },
                ..old(self)@
            }),
    {
        self.bus.take_log()
    }

    /// Puts the driver on another link and hands back the one it had.
    pub fn replace_bus(&mut self, bus: Bus) -> (previous: Bus)
        ensures
            previous@ == old(self)@.bus,
            final(self)@ == (LcdModel { bus: bus@, ..old(self)@ }),
    {
        let mut bus = bus;
        std::mem::swap(&mut self.bus, &mut bus);
        bus
    }

    fn light(&self) -> (bit: u8)
        ensures
            bit == backlight_bit(self@.state.backlight),
    {
        if self.state.backlight {
            LCD_BACKLIGHT
        } else {
            LCD_NOBACKLIGHT
        }
    }

    /// Writes one byte to the expander as it is.
    fn expander_write(&mut self, data: u8) -> (res: Result<(), LcdError>)
        ensures
            (final(self)@, res) == old(self)@.transmit(seq![BusOp::Write(data)]),
    {
        proof {
            lemma_run_one(self.bus@, BusOp::Write(data));
        }
        self.bus.write(data)
    }

    /// Puts the nibble byte `data` on the link.
    fn present(&mut self, data: u8) -> (res: Result<(), LcdError>)
        ensures
            (final(self)@, res) == old(self)@.transmit(present_ops(old(self)@.bus.kind, data)),
    {
        match self.bus.kind() {
            BusKind::Expander => self.expander_write(data),
            BusKind::Discrete => {
                proof {
                    let rs = BusOp::Drive(Line::Rs, data & RS != 0);
                    let d4 = BusOp::Drive(Line::D4, data & 0x10 != 0);
                    let d5 = BusOp::Drive(Line::D5, data & 0x20 != 0);
                    let d6 = BusOp::Drive(Line::D6, data & 0x40 != 0);
                    let d7 = BusOp::Drive(Line::D7, data & 0x80 != 0);
                    let one = Seq::empty().push(rs);
                    let two = one.push(d4);
                    let three = two.push(d5);
                    let four = three.push(d6);
                    lemma_run_empty(self@.bus);
                    lemma_run_push(self@.bus, Seq::empty(), rs);
                    lemma_run_push(self@.bus, one, d4);
                    lemma_run_push(self@.bus, two, d5);
                    lemma_run_push(self@.bus, three, d6);
                    lemma_run_push(self@.bus, four, d7);
                    assert(four.push(d7) =~= present_ops(BusKind::Discrete, data));
                }
                self.bus.perform(BusOp::Drive(Line::Rs, data & RS != 0))?;
                self.bus.perform(BusOp::Drive(Line::D4, data & 0x10 != 0))?;
                self.bus.perform(BusOp::Drive(Line::D5, data & 0x20 != 0))?;
                self.bus.perform(BusOp::Drive(Line::D6, data & 0x40 != 0))?;
                self.bus.perform(BusOp::Drive(Line::D7, data & 0x80 != 0))
            },
        }
    }

    /// Latches the nibble byte `data` into the controller.
    fn pulse_enable(&mut self, data: u8) -> (res: Result<(), LcdError>)
        ensures
            (final(self)@, res) == old(self)@.transmit(
                pulse_ops(old(self)@.bus.kind, data, old(self)@.state.backlight),
            ),
    {
        proof {
            let pulse = pulse_ops(self@.bus.kind, data, self@.state.backlight);
            let one = Seq::empty().push(pulse[0]);
            let two = one.push(pulse[1]);
            let three = two.push(pulse[2]);
            lemma_run_empty(self@.bus);
            lemma_run_push(self@.bus, Seq::empty(), pulse[0]);
            lemma_run_push(self@.bus, one, pulse[1]);
            lemma_run_push(self@.bus, two, pulse[2]);
            lemma_run_push(self@.bus, three, pulse[3]);
            assert(three.push(pulse[3]) =~= pulse);
        }
        match self.bus.kind() {
            BusKind::Expander => {
                let light = self.light();
                self.bus.perform(BusOp::Write((data | EN) | light))?;
                self.bus.delay_us(ENABLE_HOLD_US);
                self.bus.perform(BusOp::Write((data & !EN) | light))?;
                self.bus.delay_us(ENABLE_SETTLE_US);
            },
            BusKind::Discrete => {
                self.bus.perform(BusOp::Drive(Line::Enable, true))?;
                self.bus.delay_us(ENABLE_HOLD_US);
                self.bus.perform(BusOp::Drive(Line::Enable, false))?;
                self.bus.delay_us(ENABLE_SETTLE_US);
            },
        }
        Ok(())
    }

    /// One nibble transaction: `data` is put on the link and latched.
    fn write4bits(&mut self, data: u8) -> (res: Result<(), LcdError>)
        ensures
            (final(self)@, res) == old(self)@.transmit(old(self)@.nibble(data)),
    {
        proof {
            lemma_run_concat(
                self@.bus,
                present_ops(self@.bus.kind, data),
                pulse_ops(self@.bus.kind, data, self@.state.backlight),
            );
        }
        self.present(data)?;
        self.pulse_enable(data)
    }

    /// Sends one byte to the controller: the transaction of its high
    /// nibble, then that of its low nibble, each with the register-select
    /// bit of `mode` and the backlight bit. Nothing else ever writes to the
    /// controller.
    pub fn send(&mut self, value: u8, mode: Mode) -> (res: Result<(), LcdError>)
        ensures
            (final(self)@, res) == old(self)@.transmit(old(self)@.frame(value, mode)),
    {
        let high_nibble: u8 = value & 0xf0;
        let low_nibble: u8 = (value << 4) & 0xf0;
        let select: u8 = mode.to_bit();
        let light: u8 = self.light();
        let high_cmd: u8 = (high_nibble | select) | light;
        let low_cmd: u8 = (low_nibble | select) | light;
        proof {
            lemma_run_concat(self@.bus, self@.nibble(high_cmd), self@.nibble(low_cmd));
        }
        self.write4bits(high_cmd)?;
        self.write4bits(low_cmd)
    }

    /// Sends one instruction.
    fn command(&mut self, value: u8) -> (res: Result<(), LcdError>)
        ensures
            (final(self)@, res) == old(self)@.transmit(old(self)@.frame(value, Mode::Command)),
    {
        self.send(value, Mode::Command)
    }

    /// Remembers `control` and sends the display-control command.
    fn set_control(&mut self, control: DisplayControl) -> (res: Result<(), LcdError>)
        ensures
            (final(self)@, res) == old(self)@.with_control(control),
    {
        self.state.control = control;
        let cmd: u8 = LCD_DISPLAYCONTROL | control.to_bits();
        self.command(cmd)
    }

    /// Remembers `mode` and sends the entry-mode command.
    fn set_mode(&mut self, mode: EntryMode) -> (res: Result<(), LcdError>)
        ensures
            (final(self)@, res) == old(self)@.with_mode(mode),
    {
        self.state.mode = mode;
        let cmd: u8 = LCD_ENTRYMODESET | mode.to_bits();
        self.command(cmd)
    }

    /// Remembers the backlight and latches it.
    fn set_backlight(&mut self, backlight: bool) -> (res: Result<(), LcdError>)
        ensures
            (final(self)@, res) == old(self)@.with_backlight(backlight),
    {
        self.state.backlight = backlight;
        match self.bus.kind() {
            BusKind::Expander => {
                let light: u8 = self.light();
                self.expander_write(light)
            },
            BusKind::Discrete => Ok(()),
        }
    }

    /// Puts the link in its first state after power-up.
    fn power_on(&mut self) -> (res: Result<(), LcdError>)
        ensures
            (final(self)@, res) == old(self)@.transmit(
                power_on_ops(old(self)@.bus.kind, old(self)@.state.backlight),
            ),
    {
        match self.bus.kind() {
            BusKind::Expander => {
                let light: u8 = self.light();
                self.expander_write(light)
            },
            BusKind::Discrete => {
                proof {
                    let rs = BusOp::Drive(Line::Rs, false);
                    let enable = BusOp::Drive(Line::Enable, false);
                    lemma_run_empty(self@.bus);
                    lemma_run_push(self@.bus, Seq::empty(), rs);
                    lemma_run_push(self@.bus, Seq::empty().push(rs), enable);
                    assert(Seq::empty().push(rs).push(enable) =~= power_on_ops(
                        BusKind::Discrete,
                        self@.state.backlight,
                    ));
                }
                self.bus.perform(BusOp::Drive(Line::Rs, false))?;
                self.bus.perform(BusOp::Drive(Line::Enable, false))
            },
        }
    }

    /// Knocks once: nibble 3, and the wait after it.
    fn knock(&mut self) -> (res: Result<(), LcdError>)
        ensures
            (final(self)@, res) == old(self)@.transmit(
                knock_ops(old(self)@.bus.kind, old(self)@.state.backlight),
            ),
    {
        let data: u8 = 0x30u8 | self.light();
        proof {
            lemma_run_concat(self@.bus, self@.nibble(data), seq![BusOp::DelayUs(HANDSHAKE_US)]);
        }
        self.write4bits(data)?;
        self.bus.delay_us(HANDSHAKE_US);
        Ok(())
    }

    /// Puts the link in its first state and waits for the display to come
    /// up.
    fn power_up(&mut self) -> (res: Result<(), LcdError>)
        ensures
            (final(self)@, res) == old(self)@.transmit(
                power_up_ops(old(self)@.bus.kind, old(self)@.state.backlight),
            ),
    {
        let ghost bus = self@.bus;
        proof {
            let on = power_on_ops(bus.kind, self@.state.backlight);
            let settle = BusOp::DelayMs(POWER_UP_MS);
            let margin = BusOp::DelayMs(BOOT_MARGIN_MS);
            lemma_run_concat(bus, on, seq![settle]);
            lemma_run_concat(bus, on + seq![settle], seq![margin]);
        }
        self.power_on()?;
        self.bus.delay_ms(POWER_UP_MS);
        self.bus.delay_ms(BOOT_MARGIN_MS);
        Ok(())
    }

    /// Wakes the controller and commits it to 4-bit transfers.
    fn wake(&mut self) -> (res: Result<(), LcdError>)
        ensures
            (final(self)@, res) == old(self)@.transmit(
                wake_ops(old(self)@.bus.kind, old(self)@.state.backlight),
            ),
    {
        let ghost start = self@;
        let ghost bus = self@.bus;
        let commit: u8 = 0x20u8 | self.light();
        proof {
            let knock = knock_ops(bus.kind, start.state.backlight);
            let a0 = power_up_ops(bus.kind, start.state.backlight);
            let a1 = a0 + knock;
            let a2 = a1 + knock;
            let a3 = a2 + knock;
            lemma_run_concat(bus, a0, knock);
            lemma_run_concat(bus, a1, knock);
            lemma_run_concat(bus, a2, knock);
            lemma_run_concat(bus, a3, start.nibble(commit));
        }
        self.power_up()?;
        self.knock()?;
        self.knock()?;
        self.knock()?;
        self.write4bits(commit)
    }

    /// Sets the controller up once it takes whole bytes.
    fn setup(&mut self) -> (res: Result<(), LcdError>)
        requires
            old(self)@.state == old(self)@.reset_state(),
        ensures
            (final(self)@, res) == old(self)@.transmit(
                setup_ops(
                    old(self)@.bus.kind,
                    old(self)@.geometry.rows,
                    old(self)@.state.backlight,
                ),
            ),
    {
        let ghost start = self@;
        let ghost bus = self@.bus;
        let ghost kind = self@.bus.kind;
        let ghost backlight = self@.state.backlight;
        let lines: u8 = if self.geometry.rows > 1 {
            LCD_2LINE
        } else {
            LCD_1LINE
        };
        let display_function: u8 = (LCD_4BITMODE | lines) | LCD_5X8DOTS;
        proof {
            let a0 = start.frame(LCD_FUNCTIONSET | display_function, Mode::Command);
            let control = start.frame(
                LCD_DISPLAYCONTROL | DisplayControl::initial().bits(),
                Mode::Command,
            );
            let mode = start.frame(LCD_ENTRYMODESET | EntryMode::initial().bits(), Mode::Command);
            let a1 = a0 + control;
            let a2 = a1 + clear_ops(kind, backlight);
            let a3 = a2 + mode;
            assert(a3 + home_ops(kind, backlight) == setup_ops(
                kind,
                start.geometry.rows,
                backlight,
            ));
            lemma_run_concat(bus, a0, control);
            lemma_run_concat(bus, a1, clear_ops(kind, backlight));
            lemma_run_concat(bus, a2, mode);
            lemma_run_concat(bus, a3, home_ops(kind, backlight));
        }
        self.send(LCD_FUNCTIONSET | display_function, Mode::Command)?;
        self.display_on()?;
        self.clear()?;
        self.left_to_right()?;
        self.home()
    }

    /// Takes the controller from its unknown state at power-up into 4-bit
    /// mode with the display on and cleared. Whatever stops the handshake,
    /// it is not tried again, and the display is not to be relied on.
    pub fn init(&mut self) -> (res: Result<(), LcdError>)
        ensures
            (final(self)@, res) == old(self)@.initialized(),
    {
        self.state.control = DisplayControl { display: true, cursor: false, blink: false };
        self.state.mode = EntryMode { left_to_right: true, autoscroll: false };
        self.state.current_line = 0;
        proof {
            lemma_run_concat(
                self@.bus,
                wake_ops(self@.bus.kind, self@.state.backlight),
                setup_ops(self@.bus.kind, self@.geometry.rows, self@.state.backlight),
            );
        }
        if self.wake().is_err() {
            return Err(LcdError::InitializationFailed);
        }
        match self.setup() {
            Ok(()) => Ok(()),
            Err(_) => Err(LcdError::InitializationFailed),
        }
    }

    /// Turns the display on. The other flags stay.
    pub fn display_on(&mut self) -> (res: Result<(), LcdError>)
        ensures
            (final(self)@, res) == old(self)@.with_control(
                DisplayControl { display: true, ..old(self)@.state.control },
            ),
    {
        let control = DisplayControl { display: true, ..self.state.control };
        self.set_control(control)
    }

    /// Turns the display off. The other flags stay.
    pub fn display_off(&mut self) -> (res: Result<(), LcdError>)
        ensures
            (final(self)@, res) == old(self)@.with_control(
                DisplayControl { display: false, ..old(self)@.state.control },
            ),
    {
        let control = DisplayControl { display: false, ..self.state.control };
        self.set_control(control)
    }

    /// Shows or hides the cursor. The other flags stay.
    pub fn cursor(&mut self, on: bool) -> (res: Result<(), LcdError>)
        ensures
            (final(self)@, res) == old(self)@.with_control(
                DisplayControl { cursor: on, ..old(self)@.state.control },
            ),
    {
        let control = DisplayControl { cursor: on, ..self.state.control };
        self.set_control(control)
    }

    /// Makes the cursor blink or stops it. The other flags stay.
    pub fn blink(&mut self, on: bool) -> (res: Result<(), LcdError>)
        ensures
            (final(self)@, res) == old(self)@.with_control(
                DisplayControl { blink: on, ..old(self)@.state.control },
            ),
    {
        let control = DisplayControl { blink: on, ..self.state.control };
        self.set_control(control)
    }

    /// Lets the display shift with each character, or not. The direction
    /// stays.
    pub fn autoscroll(&mut self, on: bool) -> (res: Result<(), LcdError>)
        ensures
            (final(self)@, res) == old(self)@.with_mode(
                EntryMode { autoscroll: on, ..old(self)@.state.mode },
            ),
    {
        let mode = EntryMode { autoscroll: on, ..self.state.mode };
        self.set_mode(mode)
    }

    /// Text runs from left to right.
    pub fn left_to_right(&mut self) -> (res: Result<(), LcdError>)
        ensures
            (final(self)@, res) == old(self)@.with_mode(
                EntryMode { left_to_right: true, ..old(self)@.state.mode },
            ),
    {
        let mode = EntryMode { left_to_right: true, ..self.state.mode };
        self.set_mode(mode)
    }

    /// Text runs from right to left.
    pub fn right_to_left(&mut self) -> (res: Result<(), LcdError>)
        ensures
            (final(self)@, res) == old(self)@.with_mode(
                EntryMode { left_to_right: false, ..old(self)@.state.mode },
            ),
    {
        let mode = EntryMode { left_to_right: false, ..self.state.mode };
        self.set_mode(mode)
    }

    /// Switches the backlight on and latches it at once.
    pub fn backlight_on(&mut self) -> (res: Result<(), LcdError>)
        ensures
            (final(self)@, res) == old(self)@.with_backlight(true),
    {
        self.set_backlight(true)
    }

    /// Switches the backlight off and latches it at once.
    pub fn backlight_off(&mut self) -> (res: Result<(), LcdError>)
        ensures
            (final(self)@, res) == old(self)@.with_backlight(false),
    {
        self.set_backlight(false)
    }

    /// Shifts what the display shows one cell to the left.
    pub fn scroll_left(&mut self) -> (res: Result<(), LcdError>)
        ensures
            (final(self)@, res) == old(self)@.transmit(
                old(self)@.frame((LCD_CURSORSHIFT | LCD_DISPLAYMOVE) | LCD_MOVELEFT, Mode::Command),
            ),
    {
        let cmd: u8 = (LCD_CURSORSHIFT | LCD_DISPLAYMOVE) | LCD_MOVELEFT;
        self.command(cmd)
    }

    /// Shifts what the display shows one cell to the right.
    pub fn scroll_right(&mut self) -> (res: Result<(), LcdError>)
        ensures
            (final(self)@, res) == old(self)@.transmit(
                old(self)@.frame(
                    (LCD_CURSORSHIFT | LCD_DISPLAYMOVE) | LCD_MOVERIGHT,
                    Mode::Command,
                ),
            ),
    {
        let cmd: u8 = (LCD_CURSORSHIFT | LCD_DISPLAYMOVE) | LCD_MOVERIGHT;
        self.command(cmd)
    }

    /// Clears the display and waits for the controller. The current line is
    /// the first again once the command has gone out.
    pub fn clear(&mut self) -> (res: Result<(), LcdError>)
        ensures
            (final(self)@, res) == old(self)@.attempt(
                clear_ops(old(self)@.bus.kind, old(self)@.state.backlight),
                DisplayState { current_line: 0, ..old(self)@.state },
                old(self)@.state,
            ),
    {
        proof {
            lemma_run_concat(
                self@.bus,
                self@.frame(LCD_CLEARDISPLAY, Mode::Command),
                seq![BusOp::DelayUs(HOME_SETTLE_US)],
            );
        }
        self.command(LCD_CLEARDISPLAY)?;
        self.bus.delay_us(HOME_SETTLE_US);
        self.state.current_line = 0;
        Ok(())
    }

    /// Sends the cursor home and waits for the controller. The current line
    /// is left as it was.
    pub fn home(&mut self) -> (res: Result<(), LcdError>)
        ensures
            (final(self)@, res) == old(self)@.transmit(
                home_ops(old(self)@.bus.kind, old(self)@.state.backlight),
            ),
    {
        proof {
            lemma_run_concat(
                self@.bus,
                self@.frame(LCD_RETURNHOME, Mode::Command),
                seq![BusOp::DelayUs(HOME_SETTLE_US)],
            );
        }
        self.command(LCD_RETURNHOME)?;
        self.bus.delay_us(HOME_SETTLE_US);
        Ok(())
    }

    /// Moves the cursor to column `col` of `row`. The column is taken as it
    /// is, also where it lies beyond the display's columns.
    pub fn set_cursor(&mut self, col: u8, row: u8) -> (res: Result<(), LcdError>)
        requires
            addressable(old(self)@.geometry, col, row),
        ensures
            (final(self)@, res) == old(self)@.cursor_to(col, row),
    {
        let offset: u8 = row_offset(self.geometry, row)?;
        let cmd: u8 = LCD_SETDDRAMADDR | (col + offset);
        self.command(cmd)?;
        self.state.current_line = row;
        Ok(())
    }

    /// Moves the cursor to the start of the next line. After the last line
    /// the current line is one past it, and the move is refused as out of
    /// bounds; the call after that starts again at the first line.
    pub fn next_line(&mut self) -> (res: Result<(), LcdError>)
        ensures
            (final(self)@, res) == old(self)@.to_next_line(),
    {
        if self.geometry.rows == 1 {
            return Err(LcdError::UnsupportedOnSingleRow);
        }
        if self.state.current_line >= self.geometry.rows {
            self.state.current_line = 0;
        } else {
            self.state.current_line = self.state.current_line + 1;
        }
        let line: u8 = self.state.current_line;
        self.set_cursor(0, line)
    }

    /// Prints one character: its code, cut to one byte, goes out as data.
    pub fn print(&mut self, ch: char) -> (res: Result<(), LcdError>)
        ensures
            (final(self)@, res) == old(self)@.transmit(old(self)@.frame(ch as u8, Mode::Data)),
    {
        #[verifier::truncate]
        let data: u8 = ch as u8;
        self.send(data, Mode::Data)
    }

    /// Prints a text, one character after the other, and stops at the first
    /// one that does not go out.
    pub fn print_str(&mut self, text: &str) -> (res: Result<(), LcdError>)
        ensures
            (final(self)@, res) == old(self)@.transmit(old(self)@.frames(text_commands(text@))),
    {
        let ghost start = self@;
        let ghost commands = text_commands(text@);
        assert(commands.skip(0) =~= commands);
        for ch in it: text.chars()
            invariant
                it.seq() == text@,
                start == old(self)@,
                commands == text_commands(text@),
                self@.geometry == start.geometry,
                self@.state == start.state,
                self@.bus.kind == start.bus.kind,
                start.bus.run(start.frames(commands)) == self@.bus.run(
                    start.frames(commands.skip(it.index() as int)),
                ),
                start.bus.completes(start.frames(commands)) == self@.bus.completes(
                    start.frames(commands.skip(it.index() as int)),
                ),
        {
            proof {
                lemma_next_frame(self@.bus, commands, it.index() as int, self@.state.backlight);
            }
            self.print(ch)?;
        }
        Ok(())
    }

    /// Prints a text from the first cell on, row after row. Character `i`
    /// goes to column `i mod cols` of row `i div cols`; what runs past the
    /// last row goes to the first row, over what stands there.
    pub fn print_long_str(&mut self, text: &str) -> (res: Result<(), LcdError>)
        requires
            old(self)@.geometry.cols > 0,
            forall|i: nat|
                i < text@.len() ==> #[trigger] addressable(
                    old(self)@.geometry,
                    wrapped_col(old(self)@.geometry, i),
                    wrapped_row(old(self)@.geometry, i),
                ),
        ensures
            (final(self)@, res) == old(self)@.print_wrapped(text@),
    {
        let ghost start = self@;
        let geometry = self.geometry;
        let mut col: u8 = 0;
        let mut filled: u8 = 0;
        proof {
            lemma_wrapped_first(start, text@);
        }
        self.set_cursor(col, filled)?;
        for ch in it: text.chars()
            invariant
                it.seq() == text@,
                start == old(self)@,
                geometry == start.geometry,
                geometry.cols > 0,
                forall|i: nat|
                    i < text@.len() ==> #[trigger] addressable(
                        geometry,
                        wrapped_col(geometry, i),
                        wrapped_row(geometry, i),
                    ),
                col == wrapped_col(geometry, it.index() as nat),
                filled == filled_rows(geometry, it.index() as nat),
                self@.geometry == geometry,
                wrapped_so_far(start, text@, it.index() as nat, self@),
        {
            let ghost i = it.index() as nat;
            proof {
                assert(addressable(geometry, wrapped_col(geometry, i), wrapped_row(geometry, i)));
                lemma_wrapped_next(start, text@, i, filled, self@);
            }
            let row: u8 = row_after(geometry, filled);
            self.set_cursor(col, row)?;
            self.print(ch)?;
            let next = advance(geometry, col, filled, Ghost(i));
            col = next.0;
            filled = next.1;
        }
        proof {
            lemma_wrapped_last(start, text@, self@);
        }
        Ok(())
    }

    /// Stores a glyph of eight rows in slot `location` of
    /// character-generator RAM. What is printed next goes there too, until
    /// the cursor is set again.
    pub fn create_custom_chars(&mut self, location: u8, charmap: &[u8; 8]) -> (res: Result<
        (),
        LcdError,
    >)
        ensures
            (final(self)@, res) == old(self)@.store_glyph(location, charmap@),
    {
        if location >= CGRAM_SLOTS {
            return Err(LcdError::SlotOutOfBounds);
        }
        let ghost start = self@;
        let ghost commands = glyph_commands(location, charmap@);
        proof {
            assert(commands.skip(0) =~= commands);
            lemma_next_frame(self@.bus, commands, 0, self@.state.backlight);
        }
        self.send(LCD_SETCGRAMADDR | (location << 3), Mode::Command)?;
        let mut i: usize = 0;
        while i < 8
            invariant
                i <= 8,
                location < CGRAM_SLOTS,
                start == old(self)@,
                commands == glyph_commands(location, charmap@),
                self@.geometry == start.geometry,
                self@.state == start.state,
                self@.bus.kind == start.bus.kind,
                start.bus.run(start.frames(commands)) == self@.bus.run(
                    start.frames(commands.skip(1 + i as int)),
                ),
                start.bus.completes(start.frames(commands)) == self@.bus.completes(
                    start.frames(commands.skip(1 + i as int)),
                ),
            decreases 8 - i,
        {
            proof {
                lemma_next_frame(self@.bus, commands, 1 + i as int, self@.state.backlight);
            }
            self.send(charmap[i], Mode::Data)?;
            i = i + 1;
        }
        Ok(())
    }
}

} // verus!
