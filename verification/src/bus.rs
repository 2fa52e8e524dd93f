//! The link to the display: what was sent over it, in order, and how many
//! more writes it will acknowledge.

use crate::error::LcdError;
use vstd::prelude::*;

verus! {

/// How the display is wired.
#[derive(Clone, Copy, Debug, PartialEq, Eq, Structural)]
pub enum BusKind {
    /// An I2C GPIO expander that takes data, control and backlight in one byte.
    Expander,
    /// Six output lines: register select, enable and four data lines.
    Discrete,
}

/// One of the six lines of a discretely wired display.
#[derive(Clone, Copy, Debug, PartialEq, Eq, Structural)]
pub enum Line {
    Rs,
    Enable,
    D4,
    D5,
    D6,
    D7,
}

/// One thing done on the link.
#[derive(Clone, Copy, Debug, PartialEq, Eq, Structural)]
pub enum BusOp {
    /// One byte written to the expander.
    Write(u8),
    /// One line driven high (`true`) or low.
    Drive(Line, bool),
    /// A blocking wait, in microseconds.
    DelayUs(u32),
    /// A blocking wait, in milliseconds.
    DelayMs(u32),
}

impl BusOp {
    /// A write can be refused by the link; a wait cannot.
    pub open spec fn is_write(self) -> bool {
        self is Write || self is Drive
    }
}

/// A link as contracts see it.
pub struct BusModel {
    pub kind: BusKind,
    /// Everything carried out so far, oldest first.
    pub log: Seq<BusOp>,
    /// How many more writes the link acknowledges; `None` when it never fails.
    pub acks: Option<nat>,
}

impl BusModel {
    /// Whether the link carries out `op` in this state.
    pub open spec fn accepts(self, op: BusOp) -> bool {
        op.is_write() ==> self.acks != Some(0nat)
    }

    /// The link after it has carried out `op`.
    pub open spec fn after(self, op: BusOp) -> BusModel {
        BusModel {
            kind: self.kind,
            log: self.log.push(op),
            acks: match self.acks {
                Some(n) if op.is_write() => Some((n - 1) as nat),
                _ => self.acks,
            },
        }
    }

    /// How many operations of `plan`, from its start, the link carries
    /// out: all of them when it never fails, else those before the first
    /// write for which no acknowledgement is left.
    pub open spec fn carried(self, plan: Seq<BusOp>) -> nat {
        match self.acks {
            Some(n) => reach(plan, n),
            None => plan.len(),
        }
    }

    /// The link after `plan` was attempted: what it carried out is logged,
    /// and each write among that has used up one acknowledgement. What
    /// comes after the first refused write is not attempted.
    pub open spec fn run(self, plan: Seq<BusOp>) -> BusModel {
        let done = plan.take(self.carried(plan) as int);
        BusModel {
            kind: self.kind,
            log: self.log + done,
            acks: match self.acks {
                Some(n) => Some((n - writes(done)) as nat),
                None => None,
            },
        }
    }

    /// Whether the link carries out all of `plan`: it never fails, or it
    /// has an acknowledgement left for each write of the plan.
    pub open spec fn completes(self, plan: Seq<BusOp>) -> bool {
        match self.acks {
            Some(n) => writes(plan) <= n,
            None => true,
        }
    }
}

/// The number of writes in `plan`.
pub open spec fn writes(plan: Seq<BusOp>) -> nat
    decreases plan.len(),
{
    if plan.len() == 0 {
        0
    } else if plan[0].is_write() {
        1 + writes(plan.drop_first())
    } else {
        writes(plan.drop_first())
    }
}

/// How far into `plan` `acks` acknowledgements reach: the number of
/// operations before the write that would need one more.
pub open spec fn reach(plan: Seq<BusOp>, acks: nat) -> nat
    decreases plan.len(),
{
    if plan.len() == 0 {
        0
    } else if !plan[0].is_write() {
        1 + reach(plan.drop_first(), acks)
    } else if acks == 0 {
        0
    } else {
        1 + reach(plan.drop_first(), (acks - 1) as nat)
    }
}

/// The writes of two plans add up.
pub proof fn lemma_writes_concat(a: Seq<BusOp>, b: Seq<BusOp>)
    ensures
        writes(a + b) == writes(a) + writes(b),
    decreases a.len(),
{
    if a.len() == 0 {
        assert(a + b =~= b);
    } else {
        assert((a + b).drop_first() =~= a.drop_first() + b);
        lemma_writes_concat(a.drop_first(), b);
    }
}

/// One more operation at the end of a plan is one more write, or none.
pub proof fn lemma_writes_push(plan: Seq<BusOp>, op: BusOp)
    ensures
        writes(plan.push(op)) == writes(plan) + (if op.is_write() {
            1nat
        } else {
            0nat
        }),
{
    reveal_with_fuel(writes, 2);
    assert(plan.push(op) =~= plan + seq![op]);
    assert(seq![op].drop_first().len() == 0);
    lemma_writes_concat(plan, seq![op]);
}

/// Acknowledgements reach to the end of a plan exactly when there is one
/// for each of its writes; the part they reach holds no more writes than
/// there are acknowledgements.
pub proof fn lemma_reach(plan: Seq<BusOp>, acks: nat)
    ensures
        reach(plan, acks) <= plan.len(),
        reach(plan, acks) == plan.len() <==> writes(plan) <= acks,
        writes(plan.take(reach(plan, acks) as int)) <= acks,
        writes(plan.take(reach(plan, acks) as int)) <= writes(plan),
    decreases plan.len(),
{
    let k = reach(plan, acks);
    if plan.len() == 0 {
        assert(plan.take(0) =~= plan);
    } else {
        let rest = plan.drop_first();
        if !plan[0].is_write() {
            lemma_reach(rest, acks);
            assert(plan.take(k as int).drop_first() =~= rest.take(k - 1));
        } else if acks == 0 {
            assert(plan.take(0).len() == 0);
        } else {
            lemma_reach(rest, (acks - 1) as nat);
            assert(plan.take(k as int).drop_first() =~= rest.take(k - 1));
        }
    }
}

/// Through two plans in a row acknowledgements reach as through the first
/// and, if they last, on through the second with those that are left.
pub proof fn lemma_reach_concat(a: Seq<BusOp>, b: Seq<BusOp>, acks: nat)
    ensures
        reach(a + b, acks) == (if writes(a) <= acks {
            a.len() + reach(b, (acks - writes(a)) as nat)
        } else {
            reach(a, acks)
        }),
    decreases a.len(),
{
    if a.len() == 0 {
        assert(a + b =~= b);
    } else {
        assert((a + b)[0] == a[0]);
        assert((a + b).drop_first() =~= a.drop_first() + b);
        if !a[0].is_write() {
            lemma_reach_concat(a.drop_first(), b, acks);
        } else if acks > 0 {
            lemma_reach_concat(a.drop_first(), b, (acks - 1) as nat);
        }
    }
}

/// Nothing happens on an empty plan.
pub proof fn lemma_run_empty(bus: BusModel)
    ensures
        bus.run(Seq::empty()) == bus,
        bus.completes(Seq::empty()),
{
    let nothing = Seq::<BusOp>::empty();
    assert(nothing.take(bus.carried(nothing) as int) =~= nothing);
    assert(bus.log + nothing =~= bus.log);
}

/// A plan of one operation is carried out exactly when the link accepts it.
pub proof fn lemma_run_one(bus: BusModel, op: BusOp)
    ensures
        bus.run(seq![op]) == (if bus.accepts(op) {
            bus.after(op)
        } else {
            bus
        }),
        bus.completes(seq![op]) == bus.accepts(op),
{
    reveal_with_fuel(reach, 2);
    reveal_with_fuel(writes, 2);
    let plan = seq![op];
    assert(plan.drop_first().len() == 0);
    if bus.accepts(op) {
        assert(plan.take(1) =~= plan);
        assert(bus.log + plan =~= bus.log.push(op));
    } else {
        assert(plan.take(0) =~= Seq::<BusOp>::empty());
        assert(bus.log + Seq::<BusOp>::empty() =~= bus.log);
        assert(plan.take(0).len() == 0);
    }
}

/// Two plans run one after the other are the two run as one; the second is
/// not started when the first stops.
pub proof fn lemma_run_concat(bus: BusModel, a: Seq<BusOp>, b: Seq<BusOp>)
    ensures
        bus.run(a).kind == bus.kind,
        bus.completes(a + b) == (bus.completes(a) && bus.run(a).completes(b)),
        bus.run(a + b) == (if bus.completes(a) {
            bus.run(a).run(b)
        } else {
            bus.run(a)
        }),
{
    lemma_writes_concat(a, b);
    match bus.acks {
        Some(n) => {
            lemma_reach(a, n);
            lemma_reach_concat(a, b, n);
            if writes(a) <= n {
                let left = (n - writes(a)) as nat;
                let more = b.take(reach(b, left) as int);
                lemma_reach(b, left);
                assert(a.take(a.len() as int) =~= a);
                assert((a + b).take((a.len() + reach(b, left)) as int) =~= a + more);
                lemma_writes_concat(a, more);
                assert(bus.log + (a + more) =~= (bus.log + a) + more);
            } else {
                assert((a + b).take(reach(a, n) as int) =~= a.take(reach(a, n) as int));
            }
        },
        None => {
            assert(a.take(a.len() as int) =~= a);
            assert(b.take(b.len() as int) =~= b);
            assert((a + b).take((a + b).len() as int) =~= a + b);
            assert(bus.log + (a + b) =~= (bus.log + a) + b);
        },
    }
}

/// A plan with one more operation at its end runs as the plan and then,
/// if the plan went out whole, the operation.
pub proof fn lemma_run_push(bus: BusModel, plan: Seq<BusOp>, op: BusOp)
    ensures
        bus.completes(plan.push(op)) == (bus.completes(plan) && bus.run(plan).accepts(op)),
        bus.run(plan.push(op)) == (if !bus.completes(plan) {
            bus.run(plan)
        } else if bus.run(plan).accepts(op) {
            bus.run(plan).after(op)
        } else {
            bus.run(plan)
        }),
{
    assert(plan.push(op) =~= plan + seq![op]);
    lemma_run_concat(bus, plan, seq![op]);
    lemma_run_one(bus.run(plan), op);
}

/// What a run leaves behind: the log grows by a prefix of the plan, and by
/// the whole plan exactly when the plan goes out whole; a link that never
/// fails still never fails, and any other is left with no more
/// acknowledgements than it had.
pub proof fn lemma_run_log(bus: BusModel, plan: Seq<BusOp>)
    ensures
        bus.carried(plan) <= plan.len(),
        bus.completes(plan) <==> bus.carried(plan) == plan.len(),
        bus.completes(plan) ==> bus.run(plan).log == bus.log + plan,
        bus.run(plan).log == bus.log + plan.take(bus.carried(plan) as int),
        bus.run(plan).log.len() == bus.log.len() + bus.carried(plan),
        bus.acks is None ==> bus.run(plan).acks is None,
        bus.acks matches Some(n) ==> bus.run(plan).acks matches Some(left) && left <= n,
{
    match bus.acks {
        Some(n) => {
            lemma_reach(plan, n);
        },
        None => {},
    }
    if bus.completes(plan) {
        assert(plan.take(plan.len() as int) =~= plan);
    }
}

/// A plan that goes out whole uses up one acknowledgement for each of its
/// writes.
pub proof fn lemma_run_acks(bus: BusModel, plan: Seq<BusOp>)
    requires
        bus.completes(plan),
    ensures
        bus.run(plan).acks == (match bus.acks {
            Some(n) => Some((n - writes(plan)) as nat),
            None => None,
        }),
{
    match bus.acks {
        Some(n) => {
            lemma_reach(plan, n);
            assert(plan.take(plan.len() as int) =~= plan);
        },
        None => {},
    }
}

/// The link to one display. It records what the driver sends and stands for
/// the hardware's answer: a write comes back acknowledged or refused.
#[derive(Debug)]
pub struct Bus {
    kind: BusKind,
    log: Vec<BusOp>,
    acks: Option<usize>,
}

impl View for Bus {
    type V = BusModel;

    closed spec fn view(&self) -> BusModel {
        BusModel {
            kind: self.kind,
            log: self.log@,
            acks: match self.acks {
                Some(n) => Some(n as nat),
                None => None,
            },
        }
    }
}

impl Clone for Bus {
    fn clone(&self) -> (copy: Bus)
        ensures
            copy@ == self@,
    {
        let log = self.log.clone();
        assert(log@ =~= self.log@);
        Bus { kind: self.kind, log, acks: self.acks }
    }
}

impl Bus {
    /// A link that acknowledges every write.
    pub fn new(kind: BusKind) -> (bus: Bus)
        ensures
            bus@ == (BusModel { kind, log: Seq::empty(), acks: None }),
    {
        Bus { kind, log: Vec::new(), acks: None }
    }

    /// A link that acknowledges `acks` writes and refuses every write after them.
    pub fn failing_after(kind: BusKind, acks: usize) -> (bus: Bus)
        ensures
            bus@ == (BusModel { kind, log: Seq::empty(), acks: Some(acks as nat) }),
    {
        Bus { kind, log: Vec::new(), acks: Some(acks) }
    }

    pub fn kind(&self) -> (kind: BusKind)
        ensures
            kind == self@.kind,
    {
        self.kind
    }

    /// Everything carried out so far, oldest first.
    pub fn log(&self) -> (log: &Vec<BusOp>)
        ensures
            log@ == self@.log,
    {
        &self.log
    }

    /// How many more writes the link acknowledges; `None` when it never fails.
    pub fn acks(&self) -> (acks: Option<usize>)
        ensures
            acks matches Some(n) ==> self@.acks == Some(n as nat),
            acks is None ==> self@.acks is None,
    {
        self.acks
    }

    /// Hands the log out and starts an empty one.
    pub fn take_log(&mut self) -> (log: Vec<BusOp>)
        ensures
            log@ == old(self)@.log,
            final(self)@ == (BusModel { log: Seq::empty(), ..old(self)@ }),
    {
        let mut log: Vec<BusOp> = Vec::new();
        std::mem::swap(&mut self.log, &mut log);
        log
    }

    /// Attempts one operation: it is logged when the link carries it out,
    /// and nothing changes when the link refuses it.
    pub fn perform(&mut self, op: BusOp) -> (res: Result<(), LcdError>)
        ensures
            final(self)@ == old(self)@.run(seq![op]),
            final(self)@ == (if old(self)@.accepts(op) {
                old(self)@.after(op)
            } else {
                old(self)@
            }),
            res == (if old(self)@.accepts(op) {
                Ok::<(), LcdError>(())
            } else {
                Err::<(), LcdError>(LcdError::BusWriteFailure)
            }),
    {
        proof {
            lemma_run_one(self@, op);
        }
        let write = match op {
            BusOp::Write(_) => true,
            BusOp::Drive(_, _) => true,
            BusOp::DelayUs(_) => false,
            BusOp::DelayMs(_) => false,
        };
        if write {
            match self.acks {
                Some(n) => {
                    if n == 0 {
                        return Err(LcdError::BusWriteFailure);
                    }
                    self.acks = Some(n - 1);
                },
                None => {},
            }
        }
        self.log.push(op);
        Ok(())
    }

    /// Sends one byte to the expander. It is logged when the link
    /// acknowledges it.
    pub fn write(&mut self, byte: u8) -> (res: Result<(), LcdError>)
        ensures
            final(self)@ == old(self)@.run(seq![BusOp::Write(byte)]),
            res == (if old(self)@.accepts(BusOp::Write(byte)) {
                Ok::<(), LcdError>(())
            } else {
                Err::<(), LcdError>(LcdError::BusWriteFailure)
            }),
    {
        self.perform(BusOp::Write(byte))
    }

    /// Drives one line high or low. The level is logged when the link takes
    /// it.
    pub fn drive(&mut self, line: Line, high: bool) -> (res: Result<(), LcdError>)
        ensures
            final(self)@ == old(self)@.run(seq![BusOp::Drive(line, high)]),
            res == (if old(self)@.accepts(BusOp::Drive(line, high)) {
                Ok::<(), LcdError>(())
            } else {
                Err::<(), LcdError>(LcdError::BusWriteFailure)
            }),
    {
        self.perform(BusOp::Drive(line, high))
    }

    /// Logs a wait of `us` microseconds. A wait is never refused.
    pub fn delay_us(&mut self, us: u32)
        ensures
            final(self)@ == old(self)@.run(seq![BusOp::DelayUs(us)]),
            final(self)@ == old(self)@.after(BusOp::DelayUs(us)),
            old(self)@.completes(seq![BusOp::DelayUs(us)]),
    {
        proof {
            lemma_run_one(self@, BusOp::DelayUs(us));
        }
        let _ = self.perform(BusOp::DelayUs(us));
    }

    /// Logs a wait of `ms` milliseconds. A wait is never refused.
    pub fn delay_ms(&mut self, ms: u32)
        ensures
            final(self)@ == old(self)@.run(seq![BusOp::DelayMs(ms)]),
            final(self)@ == old(self)@.after(BusOp::DelayMs(ms)),
            old(self)@.completes(seq![BusOp::DelayMs(ms)]),
    {
        proof {
            lemma_run_one(self@, BusOp::DelayMs(ms));
        }
        let _ = self.perform(BusOp::DelayMs(ms));
    }
}

} // verus!
