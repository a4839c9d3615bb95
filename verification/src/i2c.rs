//! I2C bus primitives and polling transactions.
//!
//! The bus itself is reached through the [`I2C`] trait. [`I2c`] wraps a bus,
//! decodes its status register into an [`I2CState`], and builds short
//! blocking-but-bounded transactions out of register accesses. Every access
//! that `I2c` makes is recorded in a ghost trace, and the contract of each
//! transaction says which run of which script of steps that trace holds: see
//! the module `transaction`.

use vstd::prelude::*;
use vstd::string::*;
use crate::transaction::{
    lemma_chain,
    lemma_poll_busy,
    lemma_single,
    read_script,
    replay,
    start_script,
    stop_script,
    write_script,
    Step,
};

verus! {

/// What the status register says went wrong.
#[derive(Clone, Copy, PartialEq, Eq, Debug, Structural)]
pub enum I2CError {
    /// No known error has occurred.
    NoError,
    /// The clock line was held low for too long.
    Timeout,
    /// Acknowledge failure: no acknowledge was returned.
    AF,
    /// Arbitration was lost to another master.
    ARLO,
    /// Overrun or underrun of the data register.
    OVR,
    /// Misplaced start or stop condition.
    BERR,
}

/// Outcome of a bus status check, and of a transaction built from them.
#[derive(Clone, Copy, PartialEq, Eq, Debug, Structural)]
pub enum I2CState {
    Okay,
    /// Not resolved yet: the caller must check again.
    Busy,
    /// The transaction has ended with this error.
    Error(I2CError),
}

pub type I2CWriteState = I2CState;

pub type I2CReadState = I2CState;

impl I2CWriteState {
    /// Continues a chain of steps: after `Okay` the next step `f` runs and its
    /// outcome is the chain's; `Busy` and `Error` pass through, and `f` is
    /// not called.
    pub fn cont<F>(&self, f: F) -> (res: I2CWriteState) where F: FnOnce() -> I2CWriteState
        requires
            *self is Okay ==> f.requires(()),
        ensures
            *self is Okay ==> f.ensures((), res),
            !(*self is Okay) ==> res == *self,
    {
        match *self {
            I2CState::Okay => f(),
            I2CState::Busy => I2CState::Busy,
            I2CState::Error(err) => I2CState::Error(err),
        }
    }
}

impl I2CState {
    /// This outcome as it is logged: an error with its name in angle
    /// brackets.
    pub open spec fn text(self) -> Seq<char> {
        match self {
            I2CState::Okay => "Ok"@,
            I2CState::Busy => "Busy"@,
            I2CState::Error(err) => "Error<"@ + err.name() + ">"@,
        }
    }

    /// This outcome as text, for a log.
    pub fn to_string(&self) -> (text: String)
        ensures
            text@ == self.text(),
    {
        match *self {
            I2CState::Okay => "Ok".to_owned(),
            I2CState::Busy => "Busy".to_owned(),
            I2CState::Error(err) => {
                let mut text = "Error<".to_owned();
                text.append(err.to_string().as_str());
                text.append(">");
                text
            },
        }
    }

    pub fn is_ok(&self) -> (b: bool)
        ensures
            b == (*self is Okay),
    {
        match *self {
            I2CState::Okay => true,
            _ => false,
        }
    }

    pub fn is_busy(&self) -> (b: bool)
        ensures
            b == (*self is Busy),
    {
        match *self {
            I2CState::Busy => true,
            _ => false,
        }
    }
}

impl I2CError {
    /// The name under which this error is logged.
    pub open spec fn name(self) -> Seq<char> {
        match self {
            I2CError::NoError => "None"@,
            I2CError::Timeout => "Timeout"@,
            I2CError::AF => "AF"@,
            I2CError::ARLO => "ARLO"@,
            I2CError::OVR => "OVR"@,
            I2CError::BERR => "BERR"@,
        }
    }

    /// This error as text, for a log.
    pub fn to_string(&self) -> (text: String)
        ensures
            text@ == self.name(),
    {
        match *self {
            I2CError::NoError => "None".to_owned(),
            I2CError::Timeout => "Timeout".to_owned(),
            I2CError::AF => "AF".to_owned(),
            I2CError::ARLO => "ARLO".to_owned(),
            I2CError::OVR => "OVR".to_owned(),
            I2CError::BERR => "BERR".to_owned(),
        }
    }

    /// The outcome of a status check once the error flags are known: an
    /// error ends the check, and only without one is `fun` asked.
    pub fn if_no_err<F>(&self, fun: F) -> (res: I2CState) where F: FnOnce() -> I2CState
        requires
            *self is NoError ==> fun.requires(()),
        ensures
            *self is NoError ==> fun.ensures((), res),
            !(*self is NoError) ==> res == I2CState::Error(*self),
    {
        match *self {
            I2CError::NoError => fun(),
            err => I2CState::Error(err),
        }
    }
}

/// The flags of status register 1 that the drivers read.
#[derive(Clone, Copy, PartialEq, Eq, Debug, Structural)]
pub struct Sr1 {
    /// Start condition generated.
    pub sb: bool,
    /// Address sent and acknowledged.
    pub addr: bool,
    /// Byte transfer finished.
    pub btf: bool,
    /// Receive data register not empty.
    pub rx_ne: bool,
    /// Transmit data register empty.
    pub tx_e: bool,
    pub berr: bool,
    pub arlo: bool,
    pub af: bool,
    pub ovr: bool,
    pub timeout: bool,
}

/// The flags of status register 2.
#[allow(non_camel_case_types)]
#[derive(Clone, Copy, PartialEq, Eq, Debug, Structural)]
pub struct I2C_SR2_P {
    /// The interface is transmitting.
    pub tra: bool,
    /// Communication is ongoing on the bus.
    pub busy: bool,
    /// The interface is in master mode.
    pub msl: bool,
}

/// A flag as it is logged.
pub open spec fn flag_text(flag: bool) -> Seq<char> {
    if flag {
        "true"@
    } else {
        "false"@
    }
}

impl I2C_SR2_P {
    /// These flags as they are logged.
    pub open spec fn text(self) -> Seq<char> {
        "TRA: "@ + flag_text(self.tra) + ", BUSY: "@ + flag_text(self.busy) + ", MSL: "@
            + flag_text(self.msl)
    }

    /// These flags as text, for a log.
    pub fn to_string(&self) -> (text: String)
        ensures
            text@ == self.text(),
    {
        let mut text = "TRA: ".to_owned();
        text.append(flag_name(self.tra));
        text.append(", BUSY: ");
        text.append(flag_name(self.busy));
        text.append(", MSL: ");
        text.append(flag_name(self.msl));
        text
    }
}

fn flag_name(flag: bool) -> (text: &'static str)
    ensures
        text@ == flag_text(flag),
{
    if flag {
        "true"
    } else {
        "false"
    }
}

/// The condition that a status check waits for.
#[derive(Clone, Copy, PartialEq, Eq, Debug, Structural)]
pub enum Flag {
    Start,
    Addr,
    ByteTransferFinished,
    DataRegisterEmpty,
    DataRegisterNotEmpty,
}

impl Sr1 {
    /// The first error flag that is set, in the fixed order timeout,
    /// acknowledge failure, arbitration lost, overrun, bus error.
    pub open spec fn error(self) -> I2CError {
        if self.timeout {
            I2CError::Timeout
        } else if self.af {
            I2CError::AF
        } else if self.arlo {
            I2CError::ARLO
        } else if self.ovr {
            I2CError::OVR
        } else if self.berr {
            I2CError::BERR
        } else {
            I2CError::NoError
        }
    }

    /// Whether the condition `flag` holds in this snapshot.
    pub open spec fn raised(self, flag: Flag) -> bool {
        match flag {
            Flag::Start => self.sb,
            Flag::Addr => self.addr,
            Flag::ByteTransferFinished => self.btf,
            Flag::DataRegisterEmpty => self.tx_e,
            Flag::DataRegisterNotEmpty => self.rx_ne,
        }
    }

    /// The outcome of a check for `flag`: an error if one is flagged, else
    /// `Okay` or `Busy` as the condition holds or not.
    pub open spec fn decode(self, flag: Flag) -> I2CState {
        if !(self.error() is NoError) {
            I2CState::Error(self.error())
        } else if self.raised(flag) {
            I2CState::Okay
        } else {
            I2CState::Busy
        }
    }

    /// Classifies the error flags, first match wins.
    pub fn get_error(&self) -> (err: I2CError)
        ensures
            err == self.error(),
    {
        if self.timeout {
            return I2CError::Timeout;
        } else if self.af {
            return I2CError::AF;
        } else if self.arlo {
            return I2CError::ARLO;
        } else if self.ovr {
            return I2CError::OVR;
        } else if self.berr {
            return I2CError::BERR;
        }
        I2CError::NoError
    }

    /// Decodes this snapshot for a check of `flag`.
    pub fn check(&self, flag: Flag) -> (res: I2CState)
        ensures
            res == self.decode(flag),
    {
        let raised = match flag {
            Flag::Start => self.sb,
            Flag::Addr => self.addr,
            Flag::ByteTransferFinished => self.btf,
            Flag::DataRegisterEmpty => self.tx_e,
            Flag::DataRegisterNotEmpty => self.rx_ne,
        };
        let ready = if raised {
            I2CState::Okay
        } else {
            I2CState::Busy
        };
        self.get_error().if_no_err(|| -> (s: I2CState) ensures s == ready { ready })
    }
}

/// A change to control register 1.
#[derive(Clone, Copy, PartialEq, Eq, Debug, Structural)]
pub enum Cr1 {
    /// Generate a start condition.
    Start,
    /// Generate a stop condition.
    Stop,
    /// Do not acknowledge the next byte received.
    AckOff,
    /// Acknowledge, and let the acknowledge bit govern the next byte.
    PosAck,
}

/// One access to a register of the bus, with what was read or written.
#[derive(Clone, Copy, PartialEq, Eq, Debug, Structural)]
pub enum BusOp {
    /// Status register 1 was read and held these flags.
    Status(Sr1),
    /// Status register 2 was read and held these flags.
    Status2(I2C_SR2_P),
    /// Control register 1 was changed.
    Control(Cr1),
    /// This byte was written to the data register.
    DataOut(u8),
    /// This byte was read from the data register.
    DataIn(u8),
}

/// The registers of an I2C peripheral.
///
/// Nothing is assumed of what a register holds: every read may return any
/// value.
pub trait I2C {
    fn read_sr1(&mut self) -> Sr1;

    fn read_sr2(&mut self) -> I2C_SR2_P;

    fn modify_cr1(&mut self, change: Cr1);

    fn write_dr(&mut self, dat: u8);

    fn read_dr(&mut self) -> u8;
}

/// An I2C bus master over the registers `S`.
pub struct I2c<S: I2C> {
    bus: S,
    poll_limit: u32,
    trace: Ghost<Seq<BusOp>>,
}

impl<S: I2C> I2c<S> {
    /// Every register access made through this value, oldest first.
    pub closed spec fn trace(&self) -> Seq<BusOp> {
        self.trace@
    }

    /// The registers that this master holds, as its accesses have left
    /// them.
    pub closed spec fn registers(&self) -> S {
        self.bus
    }

    /// How often one poll may read the status again after its first read.
    pub closed spec fn spec_poll_limit(&self) -> nat {
        self.poll_limit as nat
    }

    /// Since `before`, this value has made exactly the accesses of a run of
    /// `script`, and the run's outcome is `res`.
    pub open spec fn performed(&self, before: &Self, script: Seq<Step>, res: I2CState) -> bool {
        &&& self.spec_poll_limit() == before.spec_poll_limit()
        &&& before.trace().is_prefix_of(self.trace())
        &&& replay(script, self.trace(), before.trace().len() as int, self.spec_poll_limit())
            == Some(res)
    }

    /// A master over `bus`. Each of its polls reads the status once and,
    /// while the answer is `Busy`, up to `poll_limit` times more; then it
    /// gives up with `Busy`.
    pub fn new(bus: S, poll_limit: u32) -> (i2c: Self)
        ensures
            i2c.registers() == bus,
            i2c.trace() == Seq::<BusOp>::empty(),
            i2c.spec_poll_limit() == poll_limit,
    {
        I2c { bus, poll_limit, trace: Ghost(Seq::empty()) }
    }

    /// Hands the registers back, as the accesses made through this master
    /// have left them.
    pub fn free(self) -> (bus: S)
        ensures
            bus == self.registers(),
    {
        self.bus
    }

    pub fn poll_limit(&self) -> (limit: u32)
        ensures
            limit == self.spec_poll_limit(),
    {
        self.poll_limit
    }

    fn status(&mut self) -> (sr: Sr1)
        ensures
            final(self).trace() == old(self).trace().push(BusOp::Status(sr)),
            final(self).spec_poll_limit() == old(self).spec_poll_limit(),
    {
        let sr = self.bus.read_sr1();
        proof {
            self.trace@ = self.trace@.push(BusOp::Status(sr));
        }
        sr
    }

    fn status2(&mut self) -> (sr: I2C_SR2_P)
        ensures
            final(self).trace() == old(self).trace().push(BusOp::Status2(sr)),
            final(self).spec_poll_limit() == old(self).spec_poll_limit(),
    {
        let sr = self.bus.read_sr2();
        proof {
            self.trace@ = self.trace@.push(BusOp::Status2(sr));
        }
        sr
    }

    fn control(&mut self, change: Cr1)
        ensures
            final(self).trace() == old(self).trace().push(BusOp::Control(change)),
            final(self).spec_poll_limit() == old(self).spec_poll_limit(),
    {
        self.bus.modify_cr1(change);
        proof {
            self.trace@ = self.trace@.push(BusOp::Control(change));
        }
    }

    fn send(&mut self, dat: u8)
        ensures
            final(self).trace() == old(self).trace().push(BusOp::DataOut(dat)),
            final(self).spec_poll_limit() == old(self).spec_poll_limit(),
    {
        self.bus.write_dr(dat);
        proof {
            self.trace@ = self.trace@.push(BusOp::DataOut(dat));
        }
    }

    fn receive(&mut self) -> (dat: u8)
        ensures
            final(self).trace() == old(self).trace().push(BusOp::DataIn(dat)),
            final(self).spec_poll_limit() == old(self).spec_poll_limit(),
    {
        let dat = self.bus.read_dr();
        proof {
            self.trace@ = self.trace@.push(BusOp::DataIn(dat));
        }
        dat
    }

    /// Reads the status once and decodes it for `flag`.
    fn check(&mut self, flag: Flag) -> (res: I2CState)
        ensures
            final(self).performed(old(self), seq![Step::Check(flag)], res),
    {
        let ghost at = self.trace().len() as int;
        let sr = self.status();
        let res = sr.check(flag);
        proof {
            lemma_single(Step::Check(flag), self.trace(), at, self.spec_poll_limit());
        }
        res
    }

    /// Reads the status until a check for `flag` is not `Busy`. It reads
    /// at least once; it gives up with `Busy` when the status has been
    /// `Busy` once more than the poll limit.
    pub fn poll(&mut self, flag: Flag) -> (res: I2CState)
        ensures
            final(self).performed(old(self), seq![Step::Poll(flag)], res),
    {
        let ghost at = self.trace().len() as int;
        let mut left = self.poll_limit;
        loop
            invariant
                self.spec_poll_limit() == old(self).spec_poll_limit(),
                left <= self.spec_poll_limit(),
                old(self).trace().is_prefix_of(self.trace()),
                at == old(self).trace().len(),
                self.trace().len() == at + (self.spec_poll_limit() - left),
                forall|i: int|
                    at <= i < self.trace().len() ==> (#[trigger] self.trace()[i]
                        matches BusOp::Status(sr) && sr.decode(flag) is Busy),
            decreases left,
        {
            let ghost seen = self.trace();
            let sr = self.status();
            let res = sr.check(flag);
            if !res.is_busy() || left == 0 {
                proof {
                    lemma_poll_busy(
                        self.trace(),
                        at,
                        flag,
                        self.spec_poll_limit(),
                        (seen.len() - at) as nat,
                    );
                    lemma_single(Step::Poll(flag), self.trace(), at, self.spec_poll_limit());
                }
                return res;
            }
            left = left - 1;
        }
    }

    /// Runs one step.
    fn step(&mut self, step: Step) -> (res: I2CState)
        ensures
            final(self).performed(old(self), seq![step], res),
    {
        let ghost at = self.trace().len() as int;
        match step {
            Step::Check(flag) => self.check(flag),
            Step::Poll(flag) => self.poll(flag),
            Step::Control(change) => {
                self.control(change);
                proof {
                    lemma_single(step, self.trace(), at, self.spec_poll_limit());
                }
                I2CState::Okay
            },
            Step::Send(dat) => {
                self.send(dat);
                proof {
                    lemma_single(step, self.trace(), at, self.spec_poll_limit());
                }
                I2CState::Okay
            },
            Step::Receive => {
                let _ = self.receive();
                proof {
                    lemma_single(step, self.trace(), at, self.spec_poll_limit());
                }
                I2CState::Okay
            },
            Step::Status2 => {
                let _ = self.status2();
                proof {
                    lemma_single(step, self.trace(), at, self.spec_poll_limit());
                }
                I2CState::Okay
            },
        }
    }

    /// Continues a run of `done` that began at `before` and stands at
    /// `so_far`: runs `step` if the run is still `Okay`, and touches nothing
    /// if it is not.
    pub(crate) fn follow(
        &mut self,
        Ghost(before): Ghost<Self>,
        Ghost(done): Ghost<Seq<Step>>,
        so_far: I2CState,
        step: Step,
    ) -> (res: I2CState)
        requires
            old(self).performed(&before, done, so_far),
        ensures
            final(self).performed(&before, done.push(step), res),
            !(so_far is Okay) ==> res == so_far,
    {
        let ghost mid = *self;
        let res = if so_far.is_ok() {
            self.step(step)
        } else {
            so_far
        };
        proof {
            lemma_chain(
                done,
                seq![step],
                mid.trace(),
                self.trace(),
                before.trace().len() as int,
                self.spec_poll_limit(),
                res,
            );
            assert(done + seq![step] =~= done.push(step));
        }
        res
    }

    /// Where nothing has been done yet, the empty script has run.
    pub(crate) proof fn lemma_begin(&self)
        ensures
            self.performed(self, Seq::<Step>::empty(), I2CState::Okay),
    {
    }

    /// Chaining two runs: see `lemma_chain`.
    pub proof fn lemma_extend(
        before: &Self,
        mid: &Self,
        after: &Self,
        done: Seq<Step>,
        more: Seq<Step>,
        so_far: I2CState,
        res: I2CState,
    )
        requires
            mid.performed(before, done, so_far),
            so_far is Okay ==> after.performed(mid, more, res),
            !(so_far is Okay) ==> after.trace() == mid.trace() && after.spec_poll_limit()
                == mid.spec_poll_limit() && res == so_far,
        ensures
            after.performed(before, done + more, res),
    {
        lemma_chain(
            done,
            more,
            mid.trace(),
            after.trace(),
            before.trace().len() as int,
            after.spec_poll_limit(),
            res,
        );
    }

    /// Whether a start condition has been generated.
    pub fn is_start_flag_set(&mut self) -> (res: I2CState)
        ensures
            final(self).performed(old(self), seq![Step::Check(Flag::Start)], res),
    {
        self.check(Flag::Start)
    }

    /// Whether the interface is in master mode, by a read of status
    /// register 2.
    pub fn is_msl_flag_set(&mut self) -> (msl: bool)
        ensures
            final(self).performed(old(self), seq![Step::Status2], I2CState::Okay),
            final(self).trace().last() matches BusOp::Status2(sr) && sr.msl == msl,
    {
        let ghost at = self.trace().len() as int;
        let sr = self.status2();
        proof {
            lemma_single(Step::Status2, self.trace(), at, self.spec_poll_limit());
        }
        sr.msl
    }

    /// Whether the address has been sent and acknowledged.
    pub fn is_addr_flag_set(&mut self) -> (res: I2CState)
        ensures
            final(self).performed(old(self), seq![Step::Check(Flag::Addr)], res),
    {
        self.check(Flag::Addr)
    }

    /// Whether the last byte has left the shift register.
    pub fn is_byte_transfer_finished(&mut self) -> (res: I2CState)
        ensures
            final(self).performed(old(self), seq![Step::Check(Flag::ByteTransferFinished)], res),
    {
        self.check(Flag::ByteTransferFinished)
    }

    /// Whether the data register can take a byte.
    pub fn is_data_register_empty(&mut self) -> (res: I2CState)
        ensures
            final(self).performed(old(self), seq![Step::Check(Flag::DataRegisterEmpty)], res),
    {
        self.check(Flag::DataRegisterEmpty)
    }

    /// Whether a received byte waits in the data register.
    pub fn is_data_register_not_empty(&mut self) -> (res: I2CState)
        ensures
            final(self).performed(old(self), seq![Step::Check(Flag::DataRegisterNotEmpty)], res),
    {
        self.check(Flag::DataRegisterNotEmpty)
    }

    /// Sends `dat`: writes it to the data register and waits until the
    /// register is empty again.
    pub fn write_data(&mut self, dat: u8) -> (res: I2CWriteState)
        ensures
            final(self).performed(old(self), write_script(dat), res),
    {
        let ghost before = *self;
        proof {
            self.lemma_begin();
        }
        let ghost done = Seq::<Step>::empty();
        let st = self.follow(Ghost(before), Ghost(done), I2CState::Okay, Step::Send(dat));
        let ghost done = done.push(Step::Send(dat));
        let st = self.follow(Ghost(before), Ghost(done), st, Step::Poll(Flag::DataRegisterEmpty));
        assert(done.push(Step::Poll(Flag::DataRegisterEmpty)) =~= write_script(dat));
        st
    }

    /// Waits for a received byte and stores it in `out`, which is written
    /// only where the outcome is `Okay`.
    pub fn read_data(&mut self, out: &mut u8) -> (res: I2CReadState)
        ensures
            final(self).performed(old(self), read_script(), res),
            res is Okay ==> final(self).trace().last() == BusOp::DataIn(*final(out)),
            !(res is Okay) ==> *final(out) == *old(out),
    {
        let ghost before = *self;
        let ghost at = self.trace().len() as int;
        let state = self.poll(Flag::DataRegisterNotEmpty);
        let ghost mid = *self;
        let ghost polled = seq![Step::Poll(Flag::DataRegisterNotEmpty)];
        if state.is_ok() {
            *out = self.receive();
            proof {
                lemma_single(
                    Step::Receive,
                    self.trace(),
                    mid.trace().len() as int,
                    self.spec_poll_limit(),
                );
            }
        }
        proof {
            lemma_chain(
                polled,
                seq![Step::Receive],
                mid.trace(),
                self.trace(),
                at,
                self.spec_poll_limit(),
                state,
            );
            assert(polled + seq![Step::Receive] =~= read_script());
        }
        state
    }

    /// Receives the last byte of a transfer: switches the acknowledge off,
    /// then reads as `read_data` does.
    pub fn read_last_data(&mut self, out: &mut u8) -> (res: I2CReadState)
        ensures
            final(self).performed(
                old(self),
                seq![Step::Control(Cr1::AckOff)] + read_script(),
                res,
            ),
            res is Okay ==> final(self).trace().last() == BusOp::DataIn(*final(out)),
            !(res is Okay) ==> *final(out) == *old(out),
    {
        let ghost before = *self;
        let ghost at = self.trace().len() as int;
        self.control(Cr1::AckOff);
        let ghost mid = *self;
        proof {
            lemma_single(Step::Control(Cr1::AckOff), self.trace(), at, self.spec_poll_limit());
        }
        let res = self.read_data(out);
        proof {
            lemma_chain(
                seq![Step::Control(Cr1::AckOff)],
                read_script(),
                mid.trace(),
                self.trace(),
                at,
                self.spec_poll_limit(),
                res,
            );
        }
        res
    }

    /// Asks `fun` until its answer is not `Busy`. It asks at least once; it
    /// gives up with `Busy` when `fun` has answered `Busy` once more than
    /// the poll limit.
    ///
    /// The contract says that the result is an answer of `fun`. It cannot
    /// count the calls of a closure, so it leaves open how often `fun` was
    /// asked; `poll` states the same loop exactly, over the trace.
    pub fn poll_loop<T>(&self, fun: T) -> (res: I2CState) where T: Fn() -> I2CState
        requires
            fun.requires(()),
        ensures
            fun.ensures((), res),
    {
        let mut left = self.poll_limit;
        loop
            invariant
                fun.requires(()),
            decreases left,
        {
            let state = fun();
            if !state.is_busy() || left == 0 {
                return state;
            }
            left = left - 1;
        }
    }

    /// Sends the start signal and the address `addr` of a device.
    ///
    /// `read` tells whether a read (`true`) or a write (`false`) follows.
    pub fn start_polling(&mut self, addr: u8, read: bool) -> (res: I2CState)
        ensures
            final(self).performed(old(self), start_script(addr, read), res),
    {
        let shifted = addr << 1;
        assert(shifted == (addr % 128) * 2) by (bit_vector)
            requires
                shifted == addr << 1,
        ;
        let first = shifted + (if read {
            1
        } else {
            0
        });
        let ghost before = *self;
        let ghost done = Seq::<Step>::empty();
        proof {
            self.lemma_begin();
        }
        let st = self.follow(Ghost(before), Ghost(done), I2CState::Okay, Step::Control(Cr1::Start));
        let ghost done = done.push(Step::Control(Cr1::Start));
        let st = self.follow(Ghost(before), Ghost(done), st, Step::Poll(Flag::Start));
        let ghost done = done.push(Step::Poll(Flag::Start));
        let st = self.follow(Ghost(before), Ghost(done), st, Step::Send(first));
        let ghost done = done.push(Step::Send(first));
        if read {
            let st = self.follow(Ghost(before), Ghost(done), st, Step::Control(Cr1::PosAck));
            let ghost done = done.push(Step::Control(Cr1::PosAck));
            let st = self.follow(Ghost(before), Ghost(done), st, Step::Poll(Flag::Addr));
            let ghost done = done.push(Step::Poll(Flag::Addr));
            let st = self.follow(Ghost(before), Ghost(done), st, Step::Status2);
            assert(done.push(Step::Status2) =~= start_script(addr, read));
            st
        } else {
            let st = self.follow(Ghost(before), Ghost(done), st, Step::Poll(Flag::Addr));
            let ghost done = done.push(Step::Poll(Flag::Addr));
            let st = self.follow(Ghost(before), Ghost(done), st, Step::Status2);
            assert(done.push(Step::Status2) =~= start_script(addr, read));
            st
        }
    }

    /// Opens a write transaction with the device at `addr`.
    pub fn start_write_polling(&mut self, addr: u8) -> (res: I2CWriteState)
        ensures
            final(self).performed(old(self), start_script(addr, false), res),
    {
        self.start_polling(addr, false)
    }

    /// Opens a read transaction with the device at `addr`.
    pub fn start_read_polling(&mut self, addr: u8) -> (res: I2CReadState)
        ensures
            final(self).performed(old(self), start_script(addr, true), res),
    {
        let state = self.start_polling(addr, true);
        state
    }

    /// Closes the transaction with a stop condition.
    pub fn stop(&mut self) -> (res: I2CState)
        ensures
            res is Okay,
            final(self).performed(old(self), stop_script(), res),
    {
        self.enable_stop();
        I2CState::Okay
    }

    /// Whether communication is ongoing on the bus, by a read of status
    /// register 2.
    pub fn is_busy(&mut self) -> (busy: bool)
        ensures
            final(self).performed(old(self), seq![Step::Status2], I2CState::Okay),
            final(self).trace().last() matches BusOp::Status2(sr) && sr.busy == busy,
    {
        let ghost at = self.trace().len() as int;
        let sr = self.status2();
        proof {
            lemma_single(Step::Status2, self.trace(), at, self.spec_poll_limit());
        }
        sr.busy
    }

    /// Requests a start condition.
    pub fn enable_start(&mut self)
        ensures
            final(self).performed(old(self), seq![Step::Control(Cr1::Start)], I2CState::Okay),
    {
        let ghost at = self.trace().len() as int;
        self.control(Cr1::Start);
        proof {
            lemma_single(Step::Control(Cr1::Start), self.trace(), at, self.spec_poll_limit());
        }
    }

    /// Requests a stop condition.
    pub fn enable_stop(&mut self)
        ensures
            final(self).performed(old(self), stop_script(), I2CState::Okay),
    {
        let ghost at = self.trace().len() as int;
        self.control(Cr1::Stop);
        proof {
            lemma_single(Step::Control(Cr1::Stop), self.trace(), at, self.spec_poll_limit());
        }
    }
}

} // verus!
