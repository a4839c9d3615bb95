//! What a polling transaction is: a script of steps, and the register
//! accesses that a run of the script makes.
//!
//! A run takes the steps in order. Each step has an outcome; the first one
//! that is not `Okay` ends the run with its outcome, and no step after it
//! touches the bus.

use vstd::prelude::*;
use crate::i2c::{BusOp, Cr1, Flag, I2CState};

verus! {

/// One step of a polling transaction.
#[derive(Clone, Copy, PartialEq, Eq, Debug, Structural)]
pub enum Step {
    /// Change control register 1.
    Control(Cr1),
    /// Read the status once and decode it for the flag.
    Check(Flag),
    /// Read the status until a check for the flag is not `Busy`: once, and
    /// then at most as often again as the poll limit allows.
    Poll(Flag),
    /// Write a byte to the data register.
    Send(u8),
    /// Read a byte from the data register.
    Receive,
    /// Read status register 2.
    Status2,
}

/// The outcome of a poll for `flag` whose first status read is `ops[at]`,
/// with the index behind its last read. A poll reads the status at least
/// once; while the answer is `Busy` it reads again, up to `limit` times
/// more, and then gives up with `Busy`. `None` where `ops` does not hold
/// such a poll.
pub open spec fn poll_run(ops: Seq<BusOp>, at: int, flag: Flag, limit: nat) -> Option<
    (I2CState, int),
>
    decreases limit,
{
    if 0 <= at < ops.len() {
        match ops[at] {
            BusOp::Status(sr) => if sr.decode(flag) is Busy && limit > 0 {
                poll_run(ops, at + 1, flag, (limit - 1) as nat)
            } else {
                Some((sr.decode(flag), at + 1))
            },
            _ => None,
        }
    } else {
        None
    }
}

/// The outcome of `step` where its first access is `ops[at]`, with the index
/// behind its last access. `None` where `ops` holds something else there.
pub open spec fn step_run(step: Step, ops: Seq<BusOp>, at: int, limit: nat) -> Option<
    (I2CState, int),
> {
    match step {
        Step::Poll(flag) => poll_run(ops, at, flag, limit),
        _ => if 0 <= at < ops.len() {
            match (step, ops[at]) {
                (Step::Control(change), BusOp::Control(done)) => if change == done {
                    Some((I2CState::Okay, at + 1))
                } else {
                    None
                },
                (Step::Check(flag), BusOp::Status(sr)) => Some((sr.decode(flag), at + 1)),
                (Step::Send(dat), BusOp::DataOut(sent)) => if dat == sent {
                    Some((I2CState::Okay, at + 1))
                } else {
                    None
                },
                (Step::Receive, BusOp::DataIn(_)) => Some((I2CState::Okay, at + 1)),
                (Step::Status2, BusOp::Status2(_)) => Some((I2CState::Okay, at + 1)),
                _ => None,
            }
        } else {
            None
        },
    }
}

/// The outcome of a run of `script` whose accesses are exactly
/// `ops[at..]`: the steps run in order, the first one that is not `Okay`
/// ends the run with its outcome, and no access follows it. `None` where
/// `ops[at..]` is not such a run.
pub open spec fn replay(script: Seq<Step>, ops: Seq<BusOp>, at: int, limit: nat) -> Option<
    I2CState,
>
    decreases script.len(),
{
    if script.len() == 0 {
        if at == ops.len() {
            Some(I2CState::Okay)
        } else {
            None
        }
    } else {
        match step_run(script[0], ops, at, limit) {
            Some((res, next)) => if res is Okay {
                replay(script.skip(1), ops, next, limit)
            } else if next == ops.len() {
                Some(res)
            } else {
                None
            },
            None => None,
        }
    }
}

/// A poll that has read `n` times `Busy`, and may read again, goes on as a
/// poll with `n` reads less to its limit.
pub(crate) proof fn lemma_poll_busy(ops: Seq<BusOp>, at: int, flag: Flag, limit: nat, n: nat)
    requires
        0 <= at,
        at + n <= ops.len(),
        n <= limit,
        forall|i: int|
            at <= i < at + n ==> (#[trigger] ops[i] matches BusOp::Status(sr) && sr.decode(
                flag,
            ) is Busy),
    ensures
        poll_run(ops, at, flag, limit) == poll_run(ops, at + n, flag, (limit - n) as nat),
    decreases n,
{
    if n > 0 {
        assert(ops[at] matches BusOp::Status(sr) && sr.decode(flag) is Busy);
        lemma_poll_busy(ops, at + 1, flag, (limit - 1) as nat, (n - 1) as nat);
    }
}

/// A step that has run in `ops` runs the same in every trace that `ops`
/// begins.
proof fn lemma_step_frame(step: Step, ops: Seq<BusOp>, longer: Seq<BusOp>, at: int, limit: nat)
    requires
        ops.is_prefix_of(longer),
        step_run(step, ops, at, limit) is Some,
    ensures
        step_run(step, longer, at, limit) == step_run(step, ops, at, limit),
    decreases limit,
{
    match step {
        Step::Poll(flag) => {
            assert(longer[at] == ops[at]);
            match ops[at] {
                BusOp::Status(sr) => {
                    if sr.decode(flag) is Busy && limit > 0 {
                        lemma_step_frame(step, ops, longer, at + 1, (limit - 1) as nat);
                    }
                },
                _ => {},
            }
        },
        _ => {
            assert(longer[at] == ops[at]);
        },
    }
}

/// A step ends at or behind the index at which it began, inside the trace.
proof fn lemma_step_bounds(step: Step, ops: Seq<BusOp>, at: int, limit: nat)
    requires
        0 <= at <= ops.len(),
        step_run(step, ops, at, limit) is Some,
    ensures
        at <= step_run(step, ops, at, limit).unwrap().1 <= ops.len(),
    decreases limit,
{
    match step {
        Step::Poll(flag) => {
            match ops[at] {
                BusOp::Status(sr) => {
                    if sr.decode(flag) is Busy && limit > 0 {
                        lemma_step_bounds(step, ops, at + 1, (limit - 1) as nat);
                    }
                },
                _ => {},
            }
        },
        _ => {},
    }
}

/// A script of one step that ends with the trace has that step's outcome.
pub(crate) proof fn lemma_single(step: Step, ops: Seq<BusOp>, at: int, limit: nat)
    requires
        step_run(step, ops, at, limit) is Some,
        step_run(step, ops, at, limit).unwrap().1 == ops.len(),
    ensures
        replay(seq![step], ops, at, limit) == Some(step_run(step, ops, at, limit).unwrap().0),
{
    let script = seq![step];
    assert(script.skip(1).len() == 0);
    reveal_with_fuel(replay, 2);
}

/// Chaining: a run of `first` that ended `Okay` at the end of `ops`,
/// followed by a run of `second`, is a run of `first + second`; and a run of
/// `first` that ended otherwise is a run of `first + second` with the same
/// outcome, in which no step of `second` ran.
pub proof fn lemma_chain(
    first: Seq<Step>,
    second: Seq<Step>,
    ops: Seq<BusOp>,
    longer: Seq<BusOp>,
    at: int,
    limit: nat,
    res: I2CState,
)
    requires
        0 <= at <= ops.len(),
        ops.is_prefix_of(longer),
        replay(first, ops, at, limit) is Some,
        replay(first, ops, at, limit) == Some(I2CState::Okay) ==> replay(
            second,
            longer,
            ops.len() as int,
            limit,
        ) == Some(res),
        replay(first, ops, at, limit) != Some(I2CState::Okay) ==> longer == ops && replay(
            first,
            ops,
            at,
            limit,
        ) == Some(res),
    ensures
        replay(first + second, longer, at, limit) == Some(res),
    decreases first.len(),
{
    if first.len() == 0 {
        assert(first + second =~= second);
    } else {
        let both = first + second;
        assert(both[0] == first[0]);
        assert(both.skip(1) =~= first.skip(1) + second);
        lemma_step_frame(first[0], ops, longer, at, limit);
        lemma_step_bounds(first[0], ops, at, limit);
        let (one, next) = step_run(first[0], ops, at, limit).unwrap();
        if one is Okay {
            lemma_chain(first.skip(1), second, ops, longer, next, limit, res);
        }
    }
}

/// The bytes that `ops[at..]` has written to the data register, in order.
pub open spec fn bytes_sent(ops: Seq<BusOp>, at: int) -> Seq<u8>
    decreases ops.len() - at,
{
    if at < 0 || at >= ops.len() {
        Seq::<u8>::empty()
    } else {
        match ops[at] {
            BusOp::DataOut(dat) => seq![dat] + bytes_sent(ops, at + 1),
            _ => bytes_sent(ops, at + 1),
        }
    }
}

/// The bytes that `script` sends if every step is `Okay`, in order.
pub open spec fn bytes_to_send(script: Seq<Step>) -> Seq<u8>
    decreases script.len(),
{
    if script.len() == 0 {
        Seq::<u8>::empty()
    } else {
        match script[0] {
            Step::Send(dat) => seq![dat] + bytes_to_send(script.skip(1)),
            _ => bytes_to_send(script.skip(1)),
        }
    }
}

/// The bytes of two scripts in a row are the bytes of the first, then
/// those of the second.
pub proof fn lemma_bytes_to_send_add(first: Seq<Step>, second: Seq<Step>)
    ensures
        bytes_to_send(first + second) == bytes_to_send(first) + bytes_to_send(second),
    decreases first.len(),
{
    if first.len() == 0 {
        assert(first + second =~= second);
        assert(bytes_to_send(first) + bytes_to_send(second) =~= bytes_to_send(second));
    } else {
        let both = first + second;
        assert(both[0] == first[0]);
        assert(both.skip(1) =~= first.skip(1) + second);
        lemma_bytes_to_send_add(first.skip(1), second);
        let tail = bytes_to_send(first.skip(1));
        match first[0] {
            Step::Send(dat) => {
                assert(seq![dat] + (tail + bytes_to_send(second)) =~= (seq![dat] + tail)
                    + bytes_to_send(second));
            },
            _ => {},
        }
    }
}

/// A step writes its byte if it is a `Send`, and no byte otherwise.
proof fn lemma_bytes_of_step(step: Step, ops: Seq<BusOp>, at: int, limit: nat)
    requires
        0 <= at <= ops.len(),
        step_run(step, ops, at, limit) is Some,
    ensures
        bytes_sent(ops, at) == (match step {
            Step::Send(dat) => seq![dat],
            _ => Seq::<u8>::empty(),
        }) + bytes_sent(ops, step_run(step, ops, at, limit).unwrap().1),
    decreases limit,
{
    let next = step_run(step, ops, at, limit).unwrap().1;
    match step {
        Step::Poll(flag) => {
            match ops[at] {
                BusOp::Status(sr) => {
                    if sr.decode(flag) is Busy && limit > 0 {
                        lemma_bytes_of_step(step, ops, at + 1, (limit - 1) as nat);
                    }
                },
                _ => {},
            }
            assert(Seq::<u8>::empty() + bytes_sent(ops, next) =~= bytes_sent(ops, next));
        },
        Step::Send(dat) => {},
        _ => {
            assert(Seq::<u8>::empty() + bytes_sent(ops, next) =~= bytes_sent(ops, next));
        },
    }
}

/// What a run puts on the wire. The bytes that a run of `script` has
/// written are the first of the bytes that `script` sends, in their order;
/// they are all of them if the run has ended `Okay`.
pub proof fn lemma_bytes_of_run(script: Seq<Step>, ops: Seq<BusOp>, at: int, limit: nat)
    requires
        0 <= at <= ops.len(),
        replay(script, ops, at, limit) is Some,
    ensures
        bytes_sent(ops, at).is_prefix_of(bytes_to_send(script)),
        replay(script, ops, at, limit) == Some(I2CState::Okay) ==> bytes_sent(ops, at)
            == bytes_to_send(script),
    decreases script.len(),
{
    if script.len() > 0 {
        let (res, next) = step_run(script[0], ops, at, limit).unwrap();
        lemma_step_bounds(script[0], ops, at, limit);
        lemma_bytes_of_step(script[0], ops, at, limit);
        let head = match script[0] {
            Step::Send(dat) => seq![dat],
            _ => Seq::<u8>::empty(),
        };
        assert(bytes_to_send(script) =~= head + bytes_to_send(script.skip(1)));
        if res is Okay {
            lemma_bytes_of_run(script.skip(1), ops, next, limit);
            let sent = bytes_sent(ops, next);
            let all = bytes_to_send(script.skip(1));
            assert((head + sent).is_prefix_of(head + all)) by {
                assert forall|i: int| 0 <= i < (head + sent).len() implies (head + sent)[i] == (head
                    + all)[i] by {
                    if i >= head.len() {
                        assert(sent[i - head.len()] == all[i - head.len()]);
                    }
                }
            }
        } else {
            assert(head + bytes_sent(ops, next) =~= head);
        }
    }
}

/// The first byte of a transaction: the 7-bit address `addr` in bits 7 to 1,
/// and bit 0 set for a read.
pub open spec fn address_byte(addr: u8, read: bool) -> u8 {
    ((addr % 128) * 2 + if read {
        1int
    } else {
        0int
    }) as u8
}

/// Sending one byte: it is written to the data register, then a poll
/// waits until the register is empty again.
pub open spec fn write_script(dat: u8) -> Seq<Step> {
    seq![Step::Send(dat), Step::Poll(Flag::DataRegisterEmpty)]
}

/// Receiving one byte: a poll until one has arrived, then the read of the
/// data register.
pub open spec fn read_script() -> Seq<Step> {
    seq![Step::Poll(Flag::DataRegisterNotEmpty), Step::Receive]
}

/// Opening a transaction with the device at `addr`: a start condition, a
/// poll until it is out, the address byte, for a read the acknowledge setup,
/// a poll until the device has answered, and the read of status register 2
/// that releases the bus for data.
///
/// The address byte is not followed by a poll for an empty data register:
/// the bus does not raise that flag before the address is answered, and the
/// poll for the answer reports every error that is flagged.
pub open spec fn start_script(addr: u8, read: bool) -> Seq<Step> {
    seq![
        Step::Control(Cr1::Start),
        Step::Poll(Flag::Start),
        Step::Send(address_byte(addr, read)),
    ] + (if read {
        seq![Step::Control(Cr1::PosAck)]
    } else {
        Seq::<Step>::empty()
    }) + seq![Step::Poll(Flag::Addr), Step::Status2]
}

/// Closing a transaction: a stop condition.
pub open spec fn stop_script() -> Seq<Step> {
    seq![Step::Control(Cr1::Stop)]
}

} // verus!
