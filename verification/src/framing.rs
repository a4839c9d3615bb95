//! What the display's consumer puts on the wire for the packets that the
//! producers queue.

use vstd::prelude::*;
use crate::ssd1306::{
    control_packet,
    data_packet,
    lcd_step,
    packet_fits,
    queue_step,
    queued_packet,
    I2cEvent,
    Kick,
    LcdAction,
    LcdState,
    CONTROL_PREFIX,
    DATA_PREFIX,
};

verus! {

/// `n` byte-ready events in a row: the state and the queue after them, and
/// the actions in order.
pub open spec fn lcd_run(state: LcdState, queue: Seq<u8>, n: nat) -> (
    LcdState,
    Seq<u8>,
    Seq<LcdAction>,
)
    decreases n,
{
    if n == 0 {
        (state, queue, Seq::<LcdAction>::empty())
    } else {
        let first = lcd_step(state, queue, I2cEvent::CanWrite);
        let rest = lcd_run(first.0, first.1, (n - 1) as nat);
        (rest.0, rest.1, seq![first.2] + rest.2)
    }
}

/// The bytes of `payload` on the wire, one after the other.
pub open spec fn payload_wire(payload: Seq<u8>) -> Seq<LcdAction> {
    Seq::new(payload.len(), |i: int| LcdAction::Write(payload[i]))
}

/// A control payload on the wire: the control prefix before each byte.
pub open spec fn control_wire(payload: Seq<u8>) -> Seq<LcdAction> {
    Seq::new(
        2 * payload.len(),
        |i: int|
            if i % 2 == 0 {
                LcdAction::Write(CONTROL_PREFIX)
            } else {
                LcdAction::Write(payload[i / 2])
            },
    )
}

/// A data payload on the wire: the data prefix once, then the bytes.
pub open spec fn data_wire(payload: Seq<u8>) -> Seq<LcdAction> {
    seq![LcdAction::Write(DATA_PREFIX)] + payload_wire(payload)
}

/// Whether the consumer fetches a packet header on the next byte-ready
/// event.
pub open spec fn between_packets(state: LcdState) -> bool {
    state is Idle || state == LcdState::Control(0)
}

/// `n + m` events are `n` events, then `m` events.
pub proof fn lemma_run_split(state: LcdState, queue: Seq<u8>, n: nat, m: nat)
    ensures
        lcd_run(state, queue, n + m).0 == lcd_run(
            lcd_run(state, queue, n).0,
            lcd_run(state, queue, n).1,
            m,
        ).0,
        lcd_run(state, queue, n + m).1 == lcd_run(
            lcd_run(state, queue, n).0,
            lcd_run(state, queue, n).1,
            m,
        ).1,
        lcd_run(state, queue, n + m).2 == lcd_run(state, queue, n).2 + lcd_run(
            lcd_run(state, queue, n).0,
            lcd_run(state, queue, n).1,
            m,
        ).2,
    decreases n,
{
    if n == 0 {
        assert(lcd_run(state, queue, m).2 =~= Seq::<LcdAction>::empty() + lcd_run(
            state,
            queue,
            m,
        ).2);
    } else {
        let first = lcd_step(state, queue, I2cEvent::CanWrite);
        lemma_run_split(first.0, first.1, (n - 1) as nat, m);
        let mid = lcd_run(first.0, first.1, (n - 1) as nat);
        let end = lcd_run(mid.0, mid.1, m);
        assert((n + m - 1) as nat == (n - 1) as nat + m);
        assert(seq![first.2] + (mid.2 + end.2) =~= (seq![first.2] + mid.2) + end.2);
    }
}

/// The payload of a control packet goes out byte by byte, each behind a
/// control prefix, and what is queued behind it stays.
pub proof fn lemma_control_payload(left: u8, payload: Seq<u8>, rest: Seq<u8>)
    requires
        payload.len() == left,
    ensures
        lcd_run(LcdState::Control(left), payload + rest, 2 * (left as nat)).0 == LcdState::Control(
            0,
        ),
        lcd_run(LcdState::Control(left), payload + rest, 2 * (left as nat)).1 == rest,
        lcd_run(LcdState::Control(left), payload + rest, 2 * (left as nat)).2 == control_wire(
            payload,
        ),
    decreases left,
{
    let queue = payload + rest;
    if left == 0 {
        assert(queue =~= rest);
        assert(control_wire(payload) =~= Seq::<LcdAction>::empty());
    } else {
        let tail = payload.skip(1);
        assert(queue.skip(1) =~= tail + rest);
        lemma_control_payload((left - 1) as u8, tail, rest);
        let n = 2 * (left as nat);
        let first = lcd_step(LcdState::Control(left), queue, I2cEvent::CanWrite);
        let second = lcd_step(first.0, first.1, I2cEvent::CanWrite);
        let after = lcd_run(second.0, second.1, (n - 2) as nat);
        assert(lcd_run(first.0, first.1, (n - 1) as nat).2 == seq![second.2] + after.2);
        assert(lcd_run(LcdState::Control(left), queue, n).2 == seq![first.2] + (seq![second.2]
            + after.2));
        assert(seq![first.2] + (seq![second.2] + control_wire(tail)) =~= control_wire(payload)) by {
            let built = seq![first.2] + (seq![second.2] + control_wire(tail));
            assert(built.len() == control_wire(payload).len());
            assert forall|i: int| 0 <= i < built.len() implies built[i] == control_wire(
                payload,
            )[i] by {
                if i >= 2 {
                    assert(built[i] == control_wire(tail)[i - 2]);
                    assert(tail[(i - 2) / 2] == payload[i / 2]);
                }
            }
        }
    }
}

/// A control packet at the head of the queue goes out as its payload with
/// a control prefix before each byte: the header is not sent.
pub proof fn lemma_control_packet(state: LcdState, payload: Seq<u8>, rest: Seq<u8>)
    requires
        between_packets(state),
        1 <= payload.len() <= 127,
    ensures
        lcd_run(state, control_packet(payload) + rest, 2 * payload.len()).0 == LcdState::Control(0),
        lcd_run(state, control_packet(payload) + rest, 2 * payload.len()).1 == rest,
        lcd_run(state, control_packet(payload) + rest, 2 * payload.len()).2 == control_wire(
            payload,
        ),
{
    let left = payload.len() as u8;
    let header = 0x80u8 | left;
    assert(header & 0x80 != 0 && header & 0x7f == left) by (bit_vector)
        requires
            header == 0x80u8 | left,
            left <= 127,
    ;
    let queue = control_packet(payload) + rest;
    assert(queue[0] == header);
    assert(queue.skip(1) =~= payload + rest);
    lemma_control_payload(left, payload, rest);
    let n = 2 * payload.len();
    let first = lcd_step(state, queue, I2cEvent::CanWrite);
    let twin = lcd_step(LcdState::Control(left), payload + rest, I2cEvent::CanWrite);
    assert(first == twin);
    assert(lcd_run(state, queue, n) == lcd_run(LcdState::Control(left), payload + rest, n));
}

/// The payload of a data packet goes out byte by byte, and what is queued
/// behind it stays.
pub proof fn lemma_data_payload(left: u8, payload: Seq<u8>, rest: Seq<u8>)
    requires
        payload.len() == left,
    ensures
        lcd_run(LcdState::Data(left), payload + rest, left as nat).0 == LcdState::Data(0),
        lcd_run(LcdState::Data(left), payload + rest, left as nat).1 == rest,
        lcd_run(LcdState::Data(left), payload + rest, left as nat).2 == payload_wire(payload),
    decreases left,
{
    let queue = payload + rest;
    if left == 0 {
        assert(queue =~= rest);
        assert(payload_wire(payload) =~= Seq::<LcdAction>::empty());
    } else {
        let tail = payload.skip(1);
        assert(queue.skip(1) =~= tail + rest);
        lemma_data_payload((left - 1) as u8, tail, rest);
        let first = lcd_step(LcdState::Data(left), queue, I2cEvent::CanWrite);
        assert(seq![first.2] + payload_wire(tail) =~= payload_wire(payload));
    }
}

/// A data packet at the head of the queue goes out as the data prefix and
/// its payload: the header is not sent.
pub proof fn lemma_data_packet(state: LcdState, payload: Seq<u8>, rest: Seq<u8>)
    requires
        between_packets(state),
        payload.len() <= 127,
    ensures
        lcd_run(state, data_packet(payload) + rest, payload.len() + 1).0 == LcdState::Data(0),
        lcd_run(state, data_packet(payload) + rest, payload.len() + 1).1 == rest,
        lcd_run(state, data_packet(payload) + rest, payload.len() + 1).2 == data_wire(payload),
{
    let header = payload.len() as u8;
    assert(header & 0x80 == 0) by (bit_vector)
        requires
            header <= 127,
    ;
    let queue = data_packet(payload) + rest;
    assert(queue[0] == header);
    assert(queue.skip(1) =~= payload + rest);
    lemma_data_payload(header, payload, rest);
}

/// A data packet that follows a data run joins it: its header leaves the
/// queue on an event of its own, nothing is sent for it, and the payload
/// goes out without a new prefix.
pub proof fn lemma_data_joins_run(payload: Seq<u8>, rest: Seq<u8>)
    requires
        payload.len() <= 127,
    ensures
        lcd_run(LcdState::Data(0), data_packet(payload) + rest, payload.len() + 1).0
            == LcdState::Data(0),
        lcd_run(LcdState::Data(0), data_packet(payload) + rest, payload.len() + 1).1 == rest,
        lcd_run(LcdState::Data(0), data_packet(payload) + rest, payload.len() + 1).2
            == seq![LcdAction::Nothing] + payload_wire(payload),
{
    let header = payload.len() as u8;
    assert(header & 0x80 == 0) by (bit_vector)
        requires
            header <= 127,
    ;
    let queue = data_packet(payload) + rest;
    assert(queue[0] == header);
    assert(queue.skip(1) =~= payload + rest);
    lemma_data_payload(header, payload, rest);
}

/// Display framing. A control packet and then a data packet are queued
/// whole into a stopped, empty channel: the first producer is told to start
/// the bus, the second to arm the interrupt. The byte-ready events that
/// follow, two for each control byte and one more than the data bytes, send
/// each control byte behind a control prefix and then the data bytes behind
/// one data prefix, in the order in which they were queued, and empty the
/// queue.
pub proof fn lemma_control_then_data(control: Seq<u8>, data: Seq<u8>, capacity: nat)
    requires
        1 <= control.len() <= 127,
        data.len() <= 127,
        control.len() + data.len() + 2 <= capacity,
    ensures
        ({
            let first = queue_step(
                LcdState::Stopped,
                Seq::<u8>::empty(),
                capacity,
                control_packet(control),
                0,
            );
            let second = queue_step(first.0, first.1, capacity, data_packet(data), 0);
            let sent = lcd_run(second.0, second.1, 2 * control.len() + data.len() + 1);
            &&& first.2.kick == Some(Kick::Start)
            &&& second.2.kick == Some(Kick::Listen)
            &&& second.0 is Idle
            &&& second.1 == control_packet(control) + data_packet(data)
            &&& sent.0 == LcdState::Data(0)
            &&& sent.1 == Seq::<u8>::empty()
            &&& sent.2 == control_wire(control) + data_wire(data)
        }),
{
    let first = queue_step(
        LcdState::Stopped,
        Seq::<u8>::empty(),
        capacity,
        control_packet(control),
        0,
    );
    let second = queue_step(first.0, first.1, capacity, data_packet(data), 0);
    let queue = control_packet(control) + data_packet(data);
    assert(control_packet(control).subrange(0, control_packet(control).len() as int)
        =~= control_packet(control));
    assert(data_packet(data).subrange(0, data_packet(data).len() as int) =~= data_packet(data));
    assert(first.1 =~= control_packet(control));
    assert(second.1 =~= queue);
    let empty = Seq::<u8>::empty();
    assert(data_packet(data) + empty =~= data_packet(data));
    lemma_control_packet(LcdState::Idle, control, data_packet(data));
    lemma_data_packet(LcdState::Control(0), data, empty);
    lemma_run_split(LcdState::Idle, queue, 2 * control.len(), data.len() + 1);
}

/// The packets as they are queued, one behind the other.
pub open spec fn queued_stream(packets: Seq<(bool, Seq<u8>)>) -> Seq<u8>
    decreases packets.len(),
{
    if packets.len() == 0 {
        Seq::<u8>::empty()
    } else {
        queued_packet(packets[0]) + queued_stream(packets.skip(1))
    }
}

/// What the consumer does for one packet. In a data run, a data packet
/// joins the run and a control packet is held back for a restart; between
/// packets, each goes out with its own prefix.
pub open spec fn packet_frame(in_data_run: bool, packet: (bool, Seq<u8>)) -> Seq<LcdAction> {
    if packet.0 {
        if in_data_run {
            seq![LcdAction::Restart] + control_wire(packet.1)
        } else {
            control_wire(packet.1)
        }
    } else if in_data_run {
        seq![LcdAction::Nothing] + payload_wire(packet.1)
    } else {
        data_wire(packet.1)
    }
}

/// What the consumer does for the packets, in order.
pub open spec fn stream_frames(in_data_run: bool, packets: Seq<(bool, Seq<u8>)>) -> Seq<LcdAction>
    decreases packets.len(),
{
    if packets.len() == 0 {
        Seq::<LcdAction>::empty()
    } else {
        packet_frame(in_data_run, packets[0]) + stream_frames(!packets[0].0, packets.skip(1))
    }
}

/// The state in which the consumer is left by the last of the packets.
pub open spec fn state_after(state: LcdState, packets: Seq<(bool, Seq<u8>)>) -> LcdState {
    if packets.len() == 0 {
        state
    } else if packets.last().0 {
        LcdState::Control(0)
    } else {
        LcdState::Data(0)
    }
}

/// Display framing, for any packets. The consumer stands between two
/// packets or at the end of a data run, and whole packets are queued. Then
/// as many byte-ready events as `stream_frames` has actions take exactly
/// these packets from the queue, and the actions are those of
/// `stream_frames`: every payload byte is sent once and in the order in
/// which it was queued, each control byte behind a control prefix, each run
/// of data packets behind one data prefix, and no header is sent.
pub proof fn lemma_stream(state: LcdState, packets: Seq<(bool, Seq<u8>)>, rest: Seq<u8>)
    requires
        between_packets(state) || state == LcdState::Data(0),
        forall|i: int| 0 <= i < packets.len() ==> packet_fits(#[trigger] packets[i]),
    ensures
        ({
            let frames = stream_frames(state == LcdState::Data(0), packets);
            let sent = lcd_run(state, queued_stream(packets) + rest, frames.len());
            &&& sent.0 == state_after(state, packets)
            &&& sent.1 == rest
            &&& sent.2 == frames
        }),
    decreases packets.len(),
{
    let in_run = state == LcdState::Data(0);
    let frames = stream_frames(in_run, packets);
    if packets.len() == 0 {
        assert(queued_stream(packets) + rest =~= rest);
    } else {
        let packet = packets[0];
        let others = packets.skip(1);
        let behind = queued_stream(others) + rest;
        let queue = queued_stream(packets) + rest;
        assert(queue =~= queued_packet(packet) + behind);
        assert(packet_fits(packet));
        assert forall|i: int| 0 <= i < others.len() implies packet_fits(#[trigger] others[i]) by {
            assert(others[i] == packets[i + 1]);
        }
        let frame = packet_frame(in_run, packet);
        let next = if packet.0 {
            LcdState::Control(0)
        } else {
            LcdState::Data(0)
        };
        // the first packet
        assert(lcd_run(state, queue, frame.len()).0 == next && lcd_run(state, queue, frame.len()).1
            == behind && lcd_run(state, queue, frame.len()).2 == frame) by {
            if packet.0 {
                if in_run {
                    let left = packet.1.len() as u8;
                    let header = 0x80u8 | left;
                    assert(header & 0x80 != 0) by (bit_vector)
                        requires
                            header == 0x80u8 | left,
                    ;
                    assert(queue[0] == header);
                    lemma_control_packet(LcdState::Idle, packet.1, behind);
                    assert(frame.len() == 1 + 2 * packet.1.len());
                } else {
                    lemma_control_packet(state, packet.1, behind);
                }
            } else {
                if in_run {
                    lemma_data_joins_run(packet.1, behind);
                } else {
                    lemma_data_packet(state, packet.1, behind);
                }
            }
        }
        // the packets behind it
        lemma_stream(next, others, rest);
        let more = stream_frames(!packet.0, others);
        assert(frames == frame + more);
        lemma_run_split(state, queue, frame.len(), more.len());
        assert(state_after(state, packets) == state_after(next, others)) by {
            if others.len() > 0 {
                assert(others.last() == packets.last());
            }
        }
    }
}

} // verus!
