//! Driver for an SSD1306 display on the I2C bus.
//!
//! Initialisation runs as one polling transaction after another. After
//! that the display is fed from a ring buffer of length-prefixed packets:
//! the producers queue packets, and the bus interrupt drains the buffer one
//! event at a time, framing each payload byte as the display expects it.

use vstd::prelude::*;
use vstd::slice::slice_subrange;
use crate::cyclicbuffer::CyclicBuffer;
use crate::i2c::{BusOp, Cr1, Flag, I2CState, I2c, I2C};
use crate::transaction::{
    address_byte,
    bytes_sent,
    bytes_to_send,
    lemma_bytes_of_run,
    lemma_bytes_to_send_add,
    replay,
    start_script,
    stop_script,
    write_script,
    Step,
};

verus! {

pub const CMD_DISPLAYOFF: u8 = 0xAE;

pub const CMD_SETDISPLAYCLOCKDIV: u8 = 0xD5;

pub const CMD_SETMULTIPLEX: u8 = 0xA8;

pub const CMD_SETDISPLAYOFFSET: u8 = 0xD3;

pub const CMD_CHARGEPUMP: u8 = 0x8D;

pub const CMD_SETCOMPINS: u8 = 0xDA;

pub const CMD_SETCONTRAST: u8 = 0x81;

pub const CMD_SETSEGREMAP: u8 = 0xA0;

pub const CMD_SETPRECHARGE: u8 = 0xD9;

pub const CMD_SETVCOMDETECT: u8 = 0xDB;

pub const CMD_SETDISPLAYALLON_RESUME: u8 = 0xA4;

pub const CMD_NORMALDISPLAY: u8 = 0xA6;

pub const CMD_DEACTIVATE_SCROLL: u8 = 0x2E;

pub const CMD_DISPLAYON: u8 = 0xAF;

pub const CMD_SETSTARTLINE: u8 = 0x40;

pub const CMD_MEMORYMODE: u8 = 0x20;

pub const LCD_HEIGHT: u8 = 32;

/// The 7-bit bus address of the display.
pub const ADDRESS: u8 = 0b0111100;

/// Column patterns of the digits 0 to 9, five columns each.
pub const NUMBERS: [[u8; 5]; 10] = [
    [0b01111110, 0b10000001, 0b10000001, 0b10000001, 0b01111110],
    [0b00000000, 0b01000001, 0b11111111, 0b00000001, 0b00000000],
    [0b01000011, 0b10000101, 0b10001001, 0b10010001, 0b01100001],
    [0b01000010, 0b10000001, 0b10010001, 0b10010001, 0b01101110],
    [0b00011000, 0b00101000, 0b01001000, 0b11111111, 0b00001000],
    [0b11110001, 0b10010001, 0b10010001, 0b10010001, 0b10001110],
    [0b01111110, 0b10010001, 0b10010001, 0b10010001, 0b10001110],
    [0b11000000, 0b10001111, 0b10010000, 0b10100000, 0b11000000],
    [0b01101110, 0b10010001, 0b10010001, 0b10010001, 0b11101110],
    [0b01100000, 0b10010001, 0b10010001, 0b10010001, 0b01111110],
];

/// The commands that set the controller up, in the order in which they are
/// sent, one transaction each.
pub const INIT_COMMANDS: [u8; 26] = [
    CMD_DISPLAYOFF,
    CMD_DISPLAYOFF,
    CMD_SETDISPLAYCLOCKDIV,
    0x80,
    CMD_SETMULTIPLEX,
    LCD_HEIGHT - 1,
    CMD_SETDISPLAYOFFSET,
    0x00,
    CMD_SETSTARTLINE,
    CMD_MEMORYMODE,
    0x00,
    CMD_CHARGEPUMP,
    0x14,
    CMD_SETSEGREMAP | 0x01,
    CMD_SETCOMPINS,
    0x2,
    CMD_SETCONTRAST,
    0x8F,
    CMD_SETPRECHARGE,
    0xF1,
    CMD_SETVCOMDETECT,
    0x40,
    CMD_SETDISPLAYALLON_RESUME,
    CMD_NORMALDISPLAY,
    CMD_DEACTIVATE_SCROLL,
    CMD_DISPLAYON,
];

/// The start of the first screen: the column window 0 to 127 as commands,
/// then the prefix for the data that follows.
pub const FIRST_SCREEN_HEAD: [u8; 7] = [0x80, 0x21, 0x80, 0x00, 0x80, 127, 0x40];

/// Power state of the display module.
#[derive(Clone, Copy, PartialEq, Eq, Debug, Structural)]
pub enum ModuleState {
    Starting,
    PowerOff,
}

/// Sending the command `b` in a transaction of its own: the start, the
/// prefix for one command, the command, the stop.
pub open spec fn control_script(b: u8) -> Seq<Step> {
    start_script(ADDRESS, false) + write_script(0x00) + write_script(b) + stop_script()
}

/// Sending each command of `cmds` as `control_script` does, in order.
pub open spec fn controls_script(cmds: Seq<u8>) -> Seq<Step>
    decreases cmds.len(),
{
    if cmds.len() == 0 {
        Seq::<Step>::empty()
    } else {
        controls_script(cmds.drop_last()) + control_script(cmds.last())
    }
}

/// Sending each byte of `bytes` as `write_script` does, in order.
pub open spec fn writes_script(bytes: Seq<u8>) -> Seq<Step>
    decreases bytes.len(),
{
    if bytes.len() == 0 {
        Seq::<Step>::empty()
    } else {
        writes_script(bytes.drop_last()) + write_script(bytes.last())
    }
}

/// `n` zero bytes.
pub open spec fn blank(n: nat) -> Seq<u8> {
    Seq::new(n, |i: int| 0u8)
}

/// What the first screen sends after the address: the column window, 22
/// blank columns, the digit 0, 10 blank columns, the digit 1, 10 blank
/// columns.
pub open spec fn first_screen() -> Seq<u8> {
    FIRST_SCREEN_HEAD@ + blank(22) + NUMBERS[0]@ + blank(10) + NUMBERS[1]@ + blank(10)
}

/// The whole initialisation: each command of `INIT_COMMANDS` in a
/// transaction of its own, a stop, and one transaction that sends the
/// first screen.
pub open spec fn init_script() -> Seq<Step> {
    controls_script(INIT_COMMANDS@) + stop_script() + start_script(ADDRESS, false) + writes_script(
        first_screen(),
    ) + stop_script()
}

/// The bytes that the commands `cmds` take on the wire: for each the
/// address byte, the prefix for one command, and the command.
pub open spec fn controls_bytes(cmds: Seq<u8>) -> Seq<u8>
    decreases cmds.len(),
{
    if cmds.len() == 0 {
        Seq::<u8>::empty()
    } else {
        controls_bytes(cmds.drop_last()) + seq![address_byte(ADDRESS, false), 0x00u8, cmds.last()]
    }
}

/// The bytes that the whole initialisation takes on the wire.
pub open spec fn init_bytes() -> Seq<u8> {
    controls_bytes(INIT_COMMANDS@) + seq![address_byte(ADDRESS, false)] + first_screen()
}

/// Sends the command `b` to the display in a transaction of its own.
pub fn write_control<S: I2C>(i2c: &mut I2c<S>, b: u8) -> (res: I2CState)
    ensures
        final(i2c).performed(old(i2c), control_script(b), res),
{
    let ghost before = *i2c;
    let st = i2c.start_write_polling(ADDRESS);
    let ghost done = start_script(ADDRESS, false);
    let st = i2c.follow(Ghost(before), Ghost(done), st, Step::Send(0x00));
    let ghost done = done.push(Step::Send(0x00));
    let st = i2c.follow(Ghost(before), Ghost(done), st, Step::Poll(Flag::DataRegisterEmpty));
    let ghost done = done.push(Step::Poll(Flag::DataRegisterEmpty));
    let st = i2c.follow(Ghost(before), Ghost(done), st, Step::Send(b));
    let ghost done = done.push(Step::Send(b));
    let st = i2c.follow(Ghost(before), Ghost(done), st, Step::Poll(Flag::DataRegisterEmpty));
    let ghost done = done.push(Step::Poll(Flag::DataRegisterEmpty));
    let st = i2c.follow(Ghost(before), Ghost(done), st, Step::Control(Cr1::Stop));
    assert(done.push(Step::Control(Cr1::Stop)) =~= control_script(b));
    st
}

/// The bytes of the first screen.
fn first_screen_bytes() -> (bytes: [u8; 59])
    ensures
        bytes@ == first_screen(),
{
    let mut bytes: [u8; 59] = [0;59];
    place(&mut bytes, 0, FIRST_SCREEN_HEAD.as_slice());
    place(&mut bytes, 29, NUMBERS[0].as_slice());
    place(&mut bytes, 44, NUMBERS[1].as_slice());
    assert(bytes@ =~= first_screen());
    bytes
}

/// Copies `piece` into `bytes`, from the index `at` on.
fn place(bytes: &mut [u8; 59], at: usize, piece: &[u8])
    requires
        at + piece@.len() <= 59,
    ensures
        forall|i: int|
            0 <= i < 59 ==> final(bytes)@[i] == if at <= i < at + piece@.len() {
                piece@[i - at]
            } else {
                old(bytes)@[i]
            },
{
    let mut k: usize = 0;
    while k < piece.len()
        invariant
            k <= piece@.len(),
            at + piece@.len() <= 59,
            forall|i: int|
                0 <= i < 59 ==> bytes@[i] == if at <= i < at + k {
                    piece@[i - at]
                } else {
                    old(bytes)@[i]
                },
        decreases piece@.len() - k,
    {
        bytes[at + k] = piece[k];
        k = k + 1;
    }
}

/// Sends each command of `cmds` in a transaction of its own, until one
/// fails.
fn write_controls<S: I2C>(i2c: &mut I2c<S>, cmds: &[u8]) -> (res: I2CState)
    ensures
        final(i2c).performed(old(i2c), controls_script(cmds@), res),
{
    let ghost before = *i2c;
    let mut st = I2CState::Okay;
    let mut i: usize = 0;
    proof {
        i2c.lemma_begin();
    }
    while i < cmds.len()
        invariant
            i <= cmds@.len(),
            i2c.performed(&before, controls_script(cmds@.take(i as int)), st),
        decreases cmds@.len() - i,
    {
        let ghost mid = *i2c;
        let ghost so_far = st;
        if st.is_ok() {
            st = write_control(i2c, cmds[i]);
        }
        proof {
            let sent = cmds@.take(i as int);
            assert(cmds@.take(i + 1).drop_last() =~= sent);
            I2c::lemma_extend(
                &before,
                &mid,
                i2c,
                controls_script(sent),
                control_script(cmds[i as int]),
                so_far,
                st,
            );
        }
        i = i + 1;
    }
    assert(cmds@.take(i as int) =~= cmds@);
    st
}

/// Sends each byte of `bytes` in the open transaction, until one fails.
fn write_bytes<S: I2C>(i2c: &mut I2c<S>, bytes: &[u8]) -> (res: I2CState)
    ensures
        final(i2c).performed(old(i2c), writes_script(bytes@), res),
{
    let ghost before = *i2c;
    let mut st = I2CState::Okay;
    let mut i: usize = 0;
    proof {
        i2c.lemma_begin();
    }
    while i < bytes.len()
        invariant
            i <= bytes@.len(),
            i2c.performed(&before, writes_script(bytes@.take(i as int)), st),
        decreases bytes@.len() - i,
    {
        let ghost mid = *i2c;
        let ghost so_far = st;
        if st.is_ok() {
            st = i2c.write_data(bytes[i]);
        }
        proof {
            let sent = bytes@.take(i as int);
            assert(bytes@.take(i + 1).drop_last() =~= sent);
            I2c::lemma_extend(
                &before,
                &mid,
                i2c,
                writes_script(sent),
                write_script(bytes[i as int]),
                so_far,
                st,
            );
        }
        i = i + 1;
    }
    assert(bytes@.take(i as int) =~= bytes@);
    st
}

/// Sets the controller up and draws the first screen, one polling
/// transaction after another. The first step that is not `Okay` ends the
/// initialisation with its outcome, and nothing is sent after it.
pub fn sync_init<S: I2C>(i2c: &mut I2c<S>) -> (res: I2CState)
    ensures
        final(i2c).performed(old(i2c), init_script(), res),
        bytes_sent(final(i2c).trace(), old(i2c).trace().len() as int).is_prefix_of(init_bytes()),
        res is Okay ==> bytes_sent(final(i2c).trace(), old(i2c).trace().len() as int)
            == init_bytes(),
{
    let ghost before = *i2c;
    let st = write_controls(i2c, INIT_COMMANDS.as_slice());
    let ghost done = controls_script(INIT_COMMANDS@);
    let st = i2c.follow(Ghost(before), Ghost(done), st, Step::Control(Cr1::Stop));
    let ghost done = done.push(Step::Control(Cr1::Stop));

    let ghost mid = *i2c;
    let ghost so_far = st;
    let st = if st.is_ok() {
        i2c.start_write_polling(ADDRESS)
    } else {
        st
    };
    proof {
        I2c::lemma_extend(&before, &mid, i2c, done, start_script(ADDRESS, false), so_far, st);
    }
    let ghost done = done + start_script(ADDRESS, false);

    let bytes = first_screen_bytes();
    let ghost mid = *i2c;
    let ghost so_far = st;
    let st = if st.is_ok() {
        write_bytes(i2c, bytes.as_slice())
    } else {
        st
    };
    proof {
        I2c::lemma_extend(&before, &mid, i2c, done, writes_script(first_screen()), so_far, st);
    }
    let ghost done = done + writes_script(first_screen());

    let st = i2c.follow(Ghost(before), Ghost(done), st, Step::Control(Cr1::Stop));
    assert(done.push(Step::Control(Cr1::Stop)) =~= init_script());
    proof {
        lemma_init_sends(i2c.trace(), before.trace().len() as int, i2c.spec_poll_limit());
    }
    st
}

/// One command in a transaction of its own takes three bytes.
proof fn lemma_control_bytes(b: u8)
    ensures
        bytes_to_send(control_script(b)) == seq![address_byte(ADDRESS, false), 0x00u8, b],
{
    let start = start_script(ADDRESS, false);
    assert(start =~= seq![
        Step::Control(Cr1::Start),
        Step::Poll(Flag::Start),
        Step::Send(address_byte(ADDRESS, false)),
        Step::Poll(Flag::Addr),
        Step::Status2,
    ]);
    assert(bytes_to_send(start) =~= seq![address_byte(ADDRESS, false)]) by {
        reveal_with_fuel(bytes_to_send, 6);
    }
    assert(bytes_to_send(write_script(0x00)) =~= seq![0x00u8]) by {
        reveal_with_fuel(bytes_to_send, 3);
    }
    assert(bytes_to_send(write_script(b)) =~= seq![b]) by {
        reveal_with_fuel(bytes_to_send, 3);
    }
    assert(bytes_to_send(stop_script()) =~= Seq::<u8>::empty()) by {
        reveal_with_fuel(bytes_to_send, 2);
    }
    lemma_bytes_to_send_add(start, write_script(0x00));
    lemma_bytes_to_send_add(start + write_script(0x00), write_script(b));
    lemma_bytes_to_send_add(start + write_script(0x00) + write_script(b), stop_script());
}

/// Commands in transactions of their own take three bytes each.
proof fn lemma_controls_bytes(cmds: Seq<u8>)
    ensures
        bytes_to_send(controls_script(cmds)) == controls_bytes(cmds),
    decreases cmds.len(),
{
    if cmds.len() > 0 {
        lemma_controls_bytes(cmds.drop_last());
        lemma_control_bytes(cmds.last());
        lemma_bytes_to_send_add(controls_script(cmds.drop_last()), control_script(cmds.last()));
    }
}

/// Bytes sent one by one are these bytes.
proof fn lemma_writes_bytes(bytes: Seq<u8>)
    ensures
        bytes_to_send(writes_script(bytes)) == bytes,
    decreases bytes.len(),
{
    if bytes.len() > 0 {
        lemma_writes_bytes(bytes.drop_last());
        assert(bytes_to_send(write_script(bytes.last())) =~= seq![bytes.last()]) by {
            reveal_with_fuel(bytes_to_send, 3);
        }
        lemma_bytes_to_send_add(writes_script(bytes.drop_last()), write_script(bytes.last()));
        assert(bytes.drop_last() + seq![bytes.last()] =~= bytes);
    }
}

/// What the initialisation puts on the wire. The bytes that a run of
/// `init_script` has written are the first of `init_bytes`, in their order:
/// commands and first screen go out as listed, and a failure cuts the list
/// short. They are all of `init_bytes` if the run has ended `Okay`.
pub proof fn lemma_init_sends(ops: Seq<BusOp>, at: int, limit: nat)
    requires
        0 <= at <= ops.len(),
        replay(init_script(), ops, at, limit) is Some,
    ensures
        bytes_sent(ops, at).is_prefix_of(init_bytes()),
        replay(init_script(), ops, at, limit) == Some(I2CState::Okay) ==> bytes_sent(ops, at)
            == init_bytes(),
{
    lemma_bytes_of_run(init_script(), ops, at, limit);
    let commands = controls_script(INIT_COMMANDS@);
    let start = start_script(ADDRESS, false);
    let screen = writes_script(first_screen());
    lemma_controls_bytes(INIT_COMMANDS@);
    lemma_writes_bytes(first_screen());
    assert(start =~= seq![
        Step::Control(Cr1::Start),
        Step::Poll(Flag::Start),
        Step::Send(address_byte(ADDRESS, false)),
        Step::Poll(Flag::Addr),
        Step::Status2,
    ]);
    assert(bytes_to_send(start) =~= seq![address_byte(ADDRESS, false)]) by {
        reveal_with_fuel(bytes_to_send, 6);
    }
    assert(bytes_to_send(stop_script()) =~= Seq::<u8>::empty()) by {
        reveal_with_fuel(bytes_to_send, 2);
    }
    lemma_bytes_to_send_add(commands, stop_script());
    lemma_bytes_to_send_add(commands + stop_script(), start);
    lemma_bytes_to_send_add(commands + stop_script() + start, screen);
    lemma_bytes_to_send_add(commands + stop_script() + start + screen, stop_script());
    assert(bytes_to_send(init_script()) =~= init_bytes());
}

/// Capacity of the display's packet buffer.
pub const BUF_LEN: usize = 512;

/// Sent before each command byte.
pub const CONTROL_PREFIX: u8 = 0x80;

/// Sent once before a run of data bytes.
pub const DATA_PREFIX: u8 = 0x40;

/// Where the bus interrupt stands in the packet stream.
#[derive(Clone, Copy, PartialEq, Eq, Debug, Structural)]
pub enum LcdState {
    /// No transaction is open and nothing is pending.
    Stopped,
    /// Between packets: the next byte in the buffer is a packet header.
    Idle,
    /// In a data packet with this many payload bytes to go.
    Data(u8),
    /// In a control packet with this many payload bytes to go, before the
    /// prefix of the next one.
    Control(u8),
    /// In a control packet with this many payload bytes to go, the prefix of
    /// the next one sent.
    Control2(u8),
}

/// What the bus reports when its event interrupt fires.
#[derive(Clone, Copy, PartialEq, Eq, Debug, Structural)]
pub enum I2cEvent {
    /// A start condition is out: the bus needs the device address.
    Started,
    /// The bus is ready for the next byte.
    CanWrite,
    /// Anything else.
    Other,
}

/// What the interrupt handler is to do on the bus.
#[derive(Clone, Copy, PartialEq, Eq, Debug, Structural)]
pub enum LcdAction {
    Nothing,
    /// Send this device address with the write direction.
    WriteAddress(u8),
    /// Send this byte.
    Write(u8),
    /// Stop asking for bytes until a producer arms the interrupt again.
    Suspend,
    /// Issue a repeated start.
    Restart,
    /// The event cannot happen in this state: halt.
    Halt,
}

/// What a producer is to do on the bus once its packet is queued.
#[derive(Clone, Copy, PartialEq, Eq, Debug, Structural)]
pub enum Kick {
    /// Issue a start condition and arm the event interrupt.
    Start,
    /// Arm the event interrupt.
    Listen,
}

/// How far a producer has come with a packet.
#[derive(Clone, Copy, PartialEq, Eq, Debug, Structural)]
pub struct Progress {
    /// Number of bytes of the packet, header included, that are queued.
    pub queued: usize,
    /// Set once the whole packet is queued.
    pub kick: Option<Kick>,
}

/// The longest payload that a `Packet` holds.
pub const PACKET_MAX: usize = 8;

/// A packet for the display: a control or a data payload of up to
/// `PACKET_MAX` bytes, held in place.
#[derive(Clone, Copy, Debug, PartialEq, Eq)]
pub struct Packet {
    control: bool,
    len: usize,
    bytes: [u8; 8],
}

impl View for Packet {
    type V = (bool, Seq<u8>);

    /// The kind (`true` for control) and the payload.
    closed spec fn view(&self) -> (bool, Seq<u8>) {
        (self.control, self.bytes@.take(self.len as int))
    }
}

impl Packet {
    #[verifier::type_invariant]
    closed spec fn inv(&self) -> bool {
        self.len <= 8
    }

    /// The packet of this kind with this payload, if the payload is not
    /// longer than `PACKET_MAX`.
    pub fn new(control: bool, payload: &[u8]) -> (packet: Option<Packet>)
        ensures
            packet is Some <==> payload@.len() <= PACKET_MAX,
            packet is Some ==> packet.unwrap()@ == (control, payload@),
    {
        if payload.len() > PACKET_MAX {
            return None;
        }
        let mut bytes: [u8; 8] = [0;8];
        let mut i: usize = 0;
        while i < payload.len()
            invariant
                i <= payload@.len() <= 8,
                bytes@.take(i as int) == payload@.take(i as int),
            decreases payload@.len() - i,
        {
            bytes[i] = payload[i];
            i = i + 1;
        }
        assert(payload@.take(i as int) =~= payload@);
        Some(Packet { control, len: payload.len(), bytes })
    }

    /// The data packet without payload.
    pub fn blank() -> (packet: Packet)
        ensures
            packet@ == (false, Seq::<u8>::empty()),
    {
        let packet = Packet { control: false, len: 0, bytes: [0;8] };
        assert(packet@.1 =~= Seq::<u8>::empty());
        packet
    }

    /// Whether this is a control packet.
    pub fn control(&self) -> (control: bool)
        ensures
            control == self@.0,
    {
        self.control
    }

    /// The payload.
    pub fn payload(&self) -> (payload: &[u8])
        ensures
            payload@ == self@.1,
            payload@.len() <= PACKET_MAX,
    {
        proof {
            use_type_invariant(self);
        }
        slice_subrange(self.bytes.as_slice(), 0, self.len)
    }
}

/// The display channel: the packet buffer and the state of its consumer.
pub struct Lcd {
    pub state: LcdState,
    pub buffer: CyclicBuffer<u8>,
}

/// Whether a packet header announces a control packet: bit 7.
pub open spec fn is_control(header: u8) -> bool {
    header & 0x80 != 0
}

/// The payload length that a packet header announces: bits 6 to 0.
pub open spec fn payload_len(header: u8) -> u8 {
    header & 0x7f
}

/// A data packet as it is queued: the length, then the payload.
pub open spec fn data_packet(dat: Seq<u8>) -> Seq<u8> {
    seq![dat.len() as u8] + dat
}

/// A control packet as it is queued: the length with bit 7 set, then the
/// payload.
pub open spec fn control_packet(dat: Seq<u8>) -> Seq<u8> {
    seq![0x80u8 | (dat.len() as u8)] + dat
}

/// Whether a packet, given as its kind (`true` for control) and its
/// payload, can be queued: its length fits the header, and a control packet
/// is not empty.
pub open spec fn packet_fits(packet: (bool, Seq<u8>)) -> bool {
    packet.1.len() <= 127 && (packet.0 ==> packet.1.len() >= 1)
}

/// A packet as it is queued.
pub open spec fn queued_packet(packet: (bool, Seq<u8>)) -> Seq<u8> {
    if packet.0 {
        control_packet(packet.1)
    } else {
        data_packet(packet.1)
    }
}

/// Fetching the next packet: the header leaves the queue and its prefix
/// goes out. Nothing happens while the queue is empty.
pub open spec fn next_packet(state: LcdState, queue: Seq<u8>) -> (LcdState, Seq<u8>, LcdAction) {
    if queue.len() == 0 {
        (state, queue, LcdAction::Nothing)
    } else if is_control(queue[0]) {
        (LcdState::Control2(payload_len(queue[0])), queue.skip(1), LcdAction::Write(CONTROL_PREFIX))
    } else {
        (LcdState::Data(queue[0]), queue.skip(1), LcdAction::Write(DATA_PREFIX))
    }
}

/// One bus event: the new state, the new queue and the action.
///
/// Inside a packet an empty queue suspends the channel, whatever the count.
/// A control packet that has sent its prefix and has no byte to go cannot
/// take the byte that is queued: that halts.
pub open spec fn lcd_step(state: LcdState, queue: Seq<u8>, event: I2cEvent) -> (
    LcdState,
    Seq<u8>,
    LcdAction,
) {
    match event {
        I2cEvent::Started => (state, queue, LcdAction::WriteAddress(ADDRESS)),
        I2cEvent::Other => (state, queue, LcdAction::Nothing),
        I2cEvent::CanWrite => match state {
            LcdState::Stopped => (state, queue, LcdAction::Halt),
            LcdState::Idle => next_packet(state, queue),
            LcdState::Control(b) => if b > 0 {
                (LcdState::Control2(b), queue, LcdAction::Write(CONTROL_PREFIX))
            } else {
                next_packet(state, queue)
            },
            LcdState::Control2(b) => if queue.len() == 0 {
                (state, queue, LcdAction::Suspend)
            } else if b == 0 {
                (state, queue, LcdAction::Halt)
            } else {
                (LcdState::Control((b - 1) as u8), queue.skip(1), LcdAction::Write(queue[0]))
            },
            LcdState::Data(b) => if b > 0 {
                if queue.len() == 0 {
                    (state, queue, LcdAction::Suspend)
                } else {
                    (LcdState::Data((b - 1) as u8), queue.skip(1), LcdAction::Write(queue[0]))
                }
            } else if queue.len() > 0 && !is_control(queue[0]) {
                (LcdState::Data(queue[0]), queue.skip(1), LcdAction::Nothing)
            } else {
                (LcdState::Idle, queue, LcdAction::Restart)
            },
        },
    }
}

/// Queueing `packet` from its byte `from` on: as many bytes as the free
/// space takes, in order. Once the last byte is queued the producer kicks
/// the bus, with a start if the channel was stopped, which is idle from
/// then on.
pub open spec fn queue_step(
    state: LcdState,
    queue: Seq<u8>,
    capacity: nat,
    packet: Seq<u8>,
    from: nat,
) -> (LcdState, Seq<u8>, Progress) {
    let room = capacity - queue.len();
    let queued = if packet.len() - from <= room {
        packet.len()
    } else {
        (from + room) as nat
    };
    let queue = queue + packet.subrange(from as int, queued as int);
    if queued < packet.len() {
        (state, queue, Progress { queued: queued as usize, kick: None })
    } else if state is Stopped {
        (LcdState::Idle, queue, Progress { queued: queued as usize, kick: Some(Kick::Start) })
    } else {
        (state, queue, Progress { queued: queued as usize, kick: Some(Kick::Listen) })
    }
}

impl Lcd {
    /// This channel is `before` after `packet` has been queued from its byte
    /// `from` on, with the progress `p`.
    pub open spec fn queued(&self, before: &Lcd, packet: Seq<u8>, from: nat, p: Progress) -> bool {
        let after = queue_step(
            before.state,
            before.buffer@,
            before.buffer.spec_capacity(),
            packet,
            from,
        );
        &&& self.state == after.0
        &&& self.buffer@ == after.1
        &&& p == after.2
        &&& self.buffer.spec_capacity() == before.buffer.spec_capacity()
    }

    /// This channel is `before` after the next packet has been fetched,
    /// with the action `action`.
    pub open spec fn fetched(&self, before: &Lcd, action: LcdAction) -> bool {
        let after = next_packet(before.state, before.buffer@);
        &&& self.state == after.0
        &&& self.buffer@ == after.1
        &&& action == after.2
        &&& self.buffer.spec_capacity() == before.buffer.spec_capacity()
    }

    /// This channel is `before` after the bus event `event`, with the
    /// action `action`.
    pub open spec fn stepped(&self, before: &Lcd, event: I2cEvent, action: LcdAction) -> bool {
        let after = lcd_step(before.state, before.buffer@, event);
        &&& self.state == after.0
        &&& self.buffer@ == after.1
        &&& action == after.2
        &&& self.buffer.spec_capacity() == before.buffer.spec_capacity()
    }

    /// A stopped channel with an empty buffer over `storage`.
    pub fn new(storage: Vec<u8>) -> (lcd: Self)
        ensures
            lcd.state is Stopped,
            lcd.buffer@ == Seq::<u8>::empty(),
            lcd.buffer.spec_capacity() == storage@.len(),
    {
        Lcd { state: LcdState::Stopped, buffer: CyclicBuffer::new(storage) }
    }
}

/// Queues the bytes of the packet `header`, `dat` from byte `from` on.
fn enqueue(lcd: &mut Lcd, header: u8, dat: &[u8], from: usize) -> (p: Progress)
    requires
        dat@.len() < usize::MAX,
        from <= dat@.len() + 1,
    ensures
        final(lcd).queued(old(lcd), seq![header] + dat@, from as nat, p),
{
    let ghost packet = seq![header] + dat@;
    let total = dat.len() + 1;
    let mut at = from;
    let mut full = false;
    let _ = lcd.buffer.len();
    while at < total && !full
        invariant
            total == packet.len(),
            packet == seq![header] + dat@,
            from <= at <= total,
            lcd.state == old(lcd).state,
            lcd.buffer.spec_capacity() == old(lcd).buffer.spec_capacity(),
            lcd.buffer@ == old(lcd).buffer@ + packet.subrange(from as int, at as int),
            lcd.buffer@.len() <= lcd.buffer.spec_capacity(),
            full ==> at < total && lcd.buffer@.len() == lcd.buffer.spec_capacity(),
        decreases total - at + (if full { 0int } else { 1int }),
    {
        let b = if at == 0 {
            header
        } else {
            dat[at - 1]
        };
        if lcd.buffer.write(b) {
            assert(packet.subrange(from as int, at + 1) =~= packet.subrange(
                from as int,
                at as int,
            ).push(b));
            assert(lcd.buffer@ =~= old(lcd).buffer@ + packet.subrange(from as int, at + 1));
            at = at + 1;
        } else {
            full = true;
        }
    }
    if at < total {
        Progress { queued: at, kick: None }
    } else {
        match lcd.state {
            LcdState::Stopped => {
                lcd.state = LcdState::Idle;
                Progress { queued: at, kick: Some(Kick::Start) }
            },
            _ => Progress { queued: at, kick: Some(Kick::Listen) },
        }
    }
}

/// Queues the data packet with the payload `dat`, from byte `from` of the
/// packet on (0 where nothing of it is queued yet), as far as the buffer has
/// room. The caller waits and calls again with `queued` until the kick is
/// set.
pub fn write_data(lcd: &mut Lcd, dat: &[u8], from: usize) -> (p: Progress)
    requires
        dat@.len() <= 127,
        from <= dat@.len() + 1,
    ensures
        final(lcd).queued(old(lcd), data_packet(dat@), from as nat, p),
{
    enqueue(lcd, dat.len() as u8, dat, from)
}

/// Queues the control packet with the payload `dat`, as `write_data` does a
/// data packet.
pub fn write_control_2(lcd: &mut Lcd, dat: &[u8], from: usize) -> (p: Progress)
    requires
        1 <= dat@.len() <= 127,
        from <= dat@.len() + 1,
    ensures
        final(lcd).queued(old(lcd), control_packet(dat@), from as nat, p),
{
    enqueue(lcd, 0x80 | (dat.len() as u8), dat, from)
}

/// Queues `packet` as `write_data` or `write_control_2` does, if it can be
/// queued and `from` lies within it. Nothing is touched otherwise.
pub fn write_packet(lcd: &mut Lcd, packet: &Packet, from: usize) -> (res: Option<Progress>)
    ensures
        res is Some <==> packet_fits(packet@) && from <= packet@.1.len() + 1,
        res is Some ==> final(lcd).queued(
            old(lcd),
            queued_packet(packet@),
            from as nat,
            res.unwrap(),
        ),
        res is None ==> *final(lcd) == *old(lcd),
{
    let payload = packet.payload();
    if from > payload.len() + 1 {
        None
    } else if packet.control() {
        if payload.len() == 0 {
            None
        } else {
            Some(write_control_2(lcd, payload, from))
        }
    } else {
        Some(write_data(lcd, payload, from))
    }
}

/// Whether a producer has to wait before it queues more: it is held until
/// less than half of the capacity is in use.
pub open spec fn must_wait(queue: Seq<u8>, capacity: nat) -> bool {
    queue.len() >= capacity / 2
}

/// Back-pressure. A producer that has to wait is released by the consumer
/// alone, and by nothing less than the read that brings the queue below
/// half of the capacity: after `taken` bytes have left the queue, and none
/// has come, it still has to wait if and only if half of the capacity or
/// more is still queued.
pub proof fn lemma_backpressure(queue: Seq<u8>, capacity: nat, taken: nat)
    requires
        must_wait(queue, capacity),
        taken <= queue.len(),
    ensures
        must_wait(queue.skip(taken as int), capacity) <==> queue.len() - taken >= capacity / 2,
{
}

/// Whether a producer has to wait before it queues more: half of the
/// buffer or more is in use.
pub fn wait_buffer(lcd: &Lcd) -> (wait: bool)
    ensures
        wait == must_wait(lcd.buffer@, lcd.buffer.spec_capacity()),
{
    lcd.buffer.len() >= lcd.buffer.capacity() / 2
}

/// Fetches the next packet header from the buffer and sends its prefix.
pub fn start_next(lcd: &mut Lcd) -> (action: LcdAction)
    ensures
        final(lcd).fetched(old(lcd), action),
{
    match lcd.buffer.read() {
        Some(a) => {
            if a & 0x80 == 0 {
                lcd.state = LcdState::Data(a);
                LcdAction::Write(DATA_PREFIX)
            } else {
                lcd.state = LcdState::Control2(a & 0x7f);
                LcdAction::Write(CONTROL_PREFIX)
            }
        },
        None => LcdAction::Nothing,
    }
}

/// Handles one event of the bus interrupt.
pub fn event_interrupt(lcd: &mut Lcd, event: I2cEvent) -> (action: LcdAction)
    ensures
        final(lcd).stepped(old(lcd), event, action),
{
    match event {
        I2cEvent::Started => LcdAction::WriteAddress(ADDRESS),
        I2cEvent::CanWrite => {
            match lcd.state {
                LcdState::Stopped => LcdAction::Halt,
                LcdState::Idle => start_next(lcd),
                LcdState::Control(b) => {
                    if b > 0 {
                        lcd.state = LcdState::Control2(b);
                        LcdAction::Write(CONTROL_PREFIX)
                    } else {
                        start_next(lcd)
                    }
                },
                LcdState::Control2(b) => {
                    if lcd.buffer.is_empty() {
                        LcdAction::Suspend
                    } else if b == 0 {
                        LcdAction::Halt
                    } else {
                        match lcd.buffer.read() {
                            Some(d) => {
                                lcd.state = LcdState::Control(b - 1);
                                LcdAction::Write(d)
                            },
                            None => LcdAction::Suspend,
                        }
                    }
                },
                LcdState::Data(b) => {
                    if b > 0 {
                        match lcd.buffer.read() {
                            Some(d) => {
                                lcd.state = LcdState::Data(b - 1);
                                LcdAction::Write(d)
                            },
                            None => LcdAction::Suspend,
                        }
                    } else {
                        match lcd.buffer.peek() {
                            Some(d) => {
                                if d & 0x80 == 0 {
                                    let _ = lcd.buffer.read();
                                    lcd.state = LcdState::Data(d);
                                    LcdAction::Nothing
                                } else {
                                    lcd.state = LcdState::Idle;
                                    LcdAction::Restart
                                }
                            },
                            None => {
                                lcd.state = LcdState::Idle;
                                LcdAction::Restart
                            },
                        }
                    }
                },
            }
        },
        I2cEvent::Other => LcdAction::Nothing,
    }
}

} // verus!
