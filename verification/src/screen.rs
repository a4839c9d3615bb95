//! What the application draws: the packets that set the write position and
//! that draw digits, numbers and the decimal point.
//!
//! Each function appends its packets to a list that is held in place. The
//! caller queues them into the display channel one by one, with
//! `write_packet`.

use vstd::prelude::*;
use crate::ssd1306::{packet_fits, Packet, NUMBERS};

verus! {

/// The number of packets that a `PacketList` holds.
pub const LIST_MAX: usize = 24;

/// A list of up to `LIST_MAX` packets, held in place.
#[derive(Clone, Copy, Debug)]
pub struct PacketList {
    items: [Packet; 24],
    len: usize,
}

impl View for PacketList {
    type V = Seq<(bool, Seq<u8>)>;

    /// The packets, each as its kind and its payload, in order.
    closed spec fn view(&self) -> Seq<(bool, Seq<u8>)> {
        Seq::new(self.len as nat, |i: int| self.items[i]@)
    }
}

impl PacketList {
    #[verifier::type_invariant]
    closed spec fn inv(&self) -> bool {
        self.len <= 24
    }

    /// The empty list.
    pub fn new() -> (list: Self)
        ensures
            list@ == Seq::<(bool, Seq<u8>)>::empty(),
    {
        let blank = Packet::blank();
        let list = PacketList { items: [blank; 24], len: 0 };
        assert(list@ =~= Seq::<(bool, Seq<u8>)>::empty());
        list
    }

    /// The number of packets in the list; never more than `LIST_MAX`.
    pub fn len(&self) -> (n: usize)
        ensures
            n == self@.len(),
            n <= LIST_MAX,
    {
        proof {
            use_type_invariant(self);
        }
        self.len
    }

    /// The packet at `i`.
    pub fn get(&self, i: usize) -> (packet: Packet)
        requires
            i < self@.len(),
        ensures
            packet@ == self@[i as int],
    {
        proof {
            use_type_invariant(self);
        }
        self.items[i]
    }

    /// Empties the list.
    pub fn clear(&mut self)
        ensures
            final(self)@ == Seq::<(bool, Seq<u8>)>::empty(),
    {
        proof {
            use_type_invariant(&*self);
        }
        self.len = 0;
        assert(self@ =~= Seq::<(bool, Seq<u8>)>::empty());
    }

    /// Appends the packet of this kind with this payload.
    fn push(&mut self, control: bool, payload: &[u8])
        requires
            old(self)@.len() < LIST_MAX,
            payload@.len() <= 8,
        ensures
            final(self)@ == old(self)@.push((control, payload@)),
    {
        proof {
            use_type_invariant(&*self);
        }
        let ghost before = *self;
        match Packet::new(control, payload) {
            Some(packet) => {
                self.items[self.len] = packet;
                self.len = self.len + 1;
            },
            None => {},
        }
        assert(self@ =~= before@.push((control, payload@)));
    }
}

/// The packet that selects horizontal addressing.
pub open spec fn address_mode_packet() -> (bool, Seq<u8>) {
    (true, seq![0x20u8, 0u8])
}

/// The packet that sets the write window: the columns from `column` to 127
/// and the pages from `page` to 7.
pub open spec fn address_packet(column: u8, page: u8) -> (bool, Seq<u8>) {
    (true, seq![0x21u8, column, 127u8, 0x22u8, page, 7u8])
}

/// The packets of the digit `num`: its five columns, and two blank columns.
pub open spec fn digit_packets(num: int) -> Seq<(bool, Seq<u8>)> {
    seq![(false, NUMBERS[num]@), (false, seq![0u8, 0u8])]
}

/// The packet of the decimal point.
pub open spec fn dot_packet() -> (bool, Seq<u8>) {
    (false, seq![0u8, 1u8, 0u8])
}

/// The packet of a blank as wide as a digit.
pub open spec fn empty_digit_packet() -> (bool, Seq<u8>) {
    (false, seq![0u8, 0u8, 0u8, 0u8, 0u8, 0u8, 0u8])
}

/// The packets of the decimal digits of `num`, the most significant first,
/// without leading zeros.
pub open spec fn number_packets(num: nat) -> Seq<(bool, Seq<u8>)>
    decreases num,
{
    if num / 10 > 0 {
        number_packets(num / 10) + digit_packets((num % 10) as int)
    } else {
        digit_packets((num % 10) as int)
    }
}

/// Selects horizontal addressing.
pub fn set_address_mode(out: &mut PacketList)
    requires
        old(out)@.len() < LIST_MAX,
    ensures
        final(out)@ == old(out)@.push(address_mode_packet()),
{
    let payload: [u8; 2] = [0x20, 0];
    assert(payload@ =~= address_mode_packet().1);
    out.push(true, payload.as_slice());
}

/// Sets the position at which the next data is drawn.
pub fn set_address(out: &mut PacketList, column: u8, page: u8)
    requires
        old(out)@.len() < LIST_MAX,
    ensures
        final(out)@ == old(out)@.push(address_packet(column, page)),
{
    let payload: [u8; 6] = [0x21, column, 127, 0x22, page, 7];
    assert(payload@ =~= address_packet(column, page).1);
    out.push(true, payload.as_slice());
}

/// Draws the digit `num`.
pub fn write_digit(out: &mut PacketList, num: u8)
    requires
        num < 10,
        old(out)@.len() + 2 <= LIST_MAX,
    ensures
        final(out)@ == old(out)@ + digit_packets(num as int),
{
    let gap: [u8; 2] = [0, 0];
    assert(gap@ =~= seq![0u8, 0u8]);
    out.push(false, NUMBERS[num as usize].as_slice());
    out.push(false, gap.as_slice());
    assert(out@ =~= old(out)@ + digit_packets(num as int));
}

/// Draws the decimal point.
pub fn write_dot(out: &mut PacketList)
    requires
        old(out)@.len() < LIST_MAX,
    ensures
        final(out)@ == old(out)@.push(dot_packet()),
{
    let payload: [u8; 3] = [0, 1, 0];
    assert(payload@ =~= dot_packet().1);
    out.push(false, payload.as_slice());
}

/// Draws a blank as wide as a digit.
pub fn write_empty_digit(out: &mut PacketList)
    requires
        old(out)@.len() < LIST_MAX,
    ensures
        final(out)@ == old(out)@.push(empty_digit_packet()),
{
    let payload: [u8; 7] = [0, 0, 0, 0, 0, 0, 0];
    assert(payload@ =~= empty_digit_packet().1);
    out.push(false, payload.as_slice());
}

/// Draws `num` in decimal.
pub fn write_number(out: &mut PacketList, num: u32)
    requires
        old(out)@.len() + number_packets(num as nat).len() <= LIST_MAX,
    ensures
        final(out)@ == old(out)@ + number_packets(num as nat),
    decreases num,
{
    let digit = num % 10;
    let rem = num / 10;

    if rem > 0 {
        write_number(out, rem);
    }
    write_digit(out, digit as u8);
    assert(out@ =~= old(out)@ + number_packets(num as nat));
}

/// Ten to the power of `digits`.
pub open spec fn ten_to(digits: nat) -> nat
    decreases digits,
{
    if digits == 0 {
        1
    } else {
        10 * ten_to((digits - 1) as nat)
    }
}

/// A number below ten to the power of `digits` takes two packets for each
/// of at most `digits` digits.
pub proof fn lemma_number_len(num: nat, digits: nat)
    requires
        digits >= 1,
        num < ten_to(digits),
    ensures
        2 <= number_packets(num).len() <= 2 * digits,
    decreases digits,
{
    if num / 10 > 0 {
        if digits == 1 {
            assert(ten_to(1) == 10) by {
                reveal_with_fuel(ten_to, 2);
            }
        } else {
            lemma_number_len(num / 10, (digits - 1) as nat);
        }
    }
}

/// Every packet of a number can be queued.
pub proof fn lemma_number_fits(num: nat)
    ensures
        forall|i: int|
            0 <= i < number_packets(num).len() ==> packet_fits(#[trigger] number_packets(num)[i]),
    decreases num,
{
    let last = digit_packets((num % 10) as int);
    assert(packet_fits(last[0]) && packet_fits(last[1]));
    if num / 10 > 0 {
        lemma_number_fits(num / 10);
        let first = number_packets(num / 10);
        assert forall|i: int| 0 <= i < number_packets(num).len() implies packet_fits(
            #[trigger] number_packets(num)[i],
        ) by {
            if i < first.len() {
                assert(number_packets(num)[i] == first[i]);
            } else {
                assert(number_packets(num)[i] == last[i - first.len()]);
            }
        }
    }
}

} // verus!
