//! The application's decisions: which sensor register is read next, when a
//! new temperature is drawn, and the blinking mark that shows the timer
//! running.
//!
//! What is to be done comes back as values of fixed size: nothing here
//! allocates.

use vstd::prelude::*;
use crate::screen::{
    address_packet,
    dot_packet,
    empty_digit_packet,
    number_packets,
    set_address,
    write_dot,
    lemma_number_len,
    ten_to,
    write_empty_digit,
    write_number,
    PacketList,
    LIST_MAX,
};
use crate::temp_conversion::{interpolate_spec, lookup_temperature, LOOKUP_TABLE};
use crate::tempsensor::{
    command_seq,
    sensor_start,
    sensor_step,
    SPIResult,
    SpiAction,
    SpiCommand,
    SpiResource,
    SpiState,
};

verus! {

/// The sensor register that holds the low byte of a reading.
pub const REG_LSB: u8 = 0x02;

/// The sensor register that holds the high byte of a reading.
pub const REG_MSB: u8 = 0x01;

/// Which transfer with the sensor is under way.
#[derive(Clone, Copy, PartialEq, Eq, Debug, Structural)]
pub enum ReadState {
    /// The configuration is being written.
    Conf,
    /// The low byte is being read.
    Lsb,
    /// The high byte is being read; the low byte is this.
    Msb(u8),
}

/// The state of the temperature display.
#[derive(Clone, Copy, PartialEq, Eq, Debug, Structural)]
pub struct Monitor {
    pub read_state: ReadState,
    /// The reading that was drawn last.
    pub last_temp: u16,
}

/// The reading made of its two bytes.
pub open spec fn raw_reading(msb: u8, lsb: u8) -> u16 {
    (msb * 256 + lsb) as u16
}

/// The resistance, in hundredths of an ohm, that the reading `val` stands
/// for: half of `val`, scaled by 43234 / 32768.
pub open spec fn resistance(val: u16) -> u16 {
    (((val / 2) * 43234) / 32768) as u16
}

/// The temperature that `lookup_temperature` gives for the reading `val`.
pub open spec fn reading_temperature(val: u16) -> nat {
    let at = interpolate_spec(LOOKUP_TABLE@, resistance(val));
    if at < 0 {
        0
    } else {
        at as nat
    }
}

/// The packets that draw `temp`, in hundredths of a degree, at the top
/// left: the position, a blank in place of a fifth digit, the degrees, the
/// point, the hundredths.
pub open spec fn temperature_packets(temp: nat) -> Seq<(bool, Seq<u8>)> {
    seq![address_packet(0, 0)] + (if temp < 10000 {
        seq![empty_digit_packet()]
    } else {
        Seq::<(bool, Seq<u8>)>::empty()
    }) + number_packets(temp / 100) + seq![dot_packet()] + number_packets(temp % 100)
}

/// What follows a bus event that has left the sensor driver as `sensor`.
/// While a transfer runs, nothing. After the configuration the low byte is
/// read, after the low byte the high byte; after the high byte the reading
/// is complete, and it is drawn if it differs from the one drawn last.
pub open spec fn monitor_step(monitor: Monitor, sensor: SpiResource) -> (
    Monitor,
    SpiResource,
    Seq<SpiCommand>,
    Seq<(bool, Seq<u8>)>,
) {
    if !(sensor.state is Finished) {
        (monitor, sensor, Seq::<SpiCommand>::empty(), Seq::<(bool, Seq<u8>)>::empty())
    } else {
        match monitor.read_state {
            ReadState::Conf => {
                let begun = sensor_start(sensor, SpiAction::Read, REG_LSB);
                (
                    Monitor { read_state: ReadState::Lsb, ..monitor },
                    begun.0,
                    begun.1,
                    Seq::<(bool, Seq<u8>)>::empty(),
                )
            },
            ReadState::Lsb => {
                let begun = sensor_start(sensor, SpiAction::Read, REG_MSB);
                (
                    Monitor { read_state: ReadState::Msb(sensor.result), ..monitor },
                    begun.0,
                    begun.1,
                    Seq::<(bool, Seq<u8>)>::empty(),
                )
            },
            ReadState::Msb(lsb) => {
                let val = raw_reading(sensor.result, lsb);
                (
                    Monitor { read_state: ReadState::Lsb, last_temp: val },
                    sensor,
                    Seq::<SpiCommand>::empty(),
                    if val != monitor.last_temp {
                        temperature_packets(reading_temperature(val))
                    } else {
                        Seq::<(bool, Seq<u8>)>::empty()
                    },
                )
            },
        }
    }
}

/// One event of the sensor's bus: the transfer under way advances, and
/// `monitor_step` follows. The commands of both go to the bus in this order.
pub open spec fn spi_step(monitor: Monitor, sensor: SpiResource, received: SPIResult) -> (
    Monitor,
    SpiResource,
    Seq<SpiCommand>,
    Seq<(bool, Seq<u8>)>,
) {
    let stepped = sensor_step(sensor, received);
    let next = monitor_step(monitor, stepped.0);
    (next.0, next.1, command_seq(stepped.1) + next.2, next.3)
}

/// The packets of one timer tick, the `count`-th: every 1000 ticks the
/// position of the mark, and there by turns the mark and a blank.
pub open spec fn tick_packets(count: nat) -> Seq<(bool, Seq<u8>)> {
    (if count % 1000 == 0 {
        seq![address_packet(0, 1)]
    } else {
        Seq::<(bool, Seq<u8>)>::empty()
    }) + (if count % 2000 == 0 {
        seq![dot_packet()]
    } else if count % 2000 == 1000 {
        seq![empty_digit_packet()]
    } else {
        Seq::<(bool, Seq<u8>)>::empty()
    })
}

/// What one event of the sensor's bus asks for.
#[derive(Clone, Copy, Debug)]
pub struct Reaction {
    /// The command that advances the transfer under way.
    pub step: Option<SpiCommand>,
    /// The commands that begin the next transfer.
    pub begin: Option<[SpiCommand; 2]>,
    /// The packets to queue into the display channel.
    pub screen: PacketList,
}

impl Reaction {
    /// The commands for the bus, in order.
    pub open spec fn commands(self) -> Seq<SpiCommand> {
        command_seq(self.step) + (match self.begin {
            Some(begin) => begin@,
            None => Seq::<SpiCommand>::empty(),
        })
    }
}

/// The packets of a temperature fit a packet list: they are 22 at most, of
/// which the hundredths take 4 at most.
pub proof fn lemma_temperature_len(temp: u32)
    ensures
        temperature_packets(temp as nat).len() <= 22,
        ten_to(2) == 100,
{
    assert(ten_to(2) == 100 && ten_to(8) == 100000000) by {
        reveal_with_fuel(ten_to, 9);
    }
    lemma_number_len((temp % 100) as nat, 2);
    if temp < 10000 {
        lemma_number_len((temp / 100) as nat, 2);
    } else {
        lemma_number_len((temp / 100) as nat, 8);
    }
}

/// Draws the temperature `temp`, given in hundredths of a degree.
fn write_temperature(screen: &mut PacketList, temp: u32)
    requires
        old(screen)@.len() + 22 <= LIST_MAX,
    ensures
        final(screen)@ == old(screen)@ + temperature_packets(temp as nat),
{
    proof {
        lemma_temperature_len(temp);
        lemma_number_len((temp % 100) as nat, 2);
    }
    set_address(screen, 0, 0);
    // the number always takes the room of five digits
    if temp < 10000 {
        write_empty_digit(screen);
    }
    write_number(screen, temp / 100);
    write_dot(screen);
    write_number(screen, temp % 100);
    assert(screen@ =~= old(screen)@ + temperature_packets(temp as nat));
}

impl Monitor {
    /// The monitor at power-up: the sensor's configuration is under way.
    pub fn new() -> (monitor: Self)
        ensures
            monitor == (Monitor { read_state: ReadState::Conf, last_temp: 0 }),
    {
        Monitor { read_state: ReadState::Conf, last_temp: 0 }
    }

    /// Handles one event of the sensor's bus: advances the transfer under
    /// way and, once it has finished, begins the next one or draws the
    /// reading. What is to be done on the bus and on the display comes back
    /// as the reaction.
    pub fn spi_interrupt(&mut self, sensor: &mut SpiResource, received: SPIResult) -> (res:
        Reaction)
        ensures
            *final(self) == spi_step(*old(self), *old(sensor), received).0,
            *final(sensor) == spi_step(*old(self), *old(sensor), received).1,
            res.commands() == spi_step(*old(self), *old(sensor), received).2,
            res.screen@ == spi_step(*old(self), *old(sensor), received).3,
    {
        let step = sensor.process_int(received);
        let mut begin: Option<[SpiCommand; 2]> = None;
        let mut screen = PacketList::new();

        match sensor.state {
            SpiState::Finished => {
                match self.read_state {
                    ReadState::Conf => {
                        begin = Some(sensor.start_read(REG_LSB));
                        self.read_state = ReadState::Lsb;
                    },
                    ReadState::Lsb => {
                        begin = Some(sensor.start_read(REG_MSB));
                        self.read_state = ReadState::Msb(sensor.result);
                    },
                    ReadState::Msb(lsb) => {
                        let msb = sensor.result;
                        let val: u16 = ((msb as u16) << 8) | (lsb as u16);
                        assert(val == msb * 256 + lsb) by (bit_vector)
                            requires
                                val == ((msb as u16) << 8) | (lsb as u16),
                        ;
                        if val != self.last_temp {
                            self.last_temp = val;
                            let half = (val >> 1) as u32;
                            assert(half == val / 2) by (bit_vector)
                                requires
                                    half == (val >> 1) as u32,
                            ;
                            let scaled = half * 43234;
                            let conv = scaled >> 15;
                            assert(conv == scaled / 32768) by (bit_vector)
                                requires
                                    conv == scaled >> 15,
                            ;
                            let temp = lookup_temperature(conv as u16);
                            write_temperature(&mut screen, temp);
                        }
                        // the next reading begins with the low byte

                        self.read_state = ReadState::Lsb;
                    },
                }
            },
            _ => {},
        }
        let res = Reaction { step, begin, screen };
        assert(res.commands() =~= spi_step(*old(self), *old(sensor), received).2);
        assert(res.screen@ =~= spi_step(*old(self), *old(sensor), received).3);
        res
    }
}

/// Handles one timer tick: counts it and returns the packets of the
/// blinking mark.
pub fn timer2_interrupt(counter: &mut u64) -> (screen: PacketList)
    requires
        *old(counter) < u64::MAX,
    ensures
        *final(counter) == *old(counter) + 1,
        screen@ == tick_packets((*old(counter) + 1) as nat),
{
    *counter = *counter + 1;
    let mut screen = PacketList::new();

    if *counter % 1000 == 0 {
        set_address(&mut screen, 0, 1);
    }
    if *counter % 2000 == 0 {
        write_dot(&mut screen);
    } else if *counter % 2000 == 1000 {
        write_empty_digit(&mut screen);
    }
    assert(screen@ =~= tick_packets((*old(counter) + 1) as nat));
    screen
}

} // verus!
