use bus_drivers::monitor::{timer2_interrupt, Monitor, ReadState, Reaction};
use bus_drivers::screen::{
    set_address, set_address_mode, write_digit, write_dot, write_empty_digit, write_number,
    PacketList, LIST_MAX,
};
use bus_drivers::ssd1306::{Packet, NUMBERS, PACKET_MAX};
use bus_drivers::tempsensor::{SPIResult, SpiAction, SpiCommand, SpiResource, SpiState};

type Plain = (bool, Vec<u8>);

fn control(bytes: &[u8]) -> Plain {
    (true, bytes.to_vec())
}

fn data(bytes: &[u8]) -> Plain {
    (false, bytes.to_vec())
}

fn digit(num: usize) -> Vec<Plain> {
    vec![data(&NUMBERS[num]), data(&[0, 0])]
}

fn plain(list: &PacketList) -> Vec<Plain> {
    (0..list.len())
        .map(|i| {
            let packet = list.get(i);
            (packet.control(), packet.payload().to_vec())
        })
        .collect()
}

fn commands(reaction: &Reaction) -> Vec<SpiCommand> {
    let mut all = Vec::new();
    all.extend(reaction.step);
    if let Some(begin) = reaction.begin {
        all.extend(begin);
    }
    all
}

#[test]
fn a_packet_holds_its_kind_and_its_payload() {
    let p = Packet::new(true, &[1, 2, 3]).unwrap();
    assert!(p.control());
    assert_eq!(p.payload(), &[1, 2, 3]);
    let p = Packet::new(false, &[9; 8]).unwrap();
    assert!(!p.control());
    assert_eq!(p.payload(), &[9; 8]);
    assert_eq!(PACKET_MAX, 8);
    assert_eq!(Packet::new(false, &[9; 9]), None);
    let p = Packet::blank();
    assert!(!p.control());
    assert!(p.payload().is_empty());
    assert_eq!(Some(p), Packet::new(false, &[]));
}

#[test]
fn a_packet_list_starts_empty_and_can_be_emptied() {
    let mut out = PacketList::new();
    assert_eq!(out.len(), 0);
    assert_eq!(LIST_MAX, 24);
    set_address_mode(&mut out);
    write_dot(&mut out);
    assert_eq!(out.len(), 2);
    assert_eq!(out.get(1).payload(), &[0, 1, 0]);
    out.clear();
    assert_eq!(out.len(), 0);
    write_empty_digit(&mut out);
    assert_eq!(plain(&out), vec![data(&[0; 7])]);
}

#[test]
fn addressing_packets() {
    let mut out = PacketList::new();
    set_address_mode(&mut out);
    set_address(&mut out, 3, 1);
    assert_eq!(plain(&out), vec![control(&[0x20, 0]), control(&[0x21, 3, 127, 0x22, 1, 7])]);
}

#[test]
fn a_digit_is_its_pattern_and_a_gap() {
    let mut out = PacketList::new();
    write_dot(&mut out);
    write_digit(&mut out, 7);
    assert_eq!(
        plain(&out),
        vec![data(&[0, 1, 0]), data(&[0xC0, 0x8F, 0x90, 0xA0, 0xC0]), data(&[0, 0])]
    );
}

#[test]
fn point_and_blank() {
    let mut out = PacketList::new();
    write_dot(&mut out);
    write_empty_digit(&mut out);
    assert_eq!(plain(&out), vec![data(&[0, 1, 0]), data(&[0; 7])]);
}

#[test]
fn a_number_is_drawn_digit_by_digit() {
    let mut out = PacketList::new();
    write_number(&mut out, 120);
    let mut expected = digit(1);
    expected.extend(digit(2));
    expected.extend(digit(0));
    assert_eq!(plain(&out), expected);
}

#[test]
fn zero_is_one_digit() {
    let mut out = PacketList::new();
    write_number(&mut out, 0);
    assert_eq!(plain(&out), digit(0));
    let mut out = PacketList::new();
    write_number(&mut out, 9);
    assert_eq!(plain(&out), digit(9));
}

#[test]
fn the_largest_number_has_ten_digits() {
    let mut out = PacketList::new();
    write_number(&mut out, u32::MAX);
    let mut expected = Vec::new();
    for d in [4, 2, 9, 4, 9, 6, 7, 2, 9, 5] {
        expected.extend(digit(d));
    }
    assert_eq!(plain(&out), expected);
    assert_eq!(out.len(), 20);
}

#[test]
fn a_list_takes_a_number_behind_what_it_holds() {
    let mut out = PacketList::new();
    set_address(&mut out, 0, 0);
    write_empty_digit(&mut out);
    write_dot(&mut out);
    write_dot(&mut out);
    write_number(&mut out, u32::MAX);
    assert_eq!(out.len(), LIST_MAX);
    assert_eq!(out.get(23).payload(), &[0, 0]);
}

fn finish(monitor: &mut Monitor, sensor: &mut SpiResource, payload: u8) -> (Reaction, Reaction) {
    let first = monitor.spi_interrupt(sensor, SPIResult::Success(0));
    assert_eq!(sensor.state, SpiState::ReadSecond);
    let second = monitor.spi_interrupt(sensor, SPIResult::Success(payload));
    (first, second)
}

#[test]
fn a_reading_is_two_transfers_and_is_drawn_when_it_changes() {
    let mut monitor = Monitor::new();
    assert_eq!(monitor.read_state, ReadState::Conf);
    let mut sensor = SpiResource::new();

    // the configuration is written, then the low byte is asked for
    sensor.start_write(0x80, 0b11010001);
    let (first, second) = finish(&mut monitor, &mut sensor, 0xFF);
    assert_eq!(monitor.read_state, ReadState::Lsb);
    assert_eq!(sensor.state, SpiState::ReadFirst);
    assert_eq!(sensor.action, SpiAction::Read);
    assert_eq!(commands(&first), vec![SpiCommand::Send(0b11010001)]);
    assert_eq!(
        commands(&second),
        vec![SpiCommand::Disable, SpiCommand::Enable, SpiCommand::Send(0x02)]
    );
    assert_eq!(first.screen.len(), 0);
    assert_eq!(second.screen.len(), 0);

    // the low byte arrives, the high byte is asked for
    let (first, second) = finish(&mut monitor, &mut sensor, 0x00);
    assert_eq!(monitor.read_state, ReadState::Msb(0x00));
    assert_eq!(commands(&first), vec![SpiCommand::Send(0)]);
    assert_eq!(
        commands(&second),
        vec![SpiCommand::Disable, SpiCommand::Enable, SpiCommand::Send(0x01)]
    );
    assert_eq!(second.screen.len(), 0);

    // the high byte arrives: 0x3C00 is 101.32 ohms, 3.38 degrees
    let (first, second) = finish(&mut monitor, &mut sensor, 0x3C);
    assert_eq!(monitor.read_state, ReadState::Lsb);
    assert_eq!(monitor.last_temp, 0x3C00);
    assert_eq!(sensor.state, SpiState::Finished);
    assert_eq!(commands(&first), vec![SpiCommand::Send(0)]);
    assert_eq!(commands(&second), vec![SpiCommand::Disable]);
    let mut expected = vec![control(&[0x21, 0, 127, 0x22, 0, 7]), data(&[0; 7])];
    expected.extend(digit(3));
    expected.push(data(&[0, 1, 0]));
    expected.extend(digit(3));
    expected.extend(digit(8));
    assert_eq!(plain(&second.screen), expected);
}

#[test]
fn an_unchanged_reading_is_not_drawn_again() {
    let mut monitor = Monitor { read_state: ReadState::Msb(0x00), last_temp: 0x3C00 };
    let mut sensor =
        SpiResource { action: SpiAction::Read, state: SpiState::ReadSecond, result: 0 };
    let reaction = monitor.spi_interrupt(&mut sensor, SPIResult::Success(0x3C));
    assert_eq!(monitor.read_state, ReadState::Lsb);
    assert_eq!(monitor.last_temp, 0x3C00);
    assert_eq!(reaction.screen.len(), 0);
    assert_eq!(commands(&reaction), vec![SpiCommand::Disable]);
}

#[test]
fn a_five_digit_temperature_takes_no_blank() {
    // 0x5300 is 140.17 ohms: 100.00 + 10.00 * (14017 - 13851) / (14229 - 13851) degrees
    let mut monitor = Monitor { read_state: ReadState::Msb(0x00), last_temp: 0 };
    let mut sensor =
        SpiResource { action: SpiAction::Read, state: SpiState::ReadSecond, result: 0 };
    let reaction = monitor.spi_interrupt(&mut sensor, SPIResult::Success(0x53));
    assert_eq!(monitor.last_temp, 0x5300);
    let mut expected = vec![control(&[0x21, 0, 127, 0x22, 0, 7])];
    expected.extend(digit(1));
    expected.extend(digit(0));
    expected.extend(digit(4));
    expected.push(data(&[0, 1, 0]));
    expected.extend(digit(3));
    expected.extend(digit(9));
    assert_eq!(plain(&reaction.screen), expected);
}

#[test]
fn a_temperature_just_below_a_hundred_degrees_takes_the_blank() {
    // 0x5200 is 138.48 ohms: 90.00 + 10.00 * (13848 - 13471) / (13851 - 13471) degrees
    let mut monitor = Monitor { read_state: ReadState::Msb(0x00), last_temp: 0 };
    let mut sensor =
        SpiResource { action: SpiAction::Read, state: SpiState::ReadSecond, result: 0 };
    let reaction = monitor.spi_interrupt(&mut sensor, SPIResult::Success(0x52));
    let mut expected = vec![control(&[0x21, 0, 127, 0x22, 0, 7]), data(&[0; 7])];
    expected.extend(digit(9));
    expected.extend(digit(9));
    expected.push(data(&[0, 1, 0]));
    expected.extend(digit(9));
    expected.extend(digit(2));
    assert_eq!(plain(&reaction.screen), expected);
}

#[test]
fn events_during_a_transfer_draw_nothing() {
    let mut monitor = Monitor::new();
    let mut sensor = SpiResource::new();
    let reaction = monitor.spi_interrupt(&mut sensor, SPIResult::Success(1));
    assert_eq!(monitor, Monitor::new());
    assert_eq!(sensor, SpiResource::new());
    assert!(commands(&reaction).is_empty());
    sensor.start_read(0x02);
    let reaction = monitor.spi_interrupt(&mut sensor, SPIResult::Error);
    assert_eq!(monitor, Monitor::new());
    assert_eq!(sensor.state, SpiState::ReadFirst);
    assert!(commands(&reaction).is_empty());
    assert_eq!(reaction.screen.len(), 0);
}

#[test]
fn the_timer_mark_blinks_every_thousand_ticks() {
    let mut counter = 0u64;
    for _ in 0..999 {
        assert_eq!(timer2_interrupt(&mut counter).len(), 0);
    }
    assert_eq!(counter, 999);
    let screen = timer2_interrupt(&mut counter);
    assert_eq!(counter, 1000);
    assert_eq!(plain(&screen), vec![control(&[0x21, 0, 127, 0x22, 1, 7]), data(&[0; 7])]);
    for _ in 0..999 {
        assert_eq!(timer2_interrupt(&mut counter).len(), 0);
    }
    let screen = timer2_interrupt(&mut counter);
    assert_eq!(counter, 2000);
    assert_eq!(plain(&screen), vec![control(&[0x21, 0, 127, 0x22, 1, 7]), data(&[0, 1, 0])]);
}
