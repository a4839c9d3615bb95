use bus_drivers::bh1750::OpCode;
use bus_drivers::tempsensor::{SPIResult, SpiAction, SpiCommand, SpiResource, SpiState};

#[test]
fn a_new_driver_is_idle() {
    let s = SpiResource::new();
    assert_eq!(s.state, SpiState::Idle);
    assert_eq!(s.action, SpiAction::Read);
    assert_eq!(s.result, 0);
}

#[test]
fn start_read_then_two_events_finishes_with_the_second_byte() {
    let mut s = SpiResource::new();
    let mut spi = Vec::new();
    spi.extend(s.start_read(0x02));
    assert_eq!(s.state, SpiState::ReadFirst);
    assert_eq!(s.action, SpiAction::Read);
    spi.extend(s.process_int(SPIResult::Success(0xEE)));
    assert_eq!(s.state, SpiState::ReadSecond);
    spi.extend(s.process_int(SPIResult::Success(0x5C)));
    assert_eq!(s.state, SpiState::Finished);
    assert_eq!(s.result, 0x5C);
    assert_eq!(
        spi,
        vec![
            SpiCommand::Enable,
            SpiCommand::Send(0x02),
            SpiCommand::Send(0),
            SpiCommand::Disable,
        ]
    );
}

#[test]
fn start_write_sends_the_value_as_the_second_byte() {
    let mut s = SpiResource::new();
    let begin = s.start_write(0x80, 0xD1);
    assert_eq!(begin, [SpiCommand::Enable, SpiCommand::Send(0x80)]);
    assert_eq!(s.state, SpiState::ReadFirst);
    assert_eq!(s.action, SpiAction::Write(0xD1));
    assert_eq!(s.process_int(SPIResult::Success(0)), Some(SpiCommand::Send(0xD1)));
    assert_eq!(s.process_int(SPIResult::Success(0x17)), Some(SpiCommand::Disable));
    assert_eq!(s.state, SpiState::Finished);
    assert_eq!(s.result, 0x17);
}

#[test]
fn a_failed_receive_does_not_advance_the_transfer() {
    let mut s = SpiResource::new();
    s.start_read(0x01);
    assert_eq!(s.process_int(SPIResult::Error), None);
    assert_eq!(s.state, SpiState::ReadFirst);
    assert_eq!(s.process_int(SPIResult::Success(1)), Some(SpiCommand::Send(0)));
    assert_eq!(s.state, SpiState::ReadSecond);
    assert_eq!(s.process_int(SPIResult::Error), None);
    assert_eq!(s.state, SpiState::ReadSecond);
    assert_eq!(s.result, 0);
    assert_eq!(s.process_int(SPIResult::Success(0x33)), Some(SpiCommand::Disable));
    assert_eq!(s.state, SpiState::Finished);
    assert_eq!(s.result, 0x33);
}

#[test]
fn events_outside_a_transfer_are_ignored() {
    for state in [
        SpiState::Idle,
        SpiState::WriteFirst,
        SpiState::WriteSecond,
        SpiState::Finished,
    ] {
        let mut s = SpiResource { action: SpiAction::Write(4), state, result: 9 };
        assert_eq!(s.process_int(SPIResult::Success(0x55)), None);
        assert_eq!(s, SpiResource { action: SpiAction::Write(4), state, result: 9 });
    }
}

#[test]
fn a_new_transfer_keeps_the_last_result() {
    let mut s = SpiResource { action: SpiAction::Read, state: SpiState::Finished, result: 0x44 };
    assert_eq!(s.start_read(0x01), [SpiCommand::Enable, SpiCommand::Send(0x01)]);
    assert_eq!(s.result, 0x44);
    assert_eq!(s.state, SpiState::ReadFirst);
}

#[test]
fn read_converts_the_bus_result() {
    let s = SpiResource::new();
    assert_eq!(s.read(SPIResult::Success(3)), Some(3));
    assert_eq!(s.read(SPIResult::Error), None);
}

#[test]
fn operation_codes_of_the_light_sensor() {
    assert_eq!(OpCode::PowerDown.code(), 0b00000000);
    assert_eq!(OpCode::PowerOn.code(), 0b00000001);
    assert_eq!(OpCode::Reset.code(), 0b00000111);
    assert_eq!(OpCode::ContinuousHResolutionMode.code(), 0b00010000);
    assert_eq!(OpCode::ContinuousHResolutionMode2.code(), 0b00010001);
}

#[test]
fn the_light_sensor_shares_the_transfer_driver() {
    let mut s = bus_drivers::bh1750::SpiResource::new();
    s.start_write(OpCode::PowerOn.code(), OpCode::ContinuousHResolutionMode.code());
    let next = s.process_int(SPIResult::Success(0));
    assert_eq!(s.state, bus_drivers::bh1750::SpiState::ReadSecond);
    assert_eq!(next, Some(SpiCommand::Send(0b00010000)));
}
