//! Event-driven access to a register-addressed sensor on the SPI bus.
//!
//! A register is read or written in two phases, one bus event each. The
//! driver decides; what the bus is to do comes out as [`SpiCommand`]s, and
//! what the bus received comes in as an [`SPIResult`].

use vstd::prelude::*;

verus! {

/// Where a two-phase transfer stands.
#[derive(Clone, Copy, PartialEq, Eq, Debug, Structural)]
pub enum SpiState {
    Idle,
    /// The register address is out; the byte that comes back is an echo.
    ReadFirst,
    /// The second byte is out; the byte that comes back is the payload.
    ReadSecond,
    WriteFirst,
    WriteSecond,
    /// The transfer is complete and `result` holds its payload.
    Finished,
}

/// What the second phase sends.
#[derive(Clone, Copy, PartialEq, Eq, Debug, Structural)]
pub enum SpiAction {
    /// A dummy byte, to clock the register's value in.
    Read,
    /// The value to store in the register.
    Write(u8),
}

/// What a read of the bus has given.
#[derive(Clone, Copy, PartialEq, Eq, Debug, Structural)]
pub enum SPIResult {
    Success(u8),
    Error,
}

/// What the bus is to do.
#[derive(Clone, Copy, PartialEq, Eq, Debug, Structural)]
pub enum SpiCommand {
    /// Select the device.
    Enable,
    /// Send this byte.
    Send(u8),
    /// Release the device.
    Disable,
}

/// The state of the sensor driver.
#[derive(Clone, Copy, PartialEq, Eq, Debug, Structural)]
pub struct SpiResource {
    pub action: SpiAction,
    pub state: SpiState,
    pub result: u8,
}

/// The byte in `received`, if there is one.
pub open spec fn received_byte(received: SPIResult) -> Option<u8> {
    match received {
        SPIResult::Success(a) => Some(a),
        SPIResult::Error => None,
    }
}

/// The byte of the second phase.
pub open spec fn second_byte(action: SpiAction) -> u8 {
    match action {
        SpiAction::Read => 0,
        SpiAction::Write(a) => a,
    }
}

/// The driver once a transfer with `action` on the register `reg` has
/// begun, and the commands that begin it.
pub open spec fn sensor_start(sensor: SpiResource, action: SpiAction, reg: u8) -> (
    SpiResource,
    Seq<SpiCommand>,
) {
    (
        SpiResource { action, state: SpiState::ReadFirst, result: sensor.result },
        seq![SpiCommand::Enable, SpiCommand::Send(reg)],
    )
}

/// One bus event: the driver after it, and the command for the bus if
/// there is one. A failed receive changes nothing.
pub open spec fn sensor_step(sensor: SpiResource, received: SPIResult) -> (
    SpiResource,
    Option<SpiCommand>,
) {
    match (received, sensor.state) {
        (SPIResult::Success(_), SpiState::ReadFirst) => (
            SpiResource { state: SpiState::ReadSecond, ..sensor },
            Some(SpiCommand::Send(second_byte(sensor.action))),
        ),
        (SPIResult::Success(a), SpiState::ReadSecond) => (
            SpiResource { state: SpiState::Finished, result: a, ..sensor },
            Some(SpiCommand::Disable),
        ),
        _ => (sensor, None),
    }
}

/// The commands in `command`: one or none.
pub open spec fn command_seq(command: Option<SpiCommand>) -> Seq<SpiCommand> {
    match command {
        Some(c) => seq![c],
        None => Seq::<SpiCommand>::empty(),
    }
}

impl SpiResource {
    /// An idle driver.
    pub fn new() -> (sensor: Self)
        ensures
            sensor == (SpiResource { action: SpiAction::Read, state: SpiState::Idle, result: 0 }),
    {
        SpiResource { action: SpiAction::Read, state: SpiState::Idle, result: 0 }
    }

    /// Begins reading the register `reg`: the commands returned select the
    /// device and send the register address.
    pub fn start_read(&mut self, reg: u8) -> (spi: [SpiCommand; 2])
        ensures
            *final(self) == sensor_start(*old(self), SpiAction::Read, reg).0,
            spi@ == sensor_start(*old(self), SpiAction::Read, reg).1,
    {
        self.state = SpiState::ReadFirst;
        self.action = SpiAction::Read;
        let spi = [SpiCommand::Enable, SpiCommand::Send(reg)];
        assert(spi@ =~= seq![SpiCommand::Enable, SpiCommand::Send(reg)]);
        spi
    }

    /// Begins writing `val` to the register `reg`: the commands returned
    /// select the device and send the register address; `val` follows in the
    /// second phase.
    pub fn start_write(&mut self, reg: u8, val: u8) -> (spi: [SpiCommand; 2])
        ensures
            *final(self) == sensor_start(*old(self), SpiAction::Write(val), reg).0,
            spi@ == sensor_start(*old(self), SpiAction::Write(val), reg).1,
    {
        self.state = SpiState::ReadFirst;
        self.action = SpiAction::Write(val);
        let spi = [SpiCommand::Enable, SpiCommand::Send(reg)];
        assert(spi@ =~= seq![SpiCommand::Enable, SpiCommand::Send(reg)]);
        spi
    }

    /// The byte that the bus received, or `None` where the receive failed.
    pub fn read(&self, received: SPIResult) -> (b: Option<u8>)
        ensures
            b == received_byte(received),
    {
        match received {
            SPIResult::Success(a) => Some(a),
            SPIResult::Error => None,
        }
    }

    /// Handles one bus event of a transfer, and returns what the bus is to
    /// do next, if anything.
    pub fn process_int(&mut self, received: SPIResult) -> (spi: Option<SpiCommand>)
        ensures
            *final(self) == sensor_step(*old(self), received).0,
            spi == sensor_step(*old(self), received).1,
    {
        match self.state {
            SpiState::ReadFirst => {
                let b = self.read(received);
                if let Some(_) = b {
                    let spi = match self.action {
                        SpiAction::Read => SpiCommand::Send(0),
                        SpiAction::Write(a) => SpiCommand::Send(a),
                    };
                    self.state = SpiState::ReadSecond;
                    Some(spi)
                } else {
                    None
                }
            },
            SpiState::ReadSecond => {
                let b = self.read(received);
                if let Some(a) = b {
                    self.result = a;
                    self.state = SpiState::Finished;
                    Some(SpiCommand::Disable)
                } else {
                    None
                }
            },
            _ => None,
        }
    }
}

/// The two-phase protocol, read. From any state, a read of `reg` and the
/// two bus events that deliver `echo` and `payload` finish the transfer with
/// `payload` as its result; the bus has been told to select the device, send
/// `reg`, send a zero byte, and release the device.
pub proof fn lemma_read_transfer(sensor: SpiResource, reg: u8, echo: u8, payload: u8)
    ensures
        ({
            let begun = sensor_start(sensor, SpiAction::Read, reg);
            let first = sensor_step(begun.0, SPIResult::Success(echo));
            let second = sensor_step(first.0, SPIResult::Success(payload));
            &&& second.0.state is Finished
            &&& second.0.result == payload
            &&& begun.1 + command_seq(first.1) + command_seq(second.1) == seq![
                SpiCommand::Enable,
                SpiCommand::Send(reg),
                SpiCommand::Send(0),
                SpiCommand::Disable,
            ]
        }),
{
}

/// The two-phase protocol, write. As `lemma_read_transfer`, but the second
/// byte sent is `val`.
pub proof fn lemma_write_transfer(sensor: SpiResource, reg: u8, val: u8, echo: u8, payload: u8)
    ensures
        ({
            let begun = sensor_start(sensor, SpiAction::Write(val), reg);
            let first = sensor_step(begun.0, SPIResult::Success(echo));
            let second = sensor_step(first.0, SPIResult::Success(payload));
            &&& second.0.state is Finished
            &&& second.0.result == payload
            &&& begun.1 + command_seq(first.1) + command_seq(second.1) == seq![
                SpiCommand::Enable,
                SpiCommand::Send(reg),
                SpiCommand::Send(val),
                SpiCommand::Disable,
            ]
        }),
{
}

} // verus!
