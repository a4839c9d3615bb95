use bus_drivers::i2c::{
    BusOp, Cr1, Flag, I2CError, I2CState, I2c, Sr1, I2C, I2C_SR2_P,
};
use std::cell::Cell;
use std::collections::VecDeque;

const READY: Sr1 = Sr1 {
    sb: true,
    addr: true,
    btf: true,
    rx_ne: true,
    tx_e: true,
    berr: false,
    arlo: false,
    af: false,
    ovr: false,
    timeout: false,
};

const WAITING: Sr1 = Sr1 {
    sb: false,
    addr: false,
    btf: false,
    rx_ne: false,
    tx_e: false,
    berr: false,
    arlo: false,
    af: false,
    ovr: false,
    timeout: false,
};

const MASTER: I2C_SR2_P = I2C_SR2_P { tra: true, busy: true, msl: true };

fn flagged(af: bool, timeout: bool) -> Sr1 {
    Sr1 { af, timeout, ..READY }
}

/// A bus that answers status reads from a script, and is ready once the
/// script has run out.
struct ScriptedBus {
    status: VecDeque<Sr1>,
    status2: I2C_SR2_P,
    data: VecDeque<u8>,
    log: Vec<BusOp>,
}

impl ScriptedBus {
    fn ready() -> Self {
        ScriptedBus::with(vec![])
    }

    fn with(status: Vec<Sr1>) -> Self {
        ScriptedBus {
            status: status.into(),
            status2: MASTER,
            data: VecDeque::new(),
            log: Vec::new(),
        }
    }
}

impl I2C for ScriptedBus {
    fn read_sr1(&mut self) -> Sr1 {
        let sr = self.status.pop_front().unwrap_or(READY);
        self.log.push(BusOp::Status(sr));
        sr
    }

    fn read_sr2(&mut self) -> I2C_SR2_P {
        self.log.push(BusOp::Status2(self.status2));
        self.status2
    }

    fn modify_cr1(&mut self, change: Cr1) {
        self.log.push(BusOp::Control(change));
    }

    fn write_dr(&mut self, dat: u8) {
        self.log.push(BusOp::DataOut(dat));
    }

    fn read_dr(&mut self) -> u8 {
        let dat = self.data.pop_front().unwrap_or(0);
        self.log.push(BusOp::DataIn(dat));
        dat
    }
}

#[test]
fn cont_after_okay_runs_the_step_once() {
    let calls = Cell::new(0);
    let res = I2CState::Okay.cont(|| {
        calls.set(calls.get() + 1);
        I2CState::Error(I2CError::OVR)
    });
    assert_eq!(res, I2CState::Error(I2CError::OVR));
    assert_eq!(calls.get(), 1);
    let res = I2CState::Okay.cont(|| I2CState::Busy);
    assert_eq!(res, I2CState::Busy);
}

#[test]
fn cont_after_error_returns_the_error_and_skips_the_step() {
    let calls = Cell::new(0);
    let res = I2CState::Error(I2CError::AF).cont(|| {
        calls.set(calls.get() + 1);
        I2CState::Okay
    });
    assert_eq!(res, I2CState::Error(I2CError::AF));
    assert_eq!(calls.get(), 0);
}

#[test]
fn cont_after_busy_returns_busy_and_skips_the_step() {
    let calls = Cell::new(0);
    let res = I2CState::Busy.cont(|| {
        calls.set(calls.get() + 1);
        I2CState::Okay
    });
    assert_eq!(res, I2CState::Busy);
    assert_eq!(calls.get(), 0);
}

#[test]
fn cont_chain_stops_at_the_first_failure() {
    let trail = std::cell::RefCell::new(Vec::new());
    let res = I2CState::Okay
        .cont(|| {
            trail.borrow_mut().push(1);
            I2CState::Okay
        })
        .cont(|| {
            trail.borrow_mut().push(2);
            I2CState::Error(I2CError::BERR)
        })
        .cont(|| {
            trail.borrow_mut().push(3);
            I2CState::Okay
        });
    assert_eq!(res, I2CState::Error(I2CError::BERR));
    assert_eq!(*trail.borrow(), vec![1, 2]);
}

#[test]
fn is_ok_and_is_busy_tell_the_variants_apart() {
    assert!(I2CState::Okay.is_ok());
    assert!(!I2CState::Busy.is_ok());
    assert!(!I2CState::Error(I2CError::NoError).is_ok());
    assert!(I2CState::Busy.is_busy());
    assert!(!I2CState::Okay.is_busy());
    assert!(!I2CState::Error(I2CError::Timeout).is_busy());
}

#[test]
fn if_no_err_asks_only_without_an_error() {
    let calls = Cell::new(0);
    let res = I2CError::NoError.if_no_err(|| {
        calls.set(calls.get() + 1);
        I2CState::Busy
    });
    assert_eq!(res, I2CState::Busy);
    assert_eq!(calls.get(), 1);
    let res = I2CError::ARLO.if_no_err(|| {
        calls.set(calls.get() + 1);
        I2CState::Okay
    });
    assert_eq!(res, I2CState::Error(I2CError::ARLO));
    assert_eq!(calls.get(), 1);
}

#[test]
fn errors_are_classified_in_a_fixed_order() {
    let mut sr = Sr1 { berr: true, arlo: true, af: true, ovr: true, timeout: true, ..WAITING };
    assert_eq!(sr.get_error(), I2CError::Timeout);
    sr.timeout = false;
    assert_eq!(sr.get_error(), I2CError::AF);
    sr.af = false;
    assert_eq!(sr.get_error(), I2CError::ARLO);
    sr.arlo = false;
    assert_eq!(sr.get_error(), I2CError::OVR);
    sr.ovr = false;
    assert_eq!(sr.get_error(), I2CError::BERR);
    sr.berr = false;
    assert_eq!(sr.get_error(), I2CError::NoError);
}

#[test]
fn a_check_decodes_its_own_flag() {
    let only_sb = Sr1 { sb: true, ..WAITING };
    assert_eq!(only_sb.check(Flag::Start), I2CState::Okay);
    assert_eq!(only_sb.check(Flag::Addr), I2CState::Busy);
    assert_eq!(only_sb.check(Flag::ByteTransferFinished), I2CState::Busy);
    assert_eq!(only_sb.check(Flag::DataRegisterNotEmpty), I2CState::Busy);
    let only_addr = Sr1 { addr: true, ..WAITING };
    assert_eq!(only_addr.check(Flag::Addr), I2CState::Okay);
    assert_eq!(only_addr.check(Flag::Start), I2CState::Busy);
    let only_btf = Sr1 { btf: true, ..WAITING };
    assert_eq!(only_btf.check(Flag::ByteTransferFinished), I2CState::Okay);
    let only_rx = Sr1 { rx_ne: true, ..WAITING };
    assert_eq!(only_rx.check(Flag::DataRegisterNotEmpty), I2CState::Okay);
}

#[test]
fn an_error_goes_before_the_flag() {
    let sr = Sr1 { ovr: true, ..READY };
    assert_eq!(sr.check(Flag::Start), I2CState::Error(I2CError::OVR));
    assert_eq!(sr.check(Flag::DataRegisterEmpty), I2CState::Error(I2CError::OVR));
}

#[test]
fn the_check_for_room_in_the_data_register_reads_its_flag() {
    assert_eq!(WAITING.check(Flag::DataRegisterEmpty), I2CState::Busy);
    let only_txe = Sr1 { tx_e: true, ..WAITING };
    assert_eq!(only_txe.check(Flag::DataRegisterEmpty), I2CState::Okay);
    assert_eq!(only_txe.check(Flag::DataRegisterNotEmpty), I2CState::Busy);
    let mut i2c = I2c::new(ScriptedBus::with(vec![WAITING, only_txe]), 5);
    assert_eq!(i2c.is_data_register_empty(), I2CState::Busy);
    assert_eq!(i2c.is_data_register_empty(), I2CState::Okay);
    assert_eq!(i2c.free().log, vec![BusOp::Status(WAITING), BusOp::Status(only_txe)]);
}

#[test]
fn flag_checks_read_the_status_once() {
    let script = vec![WAITING, READY, WAITING, READY, flagged(true, false)];
    let mut i2c = I2c::new(ScriptedBus::with(script), 5);
    assert_eq!(i2c.is_start_flag_set(), I2CState::Busy);
    assert_eq!(i2c.is_start_flag_set(), I2CState::Okay);
    assert_eq!(i2c.is_addr_flag_set(), I2CState::Busy);
    assert_eq!(i2c.is_byte_transfer_finished(), I2CState::Okay);
    assert_eq!(i2c.is_data_register_not_empty(), I2CState::Error(I2CError::AF));
    assert_eq!(i2c.free().log.len(), 5);
}

#[test]
fn status_register_2_flags_are_read_out() {
    let mut bus = ScriptedBus::ready();
    bus.status2 = I2C_SR2_P { tra: false, busy: true, msl: false };
    let mut i2c = I2c::new(bus, 5);
    assert!(!i2c.is_msl_flag_set());
    assert!(i2c.is_busy());
    let mut bus = i2c.free();
    assert_eq!(bus.log.len(), 2);
    bus.status2 = I2C_SR2_P { tra: false, busy: false, msl: true };
    bus.log.clear();
    let mut i2c = I2c::new(bus, 5);
    assert!(i2c.is_msl_flag_set());
    assert!(!i2c.is_busy());
}

#[test]
fn start_of_a_write_transaction() {
    let mut i2c = I2c::new(ScriptedBus::ready(), 5);
    assert_eq!(i2c.start_write_polling(0x3C), I2CState::Okay);
    assert_eq!(
        i2c.free().log,
        vec![
            BusOp::Control(Cr1::Start),
            BusOp::Status(READY),
            BusOp::DataOut(0x78),
            BusOp::Status(READY),
            BusOp::Status2(MASTER),
        ]
    );
}

#[test]
fn start_of_a_read_transaction() {
    let mut i2c = I2c::new(ScriptedBus::ready(), 5);
    assert_eq!(i2c.start_read_polling(0x3C), I2CState::Okay);
    assert_eq!(
        i2c.free().log,
        vec![
            BusOp::Control(Cr1::Start),
            BusOp::Status(READY),
            BusOp::DataOut(0x79),
            BusOp::Control(Cr1::PosAck),
            BusOp::Status(READY),
            BusOp::Status2(MASTER),
        ]
    );
}

#[test]
fn start_polling_takes_the_direction_as_a_flag() {
    let mut i2c = I2c::new(ScriptedBus::ready(), 5);
    assert_eq!(i2c.start_polling(0x01, true), I2CState::Okay);
    assert_eq!(i2c.start_polling(0x01, false), I2CState::Okay);
    let log = i2c.free().log;
    assert_eq!(log[2], BusOp::DataOut(0x03));
    assert_eq!(log[8], BusOp::DataOut(0x02));
    assert_eq!(log.len(), 11);
}

#[test]
fn the_address_byte_keeps_seven_bits_of_the_address() {
    let mut i2c = I2c::new(ScriptedBus::ready(), 5);
    assert_eq!(i2c.start_polling(0xBC, false), I2CState::Okay);
    assert_eq!(i2c.start_polling(0xFF, true), I2CState::Okay);
    let log = i2c.free().log;
    assert_eq!(log[2], BusOp::DataOut(0x78));
    assert_eq!(log[7], BusOp::DataOut(0xFF));
}

#[test]
fn a_poll_waits_while_the_bus_is_busy() {
    let mut i2c = I2c::new(ScriptedBus::with(vec![WAITING, WAITING, READY]), 5);
    assert_eq!(i2c.start_write_polling(0x3C), I2CState::Okay);
    let log = i2c.free().log;
    assert_eq!(log.len(), 7);
    assert_eq!(log[1], BusOp::Status(WAITING));
    assert_eq!(log[2], BusOp::Status(WAITING));
    assert_eq!(log[3], BusOp::Status(READY));
    assert_eq!(log[4], BusOp::DataOut(0x78));
}

#[test]
fn a_poll_gives_up_with_busy_at_its_limit() {
    let mut i2c = I2c::new(ScriptedBus::with(vec![WAITING; 10]), 3);
    assert_eq!(i2c.poll_limit(), 3);
    assert_eq!(i2c.start_write_polling(0x3C), I2CState::Busy);
    assert_eq!(
        i2c.free().log,
        vec![
            BusOp::Control(Cr1::Start),
            BusOp::Status(WAITING),
            BusOp::Status(WAITING),
            BusOp::Status(WAITING),
            BusOp::Status(WAITING),
        ]
    );
}

#[test]
fn a_poll_limit_of_zero_still_reads_the_status_once() {
    let mut i2c = I2c::new(ScriptedBus::ready(), 0);
    assert_eq!(i2c.write_data(9), I2CState::Okay);
    assert_eq!(i2c.start_polling(0x3C, false), I2CState::Okay);
    assert_eq!(i2c.free().log.len(), 2 + 5);

    let mut i2c = I2c::new(ScriptedBus::with(vec![WAITING, READY]), 0);
    assert_eq!(i2c.write_data(9), I2CState::Busy);
    assert_eq!(i2c.free().log, vec![BusOp::DataOut(9), BusOp::Status(WAITING)]);
}

#[test]
fn a_poll_reads_until_the_flag_is_raised() {
    let only_btf = Sr1 { btf: true, ..WAITING };
    let script = vec![WAITING, WAITING, only_btf, WAITING, WAITING, WAITING];
    let mut i2c = I2c::new(ScriptedBus::with(script), 2);
    assert_eq!(i2c.poll(Flag::ByteTransferFinished), I2CState::Okay);
    assert_eq!(i2c.poll(Flag::ByteTransferFinished), I2CState::Busy);
    assert_eq!(
        i2c.free().log,
        vec![
            BusOp::Status(WAITING),
            BusOp::Status(WAITING),
            BusOp::Status(only_btf),
            BusOp::Status(WAITING),
            BusOp::Status(WAITING),
            BusOp::Status(WAITING),
        ]
    );
}

#[test]
fn a_failed_step_ends_the_transaction_and_nothing_follows() {
    let mut i2c = I2c::new(ScriptedBus::with(vec![READY, flagged(true, false)]), 5);
    assert_eq!(i2c.start_read_polling(0x3C), I2CState::Error(I2CError::AF));
    assert_eq!(
        i2c.free().log,
        vec![
            BusOp::Control(Cr1::Start),
            BusOp::Status(READY),
            BusOp::DataOut(0x79),
            BusOp::Control(Cr1::PosAck),
            BusOp::Status(flagged(true, false)),
        ]
    );
}

#[test]
fn an_error_at_the_start_condition_keeps_the_address_back() {
    let mut i2c = I2c::new(ScriptedBus::with(vec![WAITING, flagged(false, true)]), 5);
    assert_eq!(i2c.start_write_polling(0x3C), I2CState::Error(I2CError::Timeout));
    assert_eq!(
        i2c.free().log,
        vec![
            BusOp::Control(Cr1::Start),
            BusOp::Status(WAITING),
            BusOp::Status(flagged(false, true)),
        ]
    );
}

#[test]
fn the_address_byte_is_followed_by_the_poll_for_its_answer() {
    let only_addr = Sr1 { addr: true, ..WAITING };
    let mut i2c = I2c::new(ScriptedBus::with(vec![READY, WAITING, only_addr]), 5);
    assert_eq!(i2c.start_write_polling(0x3C), I2CState::Okay);
    assert_eq!(
        i2c.free().log,
        vec![
            BusOp::Control(Cr1::Start),
            BusOp::Status(READY),
            BusOp::DataOut(0x78),
            BusOp::Status(WAITING),
            BusOp::Status(only_addr),
            BusOp::Status2(MASTER),
        ]
    );
}

#[test]
fn write_data_sends_the_byte_and_waits_for_the_register_to_empty() {
    let script = vec![WAITING, READY, WAITING, flagged(true, false)];
    let mut i2c = I2c::new(ScriptedBus::with(script), 5);
    assert_eq!(i2c.write_data(0xA5), I2CState::Okay);
    assert_eq!(i2c.write_data(0x5A), I2CState::Error(I2CError::AF));
    assert_eq!(
        i2c.free().log,
        vec![
            BusOp::DataOut(0xA5),
            BusOp::Status(WAITING),
            BusOp::Status(READY),
            BusOp::DataOut(0x5A),
            BusOp::Status(WAITING),
            BusOp::Status(flagged(true, false)),
        ]
    );
}

#[test]
fn read_data_stores_the_byte_only_on_success() {
    let mut bus = ScriptedBus::with(vec![WAITING, READY, flagged(true, false)]);
    bus.data = vec![0x42, 0x43].into();
    let mut i2c = I2c::new(bus, 5);
    let mut out = 0u8;
    assert_eq!(i2c.read_data(&mut out), I2CState::Okay);
    assert_eq!(out, 0x42);
    assert_eq!(i2c.read_data(&mut out), I2CState::Error(I2CError::AF));
    assert_eq!(out, 0x42);
    assert_eq!(
        i2c.free().log,
        vec![
            BusOp::Status(WAITING),
            BusOp::Status(READY),
            BusOp::DataIn(0x42),
            BusOp::Status(flagged(true, false)),
        ]
    );
}

#[test]
fn read_data_gives_up_without_touching_the_output() {
    let mut i2c = I2c::new(ScriptedBus::with(vec![WAITING; 4]), 2);
    let mut out = 7u8;
    assert_eq!(i2c.read_data(&mut out), I2CState::Busy);
    assert_eq!(out, 7);
    assert_eq!(i2c.free().log.len(), 3);
}

#[test]
fn read_last_data_switches_the_acknowledge_off_first() {
    let mut bus = ScriptedBus::ready();
    bus.data = vec![0x99].into();
    let mut i2c = I2c::new(bus, 5);
    let mut out = 0u8;
    assert_eq!(i2c.read_last_data(&mut out), I2CState::Okay);
    assert_eq!(out, 0x99);
    assert_eq!(
        i2c.free().log,
        vec![BusOp::Control(Cr1::AckOff), BusOp::Status(READY), BusOp::DataIn(0x99)]
    );
}

#[test]
fn stop_and_start_requests_change_the_control_register() {
    let mut i2c = I2c::new(ScriptedBus::ready(), 5);
    i2c.enable_start();
    i2c.enable_stop();
    assert_eq!(i2c.stop(), I2CState::Okay);
    assert_eq!(
        i2c.free().log,
        vec![
            BusOp::Control(Cr1::Start),
            BusOp::Control(Cr1::Stop),
            BusOp::Control(Cr1::Stop),
        ]
    );
}

#[test]
fn poll_loop_asks_until_the_answer_is_not_busy() {
    let i2c = I2c::new(ScriptedBus::ready(), 10);
    let calls = Cell::new(0);
    let res = i2c.poll_loop(|| {
        calls.set(calls.get() + 1);
        if calls.get() < 4 {
            I2CState::Busy
        } else {
            I2CState::Error(I2CError::BERR)
        }
    });
    assert_eq!(res, I2CState::Error(I2CError::BERR));
    assert_eq!(calls.get(), 4);
}

#[test]
fn poll_loop_gives_up_with_busy_at_its_limit() {
    let i2c = I2c::new(ScriptedBus::ready(), 6);
    let calls = Cell::new(0);
    let res = i2c.poll_loop(|| {
        calls.set(calls.get() + 1);
        I2CState::Busy
    });
    assert_eq!(res, I2CState::Busy);
    assert_eq!(calls.get(), 7);
}

#[test]
fn poll_loop_asks_once_at_a_limit_of_zero() {
    let none = I2c::new(ScriptedBus::ready(), 0);
    let calls = Cell::new(0);
    let res = none.poll_loop(|| {
        calls.set(calls.get() + 1);
        I2CState::Okay
    });
    assert_eq!(res, I2CState::Okay);
    assert_eq!(calls.get(), 1);
    let res = none.poll_loop(|| {
        calls.set(calls.get() + 1);
        I2CState::Busy
    });
    assert_eq!(res, I2CState::Busy);
    assert_eq!(calls.get(), 2);
}

#[test]
fn errors_and_outcomes_as_text() {
    assert_eq!(I2CError::NoError.to_string(), "None");
    assert_eq!(I2CError::Timeout.to_string(), "Timeout");
    assert_eq!(I2CError::AF.to_string(), "AF");
    assert_eq!(I2CError::ARLO.to_string(), "ARLO");
    assert_eq!(I2CError::OVR.to_string(), "OVR");
    assert_eq!(I2CError::BERR.to_string(), "BERR");
    assert_eq!(I2CState::Okay.to_string(), "Ok");
    assert_eq!(I2CState::Busy.to_string(), "Busy");
    assert_eq!(I2CState::Error(I2CError::ARLO).to_string(), "Error<ARLO>");
    assert_eq!(I2CState::Error(I2CError::NoError).to_string(), "Error<None>");
}

#[test]
fn status_register_2_as_text() {
    let sr = I2C_SR2_P { tra: true, busy: false, msl: true };
    assert_eq!(sr.to_string(), "TRA: true, BUSY: false, MSL: true");
    let sr = I2C_SR2_P { tra: false, busy: true, msl: false };
    assert_eq!(sr.to_string(), "TRA: false, BUSY: true, MSL: false");
}

#[test]
fn free_hands_back_the_registers_as_they_were_left() {
    let mut bus = ScriptedBus::with(vec![WAITING]);
    bus.data = vec![0x11, 0x22].into();
    let i2c = I2c::new(bus, 7);
    let bus = i2c.free();
    assert!(bus.log.is_empty());
    assert_eq!(bus.status.len(), 1);
    assert_eq!(bus.data.len(), 2);

    let mut i2c = I2c::new(bus, 7);
    let mut out = 0u8;
    assert_eq!(i2c.read_data(&mut out), I2CState::Okay);
    assert_eq!(out, 0x11);
    let bus = i2c.free();
    assert_eq!(bus.log.len(), 3);
    assert!(bus.status.is_empty());
    assert_eq!(bus.data.len(), 1);
}
