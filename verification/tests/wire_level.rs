//! The protocol logic driven over a wire that is simulated at the level of
//! the pin: what the master pulls low and for how long, and what the devices
//! hold low in answer. The same wire is walked by the search of the
//! `one_wire_bus` crate, and the two must agree.

use std::cell::RefCell;
use std::rc::Rc;

use embedded_hal::blocking::delay::{DelayMs, DelayUs};
use embedded_hal::digital::v2::{InputPin, OutputPin};
use one_wire_bus::{OneWire, OneWireError};

use onewire_thermo::address::Address;
use onewire_thermo::error::BusError;
use onewire_thermo::resolution::Resolution;
use onewire_thermo::round::{Command, Event, Outcome, Report, Round};
use onewire_thermo::sample::Sample;
use onewire_thermo::schedule::{Duty, Stage};
use onewire_thermo::search::{opening_command, SearchCursor, SearchPass, SearchStep};
use onewire_thermo::sim::{SimulatedBus, SimulatedDevice};

const OTHER: u64 = 0x7b06_0504_0302_0110;
const PLAIN: u64 = 0x1e00_0000_0000_0028;
const FIRST: u64 = 0x9e06_0504_0302_0128;
const SECOND: u64 = 0xc007_0504_0302_0128;
const THIRD: u64 = 0xf40d_ff7f_464b_ff28;
const LAST: u64 = 0xf404_0506_0708_0922;

const WARM: [u8; 9] = [99, 1, 75, 70, 127, 255, 13, 16, 21];
const MILD: [u8; 9] = [97, 1, 75, 70, 127, 255, 15, 16, 2];
const GARBLED: [u8; 9] = [97, 1, 75, 70, 127, 255, 15, 16, 3];

#[derive(Clone, Copy, PartialEq, Debug)]
enum Listening {
    Nothing,
    RomCommand,
    MatchAddress,
    Function,
    SearchZero,
    SearchOne,
    SearchWrite,
    SendScratchpad,
}

struct Chip {
    address: u64,
    alarming: bool,
    scratchpad: [u8; 9],
    active: bool,
}

struct Wire {
    chips: Vec<Chip>,
    stuck_low: bool,
    faulty_pin: bool,
    master_low: bool,
    low_micros: u32,
    held_low_micros: u32,
    listening: Listening,
    shift: u64,
    count: u32,
    conversions: u32,
    scratchpad_reads: Vec<u64>,
    waited_millis: u32,
}

impl Wire {
    fn new(chips: &[(u64, bool, [u8; 9])]) -> Rc<RefCell<Wire>> {
        Rc::new(RefCell::new(Wire {
            chips: chips
                .iter()
                .map(|c| Chip { address: c.0, alarming: c.1, scratchpad: c.2, active: false })
                .collect(),
            stuck_low: false,
            faulty_pin: false,
            master_low: false,
            low_micros: 0,
            held_low_micros: 0,
            listening: Listening::Nothing,
            shift: 0,
            count: 0,
            conversions: 0,
            scratchpad_reads: Vec::new(),
            waited_millis: 0,
        }))
    }

    fn is_high(&self) -> bool {
        !self.stuck_low && !self.master_low && self.held_low_micros == 0
    }

    fn pass_time(&mut self, micros: u32) {
        if self.master_low {
            self.low_micros += micros;
        }
        self.held_low_micros = self.held_low_micros.saturating_sub(micros);
    }

    fn pull_low(&mut self) {
        self.master_low = true;
        self.low_micros = 0;
    }

    fn release(&mut self) {
        if !self.master_low {
            return;
        }
        self.master_low = false;
        if self.low_micros >= 480 {
            for chip in self.chips.iter_mut() {
                chip.active = true;
            }
            self.listening = Listening::RomCommand;
            self.shift = 0;
            self.count = 0;
            self.held_low_micros = if self.chips.is_empty() { 0 } else { 240 };
        } else {
            self.slot(self.low_micros <= 15);
        }
    }

    fn hold_if(&mut self, wanted: impl Fn(&Chip) -> bool) {
        if self.chips.iter().any(|c| c.active && wanted(c)) {
            self.held_low_micros = 30;
        }
    }

    fn take_bit(&mut self, one: bool, width: u32) -> Option<u64> {
        if one {
            self.shift |= 1u64 << self.count;
        }
        self.count += 1;
        if self.count == width {
            let value = self.shift;
            self.shift = 0;
            self.count = 0;
            Some(value)
        } else {
            None
        }
    }

    fn slot(&mut self, one: bool) {
        match self.listening {
            Listening::Nothing => {}
            Listening::RomCommand => {
                if let Some(command) = self.take_bit(one, 8) {
                    self.listening = match command {
                        0xF0 => Listening::SearchZero,
                        0xEC => {
                            for chip in self.chips.iter_mut() {
                                chip.active = chip.alarming;
                            }
                            Listening::SearchZero
                        }
                        0xCC => Listening::Function,
                        0x55 => Listening::MatchAddress,
                        _ => Listening::Nothing,
                    };
                }
            }
            Listening::MatchAddress => {
                if let Some(address) = self.take_bit(one, 64) {
                    for chip in self.chips.iter_mut() {
                        chip.active = chip.address == address;
                    }
                    self.listening = Listening::Function;
                }
            }
            Listening::Function => {
                if let Some(command) = self.take_bit(one, 8) {
                    self.listening = match command {
                        0x44 => {
                            self.conversions += 1;
                            Listening::Nothing
                        }
                        0xBE => {
                            let read: Vec<u64> =
                                self.chips.iter().filter(|c| c.active).map(|c| c.address).collect();
                            self.scratchpad_reads.extend(read);
                            Listening::SendScratchpad
                        }
                        _ => Listening::Nothing,
                    };
                }
            }
            Listening::SearchZero => {
                let i = self.count;
                self.hold_if(|c| (c.address >> i) & 1 == 0);
                self.listening = Listening::SearchOne;
            }
            Listening::SearchOne => {
                let i = self.count;
                self.hold_if(|c| (c.address >> i) & 1 == 1);
                self.listening = Listening::SearchWrite;
            }
            Listening::SearchWrite => {
                let i = self.count;
                for chip in self.chips.iter_mut() {
                    if ((chip.address >> i) & 1 == 1) != one {
                        chip.active = false;
                    }
                }
                self.count += 1;
                self.listening =
                    if self.count == 64 { Listening::Nothing } else { Listening::SearchZero };
            }
            Listening::SendScratchpad => {
                let i = self.count as usize;
                self.hold_if(|c| (c.scratchpad[i / 8] >> (i % 8)) & 1 == 0);
                self.count += 1;
                if self.count == 72 {
                    self.listening = Listening::Nothing;
                }
            }
        }
    }
}

struct Pin(Rc<RefCell<Wire>>);

impl OutputPin for Pin {
    type Error = ();

    fn set_low(&mut self) -> Result<(), ()> {
        if self.0.borrow().faulty_pin {
            return Err(());
        }
        self.0.borrow_mut().pull_low();
        Ok(())
    }

    fn set_high(&mut self) -> Result<(), ()> {
        self.0.borrow_mut().release();
        Ok(())
    }
}

impl InputPin for Pin {
    type Error = ();

    fn is_high(&self) -> Result<bool, ()> {
        Ok(self.0.borrow().is_high())
    }

    fn is_low(&self) -> Result<bool, ()> {
        Ok(!self.0.borrow().is_high())
    }
}

struct Clock(Rc<RefCell<Wire>>);

impl DelayUs<u16> for Clock {
    fn delay_us(&mut self, micros: u16) {
        self.0.borrow_mut().pass_time(micros as u32);
    }
}

impl DelayMs<u16> for Clock {
    fn delay_ms(&mut self, millis: u16) {
        let mut wire = self.0.borrow_mut();
        wire.waited_millis += millis as u32;
        wire.pass_time(millis as u32 * 1000);
    }
}

fn plain(error: OneWireError<()>) -> BusError {
    match error {
        OneWireError::BusNotHigh => BusError::BusNotHigh,
        OneWireError::PinError(_) => BusError::PinError,
        OneWireError::UnexpectedResponse => BusError::UnexpectedResponse,
        OneWireError::FamilyCodeMismatch => BusError::FamilyCodeMismatch,
        OneWireError::CrcMismatch => BusError::CrcMismatch,
        OneWireError::Timeout => BusError::Timeout,
    }
}

/// One search pass over the pins, decided by the verified pass.
fn search_pass(
    bus: &mut OneWire<Pin>,
    clock: &mut Clock,
    cursor: Option<&SearchCursor>,
    alarm_only: bool,
) -> Result<Option<(Address, SearchCursor)>, BusError> {
    let mut pass = match SearchPass::begin(cursor) {
        Some(pass) => pass,
        None => return Ok(None),
    };
    let presence = bus.reset(clock).map_err(plain)?;
    match opening_command(presence, alarm_only) {
        Some(command) => bus.write_byte(command, clock).map_err(plain)?,
        None => return Ok(None),
    }
    loop {
        let zero = !bus.read_bit(clock).map_err(plain)?;
        let one = !bus.read_bit(clock).map_err(plain)?;
        match pass.advance(zero, one) {
            SearchStep::Continue { write, pass: next } => {
                bus.write_bit(write, clock).map_err(plain)?;
                pass = next;
            }
            SearchStep::Found { write, address, cursor } => {
                bus.write_bit(write, clock).map_err(plain)?;
                return Ok(Some((address, cursor)));
            }
            SearchStep::Failed { pending, error } => {
                if let Some(bit) = pending {
                    bus.write_bit(bit, clock).map_err(plain)?;
                }
                return Err(error);
            }
        }
    }
}

fn walk(chips: &[(u64, bool, [u8; 9])], alarm_only: bool) -> (Vec<u64>, Option<BusError>) {
    let wire = Wire::new(chips);
    let mut bus = OneWire::new(Pin(wire.clone())).unwrap();
    let mut clock = Clock(wire);
    let mut found = Vec::new();
    let mut cursor = None;
    loop {
        match search_pass(&mut bus, &mut clock, cursor.as_ref(), alarm_only) {
            Ok(Some((address, next))) => {
                found.push(address.0);
                cursor = Some(next);
            }
            Ok(None) => return (found, None),
            Err(error) => return (found, Some(error)),
        }
    }
}

fn walk_outside(chips: &[(u64, bool, [u8; 9])], alarm_only: bool) -> (Vec<u64>, Option<BusError>) {
    let wire = Wire::new(chips);
    let mut bus = OneWire::new(Pin(wire.clone())).unwrap();
    let mut clock = Clock(wire);
    let mut found = Vec::new();
    let mut state = None;
    loop {
        match bus.device_search(state.as_ref(), alarm_only, &mut clock) {
            Ok(Some((address, next))) => {
                found.push(address.0);
                state = Some(next);
            }
            Ok(None) => return (found, None),
            Err(error) => return (found, Some(plain(error))),
        }
    }
}

fn walk_simulated(chips: &[(u64, bool, [u8; 9])], alarm_only: bool) -> (Vec<u64>, Option<BusError>) {
    let mut bus = SimulatedBus::new();
    for chip in chips {
        bus.attach(SimulatedDevice {
            address: chip.0,
            alarming: chip.1,
            reading: Err(BusError::Timeout),
        });
    }
    let all = bus.discover(alarm_only);
    (all.found.iter().map(|a| a.0).collect(), all.error)
}

fn calm(addresses: &[u64]) -> Vec<(u64, bool, [u8; 9])> {
    addresses.iter().map(|a| (*a, false, WARM)).collect()
}

#[test]
fn the_search_over_pins_finds_the_devices_in_order() {
    let (found, error) = walk(&calm(&[THIRD, FIRST, LAST, OTHER, SECOND, PLAIN]), false);
    assert_eq!(found, vec![OTHER, PLAIN, FIRST, SECOND, THIRD, LAST]);
    assert_eq!(error, None);
}

#[test]
fn the_search_over_pins_on_an_empty_wire() {
    assert_eq!(walk(&[], false), (vec![], None));
    assert_eq!(walk_outside(&[], false), (vec![], None));
}

#[test]
fn the_three_searches_agree_on_every_subset() {
    let pool = [OTHER, PLAIN, FIRST, SECOND, THIRD, LAST, FIRST ^ (1 << 17), 0x0123_4567_89ab_cdef];
    for mask in 0u32..256 {
        let mut chips = Vec::new();
        for (k, a) in pool.iter().enumerate() {
            if mask & (1 << k) != 0 {
                chips.push((*a, k % 3 == 0, WARM));
            }
        }
        for alarm_only in [false, true] {
            let outside = walk_outside(&chips, alarm_only);
            assert_eq!(walk(&chips, alarm_only), outside, "mask {} alarm {}", mask, alarm_only);
            assert_eq!(walk_simulated(&chips, alarm_only), outside, "mask {} alarm {}", mask, alarm_only);
        }
    }
}

#[test]
fn the_three_searches_agree_on_scattered_addresses() {
    let mut seed: u64 = 0x9e37_79b9_7f4a_7c15;
    for round in 0..40 {
        let mut chips = Vec::new();
        for _ in 0..(round % 7) {
            seed = seed.wrapping_mul(6364136223846793005).wrapping_add(1442695040888963407);
            let serial = seed.to_le_bytes();
            let address = Address::from_parts(
                if seed & 1 == 0 { 0x28 } else { 0x10 },
                [serial[1], serial[2], serial[3], serial[4], serial[5], serial[6]],
            );
            chips.push((address.0, false, WARM));
        }
        let outside = walk_outside(&chips, false);
        assert_eq!(outside.0.len(), chips.len());
        assert_eq!(outside.1, None);
        assert_eq!(walk(&chips, false), outside);
        assert_eq!(walk_simulated(&chips, false), outside);
    }
}

#[test]
fn a_wire_that_is_stuck_low_fails_the_reset() {
    let wire = Wire::new(&calm(&[FIRST]));
    let mut bus = OneWire::new(Pin(wire.clone())).unwrap();
    let mut clock = Clock(wire.clone());
    wire.borrow_mut().stuck_low = true;
    assert!(matches!(
        search_pass(&mut bus, &mut clock, None, false),
        Err(BusError::BusNotHigh)
    ));
}

fn sample_of(data: &ds18b20::SensorData) -> Sample {
    Sample {
        sixteenths: (data.temperature * 16.0) as i32,
        resolution: match data.resolution {
            ds18b20::Resolution::Bits9 => Resolution::Bits9,
            ds18b20::Resolution::Bits10 => Resolution::Bits10,
            ds18b20::Resolution::Bits11 => Resolution::Bits11,
            ds18b20::Resolution::Bits12 => Resolution::Bits12,
        },
    }
}

/// One round over the pins: the round decides, the outside crates move the
/// pin.
fn run_round(bus: &mut OneWire<Pin>, clock: &mut Clock) -> (Vec<Report>, Outcome) {
    let mut round = Round::new();
    let mut reports = Vec::new();
    loop {
        let event = match round.command() {
            Command::StartConversion => Event::ConversionStarted(
                ds18b20::start_simultaneous_temp_measurement(bus, clock).map_err(plain),
            ),
            Command::Wait { millis } => {
                clock.delay_ms(millis);
                Event::WaitElapsed
            }
            Command::Search => Event::Searched(search_pass(bus, clock, round.cursor(), false)),
            Command::Read { address } => {
                let read = ds18b20::Ds18b20::new::<()>(one_wire_bus::Address(address.0))
                    .and_then(|sensor| sensor.read_data(bus, clock));
                Event::ReadDone(read.map(|data| sample_of(&data)).map_err(plain))
            }
            Command::Finish => return (reports, round.outcome().unwrap()),
        };
        let (next, report) = round.handle(event);
        round = next;
        reports.extend(report);
    }
}

#[test]
fn a_round_over_pins_reads_the_sensors_and_skips_the_stranger() {
    let wire = Wire::new(&[(SECOND, false, MILD), (OTHER, false, WARM), (FIRST, false, WARM)]);
    let mut bus = OneWire::new(Pin(wire.clone())).unwrap();
    let mut clock = Clock(wire.clone());
    let mut indicator = Vec::new();
    let mut stage = Stage::initial(Ok(()));
    let mut rounds = 0;
    while rounds < 2 {
        match stage.duty() {
            Duty::AssertIndicator => {
                indicator.push(true);
                stage = stage.after(None);
            }
            Duty::RunRound => {
                let (reports, outcome) = run_round(&mut bus, &mut clock);
                assert_eq!(
                    reports,
                    vec![
                        Report::Skipped { address: Address(OTHER), family: 0x10 },
                        Report::Measurement {
                            address: Address(FIRST),
                            sample: Sample { sixteenths: 355, resolution: Resolution::Bits12 },
                        },
                        Report::Measurement {
                            address: Address(SECOND),
                            sample: Sample { sixteenths: 353, resolution: Resolution::Bits12 },
                        },
                        Report::SearchEnded { failure: None },
                    ]
                );
                assert_eq!(outcome, Outcome::Completed);
                stage = stage.after(Some(outcome));
            }
            Duty::Rest { millis } => {
                assert_eq!(millis, 1000);
                indicator.push(false);
                rounds += 1;
                stage = stage.after(None);
            }
            Duty::Halt { error } => panic!("{:?}", error),
        }
    }
    assert_eq!(indicator, vec![true, false, true, false]);
    let wire = wire.borrow();
    assert_eq!(wire.conversions, 2);
    assert_eq!(wire.waited_millis, 1500);
    assert_eq!(wire.scratchpad_reads, vec![FIRST, SECOND, FIRST, SECOND]);
    assert_eq!(355.0f32 / 16.0, 22.1875);
}

#[test]
fn a_round_over_pins_goes_on_after_a_garbled_read() {
    let wire = Wire::new(&[(SECOND, false, MILD), (FIRST, false, GARBLED)]);
    let mut bus = OneWire::new(Pin(wire.clone())).unwrap();
    let mut clock = Clock(wire.clone());
    let (reports, outcome) = run_round(&mut bus, &mut clock);
    assert_eq!(
        reports,
        vec![
            Report::ReadFailed { address: Address(FIRST), error: BusError::CrcMismatch },
            Report::Measurement {
                address: Address(SECOND),
                sample: Sample { sixteenths: 353, resolution: Resolution::Bits12 },
            },
            Report::SearchEnded { failure: None },
        ]
    );
    assert_eq!(outcome, Outcome::Completed);
}

#[test]
fn a_round_over_pins_on_an_empty_wire() {
    let wire = Wire::new(&[]);
    let mut bus = OneWire::new(Pin(wire.clone())).unwrap();
    let mut clock = Clock(wire.clone());
    let (reports, outcome) = run_round(&mut bus, &mut clock);
    assert_eq!(reports, vec![Report::SearchEnded { failure: None }]);
    assert_eq!(outcome, Outcome::Completed);
    assert!(wire.borrow().scratchpad_reads.is_empty());
}

#[test]
fn a_round_over_pins_is_aborted_when_the_wire_is_stuck() {
    let wire = Wire::new(&calm(&[FIRST]));
    let mut bus = OneWire::new(Pin(wire.clone())).unwrap();
    let mut clock = Clock(wire.clone());
    wire.borrow_mut().stuck_low = true;
    let (reports, outcome) = run_round(&mut bus, &mut clock);
    assert_eq!(reports, vec![Report::RoundAborted { error: BusError::BusNotHigh }]);
    assert_eq!(outcome, Outcome::Aborted { error: BusError::BusNotHigh });
    assert!(wire.borrow().scratchpad_reads.is_empty());
    assert_eq!(wire.borrow().waited_millis, 0);
}

#[test]
fn a_round_over_pins_is_aborted_when_the_pin_fails() {
    let wire = Wire::new(&calm(&[FIRST]));
    let mut bus = OneWire::new(Pin(wire.clone())).unwrap();
    let mut clock = Clock(wire.clone());
    wire.borrow_mut().faulty_pin = true;
    let (reports, outcome) = run_round(&mut bus, &mut clock);
    assert_eq!(reports, vec![Report::RoundAborted { error: BusError::PinError }]);
    assert_eq!(outcome, Outcome::Aborted { error: BusError::PinError });
}

#[test]
fn a_pin_that_fails_during_the_search_ends_the_round() {
    let wire = Wire::new(&calm(&[FIRST]));
    let mut bus = OneWire::new(Pin(wire.clone())).unwrap();
    let mut clock = Clock(wire.clone());
    let round = Round::new();
    let (round, _) = round.handle(Event::ConversionStarted(Ok(())));
    let (round, _) = round.handle(Event::WaitElapsed);
    wire.borrow_mut().faulty_pin = true;
    let searched = search_pass(&mut bus, &mut clock, round.cursor(), false);
    assert!(matches!(searched, Err(BusError::PinError)));
    let (round, report) = round.handle(Event::Searched(searched));
    assert_eq!(report, Some(Report::SearchEnded { failure: Some(BusError::PinError) }));
    assert_eq!(round.outcome(), Some(Outcome::Completed));
}

#[test]
fn the_sensor_crate_refuses_a_stranger_and_the_round_never_asks() {
    let refused = ds18b20::Ds18b20::new::<()>(one_wire_bus::Address(OTHER)).map(|_| ()).map_err(plain);
    assert_eq!(refused, Err(BusError::FamilyCodeMismatch));
    assert_eq!(plain(OneWireError::Timeout), BusError::Timeout);
    let wire = Wire::new(&[(OTHER, false, WARM), (LAST, false, WARM)]);
    let mut bus = OneWire::new(Pin(wire.clone())).unwrap();
    let mut clock = Clock(wire.clone());
    let (reports, outcome) = run_round(&mut bus, &mut clock);
    assert_eq!(
        reports,
        vec![
            Report::Skipped { address: Address(OTHER), family: 0x10 },
            Report::Skipped { address: Address(LAST), family: 0x22 },
            Report::SearchEnded { failure: None },
        ]
    );
    assert_eq!(outcome, Outcome::Completed);
    assert!(wire.borrow().scratchpad_reads.is_empty());
}
