//! One measurement round, as a machine that is told what happened on the
//! wire and answers with what to do next.
//!
//! A round starts a conversion on all devices at once, waits until the
//! slowest conversion is over, and then walks the bus: a search pass for
//! the next device, a read of its measurement if it is a temperature
//! sensor, the next pass, until a pass finds nothing. The machine decides and
//! keeps the search cursor; its driver touches the wire.

use vstd::prelude::*;
use crate::address::{family_of, Address};
use crate::error::BusError;
use crate::resolution::{conversion_millis, Resolution};
use crate::sample::Sample;
use crate::search::{CursorModel, SearchCursor};

verus! {

/// The family code of the temperature sensors that a round reads.
pub const SENSOR_FAMILY: u8 = 0x28;

/// Trusted: the constant `ds18b20::FAMILY_CODE`, which that crate defines as
/// `0x28`.
#[verifier::external_body]
fn outside_sensor_family() -> (code: u8)
    ensures
        code == SENSOR_FAMILY,
{
    ds18b20::FAMILY_CODE
}

/// Whether the address belongs to a temperature sensor.
pub open spec fn is_sensor(raw: u64) -> bool {
    family_of(raw) == SENSOR_FAMILY
}

/// How a round ended.
#[derive(Clone, Copy, Debug, PartialEq, Eq, Structural)]
pub enum Outcome {
    /// The bus was walked to its end, or as far as it answered.
    Completed,
    /// The conversion could not be started; nothing was read.
    Aborted { error: BusError },
}

/// Where a round stands.
#[derive(Clone, Copy, Debug, PartialEq, Eq, Structural)]
pub enum Phase {
    /// The conversion command is due.
    Starting,
    /// The devices are converting.
    Converting,
    /// A search pass is due.
    Searching,
    /// The pass found a sensor; its measurement is to be read.
    Reading { address: Address },
    /// The round is over.
    Done { outcome: Outcome },
}

/// What the driver does next.
#[derive(Clone, Copy, Debug, PartialEq, Eq, Structural)]
pub enum Command {
    /// Address all devices at once and start a conversion.
    StartConversion,
    /// Wait this long.
    Wait { millis: u16 },
    /// Run one search pass, resumed from the cursor that the round holds.
    Search,
    /// Read the measurement of this device.
    Read { address: Address },
    /// Nothing: the round is over.
    Finish,
}

/// What the driver tells the round.
pub enum Event {
    /// The conversion command went out, or failed.
    ConversionStarted(Result<(), BusError>),
    /// The wait is over.
    WaitElapsed,
    /// A search pass ended: with a device and the cursor behind it, with
    /// nothing, or with an error.
    Searched(Result<Option<(Address, SearchCursor)>, BusError>),
    /// A read ended.
    ReadDone(Result<Sample, BusError>),
}

/// What a round has to say to whoever watches it. Each entry is handed out
/// at the moment it arises; the round keeps none.
#[derive(Clone, Copy, Debug, PartialEq, Eq, Structural)]
pub enum Report {
    /// A sensor was read.
    Measurement { address: Address, sample: Sample },
    /// A device of another family was passed over.
    Skipped { address: Address, family: u8 },
    /// A sensor could not be read; the round goes on with the next device.
    ReadFailed { address: Address, error: BusError },
    /// No more devices: the search found nothing more (`None`) or failed.
    SearchEnded { failure: Option<BusError> },
    /// The conversion could not be started; the round is given up.
    RoundAborted { error: BusError },
}

/// A round as a value of the model.
pub struct RoundModel {
    pub phase: Phase,
    pub cursor: Option<CursorModel>,
    pub resolution: Resolution,
}

/// A round before its first command.
pub open spec fn fresh_round(resolution: Resolution) -> RoundModel {
    RoundModel { phase: Phase::Starting, cursor: None, resolution }
}

/// What is due in a round.
pub open spec fn command_of(round: RoundModel) -> Command {
    match round.phase {
        Phase::Starting => Command::StartConversion,
        Phase::Converting => Command::Wait { millis: conversion_millis(round.resolution) },
        Phase::Searching => Command::Search,
        Phase::Reading { address } => Command::Read { address },
        Phase::Done { .. } => Command::Finish,
    }
}

/// A round's answer to an event.
pub struct Reaction {
    pub round: RoundModel,
    pub report: Option<Report>,
}

/// How a round answers an event. An event that does not answer the command
/// that is due changes nothing.
///
/// - The conversion did not start: the round is aborted.
/// - A pass found a sensor: it is read next. It found another device: the
///   device is skipped and the next pass is due. Either way the round holds
///   the new cursor.
/// - A pass found nothing or failed: the round is over.
/// - A read ended, well or not: the next pass is due.
pub open spec fn react(round: RoundModel, event: Event) -> Reaction {
    match (round.phase, event) {
        (Phase::Starting, Event::ConversionStarted(Ok(_))) => Reaction {
            round: RoundModel { phase: Phase::Converting, ..round },
            report: None,
        },
        (Phase::Starting, Event::ConversionStarted(Err(error))) => Reaction {
            round: RoundModel { phase: Phase::Done { outcome: Outcome::Aborted { error } }, ..round },
            report: Some(Report::RoundAborted { error }),
        },
        (Phase::Converting, Event::WaitElapsed) => Reaction {
            round: RoundModel { phase: Phase::Searching, cursor: None, ..round },
            report: None,
        },
        (Phase::Searching, Event::Searched(Ok(Some((address, cursor))))) => if is_sensor(
            address.0,
        ) {
            Reaction {
                round: RoundModel {
                    phase: Phase::Reading { address },
                    cursor: Some(cursor@),
                    ..round
                },
                report: None,
            }
        } else {
            Reaction {
                round: RoundModel { phase: Phase::Searching, cursor: Some(cursor@), ..round },
                report: Some(Report::Skipped { address, family: family_of(address.0) }),
            }
        },
        (Phase::Searching, Event::Searched(Ok(None))) => Reaction {
            round: RoundModel { phase: Phase::Done { outcome: Outcome::Completed }, ..round },
            report: Some(Report::SearchEnded { failure: None }),
        },
        (Phase::Searching, Event::Searched(Err(error))) => Reaction {
            round: RoundModel { phase: Phase::Done { outcome: Outcome::Completed }, ..round },
            report: Some(Report::SearchEnded { failure: Some(error) }),
        },
        (Phase::Reading { address }, Event::ReadDone(Ok(sample))) => Reaction {
            round: RoundModel { phase: Phase::Searching, ..round },
            report: Some(Report::Measurement { address, sample }),
        },
        (Phase::Reading { address }, Event::ReadDone(Err(error))) => Reaction {
            round: RoundModel { phase: Phase::Searching, ..round },
            report: Some(Report::ReadFailed { address, error }),
        },
        _ => Reaction { round, report: None },
    }
}

/// The reports that a round hands out over a series of events.
pub open spec fn reports_of(round: RoundModel, events: Seq<Event>) -> Seq<Report>
    decreases events.len(),
{
    if events.len() == 0 {
        Seq::empty()
    } else {
        let first = react(round, events[0]);
        let rest = reports_of(first.round, events.subrange(1, events.len() as int));
        match first.report {
            Some(report) => seq![report] + rest,
            None => rest,
        }
    }
}

/// The round after a series of events.
pub open spec fn round_after(round: RoundModel, events: Seq<Event>) -> RoundModel
    decreases events.len(),
{
    if events.len() == 0 {
        round
    } else {
        round_after(react(round, events[0]).round, events.subrange(1, events.len() as int))
    }
}

/// One measurement round.
pub struct Round {
    phase: Phase,
    cursor: Option<SearchCursor>,
    resolution: Resolution,
}

impl View for Round {
    type V = RoundModel;

    closed spec fn view(&self) -> RoundModel {
        RoundModel {
            phase: self.phase,
            cursor: match self.cursor {
                Some(c) => Some(c@),
                None => None,
            },
            resolution: self.resolution,
        }
    }
}

impl Round {
    #[verifier::type_invariant]
    closed spec fn inv(self) -> bool {
        self.phase matches Phase::Reading { address } ==> is_sensor(address.0)
    }

    /// A round that waits as long as the finest precision takes, which is
    /// right whatever precision the devices are set to.
    pub fn new() -> (round: Round)
        ensures
            round@ == fresh_round(Resolution::Bits12),
    {
        Round { phase: Phase::Starting, cursor: None, resolution: Resolution::Bits12 }
    }

    /// A round for devices that are known to convert at `resolution`.
    pub fn with_resolution(resolution: Resolution) -> (round: Round)
        ensures
            round@ == fresh_round(resolution),
    {
        Round { phase: Phase::Starting, cursor: None, resolution }
    }

    /// Where the round stands.
    pub fn phase(&self) -> (phase: Phase)
        ensures
            phase == self@.phase,
            phase matches Phase::Reading { address } ==> is_sensor(address.0),
    {
        proof {
            use_type_invariant(self);
        }
        self.phase
    }

    /// How the round ended, once it has.
    pub fn outcome(&self) -> (outcome: Option<Outcome>)
        ensures
            outcome == (match self@.phase {
                Phase::Done { outcome } => Some(outcome),
                _ => None,
            }),
    {
        match self.phase {
            Phase::Done { outcome } => Some(outcome),
            _ => None,
        }
    }

    /// The cursor from which the next search pass resumes.
    pub fn cursor(&self) -> (cursor: Option<&SearchCursor>)
        ensures
            match cursor {
                Some(c) => self@.cursor == Some(c@),
                None => self@.cursor is None,
            },
    {
        self.cursor.as_ref()
    }

    /// What the driver is to do next. A read is only ever asked for a
    /// device of the sensor family.
    pub fn command(&self) -> (command: Command)
        ensures
            command == command_of(self@),
            command matches Command::Read { address } ==> is_sensor(address.0),
    {
        proof {
            use_type_invariant(self);
        }
        match self.phase {
            Phase::Starting => Command::StartConversion,
            Phase::Converting => Command::Wait { millis: self.resolution.conversion_time_millis() },
            Phase::Searching => Command::Search,
            Phase::Reading { address } => Command::Read { address },
            Phase::Done { .. } => Command::Finish,
        }
    }

    /// Takes in what happened and says what there is to report.
    pub fn handle(self, event: Event) -> (next: (Round, Option<Report>))
        ensures
            next.0@ == react(self@, event).round,
            next.1 == react(self@, event).report,
    {
        proof {
            use_type_invariant(&self);
        }
        let Round { phase, cursor, resolution } = self;
        match (phase, event) {
            (Phase::Starting, Event::ConversionStarted(Ok(_))) => (
                Round { phase: Phase::Converting, cursor, resolution },
                None,
            ),
            (Phase::Starting, Event::ConversionStarted(Err(error))) => (
                Round { phase: Phase::Done { outcome: Outcome::Aborted { error } }, cursor, resolution },
                Some(Report::RoundAborted { error }),
            ),
            (Phase::Converting, Event::WaitElapsed) => (
                Round { phase: Phase::Searching, cursor: None, resolution },
                None,
            ),
            (Phase::Searching, Event::Searched(Ok(Some((address, found))))) => {
                let family = address.family_code();
                if family == outside_sensor_family() {
                    (Round { phase: Phase::Reading { address }, cursor: Some(found), resolution }, None)
                } else {
                    (
                        Round { phase: Phase::Searching, cursor: Some(found), resolution },
                        Some(Report::Skipped { address, family }),
                    )
                }
            },
            (Phase::Searching, Event::Searched(Ok(None))) => (
                Round { phase: Phase::Done { outcome: Outcome::Completed }, cursor, resolution },
                Some(Report::SearchEnded { failure: None }),
            ),
            (Phase::Searching, Event::Searched(Err(error))) => (
                Round { phase: Phase::Done { outcome: Outcome::Completed }, cursor, resolution },
                Some(Report::SearchEnded { failure: Some(error) }),
            ),
            (Phase::Reading { address }, Event::ReadDone(Ok(sample))) => (
                Round { phase: Phase::Searching, cursor, resolution },
                Some(Report::Measurement { address, sample }),
            ),
            (Phase::Reading { address }, Event::ReadDone(Err(error))) => (
                Round { phase: Phase::Searching, cursor, resolution },
                Some(Report::ReadFailed { address, error }),
            ),
            (phase, _) => (Round { phase, cursor, resolution }, None),
        }
    }
}

/// Whether a report tells of a read, successful or not.
pub open spec fn is_read_report(report: Report) -> bool {
    report is Measurement || report is ReadFailed
}

/// The address that a report is about, if it is about one.
pub open spec fn subject(report: Report) -> Option<Address> {
    match report {
        Report::Measurement { address, .. } => Some(address),
        Report::Skipped { address, .. } => Some(address),
        Report::ReadFailed { address, .. } => Some(address),
        _ => None,
    }
}

/// A round that sets out to read only sensors keeps doing so: whatever
/// happens, the device of the next read is of the sensor family, and so is
/// the device of every report of a read.
pub proof fn lemma_only_sensors_are_read(round: RoundModel, event: Event)
    requires
        round.phase matches Phase::Reading { address } ==> is_sensor(address.0),
    ensures
        react(round, event).round.phase matches Phase::Reading { address } ==> is_sensor(address.0),
        command_of(react(round, event).round) matches Command::Read { address } ==> is_sensor(
            address.0,
        ),
        react(round, event).report matches Some(report) ==> (is_read_report(report) ==> (subject(
            report,
        ) matches Some(address) && is_sensor(address.0))),
        react(round, event).report matches Some(Report::Skipped { address, .. }) ==> !is_sensor(
            address.0,
        ),
{
}

/// A round that is over stays over: it reports nothing more and does not
/// change.
pub proof fn lemma_done_is_final(round: RoundModel, events: Seq<Event>)
    requires
        round.phase is Done,
    ensures
        reports_of(round, events) == Seq::<Report>::empty(),
        round_after(round, events) == round,
    decreases events.len(),
{
    if events.len() > 0 {
        lemma_done_is_final(round, events.subrange(1, events.len() as int));
    }
}

/// A round whose conversion command fails reports that it was aborted, and
/// nothing else, whatever is fed to it afterwards: no measurement, no read,
/// no second entry.
pub proof fn lemma_failed_conversion_aborts(
    resolution: Resolution,
    error: BusError,
    events: Seq<Event>,
)
    requires
        events.len() > 0,
        events[0] == Event::ConversionStarted(Err(error)),
    ensures
        reports_of(fresh_round(resolution), events) == seq![Report::RoundAborted { error }],
        round_after(fresh_round(resolution), events).phase == (Phase::Done {
            outcome: Outcome::Aborted { error },
        }),
{
    let first = react(fresh_round(resolution), events[0]);
    lemma_done_is_final(first.round, events.subrange(1, events.len() as int));
    assert(seq![Report::RoundAborted { error }] + Seq::<Report>::empty()
        =~= seq![Report::RoundAborted { error }]);
}

/// A round on a bus without devices: the conversion command goes out, the
/// wait passes, the first search pass finds nothing. The round completes;
/// it reports that the search ended, without an error, and no measurement.
pub proof fn lemma_round_without_devices(resolution: Resolution, events: Seq<Event>)
    requires
        events.len() >= 3,
        events[0] == Event::ConversionStarted(Ok(())),
        events[1] == Event::WaitElapsed,
        events[2] == Event::Searched(Ok(None)),
    ensures
        reports_of(fresh_round(resolution), events) == seq![Report::SearchEnded { failure: None }],
        round_after(fresh_round(resolution), events).phase == (Phase::Done {
            outcome: Outcome::Completed,
        }),
{
    let r0 = fresh_round(resolution);
    let e1 = events.subrange(1, events.len() as int);
    let r1 = react(r0, events[0]).round;
    let e2 = e1.subrange(1, e1.len() as int);
    let r2 = react(r1, e1[0]).round;
    let e3 = e2.subrange(1, e2.len() as int);
    let r3 = react(r2, e2[0]).round;
    assert(e1[0] == events[1]);
    assert(e2[0] == events[2]);
    lemma_done_is_final(r3, e3);
    assert(reports_of(r2, e2) =~= seq![Report::SearchEnded { failure: None }]);
    assert(reports_of(r1, e1) == reports_of(r2, e2));
    assert(reports_of(r0, events) == reports_of(r1, e1));
    assert(round_after(r2, e2) == r3);
    assert(round_after(r1, e1) == round_after(r2, e2));
    assert(round_after(r0, events) == round_after(r1, e1));
}

} // verus!
