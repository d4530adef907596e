//! A whole measurement round against a simulated bus: the round machine
//! decides, the simulated bus answers, and everything that the round
//! reports is written down.

use vstd::prelude::*;
use crate::address::{family_of, Address};
use crate::error::BusError;
use crate::order::{ascending, headroom, lemma_precedes_headroom};
use crate::resolution::{conversion_millis, Resolution};
use crate::round::{
    fresh_round, is_sensor, react, Command, Event, Outcome, Phase, Report, Round, RoundModel,
};
use crate::sample::Sample;
use crate::sim::{
    before_every_invalid, discovery_error, lemma_one_more, lemma_search_over,
    lemma_search_stopped, listed, raw, search_meets, SimulatedBus, SimulatedDevice, up_to,
};
use crate::wire::{
    lemma_found_tracks, lemma_resumed_pass_finds_successor, lemma_resumed_pass_gets_through,
    silent, tracks,
};

verus! {

/// What a read of the device at `address` comes to: the reading of the
/// first device in the list that has this address. A read that no device
/// answers brings back nothing but ones, which fails the checksum.
pub open spec fn reading_in(devices: Seq<SimulatedDevice>, address: u64) -> Result<
    Sample,
    BusError,
>
    decreases devices.len(),
{
    if devices.len() == 0 {
        Err(BusError::CrcMismatch)
    } else if devices[0].address == address {
        devices[0].reading
    } else {
        reading_in(devices.subrange(1, devices.len() as int), address)
    }
}

/// What a round reports of a device that its search found: the measurement
/// of a sensor, or that the sensor could not be read, or that the device is
/// no sensor and was skipped.
pub open spec fn entry_for(devices: Seq<SimulatedDevice>, address: Address) -> Report {
    if is_sensor(address.0) {
        match reading_in(devices, address.0) {
            Ok(sample) => Report::Measurement { address, sample },
            Err(error) => Report::ReadFailed { address, error },
        }
    } else {
        Report::Skipped { address, family: family_of(address.0) }
    }
}

/// The reports on a list of devices, in order.
pub open spec fn entries(devices: Seq<SimulatedDevice>, visited: Seq<Address>) -> Seq<Report> {
    Seq::new(visited.len(), |k: int| entry_for(devices, visited[k]))
}

/// Everything that one round left behind.
pub struct RoundRecord {
    /// The reports, in the order in which the round handed them out.
    pub reports: Vec<Report>,
    /// The devices that the search found, in order.
    pub visited: Vec<Address>,
    /// How long the round waited for the conversion, in milliseconds.
    pub waited_millis: u16,
    /// How the round ended.
    pub outcome: Outcome,
}

/// What a round on a bus leaves behind.
///
/// If the conversion command fails, the round is aborted: one report says
/// so, nothing is searched, read or waited for. Otherwise the round waits
/// for the conversion and walks the bus in search order as far as the
/// search gets; it reports on each device that it meets, then that the
/// search ended and why, and completes.
pub open spec fn round_record_ok(
    bus: SimulatedBus,
    resolution: Resolution,
    reports: Seq<Report>,
    visited: Seq<Address>,
    waited_millis: u16,
    outcome: Outcome,
) -> bool {
    match bus.conversion_fault {
        Some(error) => {
            &&& reports == seq![Report::RoundAborted { error }]
            &&& visited.len() == 0
            &&& waited_millis == 0
            &&& outcome == (Outcome::Aborted { error })
        },
        None => {
            &&& ascending(raw(visited))
            &&& forall|a: u64|
                listed(visited, a) <==> bus.responders(false).contains(a) && before_every_invalid(
                    bus.responders(false),
                    a,
                )
            &&& reports == entries(bus.devices@, visited).push(
                Report::SearchEnded {
                    failure: discovery_error(bus.present(), bus.responders(false)),
                },
            )
            &&& waited_millis == conversion_millis(resolution)
            &&& outcome == Outcome::Completed
        },
    }
}

/// What holds between two steps of a round on a bus.
#[verifier::opaque]
spec fn in_step(
    bus: SimulatedBus,
    resolution: Resolution,
    round: RoundModel,
    reports: Seq<Report>,
    visited: Seq<Address>,
    waited_millis: u16,
) -> bool {
    let answering = bus.responders(false);
    &&& round.resolution == resolution
    &&& ascending(raw(visited))
    &&& match round.phase {
        Phase::Starting => {
            &&& round.cursor is None
            &&& reports.len() == 0
            &&& visited.len() == 0
            &&& waited_millis == 0
        },
        Phase::Converting => {
            &&& bus.conversion_fault is None
            &&& reports.len() == 0
            &&& visited.len() == 0
        },
        Phase::Searching => {
            &&& bus.conversion_fault is None
            &&& waited_millis == conversion_millis(resolution)
            &&& reports == entries(bus.devices@, visited)
            &&& match round.cursor {
                None => visited.len() == 0,
                Some(c) => tracks(answering, c) && up_to(answering, visited, c.address),
            }
        },
        Phase::Reading { address } => {
            &&& bus.conversion_fault is None
            &&& waited_millis == conversion_millis(resolution)
            &&& is_sensor(address.0)
            &&& visited.len() > 0
            &&& visited.last() == address
            &&& reports == entries(bus.devices@, visited.drop_last())
            &&& round.cursor matches Some(c) && tracks(answering, c) && up_to(
                answering,
                visited,
                c.address,
            )
        },
        Phase::Done { outcome } => round_record_ok(
            bus,
            resolution,
            reports,
            visited,
            waited_millis,
            outcome,
        ),
    }
}

/// How far a round is from its end, for the sake of termination: first by
/// phase, then by how much of the bus lies ahead of the cursor, then by
/// whether a read is still due.
spec fn steps_ahead(round: RoundModel) -> (int, int, int) {
    let ahead = match round.cursor {
        Some(c) => headroom(c.address, 64) as int,
        None => 0,
    };
    match round.phase {
        Phase::Starting => (5, 0, 0),
        Phase::Converting => (4, 0, 0),
        Phase::Searching => if round.cursor is None {
            (3, 0, 0)
        } else {
            (2, ahead, 0)
        },
        Phase::Reading { .. } => (2, ahead, 1),
        Phase::Done { .. } => (0, 0, 0),
    }
}

/// The first triple comes before the second in the order of words.
spec fn nearer(a: (int, int, int), b: (int, int, int)) -> bool {
    a.0 < b.0 || (a.0 == b.0 && (a.1 < b.1 || (a.1 == b.1 && a.2 < b.2)))
}

/// The reports of a round after one more answer.
spec fn with_report(reports: Seq<Report>, report: Option<Report>) -> Seq<Report> {
    match report {
        Some(entry) => reports.push(entry),
        None => reports,
    }
}

proof fn lemma_round_begins(bus: SimulatedBus, resolution: Resolution)
    ensures
        in_step(bus, resolution, fresh_round(resolution), Seq::empty(), Seq::empty(), 0),
{
    reveal(in_step);
}

proof fn lemma_step_start(
    bus: SimulatedBus,
    resolution: Resolution,
    round: RoundModel,
    reports: Seq<Report>,
    visited: Seq<Address>,
    waited: u16,
    event: Event,
)
    requires
        in_step(bus, resolution, round, reports, visited, waited),
        round.phase is Starting,
        event == Event::ConversionStarted(
            match bus.conversion_fault {
                Some(error) => Err::<(), BusError>(error),
                None => Ok(()),
            },
        ),
    ensures
        in_step(
            bus,
            resolution,
            react(round, event).round,
            with_report(reports, react(round, event).report),
            visited,
            waited,
        ),
        nearer(steps_ahead(react(round, event).round), steps_ahead(round)),
{
    reveal(in_step);
    if bus.conversion_fault is Some {
        let error = bus.conversion_fault->0;
        assert(with_report(reports, react(round, event).report) =~= seq![
            Report::RoundAborted { error },
        ]);
    }
}

proof fn lemma_step_wait(
    bus: SimulatedBus,
    resolution: Resolution,
    round: RoundModel,
    reports: Seq<Report>,
    visited: Seq<Address>,
    waited: u16,
)
    requires
        in_step(bus, resolution, round, reports, visited, waited),
        round.phase is Converting,
    ensures
        in_step(
            bus,
            resolution,
            react(round, Event::WaitElapsed).round,
            with_report(reports, react(round, Event::WaitElapsed).report),
            visited,
            conversion_millis(resolution),
        ),
        nearer(steps_ahead(react(round, Event::WaitElapsed).round), steps_ahead(round)),
        round.resolution == resolution,
{
    reveal(in_step);
    assert(entries(bus.devices@, visited) =~= reports);
}

proof fn lemma_step_found(
    bus: SimulatedBus,
    resolution: Resolution,
    round: RoundModel,
    reports: Seq<Report>,
    visited: Seq<Address>,
    waited: u16,
    event: Event,
)
    requires
        in_step(bus, resolution, round, reports, visited, waited),
        round.phase is Searching,
        event matches Event::Searched(result) && result matches Ok(Some(_)) && search_meets(
            bus.present(),
            bus.responders(false),
            round.cursor,
            result,
        ),
    ensures
        event matches Event::Searched(Ok(Some((address, _)))) && in_step(
            bus,
            resolution,
            react(round, event).round,
            with_report(reports, react(round, event).report),
            visited.push(address),
            waited,
        ),
        nearer(steps_ahead(react(round, event).round), steps_ahead(round)),
{
    reveal(in_step);
    let answering = bus.responders(false);
    let result = event->Searched_0;
    let found = result->Ok_0->0;
    let address = found.0;
    let next = found.1@;
    lemma_found_tracks(answering, round.cursor, address.0, next);
    lemma_one_more(answering, round.cursor, visited, address);
    if round.cursor is Some {
        let c = round.cursor->0;
        lemma_resumed_pass_gets_through(answering, c);
        lemma_resumed_pass_finds_successor(answering, c, address.0);
        lemma_precedes_headroom(c.address, address.0);
    }
    assert(visited.push(address).drop_last() =~= visited);
    assert(entries(bus.devices@, visited.push(address)) =~= entries(bus.devices@, visited).push(
        entry_for(bus.devices@, address),
    ));
}

proof fn lemma_step_ended(
    bus: SimulatedBus,
    resolution: Resolution,
    round: RoundModel,
    reports: Seq<Report>,
    visited: Seq<Address>,
    waited: u16,
    event: Event,
)
    requires
        in_step(bus, resolution, round, reports, visited, waited),
        !bus.present() ==> silent(bus.responders(false)),
        round.phase is Searching,
        event matches Event::Searched(result) && !(result matches Ok(Some(_))) && search_meets(
            bus.present(),
            bus.responders(false),
            round.cursor,
            result,
        ),
    ensures
        in_step(
            bus,
            resolution,
            react(round, event).round,
            with_report(reports, react(round, event).report),
            visited,
            waited,
        ),
        nearer(steps_ahead(react(round, event).round), steps_ahead(round)),
{
    reveal(in_step);
    let answering = bus.responders(false);
    let result = event->Searched_0;
    match result {
        Ok(_) => {
            lemma_search_over(bus.present(), answering, round.cursor, visited);
        },
        Err(error) => {
            lemma_search_stopped(bus.present(), answering, round.cursor, visited, error);
        },
    }
}

proof fn lemma_step_read(
    bus: SimulatedBus,
    resolution: Resolution,
    round: RoundModel,
    reports: Seq<Report>,
    visited: Seq<Address>,
    waited: u16,
    event: Event,
)
    requires
        in_step(bus, resolution, round, reports, visited, waited),
        round.phase matches Phase::Reading { address } && event == Event::ReadDone(
            reading_in(bus.devices@, address.0),
        ),
    ensures
        in_step(
            bus,
            resolution,
            react(round, event).round,
            with_report(reports, react(round, event).report),
            visited,
            waited,
        ),
        nearer(steps_ahead(react(round, event).round), steps_ahead(round)),
{
    reveal(in_step);
    let address = round.phase->Reading_address;
    assert(entries(bus.devices@, visited) =~= entries(bus.devices@, visited.drop_last()).push(
        entry_for(bus.devices@, address),
    ));
}

proof fn lemma_round_ends(
    bus: SimulatedBus,
    resolution: Resolution,
    round: RoundModel,
    reports: Seq<Report>,
    visited: Seq<Address>,
    waited: u16,
)
    requires
        in_step(bus, resolution, round, reports, visited, waited),
        round.phase is Done,
    ensures
        round_record_ok(bus, resolution, reports, visited, waited, round.phase->Done_outcome),
{
    reveal(in_step);
}

/// On a bus without devices a round whose conversion command goes out
/// completes: it visits nothing, reports no measurement and no failure, only
/// that the search ended.
pub proof fn lemma_round_on_empty_bus(
    bus: SimulatedBus,
    resolution: Resolution,
    reports: Seq<Report>,
    visited: Seq<Address>,
    waited_millis: u16,
    outcome: Outcome,
)
    requires
        bus.devices@.len() == 0,
        bus.conversion_fault is None,
        round_record_ok(bus, resolution, reports, visited, waited_millis, outcome),
    ensures
        visited.len() == 0,
        reports == seq![Report::SearchEnded { failure: None }],
        outcome == Outcome::Completed,
{
    if visited.len() > 0 {
        assert(listed(visited, visited[0].0));
    }
    assert(reports =~= seq![Report::SearchEnded { failure: None }]);
}

/// Whatever is on the bus, a round reads sensors only: every report of a
/// measurement or of a failed read is about a device of the sensor family,
/// and every device of another family that the round meets is reported as
/// skipped.
pub proof fn lemma_round_reads_sensors_only(
    bus: SimulatedBus,
    resolution: Resolution,
    reports: Seq<Report>,
    visited: Seq<Address>,
    waited_millis: u16,
    outcome: Outcome,
    k: int,
)
    requires
        round_record_ok(bus, resolution, reports, visited, waited_millis, outcome),
        0 <= k < reports.len(),
    ensures
        reports[k] matches Report::Measurement { address, .. } ==> is_sensor(address.0),
        reports[k] matches Report::ReadFailed { address, .. } ==> is_sensor(address.0),
        reports[k] matches Report::Skipped { address, .. } ==> !is_sensor(address.0),
        bus.conversion_fault is None && k < visited.len() ==> (is_sensor(visited[k].0) <==> (
            reports[k] is Measurement || reports[k] is ReadFailed)),
{
}

impl SimulatedBus {
    /// Tells all devices at once to start a conversion.
    pub fn start_conversion(&self) -> (result: Result<(), BusError>)
        ensures
            result == (match self.conversion_fault {
                Some(error) => Err::<(), BusError>(error),
                None => Ok(()),
            }),
    {
        match self.conversion_fault {
            Some(error) => Err(error),
            None => Ok(()),
        }
    }

    /// Reads the measurement of the device at `address`.
    pub fn read(&self, address: Address) -> (result: Result<Sample, BusError>)
        ensures
            result == reading_in(self.devices@, address.0),
    {
        let mut k: usize = 0;
        assert(self.devices@.subrange(0, self.devices@.len() as int) =~= self.devices@);
        while k < self.devices.len()
            invariant
                k <= self.devices@.len(),
                reading_in(self.devices@, address.0) == reading_in(
                    self.devices@.subrange(k as int, self.devices@.len() as int),
                    address.0,
                ),
            decreases self.devices@.len() - k,
        {
            let ghost rest = self.devices@.subrange(k as int, self.devices@.len() as int);
            assert(rest[0] == self.devices@[k as int]);
            assert(rest.subrange(1, rest.len() as int) =~= self.devices@.subrange(
                k as int + 1,
                self.devices@.len() as int,
            ));
            if self.devices[k].address == address.0 {
                return self.devices[k].reading;
            }
            k += 1;
        }
        assert(self.devices@.subrange(k as int, self.devices@.len() as int).len() == 0);
        Err(BusError::CrcMismatch)
    }

    /// Runs one measurement round on this bus and writes down what it
    /// reports.
    pub fn run_round(&self, resolution: Resolution) -> (record: RoundRecord)
        ensures
            round_record_ok(
                *self,
                resolution,
                record.reports@,
                record.visited@,
                record.waited_millis,
                record.outcome,
            ),
    {
        let mut round = Round::with_resolution(resolution);
        let mut reports: Vec<Report> = Vec::new();
        let mut visited: Vec<Address> = Vec::new();
        let mut waited_millis: u16 = 0;
        proof {
            if !self.present() {
                assert forall|d: u64| !self.responders(false).contains(d) by {}
            }
            lemma_round_begins(*self, resolution);
            assert(reports@ =~= Seq::empty());
            assert(visited@ =~= Seq::empty());
        }
        loop
            invariant
                !self.present() ==> silent(self.responders(false)),
                in_step(*self, resolution, round@, reports@, visited@, waited_millis),
            decreases steps_ahead(round@).0, steps_ahead(round@).1, steps_ahead(round@).2,
        {
            let ghost before = round@;
            let ghost seen = visited@;
            let ghost said = reports@;
            let event = match round.command() {
                Command::StartConversion => {
                    let event = Event::ConversionStarted(self.start_conversion());
                    proof {
                        lemma_step_start(*self, resolution, before, said, seen, waited_millis, event);
                    }
                    event
                },
                Command::Wait { millis } => {
                    proof {
                        lemma_step_wait(*self, resolution, before, said, seen, waited_millis);
                    }
                    waited_millis = millis;
                    Event::WaitElapsed
                },
                Command::Search => {
                    let result = self.search(round.cursor(), false);
                    match result {
                        Ok(Some((address, next))) => {
                            let event = Event::Searched(Ok(Some((address, next))));
                            proof {
                                lemma_step_found(
                                    *self,
                                    resolution,
                                    before,
                                    said,
                                    seen,
                                    waited_millis,
                                    event,
                                );
                            }
                            visited.push(address);
                            event
                        },
                        other => {
                            let event = Event::Searched(other);
                            proof {
                                lemma_step_ended(
                                    *self,
                                    resolution,
                                    before,
                                    said,
                                    seen,
                                    waited_millis,
                                    event,
                                );
                            }
                            event
                        },
                    }
                },
                Command::Read { address } => {
                    let event = Event::ReadDone(self.read(address));
                    proof {
                        lemma_step_read(*self, resolution, before, said, seen, waited_millis, event);
                    }
                    event
                },
                Command::Finish => {
                    proof {
                        lemma_round_ends(*self, resolution, before, said, seen, waited_millis);
                    }
                    let outcome = match round.outcome() {
                        Some(outcome) => outcome,
                        None => Outcome::Completed,
                    };
                    return RoundRecord { reports, visited, waited_millis, outcome };
                },
            };
            let (next, report) = round.handle(event);
            round = next;
            match report {
                Some(entry) => {
                    reports.push(entry);
                },
                None => {},
            }
        }
    }
}

} // verus!
