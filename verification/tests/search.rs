use onewire_thermo::address::Address;
use onewire_thermo::bits::{replace_bit, test_bit};
use onewire_thermo::error::BusError;
use onewire_thermo::order::shares_low_bits;
use onewire_thermo::sample::Sample;
use onewire_thermo::resolution::Resolution;
use onewire_thermo::search::{opening_command, search_command, SearchPass, SearchStep};
use onewire_thermo::sim::{SimulatedBus, SimulatedDevice};

// In search order: A, B, C, D, E, F.
const A: u64 = 0x7b06_0504_0302_0110;
const B: u64 = 0x1e00_0000_0000_0028;
const C: u64 = 0x9e06_0504_0302_0128;
const D: u64 = 0xc007_0504_0302_0128;
const E: u64 = 0xf40d_ff7f_464b_ff28;
const F: u64 = 0xf404_0506_0708_0922;

fn device(address: u64) -> SimulatedDevice {
    SimulatedDevice {
        address,
        alarming: false,
        reading: Ok(Sample { sixteenths: 320, resolution: Resolution::Bits12 }),
    }
}

fn bus_of(addresses: &[u64]) -> SimulatedBus {
    let mut bus = SimulatedBus::new();
    for a in addresses {
        bus.attach(device(*a));
    }
    bus
}

fn raw(found: &[Address]) -> Vec<u64> {
    found.iter().map(|a| a.0).collect()
}

#[test]
fn bit_helpers() {
    assert!(test_bit(0b100, 2));
    assert!(!test_bit(0b100, 1));
    assert!(test_bit(1u64 << 63, 63));
    assert_eq!(replace_bit(0, 5, true), 32);
    assert_eq!(replace_bit(0xff, 0, false), 0xfe);
    assert_eq!(replace_bit(0xff, 3, true), 0xff);
    assert_eq!(replace_bit(0, 63, true), 1u64 << 63);
}

#[test]
fn low_bits_comparison() {
    assert!(shares_low_bits(0b1010, 0b0010, 3));
    assert!(!shares_low_bits(0b1010, 0b0010, 4));
    assert!(shares_low_bits(1, 2, 0));
    assert!(shares_low_bits(7, 7, 64));
    assert!(!shares_low_bits(1u64 << 63, 0, 64));
    assert!(shares_low_bits(1u64 << 63, 0, 63));
}

#[test]
fn command_bytes() {
    assert_eq!(search_command(false), 0xF0);
    assert_eq!(search_command(true), 0xEC);
    assert_eq!(search_command(false), one_wire_bus::commands::SEARCH_NORMAL);
    assert_eq!(search_command(true), one_wire_bus::commands::SEARCH_ALARM);
}

#[test]
fn a_pass_opens_only_where_a_device_is_present() {
    assert_eq!(opening_command(true, false), Some(0xF0));
    assert_eq!(opening_command(true, true), Some(0xEC));
    assert_eq!(opening_command(false, false), None);
    assert_eq!(opening_command(false, true), None);
}

#[test]
fn an_empty_bus_has_nothing_to_find() {
    let bus = SimulatedBus::new();
    assert!(!bus.reset());
    assert!(matches!(bus.search(None, false), Ok(None)));
    let all = bus.discover(false);
    assert!(all.found.is_empty());
    assert_eq!(all.error, None);
}

#[test]
fn a_single_device_is_found_and_then_the_search_is_over() {
    let bus = bus_of(&[C]);
    assert!(bus.reset());
    let (address, cursor) = bus.search(None, false).unwrap().unwrap();
    assert_eq!(address, Address(C));
    assert_eq!(cursor.address(), Address(C));
    assert!(cursor.is_exhausted());
    assert!(matches!(bus.search(Some(&cursor), false), Ok(None)));
}

#[test]
fn devices_differing_in_one_bit_come_zero_first() {
    // Two addresses that differ in one bit cannot both carry a fitting checksum:
    // the search meets the one with the zero first and stops at the invalid one.
    for bit in 0..64u8 {
        let other = C ^ (1u64 << bit);
        for order in [[C, other], [other, C]] {
            let bus = bus_of(&order);
            for _ in 0..2 {
                let all = bus.discover(false);
                assert_eq!(all.error, Some(BusError::CrcMismatch));
                if test_bit(C, bit) {
                    assert!(all.found.is_empty());
                } else {
                    assert_eq!(raw(&all.found), vec![C]);
                }
            }
        }
    }
}

#[test]
fn two_valid_devices_come_in_the_same_order_every_time() {
    for order in [[D, C], [C, D]] {
        let bus = bus_of(&order);
        for _ in 0..3 {
            let all = bus.discover(false);
            assert_eq!(raw(&all.found), vec![C, D]);
            assert_eq!(all.error, None);
        }
    }
}

#[test]
fn first_pass_takes_the_zero_branch() {
    let bus = bus_of(&[E, C, B]);
    let (address, cursor) = bus.search(None, false).unwrap().unwrap();
    assert_eq!(address, Address(B));
    assert!(!cursor.is_exhausted());
    let (address, cursor) = bus.search(Some(&cursor), false).unwrap().unwrap();
    assert_eq!(address, Address(C));
    let (address, cursor) = bus.search(Some(&cursor), false).unwrap().unwrap();
    assert_eq!(address, Address(E));
    assert!(cursor.is_exhausted());
    assert!(matches!(bus.search(Some(&cursor), false), Ok(None)));
}

#[test]
fn every_device_comes_once_whatever_the_attach_order() {
    let orders: [[u64; 6]; 5] = [
        [A, B, C, D, E, F],
        [F, E, D, C, B, A],
        [C, A, F, B, E, D],
        [D, F, A, E, C, B],
        [B, D, F, A, C, E],
    ];
    for order in orders {
        let bus = bus_of(&order);
        let all = bus.discover(false);
        assert_eq!(raw(&all.found), vec![A, B, C, D, E, F]);
        assert_eq!(all.error, None);
    }
}

#[test]
fn every_subset_is_enumerated_exactly() {
    let pool = [A, B, C, D, E, F];
    for mask in 0u32..64 {
        let mut chosen = Vec::new();
        for (k, a) in pool.iter().enumerate() {
            if mask & (1 << k) != 0 {
                chosen.push(*a);
            }
        }
        let mut attach = chosen.clone();
        attach.reverse();
        let bus = bus_of(&attach);
        let all = bus.discover(false);
        assert_eq!(raw(&all.found), chosen);
        assert_eq!(all.error, None);
    }
}

#[test]
fn a_device_attached_twice_comes_once() {
    let bus = bus_of(&[C, B, C, B]);
    let all = bus.discover(false);
    assert_eq!(raw(&all.found), vec![B, C]);
    assert_eq!(all.error, None);
}

#[test]
fn the_pass_after_the_last_device_finds_nothing() {
    let bus = bus_of(&[A, B, C]);
    let mut cursor = None;
    let mut seen = Vec::new();
    loop {
        match bus.search(cursor.as_ref(), false) {
            Ok(Some((address, next))) => {
                seen.push(address.0);
                cursor = Some(next);
            }
            Ok(None) => break,
            Err(error) => panic!("{:?}", error),
        }
    }
    assert_eq!(seen, vec![A, B, C]);
    let last = cursor.unwrap();
    assert!(last.is_exhausted());
    assert!(matches!(bus.search(Some(&last), false), Ok(None)));
    assert!(matches!(bus.search(Some(&last.duplicate()), false), Ok(None)));
}

#[test]
fn an_invalid_address_stops_the_search() {
    let bad = C ^ (1 << 40);
    assert!(!Address(bad).is_valid());
    let bus = bus_of(&[bad]);
    assert!(matches!(bus.search(None, false), Err(BusError::CrcMismatch)));
    let all = bus.discover(false);
    assert!(all.found.is_empty());
    assert_eq!(all.error, Some(BusError::CrcMismatch));
}

#[test]
fn devices_before_an_invalid_one_are_still_found() {
    // `bad` shares C's low 40 bits, so it comes after A and B.
    let bad = C ^ (1 << 40);
    let bus = bus_of(&[bad, F, B, A]);
    let all = bus.discover(false);
    assert_eq!(raw(&all.found), vec![A, B]);
    assert_eq!(all.error, Some(BusError::CrcMismatch));
}

#[test]
fn an_alarm_search_hears_only_devices_in_alarm() {
    let mut bus = SimulatedBus::new();
    for (address, alarming) in [(A, false), (B, true), (C, false), (D, true)] {
        let mut d = device(address);
        d.alarming = alarming;
        bus.attach(d);
    }
    assert_eq!(raw(&bus.discover(true).found), vec![B, D]);
    assert_eq!(bus.discover(true).error, None);
    assert_eq!(raw(&bus.discover(false).found), vec![A, B, C, D]);
}

#[test]
fn an_alarm_search_among_calm_devices_breaks_off() {
    let bus = bus_of(&[A, B]);
    assert!(matches!(bus.search(None, true), Err(BusError::UnexpectedResponse)));
    let all = bus.discover(true);
    assert!(all.found.is_empty());
    assert_eq!(all.error, Some(BusError::UnexpectedResponse));
}

#[test]
fn a_cursor_from_another_bus_breaks_off_at_its_pivot() {
    let full = bus_of(&[B, C]);
    let (address, cursor) = full.search(None, false).unwrap().unwrap();
    assert_eq!(address, Address(B));
    let shrunk = bus_of(&[B]);
    assert!(matches!(shrunk.search(Some(&cursor), false), Err(BusError::UnexpectedResponse)));
}

#[test]
fn slots_tell_which_bits_are_present() {
    let bus = bus_of(&[0b0110, 0b0100, 0b1101]);
    // bit 0: two zeros and a one
    assert_eq!(bus.slots(0, 0, false), (true, true));
    // after writing 0 at bit 0: 0b0110 and 0b0100 remain; bit 1 differs
    assert_eq!(bus.slots(0, 1, false), (true, true));
    // after writing 1 at bit 0: only 0b1101; its bit 1 is zero
    assert_eq!(bus.slots(1, 1, false), (true, false));
    // path 0b00: only 0b0100 remains; bit 2 is one
    assert_eq!(bus.slots(0b00, 2, false), (false, true));
    // nobody follows path 0b11
    assert_eq!(bus.slots(0b11, 2, false), (false, false));
}

#[test]
fn a_pass_on_a_silent_wire_fails_at_once() {
    let pass = SearchPass::begin(None).unwrap();
    assert_eq!(pass.position(), 0);
    match pass.advance(false, false) {
        SearchStep::Failed { pending, error } => {
            assert_eq!(pending, None);
            assert_eq!(error, BusError::UnexpectedResponse);
        }
        _ => panic!("the pass went on"),
    }
}

#[test]
fn a_pass_follows_the_devices_and_prefers_zero() {
    let pass = SearchPass::begin(None).unwrap();
    // only ones present: write 1
    let pass = match pass.advance(false, true) {
        SearchStep::Continue { write, pass } => {
            assert!(write);
            pass
        }
        _ => panic!(),
    };
    assert_eq!(pass.position(), 1);
    assert_eq!(pass.path() & 1, 1);
    // both present: write 0
    let pass = match pass.advance(true, true) {
        SearchStep::Continue { write, pass } => {
            assert!(!write);
            pass
        }
        _ => panic!(),
    };
    // only zeros present: write 0
    match pass.advance(true, false) {
        SearchStep::Continue { write, pass } => {
            assert!(!write);
            assert_eq!(pass.position(), 3);
            assert_eq!(pass.path() & 0b111, 0b001);
        }
        _ => panic!(),
    }
}

fn drive(target: u64, cursor: Option<&onewire_thermo::search::SearchCursor>, other: Option<u64>) -> SearchStep {
    // Answers as a bus holding `target` and, if given, `other`.
    let mut pass = SearchPass::begin(cursor).unwrap();
    loop {
        let i = pass.position();
        let path = pass.path();
        let mut zero = false;
        let mut one = false;
        for d in [Some(target), other].into_iter().flatten() {
            if shares_low_bits(d, path, i) {
                if test_bit(d, i) {
                    one = true;
                } else {
                    zero = true;
                }
            }
        }
        match pass.advance(zero, one) {
            SearchStep::Continue { pass: next, .. } => pass = next,
            last => return last,
        }
    }
}

#[test]
fn a_pass_ends_after_sixty_four_bits_with_the_address() {
    match drive(C, None, None) {
        SearchStep::Found { write, address, cursor } => {
            assert_eq!(write, test_bit(C, 63));
            assert_eq!(address, Address(C));
            assert!(cursor.is_exhausted());
            assert!(SearchPass::begin(Some(&cursor)).is_none());
        }
        _ => panic!(),
    }
}

#[test]
fn a_pass_that_ends_at_an_invalid_address_still_writes_its_last_bit() {
    let bad = C ^ (1u64 << 63);
    match drive(bad, None, None) {
        SearchStep::Failed { pending, error } => {
            assert_eq!(pending, Some(test_bit(bad, 63)));
            assert_eq!(error, BusError::CrcMismatch);
        }
        _ => panic!(),
    }
}

#[test]
fn a_resumed_pass_turns_towards_one_at_its_pivot() {
    let cursor = match drive(B, None, Some(C)) {
        SearchStep::Found { address, cursor, .. } => {
            assert_eq!(address, Address(B));
            assert!(!cursor.is_exhausted());
            cursor
        }
        _ => panic!(),
    };
    match drive(B, Some(&cursor), Some(C)) {
        SearchStep::Found { address, cursor, .. } => {
            assert_eq!(address, Address(C));
            assert!(cursor.is_exhausted());
        }
        _ => panic!(),
    }
}
