use midi_drum_input::midi::{MidiInput, MidiInputDataRaw};
use midi_drum_input::midi_input_handler::{
    get_midi_as_user_hits, midi_as_user_hits, Events, InputConfigMidi, Instrument,
    MidiInputHandler, UserHit,
};
use midi_drum_input::time::{
    checked_time_millis, current_time_millis, millis_after_epoch, MILLIS_MAX,
};
use std::collections::HashSet;

fn raw(note_number: u8, status: u8, note_velocity: u8) -> MidiInputDataRaw {
    MidiInputDataRaw {
        note_number,
        timestamp: 0,
        non_midi_timestamp_ms: 0,
        status,
        note_velocity,
    }
}

fn set(notes: &[u8]) -> HashSet<u8> {
    notes.iter().copied().collect()
}

fn hits_of(events: Vec<Events>) -> Vec<(Instrument, MidiInputDataRaw)> {
    let mut out = Vec::new();
    for e in events {
        match e {
            Events::Hit(h) => out.push((h.instrument, h.raw_data)),
        }
    }
    out
}

fn pairs(hits: Vec<UserHit>) -> Vec<(Instrument, MidiInputDataRaw)> {
    hits.into_iter().map(|h| (h.instrument, h.raw_data)).collect()
}

fn handler(name: &str) -> MidiInputHandler {
    MidiInputHandler::new(Some(String::from(name)))
}

#[test]
fn td17_kick_end_to_end() {
    let mut h = handler("TD-17");
    assert!(h.receive(12, &[0x90, 36, 100], 1_000));
    let events = h.process();
    assert_eq!(events.len(), 1);
    match &events[0] {
        Events::Hit(hit) => {
            assert_eq!(hit.instrument, Instrument::Kick);
            assert_eq!(hit.raw_data.note_number, 36);
            assert_eq!(hit.raw_data.status, 144);
            assert_eq!(hit.raw_data.note_velocity, 100);
            assert_eq!(hit.raw_data.timestamp, 12);
            assert_eq!(hit.raw_data.non_midi_timestamp_ms, 1_000);
        }
    }
    assert!(h.process().is_empty());
    assert!(h.process().is_empty());
}

#[test]
fn quiet_frames_report_nothing() {
    let mut h = handler("TD-27");
    assert!(h.process().is_empty());
    assert!(h.process().is_empty());
    h.receive(0, &[144, 38, 80], 0);
    assert_eq!(h.process().len(), 1);
    assert!(h.process().is_empty());
}

#[test]
fn handler_without_device_reports_nothing() {
    let mut h = MidiInputHandler::new(None);
    assert!(h.process().is_empty());
    assert!(!h.receive(0, &[144, 36, 100], 0));
    assert!(h.process().is_empty());
    assert!(!h.receive(0, &[144], 0));
}

#[test]
fn handler_drops_short_messages() {
    let mut h = handler("TD-17");
    assert!(!h.receive(0, &[144, 36], 0));
    assert!(!h.receive(0, &[], 0));
    assert!(h.process().is_empty());
}

#[test]
fn note_off_gives_no_event() {
    let mut h = handler("TD-17");
    assert!(h.receive(0, &[128, 36, 0], 0));
    assert!(h.process().is_empty());
}

#[test]
fn events_come_by_note_number() {
    let mut h = handler("Roland TD-17");
    h.receive(1, &[153, 49, 10], 5);
    h.receive(2, &[153, 36, 20], 6);
    h.receive(3, &[153, 38, 30], 7);
    h.receive(4, &[153, 22, 40], 8);
    let hits = hits_of(h.process());
    let seen: Vec<(Instrument, u8, u8)> =
        hits.iter().map(|(i, r)| (*i, r.note_number, r.note_velocity)).collect();
    assert_eq!(
        seen,
        vec![
            (Instrument::ClosedHihat, 22, 40),
            (Instrument::Kick, 36, 20),
            (Instrument::Snare, 38, 30),
            (Instrument::Crash, 49, 10),
        ]
    );
}

#[test]
fn unmapped_note_gives_no_event_and_is_flushed() {
    let mut h = handler("TD-17");
    h.receive(0, &[144, 1, 100], 0);
    assert!(h.process().is_empty());
    assert!(h.process().is_empty());
}

#[test]
fn same_note_means_different_instruments_on_different_devices() {
    let mut mpk = handler("MPK Mini Mk II");
    mpk.receive(0, &[144, 46, 100], 0);
    let hits = hits_of(mpk.process());
    assert_eq!(hits.len(), 1);
    assert_eq!(hits[0].0, Instrument::Kick);

    let mut td = handler("TD-17");
    td.receive(0, &[144, 46, 100], 0);
    let hits = hits_of(td.process());
    assert_eq!(hits.len(), 1);
    assert_eq!(hits[0].0, Instrument::OpenHihat);

    let mut nitro = handler("Alesis Nitro");
    nitro.receive(0, &[144, 23, 100], 0);
    let hits = hits_of(nitro.process());
    assert_eq!(hits.len(), 1);
    assert_eq!(hits[0].0, Instrument::OpenHihat);

    let mut td = handler("TD-27");
    td.receive(0, &[144, 23, 100], 0);
    assert!(td.process().is_empty());
}

#[test]
fn unknown_device_is_read_as_td27() {
    let mut h = handler("Unknown Drum Kit XYZ");
    h.receive(0, &[144, 44, 100], 0);
    h.receive(0, &[144, 59, 100], 0);
    let hits = hits_of(h.process());
    assert_eq!(hits.len(), 2);
    assert_eq!(hits[0].0, Instrument::PedalHiHat);
    assert_eq!(hits[0].1.note_number, 44);
    assert_eq!(hits[1].0, Instrument::Ride);
    assert_eq!(hits[1].1.note_number, 59);
}

#[test]
fn latest_message_of_a_note_is_the_one_reported() {
    let mut h = handler("TD-17");
    h.receive(1, &[144, 36, 10], 100);
    h.receive(2, &[144, 36, 90], 200);
    let hits = hits_of(h.process());
    assert_eq!(hits.len(), 1);
    assert_eq!(hits[0].1.note_velocity, 90);
    assert_eq!(hits[0].1.timestamp, 2);
    assert_eq!(hits[0].1.non_midi_timestamp_ms, 200);
}

#[test]
fn get_midi_as_user_hits_leaves_the_store_alone() {
    let mut s = MidiInput::new(String::from("TD-17"));
    s.insert(raw(36, 144, 100));
    let first = pairs(get_midi_as_user_hits(&s));
    let second = pairs(get_midi_as_user_hits(&s));
    assert_eq!(first, vec![(Instrument::Kick, raw(36, 144, 100))]);
    assert_eq!(first, second);
    assert_eq!(s.get_current(36), Some(raw(36, 144, 100)));
}

fn overlapping_map() -> InputConfigMidi {
    InputConfigMidi {
        kick: set(&[36, 60]),
        snare: set(&[38, 60]),
        closed_hi_hat: set(&[42]),
        open_hi_hat: set(&[]),
        ride: set(&[]),
        crash: set(&[60]),
        tom_1: set(&[]),
        tom_2: set(&[]),
        tom_3: set(&[]),
        pedal_hihat: set(&[]),
    }
}

#[test]
fn note_in_two_sets_gives_two_hits() {
    let config = InputConfigMidi {
        kick: set(&[36]),
        snare: set(&[36, 38]),
        closed_hi_hat: set(&[]),
        open_hi_hat: set(&[]),
        ride: set(&[]),
        crash: set(&[]),
        tom_1: set(&[]),
        tom_2: set(&[]),
        tom_3: set(&[]),
        pedal_hihat: set(&[]),
    };
    let hits = pairs(midi_as_user_hits(&config, &vec![raw(36, 144, 100)]));
    assert_eq!(
        hits,
        vec![(Instrument::Snare, raw(36, 144, 100)), (Instrument::Kick, raw(36, 144, 100))]
    );
}

#[test]
fn hits_of_one_note_come_in_the_order_of_the_instruments() {
    let hits = pairs(midi_as_user_hits(&overlapping_map(), &vec![raw(60, 144, 1)]));
    let instruments: Vec<Instrument> = hits.iter().map(|(i, _)| *i).collect();
    assert_eq!(instruments, vec![Instrument::Crash, Instrument::Snare, Instrument::Kick]);
}

#[test]
fn hits_of_several_notes_come_note_by_note() {
    let pressed = vec![raw(60, 144, 1), raw(42, 144, 2), raw(99, 144, 3), raw(38, 144, 4)];
    let hits = pairs(midi_as_user_hits(&overlapping_map(), &pressed));
    assert_eq!(
        hits,
        vec![
            (Instrument::Crash, raw(60, 144, 1)),
            (Instrument::Snare, raw(60, 144, 1)),
            (Instrument::Kick, raw(60, 144, 1)),
            (Instrument::ClosedHihat, raw(42, 144, 2)),
            (Instrument::Snare, raw(38, 144, 4)),
        ]
    );
}

#[test]
fn no_pressed_notes_no_hits() {
    assert!(midi_as_user_hits(&overlapping_map(), &Vec::new()).is_empty());
}

#[test]
fn note_in_every_set_gives_ten_hits() {
    let all = InputConfigMidi {
        kick: set(&[5]),
        snare: set(&[5]),
        closed_hi_hat: set(&[5]),
        open_hi_hat: set(&[5]),
        ride: set(&[5]),
        crash: set(&[5]),
        tom_1: set(&[5]),
        tom_2: set(&[5]),
        tom_3: set(&[5]),
        pedal_hihat: set(&[5]),
    };
    let hits = pairs(midi_as_user_hits(&all, &vec![raw(5, 144, 1)]));
    let instruments: Vec<Instrument> = hits.iter().map(|(i, _)| *i).collect();
    assert_eq!(
        instruments,
        vec![
            Instrument::Crash,
            Instrument::Ride,
            Instrument::OpenHihat,
            Instrument::ClosedHihat,
            Instrument::Tom1,
            Instrument::Tom2,
            Instrument::Tom3,
            Instrument::Snare,
            Instrument::Kick,
            Instrument::PedalHiHat,
        ]
    );
}

#[test]
fn user_hit_clone_keeps_the_fields() {
    let hit = UserHit { instrument: Instrument::Tom2, raw_data: raw(47, 144, 33) };
    let copy = hit.clone();
    assert_eq!(copy.instrument, Instrument::Tom2);
    assert_eq!(copy.raw_data, raw(47, 144, 33));
    assert_eq!(hit.instrument, copy.instrument);
}

#[test]
fn clock_reads_a_time_after_2020() {
    let now = current_time_millis();
    assert!(now > 1_577_836_800_000);
    assert!(now < 32_503_680_000_000);
}

#[test]
fn clock_does_not_run_backwards_by_much() {
    let first = current_time_millis();
    let second = current_time_millis();
    assert!(second + 60_000 > first);
}

#[test]
fn clock_after_the_epoch_reads_the_elapsed_time() {
    assert_eq!(millis_after_epoch(Some(0)), 0);
    assert_eq!(millis_after_epoch(Some(1)), 1);
    assert_eq!(millis_after_epoch(Some(1_700_000_000_123)), 1_700_000_000_123);
    assert_eq!(millis_after_epoch(Some(u128::MAX)), u128::MAX);
}

#[test]
fn clock_before_the_epoch_reads_as_zero() {
    assert_eq!(millis_after_epoch(None), 0);
}

#[test]
fn millis_max_is_the_most_a_duration_holds() {
    assert_eq!(MILLIS_MAX, u64::MAX as u128 * 1000 + 999);
    assert_eq!(MILLIS_MAX, std::time::Duration::MAX.as_millis());
}

#[test]
fn clock_reading_is_within_the_bound() {
    assert!(current_time_millis() <= MILLIS_MAX);
    assert!(current_time_millis() <= i128::MAX as u128);
}

#[test]
fn checked_clock_reads_a_time_after_2020() {
    let now = checked_time_millis().unwrap();
    assert!(now > 1_577_836_800_000);
    assert!(now <= MILLIS_MAX);
    let then = current_time_millis();
    assert!(then + 60_000 > now);
    assert!(now + 60_000 > then);
}

#[test]
fn handler_lists_pressed_notes_matched_or_not() {
    let mut h = handler("TD-17");
    h.receive(0, &[144, 36, 100], 0);
    h.receive(0, &[144, 1, 90], 0);
    h.receive(0, &[128, 38, 0], 0);
    let pressed = h.get_pressed_buttons();
    assert_eq!(pressed, vec![raw(1, 144, 90), raw(36, 144, 100)]);
    assert_eq!(h.get_pressed_buttons(), pressed);
    assert_eq!(h.process().len(), 1);
    assert!(h.get_pressed_buttons().is_empty());
}

#[test]
fn handler_without_device_lists_nothing_pressed() {
    let h = MidiInputHandler::new(None);
    assert!(h.get_pressed_buttons().is_empty());
}
