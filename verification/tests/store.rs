use midi_drum_input::midi::{MidiInput, MidiInputDataRaw};

fn raw(note_number: u8, status: u8, note_velocity: u8) -> MidiInputDataRaw {
    MidiInputDataRaw {
        note_number,
        timestamp: 0,
        non_midi_timestamp_ms: 0,
        status,
        note_velocity,
    }
}

fn store() -> MidiInput {
    MidiInput::new(String::from("TD-17"))
}

#[test]
fn note_on_is_the_range_144_to_159() {
    for status in 0..=255u8 {
        let on = raw(60, status, 1).is_note_on();
        assert_eq!(on, (144..=159).contains(&status), "status {}", status);
    }
}

#[test]
fn note_on_boundaries() {
    assert!(!raw(1, 143, 0).is_note_on());
    assert!(raw(1, 144, 0).is_note_on());
    assert!(raw(1, 159, 0).is_note_on());
    assert!(!raw(1, 160, 0).is_note_on());
    assert!(!raw(1, 128, 0).is_note_on());
    assert!(!raw(1, 0, 0).is_note_on());
    assert!(!raw(1, 255, 0).is_note_on());
}

#[test]
fn note_on_ignores_the_other_fields() {
    let a = MidiInputDataRaw {
        note_number: 0,
        timestamp: u64::MAX,
        non_midi_timestamp_ms: u128::MAX,
        status: 150,
        note_velocity: 0,
    };
    assert!(a.is_note_on());
}

#[test]
fn message_of_three_bytes_is_decoded() {
    let decoded = MidiInputDataRaw::from_message(77, &[144, 36, 100], 123_456).unwrap();
    assert_eq!(
        decoded,
        MidiInputDataRaw {
            note_number: 36,
            timestamp: 77,
            non_midi_timestamp_ms: 123_456,
            status: 144,
            note_velocity: 100,
        }
    );
}

#[test]
fn message_bytes_beyond_the_third_are_not_read() {
    let decoded = MidiInputDataRaw::from_message(1, &[0x99, 38, 64, 7, 8, 9], 2).unwrap();
    assert_eq!(decoded.status, 0x99);
    assert_eq!(decoded.note_number, 38);
    assert_eq!(decoded.note_velocity, 64);
    assert_eq!(decoded.timestamp, 1);
    assert_eq!(decoded.non_midi_timestamp_ms, 2);
}

#[test]
fn short_message_is_malformed() {
    assert_eq!(MidiInputDataRaw::from_message(1, &[], 2), None);
    assert_eq!(MidiInputDataRaw::from_message(1, &[144], 2), None);
    assert_eq!(MidiInputDataRaw::from_message(1, &[144, 36], 2), None);
}

#[test]
fn new_store_is_empty() {
    let s = store();
    assert_eq!(s.get_device_name(), "TD-17");
    assert!(s.get_pressed_buttons().is_empty());
    for note in 0..=255u8 {
        assert_eq!(s.get_current(note), None);
        assert_eq!(s.get_previous(note), None);
    }
}

#[test]
fn device_name_is_kept_as_given() {
    let s = MidiInput::new(String::from("Roland TD-27 Kit \u{1F941}"));
    assert_eq!(s.get_device_name(), "Roland TD-27 Kit \u{1F941}");
    let s = MidiInput::new(String::new());
    assert_eq!(s.get_device_name(), "");
}

#[test]
fn insert_files_under_the_note_number() {
    let mut s = store();
    s.insert(raw(36, 144, 100));
    assert_eq!(s.get_current(36), Some(raw(36, 144, 100)));
    assert_eq!(s.get_current(35), None);
    assert_eq!(s.get_current(37), None);
    assert_eq!(s.get_previous(36), None);
}

#[test]
fn later_message_overwrites_earlier_for_same_note() {
    let mut s = store();
    s.insert(raw(36, 144, 100));
    s.insert(raw(36, 145, 20));
    assert_eq!(s.get_current(36), Some(raw(36, 145, 20)));
    let pressed = s.get_pressed_buttons();
    assert_eq!(pressed, vec![raw(36, 145, 20)]);
    let mut held = 0;
    for note in 0..=255u8 {
        if s.get_current(note).is_some() {
            held += 1;
        }
    }
    assert_eq!(held, 1);
}

#[test]
fn note_off_overwrites_note_on_before_it_is_read() {
    let mut s = store();
    s.insert(raw(38, 144, 90));
    s.insert(raw(38, 128, 0));
    assert_eq!(s.get_current(38), Some(raw(38, 128, 0)));
    assert!(s.get_pressed_buttons().is_empty());
}

#[test]
fn note_on_overwrites_note_off_before_it_is_read() {
    let mut s = store();
    s.insert(raw(38, 128, 0));
    s.insert(raw(38, 153, 90));
    assert_eq!(s.get_pressed_buttons(), vec![raw(38, 153, 90)]);
}

#[test]
fn messages_for_other_notes_are_left_alone() {
    let mut s = store();
    s.insert(raw(36, 144, 1));
    s.insert(raw(38, 144, 2));
    s.insert(raw(36, 144, 3));
    assert_eq!(s.get_current(36), Some(raw(36, 144, 3)));
    assert_eq!(s.get_current(38), Some(raw(38, 144, 2)));
}

#[test]
fn receive_stores_a_whole_message() {
    let mut s = store();
    assert!(s.receive(5, &[144, 36, 100], 1_700_000_000_000));
    assert_eq!(
        s.get_current(36),
        Some(MidiInputDataRaw {
            note_number: 36,
            timestamp: 5,
            non_midi_timestamp_ms: 1_700_000_000_000,
            status: 144,
            note_velocity: 100,
        })
    );
}

#[test]
fn receive_drops_a_short_message() {
    let mut s = store();
    s.insert(raw(36, 144, 100));
    assert!(!s.receive(5, &[144, 36], 9));
    assert!(!s.receive(5, &[248], 9));
    assert!(!s.receive(5, &[], 9));
    assert_eq!(s.get_current(36), Some(raw(36, 144, 100)));
    assert_eq!(s.get_pressed_buttons().len(), 1);
}

#[test]
fn receive_stores_messages_that_are_not_notes() {
    let mut s = store();
    assert!(s.receive(0, &[176, 7, 127], 0));
    assert_eq!(s.get_current(7), Some(raw(7, 176, 127)));
    assert!(s.get_pressed_buttons().is_empty());
}

#[test]
fn pressed_lists_note_ons_only() {
    let mut s = store();
    s.insert(raw(10, 143, 1));
    s.insert(raw(11, 144, 2));
    s.insert(raw(12, 159, 3));
    s.insert(raw(13, 160, 4));
    s.insert(raw(14, 128, 5));
    assert_eq!(s.get_pressed_buttons(), vec![raw(11, 144, 2), raw(12, 159, 3)]);
}

#[test]
fn pressed_comes_by_ascending_note_number() {
    let mut s = store();
    for note in [200u8, 3, 255, 0, 77, 36, 128] {
        s.insert(raw(note, 144, note));
    }
    let pressed = s.get_pressed_buttons();
    let notes: Vec<u8> = pressed.iter().map(|r| r.note_number).collect();
    assert_eq!(notes, vec![0, 3, 36, 77, 128, 200, 255]);
    for r in pressed {
        assert_eq!(r.note_velocity, r.note_number);
    }
}

#[test]
fn pressed_finds_all_256_notes() {
    let mut s = store();
    for note in 0..=255u8 {
        s.insert(raw(note, 150, 1));
    }
    let pressed = s.get_pressed_buttons();
    assert_eq!(pressed.len(), 256);
    for (at, r) in pressed.iter().enumerate() {
        assert_eq!(r.note_number as usize, at);
    }
}

#[test]
fn reading_twice_gives_the_same_notes() {
    let mut s = store();
    s.insert(raw(36, 144, 100));
    s.insert(raw(38, 145, 90));
    s.insert(raw(40, 128, 0));
    let first = s.get_pressed_buttons();
    let second = s.get_pressed_buttons();
    assert_eq!(first, second);
    assert_eq!(first.len(), 2);
    assert_eq!(s.get_current(36), Some(raw(36, 144, 100)));
    assert_eq!(s.get_current(40), Some(raw(40, 128, 0)));
}

#[test]
fn flush_moves_current_into_previous() {
    let mut s = store();
    s.insert(raw(36, 144, 100));
    s.insert(raw(38, 128, 0));
    s.insert(raw(36, 144, 50));
    s.flush();
    for note in 0..=255u8 {
        assert_eq!(s.get_current(note), None);
    }
    assert!(s.get_pressed_buttons().is_empty());
    assert_eq!(s.get_previous(36), Some(raw(36, 144, 50)));
    assert_eq!(s.get_previous(38), Some(raw(38, 128, 0)));
    assert_eq!(s.get_previous(40), None);
}

#[test]
fn flush_overwrites_previous_and_keeps_the_rest() {
    let mut s = store();
    s.insert(raw(36, 144, 100));
    s.insert(raw(38, 144, 90));
    s.flush();
    s.insert(raw(36, 128, 0));
    s.insert(raw(42, 144, 70));
    s.flush();
    assert_eq!(s.get_previous(36), Some(raw(36, 128, 0)));
    assert_eq!(s.get_previous(38), Some(raw(38, 144, 90)));
    assert_eq!(s.get_previous(42), Some(raw(42, 144, 70)));
    assert_eq!(s.get_current(36), None);
    assert_eq!(s.get_current(42), None);
}

#[test]
fn flush_of_empty_current_keeps_previous() {
    let mut s = store();
    s.insert(raw(36, 144, 100));
    s.flush();
    s.flush();
    s.flush();
    assert_eq!(s.get_previous(36), Some(raw(36, 144, 100)));
    assert_eq!(s.get_current(36), None);
}

#[test]
fn flush_of_new_store_leaves_it_empty() {
    let mut s = store();
    s.flush();
    for note in 0..=255u8 {
        assert_eq!(s.get_current(note), None);
        assert_eq!(s.get_previous(note), None);
    }
    assert_eq!(s.get_device_name(), "TD-17");
}
