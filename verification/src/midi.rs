//! Raw note state as received from a MIDI device, and the store that holds it
//! between two frames.
//!
//! The driver delivers messages at arbitrary instants; the frame loop reads
//! once per frame. [`MidiInput`] keeps the latest message of each note since
//! the last flush (`current`) and the latest one flushed (`previous`). It
//! holds no lock of its own: whoever shares it between the two sides guards
//! the whole value with one lock, so that no reader sees a flush half done.

use std::collections::HashMap;
use vstd::prelude::*;
use vstd::std_specs::iter::IteratorSpec;

verus! {

broadcast use vstd::std_specs::hash::group_hash_axioms;

/// First status byte of the note-on range (channel 1).
pub const NOTE_ON_FIRST: u8 = 144;

/// Last status byte of the note-on range (channel 16).
pub const NOTE_ON_LAST: u8 = 159;

/// Number of bytes of a message that are read: status, note number, velocity.
pub const MESSAGE_LEN: usize = 3;

/// Whether a status byte announces a note-on, on any of the 16 channels.
pub open spec fn status_is_note_on(status: u8) -> bool {
    144 <= status <= 159
}

/// The most recently observed message for one note number.
#[derive(Eq, Clone, Debug, Copy, PartialEq, Structural)]
pub struct MidiInputDataRaw {
    pub note_number: u8,
    /// Device-native timestamp, not aligned with the wall clock.
    pub timestamp: u64,
    /// Wall-clock time of receipt, in milliseconds.
    pub non_midi_timestamp_ms: u128,
    /// Message type and channel.
    pub status: u8,
    pub note_velocity: u8,
}

/// What a message says, if it is long enough to say it: the first three bytes
/// are status, note number and velocity; further bytes are not read.
pub open spec fn decode_message(
    timestamp: u64,
    message: Seq<u8>,
    received_ms: u128,
) -> Option<MidiInputDataRaw> {
    if message.len() >= 3 {
        Some(
            MidiInputDataRaw {
                note_number: message[1],
                timestamp,
                non_midi_timestamp_ms: received_ms,
                status: message[0],
                note_velocity: message[2],
            },
        )
    } else {
        None
    }
}

impl MidiInputDataRaw {
    /// Reads a raw message. A message of fewer than three bytes is malformed
    /// and gives `None`.
    pub fn from_message(
        timestamp: u64,
        message: &[u8],
        received_ms: u128,
    ) -> (decoded: Option<Self>)
        ensures
            decoded == decode_message(timestamp, message@, received_ms),
    {
        if message.len() < MESSAGE_LEN {
            return None;
        }
        Some(
            MidiInputDataRaw {
                note_number: message[1],
                timestamp,
                non_midi_timestamp_ms: received_ms,
                status: message[0],
                note_velocity: message[2],
            },
        )
    }

    /// Whether the message is a note-on, on whichever channel.
    pub fn is_note_on(&self) -> (on: bool)
        ensures
            on == status_is_note_on(self.status),
    {
        self.status >= NOTE_ON_FIRST && self.status <= NOTE_ON_LAST
    }
}

/// Every entry is filed under its own note number.
pub open spec fn keyed_by_note(notes: Map<u8, MidiInputDataRaw>) -> bool {
    forall|n: u8| notes.contains_key(n) ==> (#[trigger] notes[n]).note_number == n
}

/// The 256 note numbers, ascending.
pub open spec fn note_numbers() -> Seq<u8> {
    Seq::new(256, |n: int| n as u8)
}

/// The entry of `notes` under `note`, if there is one and it is a note-on.
pub open spec fn pressed_entry(
    notes: Map<u8, MidiInputDataRaw>,
    note: u8,
) -> Option<MidiInputDataRaw> {
    if notes.contains_key(note) && status_is_note_on(notes[note].status) {
        Some(notes[note])
    } else {
        None
    }
}

/// The note-on entries of `notes`, by ascending note number.
pub open spec fn pressed_notes(notes: Map<u8, MidiInputDataRaw>) -> Seq<MidiInputDataRaw> {
    note_numbers().filter_map(|note: u8| pressed_entry(notes, note))
}

/// What a [`MidiInput`] holds.
pub struct MidiInputView {
    pub device_name: Seq<char>,
    /// Latest message of each note since the last flush.
    pub current: Map<u8, MidiInputDataRaw>,
    /// Latest message of each note as of the last flush.
    pub previous: Map<u8, MidiInputDataRaw>,
}

impl MidiInputView {
    /// Every entry is filed under its own note number, in both maps.
    pub open spec fn wf(self) -> bool {
        &&& keyed_by_note(self.current)
        &&& keyed_by_note(self.previous)
    }

    /// A store for the named device that has seen nothing yet.
    pub open spec fn empty(device_name: Seq<char>) -> Self {
        MidiInputView { device_name, current: Map::empty(), previous: Map::empty() }
    }

    /// The store after `raw` arrived: it takes the place of whatever was held
    /// for its note number.
    pub open spec fn inserted(self, raw: MidiInputDataRaw) -> Self {
        MidiInputView { current: self.current.insert(raw.note_number, raw), ..self }
    }

    /// The store after a message arrived: a malformed one leaves it as it is.
    pub open spec fn received(self, timestamp: u64, message: Seq<u8>, received_ms: u128) -> Self {
        match decode_message(timestamp, message, received_ms) {
            Some(raw) => self.inserted(raw),
            None => self,
        }
    }

    /// The store after a flush: `previous` takes every entry of `current` and
    /// keeps its own for the other notes; `current` is empty.
    pub open spec fn flushed(self) -> Self {
        MidiInputView {
            current: Map::empty(),
            previous: self.previous.union_prefer_right(self.current),
            ..self
        }
    }

    /// The notes that a read finds pressed.
    pub open spec fn pressed(self) -> Seq<MidiInputDataRaw> {
        pressed_notes(self.current)
    }
}

/// The state shared by the driver's callback and the frame loop.
pub struct MidiInput {
    device_name: String,
    raw_inputs: HashMap<u8, MidiInputDataRaw>,
    previous_raw_inputs: HashMap<u8, MidiInputDataRaw>,
}

impl View for MidiInput {
    type V = MidiInputView;

    closed spec fn view(&self) -> MidiInputView {
        MidiInputView {
            device_name: self.device_name@,
            current: self.raw_inputs@,
            previous: self.previous_raw_inputs@,
        }
    }
}

impl MidiInput {
    /// Every entry of the store is filed under its own note number.
    pub open spec fn wf(&self) -> bool {
        self@.wf()
    }

    /// A store for the device of the given name, with nothing received yet.
    pub fn new(device_name: String) -> (input: Self)
        ensures
            input.wf(),
            input@ == MidiInputView::empty(device_name@),
    {
        MidiInput {
            device_name,
            raw_inputs: HashMap::with_capacity(16),
            previous_raw_inputs: HashMap::with_capacity(16),
        }
    }

    /// The name that the device reported when it was found.
    pub fn get_device_name(&self) -> (name: &str)
        ensures
            name@ == self@.device_name,
    {
        self.device_name.as_str()
    }

    /// Files `raw` under its note number in `current`, in place of any entry
    /// that was there, whatever the type or channel of either message.
    pub fn insert(&mut self, raw: MidiInputDataRaw)
        ensures
            old(self).wf() ==> final(self).wf(),
            final(self)@ == old(self)@.inserted(raw),
    {
        self.raw_inputs.insert(raw.note_number, raw);
    }

    /// Takes one message from the driver, with the device's timestamp and the
    /// wall-clock time of receipt. A message of fewer than three bytes is
    /// dropped; the result says whether the message was stored.
    pub fn receive(&mut self, timestamp: u64, message: &[u8], received_ms: u128) -> (stored: bool)
        ensures
            old(self).wf() ==> final(self).wf(),
            stored == (message@.len() >= 3),
            final(self)@ == old(self)@.received(timestamp, message@, received_ms),
    {
        match MidiInputDataRaw::from_message(timestamp, message, received_ms) {
            Some(raw) => {
                self.insert(raw);
                true
            },
            None => false,
        }
    }

    /// What `current` holds for a note number.
    pub fn get_current(&self, note_number: u8) -> (entry: Option<MidiInputDataRaw>)
        ensures
            entry == (if self@.current.contains_key(note_number) {
                Some(self@.current[note_number])
            } else {
                None
            }),
    {
        match self.raw_inputs.get(&note_number) {
            Some(raw) => Some(*raw),
            None => None,
        }
    }

    /// What `previous` holds for a note number.
    pub fn get_previous(&self, note_number: u8) -> (entry: Option<MidiInputDataRaw>)
        ensures
            entry == (if self@.previous.contains_key(note_number) {
                Some(self@.previous[note_number])
            } else {
                None
            }),
    {
        match self.previous_raw_inputs.get(&note_number) {
            Some(raw) => Some(*raw),
            None => None,
        }
    }

    /// The note-on entries of `current`, copied out by ascending note number
    /// so that the result does not depend on how the map is laid out. The
    /// store is left as it is.
    pub fn get_pressed_buttons(&self) -> (pressed: Vec<MidiInputDataRaw>)
        ensures
            pressed@ == self@.pressed(),
    {
        let mut pressed: Vec<MidiInputDataRaw> = Vec::new();
        let mut next: u16 = 0;
        while next < 256
            invariant
                next <= 256,
                pressed@ == pressed_below(self.raw_inputs@, next as int),
            decreases 256 - next,
        {
            let note: u8 = next as u8;
            proof {
                note_numbers().lemma_filter_map_take_succ(
                    |note: u8| pressed_entry(self.raw_inputs@, note),
                    next as int,
                );
            }
            match self.raw_inputs.get(&note) {
                Some(raw) => {
                    if raw.is_note_on() {
                        pressed.push(*raw);
                    }
                },
                None => {},
            }
            next += 1;
        }
        assert(note_numbers().take(256) =~= note_numbers());
        pressed
    }

    /// Moves every entry of `current` into `previous`, over the entry that
    /// `previous` had for the same note, and empties `current`.
    pub fn flush(&mut self)
        ensures
            old(self).wf() ==> final(self).wf(),
            final(self)@ == old(self)@.flushed(),
    {
        let ghost before = self.previous_raw_inputs@;
        let ghost current = self.raw_inputs@;
        for entry in walk: self.raw_inputs.iter()
            invariant
                self.raw_inputs@ == current,
                self.device_name == old(self).device_name,
                walk.seq() == vstd::std_specs::hash::spec_hash_map_iter(
                    &self.raw_inputs,
                ).remaining(),
                self.previous_raw_inputs@ =~= before.union_prefer_right(
                    current.restrict(Set::new(|n: u8| walked(walk.seq(), walk.index(), n))),
                ),
        {
            let (id, raw_input) = entry;
            assert(walked(walk.seq(), walk.index() + 1, *id));
            self.previous_raw_inputs.insert(*id, *raw_input);
        }
        self.raw_inputs.clear();
        assert(self.previous_raw_inputs@ =~= before.union_prefer_right(current));
    }
}

/// Whether `note` is among the first `count` keys of a walk through a map.
spec fn walked(keys: Seq<(&u8, &MidiInputDataRaw)>, count: int, note: u8) -> bool {
    exists|at: int| 0 <= at < count && *(#[trigger] keys[at]).0 == note
}

/// The note-on entries found under the note numbers below `bound`.
spec fn pressed_below(notes: Map<u8, MidiInputDataRaw>, bound: int) -> Seq<MidiInputDataRaw> {
    note_numbers().take(bound).filter_map(|note: u8| pressed_entry(notes, note))
}

proof fn lemma_pressed_below(notes: Map<u8, MidiInputDataRaw>, bound: int)
    requires
        0 <= bound <= 256,
    ensures
        forall|note: u8|
            note < bound && pressed_entry(notes, note) is Some
                ==> pressed_below(notes, bound).contains(#[trigger] notes[note]),
        forall|i: int|
            0 <= i < pressed_below(notes, bound).len() ==> exists|note: u8|
                note < bound
                    && pressed_entry(notes, note) == Some(#[trigger] pressed_below(notes, bound)[i]),
        keyed_by_note(notes) ==> forall|i: int|
            0 <= i < pressed_below(notes, bound).len()
                ==> (#[trigger] pressed_below(notes, bound)[i]).note_number < bound,
        keyed_by_note(notes) ==> forall|i: int, j: int|
            0 <= i < j < pressed_below(notes, bound).len()
                ==> (#[trigger] pressed_below(notes, bound)[i]).note_number
                    < (#[trigger] pressed_below(notes, bound)[j]).note_number,
    decreases bound,
{
    let found = pressed_below(notes, bound);
    if bound > 0 {
        let last = (bound - 1) as u8;
        let earlier = pressed_below(notes, bound - 1);
        lemma_pressed_below(notes, bound - 1);
        note_numbers().lemma_filter_map_take_succ(
            |note: u8| pressed_entry(notes, note),
            bound - 1,
        );
        assert forall|note: u8|
            note < bound && pressed_entry(notes, note) is Some
        implies found.contains(#[trigger] notes[note]) by {
            if note < bound - 1 {
                let at = choose|at: int| 0 <= at < earlier.len() && earlier[at] == notes[note];
                assert(found[at] == notes[note]);
            } else {
                assert(found[found.len() - 1] == notes[note]);
            }
        }
        assert forall|i: int| 0 <= i < found.len() implies exists|note: u8|
            note < bound && pressed_entry(notes, note) == Some(#[trigger] found[i]) by {
            if i < earlier.len() {
                assert(found[i] == earlier[i]);
                let note = choose|note: u8|
                    note < bound - 1 && pressed_entry(notes, note) == Some(earlier[i]);
                assert(note < bound && pressed_entry(notes, note) == Some(found[i]));
            } else {
                assert(pressed_entry(notes, last) == Some(found[i]));
            }
        }
        if keyed_by_note(notes) {
            assert forall|i: int| 0 <= i < found.len() implies
                (#[trigger] found[i]).note_number < bound by {
                if i < earlier.len() {
                    assert(found[i] == earlier[i]);
                }
            }
            assert forall|i: int, j: int| 0 <= i < j < found.len() implies
                (#[trigger] found[i]).note_number < (#[trigger] found[j]).note_number by {
                assert(found[i] == earlier[i]);
                if j < earlier.len() {
                    assert(found[j] == earlier[j]);
                }
            }
        }
    } else {
        assert(note_numbers().take(0) =~= Seq::<u8>::empty());
    }
}

/// Whether `raw` is a note-on entry of `notes`.
pub open spec fn holds_pressed(notes: Map<u8, MidiInputDataRaw>, raw: MidiInputDataRaw) -> bool {
    exists|note: u8| #[trigger] pressed_entry(notes, note) == Some(raw)
}

/// A read finds the note-on entries of the store and nothing else.
pub proof fn lemma_pressed_are_the_note_ons(notes: Map<u8, MidiInputDataRaw>)
    ensures
        forall|raw: MidiInputDataRaw| #[trigger]
            pressed_notes(notes).contains(raw) <==> holds_pressed(notes, raw),
{
    lemma_pressed_below(notes, 256);
    assert(note_numbers().take(256) =~= note_numbers());
    assert(pressed_notes(notes) == pressed_below(notes, 256));
    assert forall|raw: MidiInputDataRaw| #[trigger]
        pressed_notes(notes).contains(raw) implies holds_pressed(notes, raw) by {
        let i = choose|i: int| 0 <= i < pressed_notes(notes).len() && pressed_notes(notes)[i] == raw;
        let note = choose|note: u8|
            note < 256 && pressed_entry(notes, note) == Some(pressed_below(notes, 256)[i]);
        assert(pressed_entry(notes, note) == Some(raw));
    }
    assert forall|raw: MidiInputDataRaw| holds_pressed(notes, raw) implies #[trigger]
        pressed_notes(notes).contains(raw) by {
        let note = choose|note: u8| #[trigger] pressed_entry(notes, note) == Some(raw);
        assert(pressed_below(notes, 256).contains(notes[note]));
    }
}

/// A read lists the notes by strictly ascending note number, so each once.
pub proof fn lemma_pressed_ascending(notes: Map<u8, MidiInputDataRaw>)
    requires
        keyed_by_note(notes),
    ensures
        forall|i: int, j: int|
            0 <= i < j < pressed_notes(notes).len()
                ==> (#[trigger] pressed_notes(notes)[i]).note_number
                    < (#[trigger] pressed_notes(notes)[j]).note_number,
{
    lemma_pressed_below(notes, 256);
    assert(note_numbers().take(256) =~= note_numbers());
    assert(pressed_notes(notes) == pressed_below(notes, 256));
}

/// Where no entry is a note-on, a read finds nothing; so in an empty store.
pub proof fn lemma_nothing_pressed(notes: Map<u8, MidiInputDataRaw>)
    requires
        forall|note: u8|
            notes.contains_key(note) ==> !status_is_note_on(#[trigger] notes[note].status),
    ensures
        pressed_notes(notes) == Seq::<MidiInputDataRaw>::empty(),
{
    lemma_pressed_are_the_note_ons(notes);
    if pressed_notes(notes).len() > 0 {
        let first = pressed_notes(notes)[0];
        assert(pressed_notes(notes).contains(first));
        let note = choose|note: u8| #[trigger] pressed_entry(notes, note) == Some(first);
        assert(status_is_note_on(notes[note].status));
    }
    assert(pressed_notes(notes) =~= Seq::<MidiInputDataRaw>::empty());
}

/// Where one note alone is held as a note-on, a read finds that entry and no
/// other.
pub proof fn lemma_single_press(notes: Map<u8, MidiInputDataRaw>, note: u8)
    requires
        keyed_by_note(notes),
        pressed_entry(notes, note) is Some,
        forall|other: u8| other != note ==> pressed_entry(notes, other) is None,
    ensures
        pressed_notes(notes) == seq![notes[note]],
{
    let found = pressed_notes(notes);
    lemma_pressed_are_the_note_ons(notes);
    lemma_pressed_ascending(notes);
    assert(holds_pressed(notes, notes[note])) by {
        assert(pressed_entry(notes, note) == Some(notes[note]));
    }
    assert(found.contains(notes[note]));
    assert forall|at: int| 0 <= at < found.len() implies #[trigger] found[at] == notes[note] by {
        assert(found.contains(found[at]));
        let key = choose|key: u8| #[trigger] pressed_entry(notes, key) == Some(found[at]);
        assert(key == note);
    }
    if found.len() > 1 {
        assert(found[0].note_number < found[1].note_number);
    }
    assert(found =~= seq![notes[note]]);
}

impl MidiInputView {
    /// A store stays well formed when a message arrives and when it is
    /// flushed.
    pub proof fn lemma_stays_wf(self, raw: MidiInputDataRaw)
        requires
            self.wf(),
        ensures
            self.inserted(raw).wf(),
            self.flushed().wf(),
    {
    }

    /// Of two messages for one note number, the store keeps the later one
    /// alone: it holds what it would hold had the earlier one never come.
    pub proof fn lemma_insert_overwrites(self, first: MidiInputDataRaw, second: MidiInputDataRaw)
        requires
            first.note_number == second.note_number,
        ensures
            self.inserted(first).inserted(second) == self.inserted(second),
            self.inserted(first).inserted(second).current[second.note_number] == second,
            self.inserted(first).inserted(second).current.dom()
                == self.current.dom().insert(second.note_number),
    {
        assert(self.inserted(first).inserted(second).current =~= self.inserted(second).current);
        assert(self.inserted(first).inserted(second).current.dom()
            =~= self.current.dom().insert(second.note_number));
    }

    /// A message for one note leaves the entries of all other notes alone.
    pub proof fn lemma_insert_keeps_others(self, raw: MidiInputDataRaw, other: u8)
        requires
            other != raw.note_number,
        ensures
            self.inserted(raw).current.contains_key(other) == self.current.contains_key(other),
            self.inserted(raw).current[other] == self.current[other],
            self.inserted(raw).previous == self.previous,
    {
    }

    /// Two reads of one store, with no message and no flush between them,
    /// find the same notes.
    pub proof fn lemma_reads_agree(
        self,
        first: Seq<MidiInputDataRaw>,
        second: Seq<MidiInputDataRaw>,
    )
        requires
            first == self.pressed(),
            second == self.pressed(),
        ensures
            first == second,
            first.to_set() == second.to_set(),
    {
    }

    /// After a flush `current` is empty, and `previous` holds every note that
    /// `current` held, with the value it had there; the other notes of
    /// `previous` are as they were.
    pub proof fn lemma_flush_moves_state(self)
        ensures
            self.flushed().current == Map::<u8, MidiInputDataRaw>::empty(),
            forall|note: u8| #[trigger]
                self.current.contains_key(note) ==> self.flushed().previous.contains_key(note)
                    && self.flushed().previous[note] == self.current[note],
            forall|note: u8|
                !self.current.contains_key(note)
                    ==> #[trigger] self.flushed().previous.contains_key(note)
                        == self.previous.contains_key(note),
            forall|note: u8|
                !self.current.contains_key(note) && self.previous.contains_key(note)
                    ==> #[trigger] self.flushed().previous[note] == self.previous[note],
            self.flushed().pressed() == Seq::<MidiInputDataRaw>::empty(),
    {
        lemma_nothing_pressed(Map::<u8, MidiInputDataRaw>::empty());
    }

    /// A flush right after a flush changes nothing: `previous` keeps what it
    /// has, and is not emptied.
    pub proof fn lemma_flush_twice(self)
        ensures
            self.flushed().flushed() == self.flushed(),
    {
        assert(self.flushed().flushed().previous =~= self.flushed().previous);
    }
}

} // verus!
