//! Pressed notes read as instrument hits, once per frame.
//!
//! A device's note map says which note numbers stand for which instrument.
//! Each frame, every pressed note is tried against every instrument of the
//! map; each match is one hit. A note that the map lists under two
//! instruments gives two hits.

use crate::device::{identify_device, model_for_name, table_for};
use crate::midi::{
    holds_pressed, lemma_pressed_are_the_note_ons, lemma_pressed_ascending, lemma_single_press,
    pressed_entry, pressed_notes, MidiInput, MidiInputDataRaw, MidiInputView,
};
use std::collections::HashSet;
use vstd::prelude::*;

verus! {

broadcast use vstd::std_specs::hash::group_hash_axioms;

/// The drum voices that a note can stand for.
#[derive(Debug, Clone, Copy, PartialEq, Eq, Hash, Structural)]
pub enum Instrument {
    ClosedHihat,
    Snare,
    Kick,
    OpenHihat,
    PedalHiHat,
    Ride,
    Tom1,
    Tom2,
    Tom3,
    Crash,
}

/// Every instrument, in the order in which a note is tried against them.
pub const ALL_INSTRUMENTS: [Instrument; 10] = [
    Instrument::Crash,
    Instrument::Ride,
    Instrument::OpenHihat,
    Instrument::ClosedHihat,
    Instrument::Tom1,
    Instrument::Tom2,
    Instrument::Tom3,
    Instrument::Snare,
    Instrument::Kick,
    Instrument::PedalHiHat,
];

/// A pressed note read as one instrument.
#[derive(Debug)]
pub struct UserHit {
    pub instrument: Instrument,
    pub raw_data: MidiInputDataRaw,
}

impl Clone for UserHit {
    fn clone(&self) -> (copy: Self)
        ensures
            copy == *self,
    {
        UserHit { instrument: self.instrument, raw_data: self.raw_data }
    }
}

/// What a frame can report.
pub enum Events {
    Hit(UserHit),
}

/// What an [`InputConfigMidi`] holds: the note numbers of each instrument.
pub struct NoteTable {
    pub kick: Set<u8>,
    pub snare: Set<u8>,
    pub closed_hi_hat: Set<u8>,
    pub open_hi_hat: Set<u8>,
    pub ride: Set<u8>,
    pub crash: Set<u8>,
    pub tom_1: Set<u8>,
    pub tom_2: Set<u8>,
    pub tom_3: Set<u8>,
    pub pedal_hihat: Set<u8>,
}

impl NoteTable {
    /// The note numbers listed under an instrument.
    pub open spec fn note_numbers(self, ins: Instrument) -> Set<u8> {
        match ins {
            Instrument::ClosedHihat => self.closed_hi_hat,
            Instrument::Snare => self.snare,
            Instrument::Kick => self.kick,
            Instrument::OpenHihat => self.open_hi_hat,
            Instrument::Ride => self.ride,
            Instrument::Crash => self.crash,
            Instrument::Tom1 => self.tom_1,
            Instrument::Tom2 => self.tom_2,
            Instrument::Tom3 => self.tom_3,
            Instrument::PedalHiHat => self.pedal_hihat,
        }
    }

    /// Whether the table lists `note` under `ins`.
    pub open spec fn maps(self, note: u8, ins: Instrument) -> bool {
        self.note_numbers(ins).contains(note)
    }
}

/// The note map of one device model. Nothing keeps the sets of two
/// instruments apart.
pub struct InputConfigMidi {
    pub kick: HashSet<u8>,
    pub snare: HashSet<u8>,
    pub closed_hi_hat: HashSet<u8>,
    pub open_hi_hat: HashSet<u8>,
    pub ride: HashSet<u8>,
    pub crash: HashSet<u8>,
    pub tom_1: HashSet<u8>,
    pub tom_2: HashSet<u8>,
    pub tom_3: HashSet<u8>,
    pub pedal_hihat: HashSet<u8>,
}

impl View for InputConfigMidi {
    type V = NoteTable;

    open spec fn view(&self) -> NoteTable {
        NoteTable {
            kick: self.kick@,
            snare: self.snare@,
            closed_hi_hat: self.closed_hi_hat@,
            open_hi_hat: self.open_hi_hat@,
            ride: self.ride@,
            crash: self.crash@,
            tom_1: self.tom_1@,
            tom_2: self.tom_2@,
            tom_3: self.tom_3@,
            pedal_hihat: self.pedal_hihat@,
        }
    }
}

impl InputConfigMidi {
    /// The note numbers listed under an instrument; none, where the device
    /// has no pad for it.
    pub fn get_note_numbers(&self, ins: &Instrument) -> (notes: &HashSet<u8>)
        ensures
            notes@ == self@.note_numbers(*ins),
    {
        match ins {
            Instrument::ClosedHihat => &self.closed_hi_hat,
            Instrument::Snare => &self.snare,
            Instrument::Kick => &self.kick,
            Instrument::OpenHihat => &self.open_hi_hat,
            Instrument::Ride => &self.ride,
            Instrument::Crash => &self.crash,
            Instrument::Tom1 => &self.tom_1,
            Instrument::Tom2 => &self.tom_2,
            Instrument::Tom3 => &self.tom_3,
            Instrument::PedalHiHat => &self.pedal_hihat,
        }
    }
}

/// The set of the listed note numbers.
pub fn note_set(notes: &[u8]) -> (set: HashSet<u8>)
    ensures
        set@ == notes@.to_set(),
{
    let mut set: HashSet<u8> = HashSet::new();
    for i in 0..notes.len()
        invariant
            set@ == notes@.take(i as int).to_set(),
    {
        proof {
            notes@.take(i as int).lemma_push_to_set_commute(notes@[i as int]);
            assert(notes@.take(i + 1) =~= notes@.take(i as int).push(notes@[i as int]));
        }
        set.insert(notes[i]);
    }
    assert(notes@.take(notes@.len() as int) =~= notes@);
    set
}

/// The note `raw` read as the instrument `ins`.
pub open spec fn hit_as(raw: MidiInputDataRaw, ins: Instrument) -> UserHit {
    UserHit { instrument: ins, raw_data: raw }
}

/// The hit that `raw` is as `ins`, if the table lists its note there.
pub open spec fn hit_if_mapped(
    table: NoteTable,
    raw: MidiInputDataRaw,
    ins: Instrument,
) -> Option<UserHit> {
    if table.maps(raw.note_number, ins) {
        Some(hit_as(raw, ins))
    } else {
        None
    }
}

/// The hits of one pressed note: one for each instrument that lists it, in
/// the order of [`ALL_INSTRUMENTS`].
pub open spec fn hits_for_note(table: NoteTable, raw: MidiInputDataRaw) -> Seq<UserHit> {
    ALL_INSTRUMENTS@.filter_map(|ins: Instrument| hit_if_mapped(table, raw, ins))
}

/// The hits of a run of pressed notes: those of the first note, then those of
/// the second, and so on.
pub open spec fn user_hits(table: NoteTable, pressed: Seq<MidiInputDataRaw>) -> Seq<UserHit> {
    pressed.flat_map(|raw: MidiInputDataRaw| hits_for_note(table, raw))
}

/// Reads pressed notes as instrument hits by the given note map.
pub fn midi_as_user_hits(
    config: &InputConfigMidi,
    pressed: &Vec<MidiInputDataRaw>,
) -> (out: Vec<UserHit>)
    ensures
        out@ == user_hits(config@, pressed@),
{
    let mut out: Vec<UserHit> = Vec::new();
    assert(pressed@.take(0).flat_map(|raw: MidiInputDataRaw| hits_for_note(config@, raw))
        =~= Seq::<UserHit>::empty());
    for i in 0..pressed.len()
        invariant
            out@ == user_hits(config@, pressed@.take(i as int)),
    {
        let midi = pressed[i];
        let ghost earlier = out@;
        for j in 0..ALL_INSTRUMENTS.len()
            invariant
                midi == pressed@[i as int],
                out@ == earlier + hits_among(config@, midi, j as int),
        {
            proof {
                ALL_INSTRUMENTS@.lemma_filter_map_take_succ(
                    |ins: Instrument| hit_if_mapped(config@, midi, ins),
                    j as int,
                );
            }
            let ins = ALL_INSTRUMENTS[j];
            if config.get_note_numbers(&ins).contains(&midi.note_number) {
                out.push(UserHit { instrument: ins, raw_data: midi });
            }
        }
        proof {
            assert(ALL_INSTRUMENTS@.take(10) =~= ALL_INSTRUMENTS@);
            pressed@.lemma_flat_map_take_append(
                |raw: MidiInputDataRaw| hits_for_note(config@, raw),
                i as int,
            );
        }
    }
    assert(pressed@.take(pressed@.len() as int) =~= pressed@);
    out
}

/// The note map that the device's name picks.
pub open spec fn frame_table(input: MidiInputView) -> NoteTable {
    table_for(model_for_name(input.device_name))
}

/// The hits that a read of the store gives: its pressed notes, read by the
/// note map of its device.
pub open spec fn frame_hits(input: MidiInputView) -> Seq<UserHit> {
    user_hits(frame_table(input), input.pressed())
}

/// The events of a frame: one `Hit` for each of [`frame_hits`], in that order.
pub open spec fn frame_events(input: MidiInputView) -> Seq<Events> {
    frame_hits(input).map_values(|hit: UserHit| Events::Hit(hit))
}

/// Reads what is pressed in the store as instrument hits. The store is left
/// as it is.
pub fn get_midi_as_user_hits(midi_input: &MidiInput) -> (out: Vec<UserHit>)
    ensures
        out@ == frame_hits(midi_input@),
{
    let model = identify_device(midi_input.get_device_name());
    let ic_midi = InputConfigMidi::for_model(model);
    let pressed_midi = midi_input.get_pressed_buttons();
    midi_as_user_hits(&ic_midi, &pressed_midi)
}

/// The per-frame entry point: owns the store of the connected device, if
/// there is one.
pub struct MidiInputHandler {
    midi_input: Option<MidiInput>,
}

impl View for MidiInputHandler {
    type V = Option<MidiInputView>;

    closed spec fn view(&self) -> Option<MidiInputView> {
        match self.midi_input {
            Some(midi_input) => Some(midi_input@),
            None => None,
        }
    }
}

impl MidiInputHandler {
    /// The store, if there is one, is well formed.
    pub open spec fn wf(&self) -> bool {
        self@ matches Some(input) ==> input.wf()
    }

    /// A handler for the device of the given name, or one without a device,
    /// which never reports anything.
    pub fn new(device_name: Option<String>) -> (handler: Self)
        ensures
            handler.wf(),
            handler@ == match device_name {
                Some(name) => Some(MidiInputView::empty(name@)),
                None => None,
            },
    {
        match device_name {
            Some(name) => MidiInputHandler { midi_input: Some(MidiInput::new(name)) },
            None => MidiInputHandler { midi_input: None },
        }
    }

    /// Hands one message from the driver to the store. The result says
    /// whether it was stored: not without a device, and not if the message has
    /// fewer than three bytes.
    pub fn receive(&mut self, timestamp: u64, message: &[u8], received_ms: u128) -> (stored: bool)
        ensures
            old(self).wf() ==> final(self).wf(),
            stored == (old(self)@ is Some && message@.len() >= 3),
            final(self)@ == match old(self)@ {
                Some(input) => Some(input.received(timestamp, message@, received_ms)),
                None => None,
            },
    {
        match &mut self.midi_input {
            Some(midi_input) => midi_input.receive(timestamp, message, received_ms),
            None => false,
        }
    }

    /// The note-on entries that the store holds, by ascending note number,
    /// whether or not the device's map lists them; none without a device.
    /// The store is left as it is.
    pub fn get_pressed_buttons(&self) -> (pressed: Vec<MidiInputDataRaw>)
        ensures
            pressed@ == match self@ {
                Some(input) => input.pressed(),
                None => Seq::empty(),
            },
    {
        match &self.midi_input {
            Some(midi_input) => midi_input.get_pressed_buttons(),
            None => Vec::new(),
        }
    }

    /// Turns what arrived since the last frame into events and flushes the
    /// store, whether or not there were any. Without a device there are no
    /// events and nothing changes.
    pub fn process(&mut self) -> (events: Vec<Events>)
        ensures
            old(self).wf() ==> final(self).wf(),
            events@ == match old(self)@ {
                Some(input) => frame_events(input),
                None => Seq::empty(),
            },
            final(self)@ == match old(self)@ {
                Some(input) => Some(input.flushed()),
                None => None,
            },
    {
        let mut events: Vec<Events> = Vec::new();
        match &mut self.midi_input {
            Some(midi_input) => {
                let hits = get_midi_as_user_hits(midi_input);
                for i in 0..hits.len()
                    invariant
                        events@ == hits@.take(i as int).map_values(|hit: UserHit| Events::Hit(hit)),
                {
                    events.push(Events::Hit(hits[i].clone()));
                    assert(hits@.take(i + 1) =~= hits@.take(i as int).push(hits@[i as int]));
                }
                assert(hits@.take(hits@.len() as int) =~= hits@);
                midi_input.flush();
            },
            None => {},
        };
        events
    }
}

/// The place of an instrument in [`ALL_INSTRUMENTS`].
pub open spec fn order_of(ins: Instrument) -> int {
    match ins {
        Instrument::Crash => 0,
        Instrument::Ride => 1,
        Instrument::OpenHihat => 2,
        Instrument::ClosedHihat => 3,
        Instrument::Tom1 => 4,
        Instrument::Tom2 => 5,
        Instrument::Tom3 => 6,
        Instrument::Snare => 7,
        Instrument::Kick => 8,
        Instrument::PedalHiHat => 9,
    }
}

/// [`ALL_INSTRUMENTS`] lists every instrument, each once.
pub proof fn lemma_all_instruments_listed()
    ensures
        ALL_INSTRUMENTS@.len() == 10,
        forall|ins: Instrument| ALL_INSTRUMENTS@[#[trigger] order_of(ins)] == ins,
        forall|at: int| 0 <= at < 10 ==> order_of(#[trigger] ALL_INSTRUMENTS@[at]) == at,
{
}

/// The hits of one note against the first `count` instruments.
spec fn hits_among(table: NoteTable, raw: MidiInputDataRaw, count: int) -> Seq<UserHit> {
    ALL_INSTRUMENTS@.take(count).filter_map(|ins: Instrument| hit_if_mapped(table, raw, ins))
}

proof fn lemma_hits_among(table: NoteTable, raw: MidiInputDataRaw, count: int)
    requires
        0 <= count <= 10,
    ensures
        forall|ins: Instrument|
            order_of(ins) < count && table.maps(raw.note_number, ins)
                ==> hits_among(table, raw, count).contains(#[trigger] hit_as(raw, ins)),
        forall|i: int|
            0 <= i < hits_among(table, raw, count).len() ==> ({
                let hit = #[trigger] hits_among(table, raw, count)[i];
                &&& hit.raw_data == raw
                &&& table.maps(raw.note_number, hit.instrument)
                &&& order_of(hit.instrument) < count
            }),
        forall|i: int, j: int|
            0 <= i < j < hits_among(table, raw, count).len()
                ==> order_of((#[trigger] hits_among(table, raw, count)[i]).instrument)
                    < order_of((#[trigger] hits_among(table, raw, count)[j]).instrument),
    decreases count,
{
    let found = hits_among(table, raw, count);
    lemma_all_instruments_listed();
    if count > 0 {
        let earlier = hits_among(table, raw, count - 1);
        lemma_hits_among(table, raw, count - 1);
        ALL_INSTRUMENTS@.lemma_filter_map_take_succ(
            |ins: Instrument| hit_if_mapped(table, raw, ins),
            count - 1,
        );
        assert forall|ins: Instrument|
            order_of(ins) < count && table.maps(raw.note_number, ins)
        implies found.contains(#[trigger] hit_as(raw, ins)) by {
            let hit = hit_as(raw, ins);
            if order_of(ins) < count - 1 {
                let at = choose|at: int| 0 <= at < earlier.len() && earlier[at] == hit;
                assert(found[at] == hit);
            } else {
                assert(ALL_INSTRUMENTS@[count - 1] == ins);
                assert(found[found.len() - 1] == hit);
            }
        }
        assert forall|i: int| 0 <= i < found.len() implies ({
            let hit = #[trigger] found[i];
            &&& hit.raw_data == raw
            &&& table.maps(raw.note_number, hit.instrument)
            &&& order_of(hit.instrument) < count
        }) by {
            if i < earlier.len() {
                assert(found[i] == earlier[i]);
            }
        }
        assert forall|i: int, j: int| 0 <= i < j < found.len() implies
            order_of((#[trigger] found[i]).instrument)
                < order_of((#[trigger] found[j]).instrument) by {
            assert(found[i] == earlier[i]);
            if j < earlier.len() {
                assert(found[j] == earlier[j]);
            }
        }
    } else {
        assert(ALL_INSTRUMENTS@.take(0) =~= Seq::<Instrument>::empty());
    }
}

/// A note gives one hit for each instrument that lists it and no other, in
/// the order of [`ALL_INSTRUMENTS`].
pub proof fn lemma_hits_for_note(table: NoteTable, raw: MidiInputDataRaw)
    ensures
        forall|hit: UserHit| #[trigger]
            hits_for_note(table, raw).contains(hit)
                <==> hit.raw_data == raw && table.maps(raw.note_number, hit.instrument),
        forall|i: int, j: int|
            0 <= i < j < hits_for_note(table, raw).len()
                ==> order_of((#[trigger] hits_for_note(table, raw)[i]).instrument)
                    < order_of((#[trigger] hits_for_note(table, raw)[j]).instrument),
        hits_for_note(table, raw).len() <= 10,
{
    lemma_hits_among(table, raw, 10);
    assert(ALL_INSTRUMENTS@.take(10) =~= ALL_INSTRUMENTS@);
    let hits = hits_for_note(table, raw);
    assert(hits == hits_among(table, raw, 10));
    assert forall|hit: UserHit| #[trigger] hits.contains(hit) implies
        hit.raw_data == raw && table.maps(raw.note_number, hit.instrument) by {
        let at = choose|at: int| 0 <= at < hits.len() && hits[at] == hit;
        assert(hits[at].raw_data == raw);
    }
    assert forall|hit: UserHit|
        hit.raw_data == raw && table.maps(raw.note_number, hit.instrument)
    implies #[trigger] hits.contains(hit) by {
        assert(hit == hit_as(raw, hit.instrument));
    }
    if hits.len() > 10 {
        assert(order_of(hits[0].instrument) >= 0);
        assert forall|at: int| 0 <= at < hits.len() implies
            order_of((#[trigger] hits[at]).instrument) >= at by {
            lemma_order_outruns_place(hits, at);
        }
        assert(order_of(hits[10].instrument) >= 10);
    }
}

/// In a run of hits whose instruments come in ascending order, the hit at a
/// place has at least that many instruments before its own.
proof fn lemma_order_outruns_place(hits: Seq<UserHit>, at: int)
    requires
        0 <= at < hits.len(),
        forall|i: int, j: int|
            0 <= i < j < hits.len()
                ==> order_of((#[trigger] hits[i]).instrument)
                    < order_of((#[trigger] hits[j]).instrument),
    ensures
        order_of(hits[at].instrument) >= at,
    decreases at,
{
    if at > 0 {
        lemma_order_outruns_place(hits, at - 1);
        assert(order_of(hits[at - 1].instrument) < order_of(hits[at].instrument));
    }
}

/// A note that no instrument lists gives no hit.
pub proof fn lemma_unmapped_note(table: NoteTable, raw: MidiInputDataRaw)
    requires
        forall|ins: Instrument| !table.maps(raw.note_number, ins),
    ensures
        hits_for_note(table, raw) == Seq::<UserHit>::empty(),
{
    lemma_hits_for_note(table, raw);
    let hits = hits_for_note(table, raw);
    if hits.len() > 0 {
        assert(hits.contains(hits[0]));
    }
    assert(hits =~= Seq::<UserHit>::empty());
}

/// A note that one instrument lists, and no other, gives that one hit.
pub proof fn lemma_singly_mapped_note(table: NoteTable, raw: MidiInputDataRaw, ins: Instrument)
    requires
        forall|other: Instrument| table.maps(raw.note_number, other) <==> other == ins,
    ensures
        hits_for_note(table, raw) == seq![hit_as(raw, ins)],
{
    lemma_hits_for_note(table, raw);
    let hits = hits_for_note(table, raw);
    let hit = hit_as(raw, ins);
    assert(hits.contains(hit));
    if hits.len() > 1 {
        assert(hits.contains(hits[0]));
        assert(hits.contains(hits[1]));
        assert(order_of(hits[0].instrument) < order_of(hits[1].instrument));
    }
    assert(hits =~= seq![hit]);
}

/// A note that a misconfigured map lists under two instruments, and no
/// third, gives two hits, one for each, the instrument that comes first in
/// [`ALL_INSTRUMENTS`] first.
pub proof fn lemma_doubly_mapped_note(
    table: NoteTable,
    raw: MidiInputDataRaw,
    first: Instrument,
    second: Instrument,
)
    requires
        order_of(first) < order_of(second),
        forall|other: Instrument|
            table.maps(raw.note_number, other) <==> other == first || other == second,
    ensures
        hits_for_note(table, raw) == seq![hit_as(raw, first), hit_as(raw, second)],
{
    lemma_hits_for_note(table, raw);
    let hits = hits_for_note(table, raw);
    let one = hit_as(raw, first);
    let two = hit_as(raw, second);
    assert(hits.contains(one));
    assert(hits.contains(two));
    let at_one = choose|at: int| 0 <= at < hits.len() && hits[at] == one;
    let at_two = choose|at: int| 0 <= at < hits.len() && hits[at] == two;
    assert(at_one < at_two) by {
        if at_two < at_one {
            assert(order_of(hits[at_two].instrument) < order_of(hits[at_one].instrument));
        }
    }
    if hits.len() > 2 {
        assert(hits.contains(hits[0]));
        assert(hits.contains(hits[1]));
        assert(hits.contains(hits[2]));
        assert(order_of(hits[0].instrument) < order_of(hits[1].instrument));
        assert(order_of(hits[1].instrument) < order_of(hits[2].instrument));
    }
    assert(hits =~= seq![one, two]);
}

/// The hits of a frame are those of its pressed notes: a hit is reported if
/// and only if its note was pressed and the map lists that note under its
/// instrument.
pub proof fn lemma_user_hits(table: NoteTable, pressed: Seq<MidiInputDataRaw>)
    ensures
        forall|hit: UserHit| #[trigger]
            user_hits(table, pressed).contains(hit)
                <==> pressed.contains(hit.raw_data)
                    && table.maps(hit.raw_data.note_number, hit.instrument),
    decreases pressed.len(),
{
    let hits = user_hits(table, pressed);
    if pressed.len() == 0 {
        assert(pressed.map_values(|raw: MidiInputDataRaw| hits_for_note(table, raw))
            =~= Seq::<Seq<UserHit>>::empty());
        assert(hits =~= Seq::<UserHit>::empty());
    } else {
        let count = pressed.len() - 1;
        let earlier = user_hits(table, pressed.take(count));
        let last = hits_for_note(table, pressed[count]);
        lemma_user_hits(table, pressed.take(count));
        lemma_hits_for_note(table, pressed[count]);
        pressed.lemma_flat_map_take_append(
            |raw: MidiInputDataRaw| hits_for_note(table, raw),
            count,
        );
        assert(pressed.take(count + 1) =~= pressed);
        assert(hits =~= earlier + last);
        assert forall|hit: UserHit| #[trigger] hits.contains(hit) implies
            pressed.contains(hit.raw_data)
                && table.maps(hit.raw_data.note_number, hit.instrument) by {
            let at = choose|at: int| 0 <= at < hits.len() && hits[at] == hit;
            if at < earlier.len() {
                assert(earlier[at] == hit);
                assert(earlier.contains(hit));
                let place = choose|place: int|
                    0 <= place < count && pressed.take(count)[place] == hit.raw_data;
                assert(pressed[place] == hit.raw_data);
            } else {
                assert(last[at - earlier.len()] == hit);
                assert(last.contains(hit));
                assert(pressed[count] == hit.raw_data);
            }
        }
        assert forall|hit: UserHit|
            pressed.contains(hit.raw_data)
                && table.maps(hit.raw_data.note_number, hit.instrument)
        implies #[trigger] hits.contains(hit) by {
            let place = choose|place: int|
                0 <= place < pressed.len() && pressed[place] == hit.raw_data;
            if place < count {
                assert(pressed.take(count)[place] == hit.raw_data);
                assert(pressed.take(count).contains(hit.raw_data));
                assert(earlier.contains(hit));
                let at = choose|at: int| 0 <= at < earlier.len() && earlier[at] == hit;
                assert(hits[at] == hit);
            } else {
                assert(last.contains(hit));
                let at = choose|at: int| 0 <= at < last.len() && last[at] == hit;
                assert(hits[earlier.len() + at] == hit);
            }
        }
    }
}

/// Pressed notes that are all different give hits that are all different.
pub proof fn lemma_user_hits_distinct(table: NoteTable, pressed: Seq<MidiInputDataRaw>)
    requires
        pressed.no_duplicates(),
    ensures
        user_hits(table, pressed).no_duplicates(),
    decreases pressed.len(),
{
    let hits = user_hits(table, pressed);
    if pressed.len() == 0 {
        lemma_no_hits_without_notes(table, pressed);
    } else {
        let count = pressed.len() - 1;
        let earlier = user_hits(table, pressed.take(count));
        let last = hits_for_note(table, pressed[count]);
        lemma_user_hits_distinct(table, pressed.take(count));
        lemma_user_hits(table, pressed.take(count));
        lemma_hits_for_note(table, pressed[count]);
        pressed.lemma_flat_map_take_append(
            |raw: MidiInputDataRaw| hits_for_note(table, raw),
            count,
        );
        assert(pressed.take(count + 1) =~= pressed);
        assert(hits =~= earlier + last);
        assert forall|i: int, j: int| 0 <= i < j < hits.len() implies hits[i] != hits[j] by {
            if j < earlier.len() {
                assert(earlier[i] != earlier[j]);
            } else if i >= earlier.len() {
                let a = i - earlier.len();
                let b = j - earlier.len();
                assert(order_of(last[a].instrument) < order_of(last[b].instrument));
            } else {
                assert(earlier.contains(earlier[i]));
                let place = choose|place: int|
                    0 <= place < count && pressed.take(count)[place] == earlier[i].raw_data;
                assert(pressed[place] != pressed[count]);
                assert(last.contains(last[j - earlier.len()]));
            }
        }
    }
}

/// A frame loses no hit and makes none up: it reports a hit if and only if
/// `current` holds its note as a note-on and the device's map lists that note
/// under its instrument. In a well-formed store it reports each hit once.
pub proof fn lemma_frame_hits(input: MidiInputView)
    ensures
        forall|hit: UserHit| #[trigger]
            frame_hits(input).contains(hit)
                <==> holds_pressed(input.current, hit.raw_data)
                    && frame_table(input).maps(hit.raw_data.note_number, hit.instrument),
        input.wf() ==> frame_hits(input).no_duplicates(),
        frame_events(input).len() == frame_hits(input).len(),
        forall|at: int|
            0 <= at < frame_hits(input).len()
                ==> #[trigger] frame_events(input)[at] == Events::Hit(frame_hits(input)[at]),
{
    let table = frame_table(input);
    lemma_user_hits(table, input.pressed());
    lemma_pressed_are_the_note_ons(input.current);
    if input.wf() {
        lemma_pressed_ascending(input.current);
        lemma_user_hits_distinct(table, pressed_notes(input.current));
    }
}

/// One note held as a note-on, which the device's map lists under one
/// instrument, gives a frame of that one hit; the frame after it, with no
/// message in between, reports nothing.
pub proof fn lemma_single_hit_frame(input: MidiInputView, note: u8, ins: Instrument)
    requires
        input.wf(),
        pressed_entry(input.current, note) is Some,
        forall|other: u8| other != note ==> pressed_entry(input.current, other) is None,
        forall|other: Instrument| frame_table(input).maps(note, other) <==> other == ins,
    ensures
        frame_events(input) == seq![Events::Hit(hit_as(input.current[note], ins))],
        frame_events(input.flushed()) == Seq::<Events>::empty(),
{
    let table = frame_table(input);
    let raw = input.current[note];
    lemma_single_press(input.current, note);
    lemma_singly_mapped_note(table, raw, ins);
    seq![raw].lemma_flat_map_singleton(|raw: MidiInputDataRaw| hits_for_note(table, raw));
    assert(frame_hits(input) == seq![hit_as(raw, ins)]);
    assert(frame_events(input) =~= seq![Events::Hit(hit_as(raw, ins))]);
    lemma_quiet_frame(input);
}

/// A frame in which no note is pressed reports nothing. So does every frame
/// that follows a flush with no message in between, and its flush leaves
/// `previous` as it is: what was flushed last is kept, not cleared.
pub proof fn lemma_quiet_frame(input: MidiInputView)
    ensures
        input.pressed().len() == 0 ==> frame_events(input) == Seq::<Events>::empty(),
        frame_events(input.flushed()) == Seq::<Events>::empty(),
        input.flushed().flushed() == input.flushed(),
        input.current == Map::<u8, MidiInputDataRaw>::empty() ==> input.flushed() == input,
{
    input.lemma_flush_moves_state();
    input.lemma_flush_twice();
    if input.pressed().len() == 0 {
        lemma_no_hits_without_notes(frame_table(input), input.pressed());
        assert(frame_events(input) =~= Seq::<Events>::empty());
    }
    let quiet = input.flushed();
    lemma_no_hits_without_notes(frame_table(quiet), quiet.pressed());
    assert(frame_events(quiet) =~= Seq::<Events>::empty());
    if input.current == Map::<u8, MidiInputDataRaw>::empty() {
        assert(input.flushed().previous =~= input.previous);
    }
}

/// No pressed notes, no hits.
pub proof fn lemma_no_hits_without_notes(table: NoteTable, pressed: Seq<MidiInputDataRaw>)
    requires
        pressed.len() == 0,
    ensures
        user_hits(table, pressed) == Seq::<UserHit>::empty(),
{
    lemma_user_hits(table, pressed);
    let hits = user_hits(table, pressed);
    if hits.len() > 0 {
        assert(hits.contains(hits[0]));
        assert(pressed.contains(hits[0].raw_data));
    }
    assert(hits =~= Seq::<UserHit>::empty());
}

} // verus!
