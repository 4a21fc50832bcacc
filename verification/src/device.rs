//! Note maps of the known device models, and how a device's name picks one.
//!
//! Different kits and controllers send different note numbers for the same
//! pad. The controller is known by its whole name, the kit families by a
//! marker anywhere in the name.

use crate::midi::MidiInputDataRaw;
use crate::midi_input_handler::{
    hits_for_note, lemma_hits_for_note, note_set, order_of, InputConfigMidi, Instrument, NoteTable,
};
use crate::text::{has_subslice, str_contains, str_equal};
use vstd::prelude::*;

verus! {

/// The device models whose note maps are known.
#[derive(Debug, Clone, Copy, PartialEq, Eq, Structural)]
pub enum DeviceModel {
    MpkMiniMkII,
    Td17,
    Td27,
    AlesisNitro,
    /// Any other device. It is read by the note map of [`DeviceModel::Td27`],
    /// which may assign its notes to the wrong instruments.
    Unknown,
}

/// The model that a device of the given name is taken for. The controller's
/// name is asked for first, then the markers in this order; the first that
/// fits decides.
pub open spec fn model_for_name(name: Seq<char>) -> DeviceModel {
    if name == "MPK Mini Mk II"@ {
        DeviceModel::MpkMiniMkII
    } else if has_subslice(name, "TD-17"@) {
        DeviceModel::Td17
    } else if has_subslice(name, "TD-27"@) {
        DeviceModel::Td27
    } else if has_subslice(name, "Nitro"@) {
        DeviceModel::AlesisNitro
    } else {
        DeviceModel::Unknown
    }
}

/// The model that a device of the given name is taken for.
pub fn identify_device(name: &str) -> (model: DeviceModel)
    ensures
        model == model_for_name(name@),
{
    if str_equal(name, "MPK Mini Mk II") {
        DeviceModel::MpkMiniMkII
    } else if str_contains(name, "TD-17") {
        DeviceModel::Td17
    } else if str_contains(name, "TD-27") {
        DeviceModel::Td27
    } else if str_contains(name, "Nitro") {
        DeviceModel::AlesisNitro
    } else {
        DeviceModel::Unknown
    }
}

/// Akai MPK Mini Mk II: the eight pads, two to an instrument.
pub open spec fn mpk_mini_mk_ii_table() -> NoteTable {
    NoteTable {
        closed_hi_hat: set![44u8, 48],
        snare: set![45u8, 49],
        kick: set![46u8, 50],
        open_hi_hat: set![47u8, 51],
        ride: set![],
        crash: set![],
        tom_1: set![],
        tom_2: set![],
        tom_3: set![],
        pedal_hihat: set![],
    }
}

/// Roland TD-17, factory note map.
pub open spec fn td17_table() -> NoteTable {
    NoteTable {
        closed_hi_hat: set![42u8, 22],
        snare: set![38u8, 40, 37],
        kick: set![36u8],
        open_hi_hat: set![46u8, 26],
        ride: set![51u8, 53, 59],
        crash: set![49u8, 55, 57, 52],
        tom_1: set![50u8, 48],
        tom_2: set![47u8, 45],
        tom_3: set![58u8, 43],
        pedal_hihat: set![44u8],
    }
}

/// Roland TD-27, factory note map: that of the TD-17.
pub open spec fn td27_table() -> NoteTable {
    td17_table()
}

/// Alesis Nitro: kick, snare and the two hi-hats.
pub open spec fn alesis_nitro_table() -> NoteTable {
    NoteTable {
        closed_hi_hat: set![42u8],
        snare: set![38u8],
        kick: set![36u8],
        open_hi_hat: set![46u8, 23],
        ride: set![],
        crash: set![],
        tom_1: set![],
        tom_2: set![],
        tom_3: set![],
        pedal_hihat: set![],
    }
}

/// The note map by which a device of the given model is read.
pub open spec fn table_for(model: DeviceModel) -> NoteTable {
    match model {
        DeviceModel::MpkMiniMkII => mpk_mini_mk_ii_table(),
        DeviceModel::Td17 => td17_table(),
        DeviceModel::Td27 => td27_table(),
        DeviceModel::AlesisNitro => alesis_nitro_table(),
        DeviceModel::Unknown => td27_table(),
    }
}

impl InputConfigMidi {
    pub fn mpk_mini_mk_ii() -> (config: Self)
        ensures
            config@ == mpk_mini_mk_ii_table(),
    {
        let config = InputConfigMidi {
            closed_hi_hat: note_set(&[44, 48]),
            snare: note_set(&[45, 49]),
            kick: note_set(&[46, 50]),
            open_hi_hat: note_set(&[47, 51]),
            ride: note_set(&[]),
            crash: note_set(&[]),
            tom_1: note_set(&[]),
            tom_2: note_set(&[]),
            tom_3: note_set(&[]),
            pedal_hihat: note_set(&[]),
        };
        assert(config@.closed_hi_hat =~= set![44u8, 48]);
        assert(config@.snare =~= set![45u8, 49]);
        assert(config@.kick =~= set![46u8, 50]);
        assert(config@.open_hi_hat =~= set![47u8, 51]);
        assert(config@.ride =~= set![]);
        config
    }

    pub fn td17() -> (config: Self)
        ensures
            config@ == td17_table(),
    {
        let config = InputConfigMidi {
            closed_hi_hat: note_set(&[42, 22]),
            snare: note_set(&[38, 40, 37]),
            kick: note_set(&[36]),
            open_hi_hat: note_set(&[46, 26]),
            ride: note_set(&[51, 53, 59]),
            crash: note_set(&[49, 55, 57, 52]),
            tom_1: note_set(&[50, 48]),
            tom_2: note_set(&[47, 45]),
            tom_3: note_set(&[58, 43]),
            pedal_hihat: note_set(&[44]),
        };
        assert(config@.closed_hi_hat =~= set![42u8, 22]);
        assert(config@.snare =~= set![38u8, 40, 37]);
        assert(config@.kick =~= set![36u8]);
        assert(config@.open_hi_hat =~= set![46u8, 26]);
        assert(config@.ride =~= set![51u8, 53, 59]);
        assert(config@.crash =~= set![49u8, 55, 57, 52]);
        assert(config@.tom_1 =~= set![50u8, 48]);
        assert(config@.tom_2 =~= set![47u8, 45]);
        assert(config@.tom_3 =~= set![58u8, 43]);
        assert(config@.pedal_hihat =~= set![44u8]);
        config
    }

    pub fn td27() -> (config: Self)
        ensures
            config@ == td27_table(),
    {
        InputConfigMidi::td17()
    }

    pub fn alesis_nitro() -> (config: Self)
        ensures
            config@ == alesis_nitro_table(),
    {
        let config = InputConfigMidi {
            closed_hi_hat: note_set(&[42]),
            snare: note_set(&[38]),
            kick: note_set(&[36]),
            open_hi_hat: note_set(&[46, 23]),
            ride: note_set(&[]),
            crash: note_set(&[]),
            tom_1: note_set(&[]),
            tom_2: note_set(&[]),
            tom_3: note_set(&[]),
            pedal_hihat: note_set(&[]),
        };
        assert(config@.closed_hi_hat =~= set![42u8]);
        assert(config@.snare =~= set![38u8]);
        assert(config@.kick =~= set![36u8]);
        assert(config@.open_hi_hat =~= set![46u8, 23]);
        assert(config@.ride =~= set![]);
        config
    }

    /// The note map by which a device of the given model is read.
    pub fn for_model(model: DeviceModel) -> (config: Self)
        ensures
            config@ == table_for(model),
    {
        match model {
            DeviceModel::MpkMiniMkII => InputConfigMidi::mpk_mini_mk_ii(),
            DeviceModel::Td17 => InputConfigMidi::td17(),
            DeviceModel::Td27 => InputConfigMidi::td27(),
            DeviceModel::AlesisNitro => InputConfigMidi::alesis_nitro(),
            DeviceModel::Unknown => InputConfigMidi::td27(),
        }
    }
}

/// A device whose name is not the controller's and holds none of the
/// markers is read by the note map of the TD-27.
pub proof fn lemma_unrecognised_name_reads_as_td27(name: Seq<char>)
    requires
        name != "MPK Mini Mk II"@,
        !has_subslice(name, "TD-17"@),
        !has_subslice(name, "TD-27"@),
        !has_subslice(name, "Nitro"@),
    ensures
        model_for_name(name) == DeviceModel::Unknown,
        table_for(model_for_name(name)) == td27_table(),
{
}

/// The note maps of the known models are free of mapping mistakes: none
/// lists a note under two instruments.
pub proof fn lemma_known_maps_are_disjoint(
    model: DeviceModel,
    note: u8,
    one: Instrument,
    other: Instrument,
)
    requires
        table_for(model).maps(note, one),
        table_for(model).maps(note, other),
    ensures
        one == other,
{
}

/// Read by the note map of a known model, a pressed note gives one hit at
/// most.
pub proof fn lemma_one_hit_per_note(model: DeviceModel, raw: MidiInputDataRaw)
    ensures
        hits_for_note(table_for(model), raw).len() <= 1,
{
    let hits = hits_for_note(table_for(model), raw);
    lemma_hits_for_note(table_for(model), raw);
    if hits.len() > 1 {
        assert(hits.contains(hits[0]));
        assert(hits.contains(hits[1]));
        lemma_known_maps_are_disjoint(model, raw.note_number, hits[0].instrument, hits[1].instrument);
        assert(order_of(hits[0].instrument) < order_of(hits[1].instrument));
    }
}

} // verus!
