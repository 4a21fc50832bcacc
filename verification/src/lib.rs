//! Frame-aligned capture of percussion input from a MIDI controller.
//!
//! A driver thread delivers raw note messages at arbitrary instants; a frame
//! loop polls once per frame. This library holds the state shared between the
//! two and turns what accumulated since the last poll into instrument hits.

pub mod device;
pub mod midi;
pub mod midi_input_handler;
pub mod status;
pub mod text;
pub mod time;
