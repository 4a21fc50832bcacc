//! Names of the functions that a status byte can stand for.
//!
//! A byte from 128 on is a status byte. Up to 239 its upper four bits say
//! which channel function it is and its lower four bits on which of the 16
//! channels; from 240 on it is a system message of its own.

use crate::midi::status_is_note_on;
use vstd::prelude::*;
use vstd::string::*;

verus! {

/// First byte value that is a status byte; smaller values are data bytes.
pub const STATUS_FIRST: u8 = 128;

/// First status byte of the system messages.
pub const SYSTEM_FIRST: u8 = 240;

/// The name of a channel function, by the upper four bits of its status
/// bytes.
pub open spec fn channel_function_label(high: int) -> Seq<char> {
    if high == 8 {
        "Note off"@
    } else if high == 9 {
        "Note on"@
    } else if high == 10 {
        "Polyphonic Aftertouch"@
    } else if high == 11 {
        "Control/Mode Change"@
    } else if high == 12 {
        "Program Change"@
    } else if high == 13 {
        "Channel Aftertouch"@
    } else {
        "Pitch Bend Change"@
    }
}

/// The name of a system message, by the lower four bits of its status byte.
pub open spec fn system_function_label(low: int) -> Seq<char> {
    if low == 0 {
        "System Exclusive"@
    } else if low == 1 {
        "MIDI Time Code Qtr. Frame"@
    } else if low == 2 {
        "Song Position Pointer"@
    } else if low == 3 {
        "Song Select (Song #)"@
    } else if low == 4 {
        "Undefined (Reserved)"@
    } else if low == 5 {
        "Undefined (Reserved)"@
    } else if low == 6 {
        "Tune request"@
    } else if low == 7 {
        "End of SysEx (EOX)"@
    } else if low == 8 {
        "Timing clock"@
    } else if low == 9 {
        "Undefined (Reserved)"@
    } else if low == 10 {
        "Start"@
    } else if low == 11 {
        "Continue"@
    } else if low == 12 {
        "Stop"@
    } else if low == 13 {
        "Undefined (Reserved)"@
    } else if low == 14 {
        "Active Sensing"@
    } else {
        "System Reset"@
    }
}

/// A channel from 1 to 16, written out.
pub open spec fn channel_label(channel: int) -> Seq<char> {
    if channel == 1 {
        "1"@
    } else if channel == 2 {
        "2"@
    } else if channel == 3 {
        "3"@
    } else if channel == 4 {
        "4"@
    } else if channel == 5 {
        "5"@
    } else if channel == 6 {
        "6"@
    } else if channel == 7 {
        "7"@
    } else if channel == 8 {
        "8"@
    } else if channel == 9 {
        "9"@
    } else if channel == 10 {
        "10"@
    } else if channel == 11 {
        "11"@
    } else if channel == 12 {
        "12"@
    } else if channel == 13 {
        "13"@
    } else if channel == 14 {
        "14"@
    } else if channel == 15 {
        "15"@
    } else {
        "16"@
    }
}

/// The name of the function that a byte stands for as a status byte, or
/// `None` for a data byte.
pub open spec fn midi_function_name_of(status: u8) -> Option<Seq<char>> {
    if status < 128 {
        None
    } else if status < 240 {
        Some(
            "Chan "@ + channel_label(status % 16 + 1) + " "@ + channel_function_label(
                (status / 16) as int,
            ),
        )
    } else {
        Some(system_function_label((status % 16) as int))
    }
}

fn channel_function_name(high: u8) -> (name: &'static str)
    ensures
        name@ == channel_function_label(high as int),
{
    match high {
        8 => "Note off",
        9 => "Note on",
        10 => "Polyphonic Aftertouch",
        11 => "Control/Mode Change",
        12 => "Program Change",
        13 => "Channel Aftertouch",
        _ => "Pitch Bend Change",
    }
}

fn system_function_name(low: u8) -> (name: &'static str)
    ensures
        name@ == system_function_label(low as int),
{
    match low {
        0 => "System Exclusive",
        1 => "MIDI Time Code Qtr. Frame",
        2 => "Song Position Pointer",
        3 => "Song Select (Song #)",
        4 => "Undefined (Reserved)",
        5 => "Undefined (Reserved)",
        6 => "Tune request",
        7 => "End of SysEx (EOX)",
        8 => "Timing clock",
        9 => "Undefined (Reserved)",
        10 => "Start",
        11 => "Continue",
        12 => "Stop",
        13 => "Undefined (Reserved)",
        14 => "Active Sensing",
        _ => "System Reset",
    }
}

fn channel_name(channel: u8) -> (name: &'static str)
    ensures
        name@ == channel_label(channel as int),
{
    match channel {
        1 => "1",
        2 => "2",
        3 => "3",
        4 => "4",
        5 => "5",
        6 => "6",
        7 => "7",
        8 => "8",
        9 => "9",
        10 => "10",
        11 => "11",
        12 => "12",
        13 => "13",
        14 => "14",
        15 => "15",
        _ => "16",
    }
}

/// The name of the function that a byte stands for as a status byte, or
/// `None` for a data byte.
pub fn midi_function_name(status: u8) -> (name: Option<String>)
    ensures
        match name {
            Some(text) => midi_function_name_of(status) == Some(text@),
            None => midi_function_name_of(status) is None,
        },
{
    if status < STATUS_FIRST {
        None
    } else if status < SYSTEM_FIRST {
        let mut text = String::from_str("Chan ");
        text.append(channel_name(status % 16 + 1));
        text.append(" ");
        text.append(channel_function_name(status / 16));
        Some(text)
    } else {
        Some(String::from_str(system_function_name(status % 16)))
    }
}

/// The note-on status bytes are those that are named as the note-on of a
/// channel: of channel 1 for 144, up to channel 16 for 159.
pub proof fn lemma_note_on_names(status: u8)
    ensures
        status_is_note_on(status) <==> 128 <= status < 240 && status / 16 == 9,
        status_is_note_on(status) ==> midi_function_name_of(status) == Some(
            "Chan "@ + channel_label(status - 143) + " "@ + "Note on"@,
        ),
{
}

} // verus!
