use std::collections::HashSet;

use tune::key::PianoKey;
use tune::midi::ChannelMessageType;
use tune::mts::channel_fine_tuning;
use tune::mts::tuning_bank_change;
use tune::mts::tuning_program_change;
use tune::mts::Channels;
use tune::mts::ScaleOctaveTuningError;
use tune::mts::ScaleOctaveTuningFormat;
use tune::mts::ScaleOctaveTuningMessage;
use tune::mts::ScaleOctaveTuningOptions;
use tune::mts::SingleNoteTuningChange;
use tune::mts::SingleNoteTuningChangeError;
use tune::mts::SingleNoteTuningChangeMessage;
use tune::mts::SingleNoteTuningChangeOptions;
use tune::note::Note;

fn a4_at_445_hz() -> SingleNoteTuningChange {
    // 445 Hz lies 0.1956 semitones above A4, i.e. 3205 steps of 1/16384 semitone
    SingleNoteTuningChange {
        key: PianoKey::from_midi_number(69),
        target_note: Note::from_midi_number(69),
        detune: 3205,
    }
}

fn in_tune(midi_number: i32) -> SingleNoteTuningChange {
    SingleNoteTuningChange {
        key: PianoKey::from_midi_number(midi_number),
        target_note: Note::from_midi_number(midi_number),
        detune: 0,
    }
}

#[test]
fn single_note_tuning_with_default_options() {
    let message =
        SingleNoteTuningChangeMessage::from_tuning_changes(&Default::default(), &[a4_at_445_hz()]).unwrap();
    assert_eq!(
        message.sysex_bytes(),
        [vec![0xf0, 0x7f, 0x7f, 0x08, 0x02, 0, 1, 69, 69, 25, 5, 0xf7]]
    );
    assert!(message.out_of_range_notes().is_empty());
}

#[test]
fn single_note_tuning_with_custom_options() {
    let options = SingleNoteTuningChangeOptions {
        realtime: false,
        device_id: 55,
        tuning_program: 66,
        with_bank_select: Some(77),
    };
    let message = SingleNoteTuningChangeMessage::from_tuning_changes(&options, &[a4_at_445_hz()]).unwrap();
    assert_eq!(
        message.sysex_bytes(),
        [vec![0xf0, 0x7e, 55, 0x08, 0x07, 77, 66, 1, 69, 69, 25, 5, 0xf7]]
    );
}

#[test]
fn single_note_tuning_negative_detune_moves_to_note_below() {
    let change = SingleNoteTuningChange {
        key: PianoKey::from_midi_number(60),
        target_note: Note::from_midi_number(62),
        detune: -100,
    };
    let message = SingleNoteTuningChangeMessage::from_tuning_changes(&Default::default(), &[change]).unwrap();
    // 16384 - 100 = 16284 = 127 * 128 + 28
    assert_eq!(
        message.sysex_bytes(),
        [vec![0xf0, 0x7f, 0x7f, 0x08, 0x02, 0, 1, 60, 61, 127, 28, 0xf7]]
    );
}

#[test]
fn single_note_tuning_out_of_range_notes() {
    let too_low = SingleNoteTuningChange {
        key: PianoKey::from_midi_number(69),
        target_note: Note::from_midi_number(0),
        detune: -1,
    };
    let too_high = SingleNoteTuningChange {
        key: PianoKey::from_midi_number(69),
        target_note: Note::from_midi_number(128),
        detune: 0,
    };
    let message = SingleNoteTuningChangeMessage::from_tuning_changes(
        &Default::default(),
        &[a4_at_445_hz(), too_low, too_high],
    )
    .unwrap();
    assert_eq!(message.sysex_bytes().len(), 1);
    assert_eq!(message.out_of_range_notes(), [too_low, too_high]);
}

#[test]
fn single_note_tuning_message_count() {
    let create = |num_changes: i32| {
        let changes: Vec<_> = (0..num_changes).map(in_tune).collect();
        SingleNoteTuningChangeMessage::from_tuning_changes(&Default::default(), &changes).unwrap()
    };
    assert_eq!(create(0).sysex_bytes().len(), 0);
    assert_eq!(create(127).sysex_bytes().len(), 1);
    let split = create(128);
    assert_eq!(split.sysex_bytes().len(), 2);
    assert_eq!(split.sysex_bytes()[0].len(), 7 + 256 + 1);
    assert_eq!(split.sysex_bytes()[0][6], 64);
    assert_eq!(split.sysex_bytes()[1][6], 64);
    assert_eq!(split.sysex_bytes()[1][7], 64);
}

#[test]
fn single_note_tuning_change_list_too_long() {
    let mut changes: Vec<_> = (0..128).map(in_tune).collect();
    let mut with_discarded = changes.clone();
    with_discarded.push(in_tune(128));
    changes.push(in_tune(64));

    assert!(matches!(
        SingleNoteTuningChangeMessage::from_tuning_changes(&Default::default(), &changes),
        Err(SingleNoteTuningChangeError::TuningChangeListTooLong)
    ));
    assert!(SingleNoteTuningChangeMessage::from_tuning_changes(&Default::default(), &with_discarded).is_ok());
}

#[test]
fn single_note_tuning_option_errors() {
    let with = |options: SingleNoteTuningChangeOptions| {
        SingleNoteTuningChangeMessage::from_tuning_changes(&options, &[]).err()
    };
    let default = SingleNoteTuningChangeOptions::default();
    assert_eq!(with(SingleNoteTuningChangeOptions { device_id: 127, ..default }), None);
    assert_eq!(
        with(SingleNoteTuningChangeOptions { device_id: 128, ..default }),
        Some(SingleNoteTuningChangeError::DeviceIdOutOfRange)
    );
    assert_eq!(with(SingleNoteTuningChangeOptions { tuning_program: 127, ..default }), None);
    assert_eq!(
        with(SingleNoteTuningChangeOptions { tuning_program: 128, ..default }),
        Some(SingleNoteTuningChangeError::TuningProgramOutOfRange)
    );
    assert_eq!(with(SingleNoteTuningChangeOptions { with_bank_select: Some(127), ..default }), None);
    assert_eq!(
        with(SingleNoteTuningChangeOptions { with_bank_select: Some(128), ..default }),
        Some(SingleNoteTuningChangeError::TuningBankNumberOutOfRange)
    );
}

// C = +10 cents, C# = -200 cents (clamped), D = +200 cents (clamped), the rest in tune
const ONE_BYTE_VALUES: [u16; 12] = [74, 0, 127, 64, 64, 64, 64, 64, 64, 64, 64, 64];
const TWO_BYTE_VALUES: [u16; 12] = [9011, 0, 16383, 8192, 8192, 8192, 8192, 8192, 8192, 8192, 8192, 8192];

#[test]
fn scale_octave_tuning_one_byte() {
    let message =
        ScaleOctaveTuningMessage::from_pitch_values(&ScaleOctaveTuningOptions::default(), ONE_BYTE_VALUES).unwrap();
    assert_eq!(
        message.sysex_bytes(),
        [
            0xf0, 0x7e, 0x7f, 0x08, 0x08, 0b00000011, 0b01111111, 0b01111111, 74, 0, 127, 64, 64, 64, 64, 64,
            64, 64, 64, 64, 0xf7
        ]
    );
}

#[test]
fn scale_octave_tuning_two_byte() {
    let options = ScaleOctaveTuningOptions {
        realtime: true,
        device_id: 55,
        channels: Channels::Selected(HashSet::from([0, 3, 6, 9, 12, 15])),
        format: ScaleOctaveTuningFormat::TwoByte,
    };
    let message = ScaleOctaveTuningMessage::from_pitch_values(&options, TWO_BYTE_VALUES).unwrap();
    assert_eq!(
        message.sysex_bytes(),
        [
            0xf0, 0x7f, 55, 0x08, 0x09, // RT Scale/Octave Tuning (2-Byte)
            0b00000010, 0b00100100, 0b01001001, // Channel bits
            70, 51, 0, 0, 127, 127, 64, 0, 64, 0, 64, 0, // Tuning changes (C - F)
            64, 0, 64, 0, 64, 0, 64, 0, 64, 0, 64, 0, // Tuning changes (F# - B)
            0xf7
        ]
    );
}

#[test]
fn scale_octave_tuning_channel_out_of_range() {
    let options = ScaleOctaveTuningOptions {
        channels: Channels::Selected(HashSet::from([14, 15])),
        ..Default::default()
    };
    assert!(ScaleOctaveTuningMessage::from_pitch_values(&options, ONE_BYTE_VALUES).is_ok());

    let options = ScaleOctaveTuningOptions {
        channels: Channels::Selected(HashSet::from([14, 15, 16])),
        ..Default::default()
    };
    assert_eq!(
        ScaleOctaveTuningMessage::from_pitch_values(&options, ONE_BYTE_VALUES).err(),
        Some(ScaleOctaveTuningError::ChannelOutOfRange)
    );
}

fn control_changes(messages: &[tune::midi::ChannelMessage]) -> Vec<(u8, u8, u8)> {
    messages
        .iter()
        .map(|message| match message.message_type() {
            ChannelMessageType::ControlChange { controller, value } => (message.channel(), controller, value),
            other => panic!("unexpected message {other:?}"),
        })
        .collect()
}

#[test]
fn rpn_messages() {
    assert_eq!(
        control_changes(&tuning_program_change(5, 7).unwrap()),
        [(5, 0x65, 0), (5, 0x64, 3), (5, 0x06, 7)]
    );
    assert_eq!(
        control_changes(&tuning_bank_change(15, 9).unwrap()),
        [(15, 0x65, 0), (15, 0x64, 4), (15, 0x06, 9)]
    );
    assert_eq!(
        control_changes(&channel_fine_tuning(2, 9011).unwrap()),
        [(2, 0x65, 0), (2, 0x64, 1), (2, 0x06, 70), (2, 0x26, 51)]
    );
    assert!(tuning_program_change(16, 7).is_none());
    assert!(tuning_bank_change(16, 7).is_none());
    assert!(channel_fine_tuning(16, 8192).is_none());
}

/// The 31-EDO tuning rooted at D4 of keys, in the library's integer form: the pitch of key `k`
/// lies `(k - 62) * 12 / 31` semitones above D4, rounded to 1/16384 semitone.
fn edo_31_changes(keys: std::ops::Range<i32>) -> Vec<SingleNoteTuningChange> {
    keys.map(|k| {
        let steps = (f64::from(k - 62) * 12.0 / 31.0 * 16384.0).round() as i64 + 62 * 16384;
        SingleNoteTuningChange {
            key: PianoKey::from_midi_number(k),
            target_note: Note::from_midi_number(steps.div_euclid(16384) as i32),
            detune: steps.rem_euclid(16384) as i32,
        }
    })
    .collect()
}

#[test]
fn single_note_tuning() {
    let options = SingleNoteTuningChangeOptions {
        device_id: 11,
        tuning_program: 22,
        ..Default::default()
    };
    let single_message =
        SingleNoteTuningChangeMessage::from_tuning_changes(&options, &edo_31_changes(0..127)).unwrap();
    assert_eq!(single_message.sysex_bytes(), [vec![0xf0, 0x7f, 11, 0x08, 0x02, 22, 127, 0, 38, 0, 0, 1, 38, 49, 70, 2, 38, 99, 12, 3, 39, 20, 83, 4, 39, 70, 25, 5, 39, 119, 95, 6, 40, 41, 37, 7, 40, 90, 107, 8, 41, 12, 50, 9, 41, 61, 120, 10, 41, 111, 62, 11, 42, 33, 4, 12, 42, 82, 74, 13, 43, 4, 17, 14, 43, 53, 87, 15, 43, 103, 29, 16, 44, 24, 99, 17, 44, 74, 41, 18, 44, 123, 111, 19, 45, 45, 54, 20, 45, 94, 124, 21, 46, 16, 66, 22, 46, 66, 8, 23, 46, 115, 78, 24, 47, 37, 21, 25, 47, 86, 91, 26, 48, 8, 33, 27, 48, 57, 103, 28, 48, 107, 45, 29, 49, 28, 116, 30, 49, 78, 58, 31, 50, 0, 0, 32, 50, 49, 70, 33, 50, 99, 12, 34, 51, 20, 83, 35, 51, 70, 25, 36, 51, 119, 95, 37, 52, 41, 37, 38, 52, 90, 107, 39, 53, 12, 50, 40, 53, 61, 120, 41, 53, 111, 62, 42, 54, 33, 4, 43, 54, 82, 74, 44, 55, 4, 17, 45, 55, 53, 87, 46, 55, 103, 29, 47, 56, 24, 99, 48, 56, 74, 41, 49, 56, 123, 111, 50, 57, 45, 54, 51, 57, 94, 124, 52, 58, 16, 66, 53, 58, 66, 8, 54, 58, 115, 78, 55, 59, 37, 21, 56, 59, 86, 91, 57, 60, 8, 33, 58, 60, 57, 103, 59, 60, 107, 45, 60, 61, 28, 116, 61, 61, 78, 58, 62, 62, 0, 0, 63, 62, 49, 70, 64, 62, 99, 12, 65, 63, 20, 83, 66, 63, 70, 25, 67, 63, 119, 95, 68, 64, 41, 37, 69, 64, 90, 107, 70, 65, 12, 50, 71, 65, 61, 120, 72, 65, 111, 62, 73, 66, 33, 4, 74, 66, 82, 74, 75, 67, 4, 17, 76, 67, 53, 87, 77, 67, 103, 29, 78, 68, 24, 99, 79, 68, 74, 41, 80, 68, 123, 111, 81, 69, 45, 54, 82, 69, 94, 124, 83, 70, 16, 66, 84, 70, 66, 8, 85, 70, 115, 78, 86, 71, 37, 21, 87, 71, 86, 91, 88, 72, 8, 33, 89, 72, 57, 103, 90, 72, 107, 45, 91, 73, 28, 116, 92, 73, 78, 58, 93, 74, 0, 0, 94, 74, 49, 70, 95, 74, 99, 12, 96, 75, 20, 83, 97, 75, 70, 25, 98, 75, 119, 95, 99, 76, 41, 37, 100, 76, 90, 107, 101, 77, 12, 50, 102, 77, 61, 120, 103, 77, 111, 62, 104, 78, 33, 4, 105, 78, 82, 74, 106, 79, 4, 17, 107, 79, 53, 87, 108, 79, 103, 29, 109, 80, 24, 99, 110, 80, 74, 41, 111, 80, 123, 111, 112, 81, 45, 54, 113, 81, 94, 124, 114, 82, 16, 66, 115, 82, 66, 8, 116, 82, 115, 78, 117, 83, 37, 21, 118, 83, 86, 91, 119, 84, 8, 33, 120, 84, 57, 103, 121, 84, 107, 45, 122, 85, 28, 116, 123, 85, 78, 58, 124, 86, 0, 0, 125, 86, 49, 70, 126, 86, 99, 12, 0xf7]]);

    let options = SingleNoteTuningChangeOptions {
        device_id: 33,
        tuning_program: 44,
        ..Default::default()
    };
    let split_message =
        SingleNoteTuningChangeMessage::from_tuning_changes(&options, &edo_31_changes(0..128)).unwrap();
    assert_eq!(split_message.sysex_bytes(), [vec![0xf0, 0x7f, 33, 0x08, 0x02, 44, 64, 0, 38, 0, 0, 1, 38, 49, 70, 2, 38, 99, 12, 3, 39, 20, 83, 4, 39, 70, 25, 5, 39, 119, 95, 6, 40, 41, 37, 7, 40, 90, 107, 8, 41, 12, 50, 9, 41, 61, 120, 10, 41, 111, 62, 11, 42, 33, 4, 12, 42, 82, 74, 13, 43, 4, 17, 14, 43, 53, 87, 15, 43, 103, 29, 16, 44, 24, 99, 17, 44, 74, 41, 18, 44, 123, 111, 19, 45, 45, 54, 20, 45, 94, 124, 21, 46, 16, 66, 22, 46, 66, 8, 23, 46, 115, 78, 24, 47, 37, 21, 25, 47, 86, 91, 26, 48, 8, 33, 27, 48, 57, 103, 28, 48, 107, 45, 29, 49, 28, 116, 30, 49, 78, 58, 31, 50, 0, 0, 32, 50, 49, 70, 33, 50, 99, 12, 34, 51, 20, 83, 35, 51, 70, 25, 36, 51, 119, 95, 37, 52, 41, 37, 38, 52, 90, 107, 39, 53, 12, 50, 40, 53, 61, 120, 41, 53, 111, 62, 42, 54, 33, 4, 43, 54, 82, 74, 44, 55, 4, 17, 45, 55, 53, 87, 46, 55, 103, 29, 47, 56, 24, 99, 48, 56, 74, 41, 49, 56, 123, 111, 50, 57, 45, 54, 51, 57, 94, 124, 52, 58, 16, 66, 53, 58, 66, 8, 54, 58, 115, 78, 55, 59, 37, 21, 56, 59, 86, 91, 57, 60, 8, 33, 58, 60, 57, 103, 59, 60, 107, 45, 60, 61, 28, 116, 61, 61, 78, 58, 62, 62, 0, 0, 63, 62, 49, 70, 0xf7], vec![0xf0, 0x7f, 33, 0x08, 0x02, 44, 64, 64, 62, 99, 12, 65, 63, 20, 83, 66, 63, 70, 25, 67, 63, 119, 95, 68, 64, 41, 37, 69, 64, 90, 107, 70, 65, 12, 50, 71, 65, 61, 120, 72, 65, 111, 62, 73, 66, 33, 4, 74, 66, 82, 74, 75, 67, 4, 17, 76, 67, 53, 87, 77, 67, 103, 29, 78, 68, 24, 99, 79, 68, 74, 41, 80, 68, 123, 111, 81, 69, 45, 54, 82, 69, 94, 124, 83, 70, 16, 66, 84, 70, 66, 8, 85, 70, 115, 78, 86, 71, 37, 21, 87, 71, 86, 91, 88, 72, 8, 33, 89, 72, 57, 103, 90, 72, 107, 45, 91, 73, 28, 116, 92, 73, 78, 58, 93, 74, 0, 0, 94, 74, 49, 70, 95, 74, 99, 12, 96, 75, 20, 83, 97, 75, 70, 25, 98, 75, 119, 95, 99, 76, 41, 37, 100, 76, 90, 107, 101, 77, 12, 50, 102, 77, 61, 120, 103, 77, 111, 62, 104, 78, 33, 4, 105, 78, 82, 74, 106, 79, 4, 17, 107, 79, 53, 87, 108, 79, 103, 29, 109, 80, 24, 99, 110, 80, 74, 41, 111, 80, 123, 111, 112, 81, 45, 54, 113, 81, 94, 124, 114, 82, 16, 66, 115, 82, 66, 8, 116, 82, 115, 78, 117, 83, 37, 21, 118, 83, 86, 91, 119, 84, 8, 33, 120, 84, 57, 103, 121, 84, 107, 45, 122, 85, 28, 116, 123, 85, 78, 58, 124, 86, 0, 0, 125, 86, 49, 70, 126, 86, 99, 12, 127, 87, 20, 83, 0xf7]]);
}

#[test]
fn single_note_tuning_numerical_correctness() {
    // Target pitches in semitones above MIDI note 0, in the library's integer form: note and
    // detune in 1/16384 semitone.
    let tuning_changes: Vec<SingleNoteTuningChange> = [
        (11, -1.0),      // Out of range
        (22, -0.00004),  // Out of range
        (33, -0.00003),  // Numerically equivalent to 0
        (44, 0.0),
        (55, 0.00003),   // Numerically equivalent to 0
        (66, 0.00004),   // Smallest value above 0 => lsb = 1
        (77, 31.41592),  // Random number => (msb, lsb) = (53, 30)
        (11, 62.83185),  // Random number => (msb, lsb) = (106, 61)
        (22, 68.99996),  // Smallest value below 69 => lsb = 127
        (33, 68.99997),  // Numerically equivalent to 69
        (44, 69.0),
        (55, 69.00003),  // Numerically equivalent to 69
        (66, 69.00004),  // Smallest value above 69 => lsb = 1
        (77, 69.25),     // A quarter of a semitone => msb = 32
        (11, 69.49996),  // Smallest value below 69.5 => lsb = 127
        (22, 69.49997),  // Numerically equivalent to 69.5
        (33, 69.5),      // Half a semitone => msb = 64
        (44, 69.50003),  // Numerically equivalent to 69.5
        (55, 69.50004),  // Smallest value above 69.5 => lsb = 1
        (66, 69.75),     // Three quarters of a semitone => msb = 96
        (77, 127.99996), // Smallest value below 128 => lsb = 127
        (1, 127.99997),  // Out of range
        (11, 129.0),     // Out of range
    ]
    .iter()
    .map(|&(source, target): &(i32, f64)| {
        let steps = (target * 16384.0).round() as i64;
        SingleNoteTuningChange {
            key: PianoKey::from_midi_number(source),
            target_note: Note::from_midi_number(steps.div_euclid(16384) as i32),
            detune: steps.rem_euclid(16384) as i32,
        }
    })
    .collect();

    let tuning_message =
        SingleNoteTuningChangeMessage::from_tuning_changes(&Default::default(), &tuning_changes).unwrap();

    assert_eq!(
        tuning_message.sysex_bytes(),
        [vec![
            0xf0, 0x7f, 0x7f, 0x08, 0x02, 0, 19, 33, 0, 0, 0, 44, 0, 0, 0, 55, 0, 0, 0, 66, 0, 0, 1, 77,
            31, 53, 30, 11, 62, 106, 61, 22, 68, 127, 127, 33, 69, 0, 0, 44, 69, 0, 0, 55, 69, 0, 0, 66,
            69, 0, 1, 77, 69, 32, 0, 11, 69, 63, 127, 22, 69, 64, 0, 33, 69, 64, 0, 44, 69, 64, 0, 55,
            69, 64, 1, 66, 69, 96, 0, 77, 127, 127, 127, 0xf7,
        ]]
    );
    assert_eq!(tuning_message.out_of_range_notes().len(), 4);
}

#[test]
fn octave_tuning() {
    let test_cases: &[(&[u8], u8, u8, u8)] = &[
        (&[], 0b0000_0000, 0b0000_0000, 0b0000_0000),
        (&[0], 0b0000_0000, 0b0000_0000, 0b0000_0001),
        (&[6], 0b0000_0000, 0b0000_0000, 0b0100_0000),
        (&[7], 0b0000_0000, 0b0000_0001, 0b0000_0000),
        (&[13], 0b0000_0000, 0b0100_0000, 0b0000_0000),
        (&[14], 0b0000_0001, 0b0000_0000, 0b0000_0000),
        (&[15], 0b0000_0010, 0b0000_0000, 0b0000_0000),
        (&[0, 2, 4, 6, 8, 10, 12, 14], 0b0000_0001, 0b0010_1010, 0b0101_0101),
        (&[1, 3, 5, 7, 9, 11, 13, 15], 0b0000_0010, 0b0101_0101, 0b0010_1010),
    ];

    // C = -61 cents, C# = -50 cents, ..., B = +60 cents, encoded as `cents + 64`
    let values: [u16; 12] = [
        0x40 - 61, 0x40 - 50, 0x40 - 39, 0x40 - 28, 0x40 - 17, 0x40 - 6, 0x40 + 5, 0x40 + 16,
        0x40 + 27, 0x40 + 38, 0x40 + 49, 0x40 + 60,
    ];

    for (channels, expected_channel_byte_1, expected_channel_byte_2, expected_channel_byte_3) in
        test_cases.iter()
    {
        let options = ScaleOctaveTuningOptions {
            device_id: 77,
            channels: Channels::Selected(channels.iter().cloned().collect()),
            ..Default::default()
        };
        let tuning_message = ScaleOctaveTuningMessage::from_pitch_values(&options, values).unwrap();

        assert_eq!(
            tuning_message.sysex_bytes(),
            [
                0xf0,
                0x7e,
                77,
                0x08,
                0x08,
                *expected_channel_byte_1,
                *expected_channel_byte_2,
                *expected_channel_byte_3,
                0x40 - 61,
                0x40 - 50,
                0x40 - 39,
                0x40 - 28,
                0x40 - 17,
                0x40 - 6,
                0x40 + 5,
                0x40 + 16,
                0x40 + 27,
                0x40 + 38,
                0x40 + 49,
                0x40 + 60,
                0xf7
            ]
        );
    }
}

#[test]
fn octave_tuning_default_values() {
    // The default octave tuning leaves every pitch class in tune: `0 cents + 64`.
    let tuning_message =
        ScaleOctaveTuningMessage::from_pitch_values(&Default::default(), [64; 12]).unwrap();

    assert_eq!(
        tuning_message.sysex_bytes(),
        [
            0xf0, 0x7e, 0x7f, 0x08, 0x08, 0b0000_0011, 0b0111_1111, 0b0111_1111, 64, 64, 64, 64, 64,
            64, 64, 64, 64, 64, 64, 64, 0xf7
        ]
    );
}
