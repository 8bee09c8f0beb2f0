use std::cell::RefCell;
use std::rc::Rc;

use tune::key::PianoKey;
use tune::midi::ChannelMessageType;
use tune::routing::{handle_jit_message, MidiInArgs};
use tune::mts::ScaleOctaveTuningFormat;
use tune::note::Note;
use tune::tuner::{
    JitTuner, MidiTarget, MidiTunerMessage, MidiTunerMessageHandler, PoolingMode, TunableMidi,
    TunableSynth,
};

/// Collects the bytes of every handled message.
#[derive(Clone, Default)]
struct Recorder(Rc<RefCell<Vec<Vec<Vec<u8>>>>>);

impl MidiTunerMessageHandler for Recorder {
    fn handle(&mut self, message: MidiTunerMessage) {
        self.0.borrow_mut().push(message.to_bytes());
    }
}

impl Recorder {
    fn take(&self) -> Vec<Vec<Vec<u8>>> {
        std::mem::take(&mut *self.0.borrow_mut())
    }
}

fn target(recorder: &Recorder, channels: &[u8]) -> MidiTarget<Recorder> {
    MidiTarget {
        handler: recorder.clone(),
        channels: channels.to_vec(),
    }
}

fn note(midi_number: i32) -> Note {
    Note::from_midi_number(midi_number)
}

#[test]
fn pitch_bend_detuning() {
    let recorder = Recorder::default();
    let mut synth = TunableMidi::pitch_bend(target(&recorder, &[0, 1]));
    assert_eq!(synth.num_channels(), 2);

    synth.notes_detune(1, &[(note(60), 8192), (note(60), -70000)]);
    assert_eq!(
        recorder.take(),
        [vec![vec![0xe1, 0, 80]], vec![vec![0xe1, 0, 0]]]
    );

    // Pitch bend carries the tuning, so it is not passed through.
    synth.global_attr(ChannelMessageType::PitchBendChange { value: 100 });
    synth.global_attr(ChannelMessageType::ControlChange {
        controller: 64,
        value: 127,
    });
    assert_eq!(
        recorder.take(),
        [vec![vec![0xb0, 64, 127]], vec![vec![0xb1, 64, 127]]]
    );

    // A channel beyond the target's channels sends nothing.
    synth.notes_detune(2, &[(note(60), 8192)]);
    assert!(recorder.take().is_empty());
}

#[test]
fn channel_fine_tuning_detuning() {
    let recorder = Recorder::default();
    let mut synth = TunableMidi::channel_fine_tuning(target(&recorder, &[3]));
    synth.notes_detune(0, &[(note(60), 0), (note(62), 16384)]);
    assert_eq!(
        recorder.take(),
        [
            vec![vec![0xb3, 0x65, 0x00]],
            vec![vec![0xb3, 0x64, 0x01]],
            vec![vec![0xb3, 0x06, 64]],
            vec![vec![0xb3, 0x26, 0]],
            vec![vec![0xb3, 0x65, 0x00]],
            vec![vec![0xb3, 0x64, 0x01]],
            vec![vec![0xb3, 0x06, 127]],
            vec![vec![0xb3, 0x26, 127]],
        ]
    );
}

#[test]
fn single_note_tuning_change_detuning() {
    let recorder = Recorder::default();
    let mut synth = TunableMidi::single_note_tuning_change(target(&recorder, &[5, 6]), false, 0x7f, 10);
    synth.notes_detune(1, &[(note(60), 4096), (note(64), -4096)]);
    assert_eq!(
        recorder.take(),
        [
            vec![vec![0xb6, 0x65, 0x00]],
            vec![vec![0xb6, 0x64, 0x03]],
            vec![vec![0xb6, 0x06, 11]],
            vec![vec![
                0xf0, 0x7e, 0x7f, 0x08, 0x02, 11, 2, 60, 60, 32, 0, 64, 63, 96, 0, 0xf7
            ]],
        ]
    );

    // Notes outside the MIDI range are not retuned.
    synth.notes_detune(0, &[(note(200), 0)]);
    assert_eq!(
        recorder.take(),
        [
            vec![vec![0xb5, 0x65, 0x00]],
            vec![vec![0xb5, 0x64, 0x03]],
            vec![vec![0xb5, 0x06, 10]],
            vec![],
        ]
    );
}

#[test]
fn scale_octave_tuning_keeps_pitch_classes() {
    let recorder = Recorder::default();
    let mut synth =
        TunableMidi::scale_octave_tuning(target(&recorder, &[0]), false, 0x7f, ScaleOctaveTuningFormat::OneByte);
    synth.notes_detune(0, &[(note(61), 8192)]);
    synth.notes_detune(0, &[(note(74), -8192)]);
    let header = [0xf0, 0x7e, 0x7f, 0x08, 0x08, 0x00, 0x00, 0x01];
    let mut first = header.to_vec();
    first.extend([64, 114, 64, 64, 64, 64, 64, 64, 64, 64, 64, 64, 0xf7]);
    let mut second = header.to_vec();
    second.extend([64, 114, 14, 64, 64, 64, 64, 64, 64, 64, 64, 64, 0xf7]);
    assert_eq!(recorder.take(), [vec![first], vec![second]]);

    let mut two_byte =
        TunableMidi::scale_octave_tuning(target(&recorder, &[0]), true, 3, ScaleOctaveTuningFormat::TwoByte);
    two_byte.notes_detune(0, &[(note(60), -16384)]);
    let mut expected = vec![0xf0, 0x7f, 3, 0x08, 0x09, 0x00, 0x00, 0x01, 0, 0];
    for _ in 1..12 {
        expected.extend([64, 0]);
    }
    expected.push(0xf7);
    assert_eq!(recorder.take(), [vec![expected]]);
}

#[test]
fn note_events_on_midi_channels() {
    let recorder = Recorder::default();
    let mut synth = TunableMidi::channel_fine_tuning(target(&recorder, &[9]));
    synth.note_on(0, note(60), 100);
    synth.note_attr(0, note(60), 30);
    synth.note_off(0, note(60), 0);
    synth.note_on(0, note(128), 100);
    synth.note_on(1, note(60), 100);
    assert_eq!(
        recorder.take(),
        [
            vec![vec![0x99, 60, 100]],
            vec![vec![0xa9, 60, 30]],
            vec![vec![0x89, 60, 0]],
        ]
    );
}

#[test]
fn jit_tuner_drives_tunable_midi() {
    let recorder = Recorder::default();
    let synth = TunableMidi::pitch_bend(target(&recorder, &[0, 1]));
    let mut tuner = JitTuner::start(synth, PoolingMode::Stop);
    tuner.note_on(1, note(60), 4096, 100);
    tuner.note_on(2, note(64), -4096, 90);
    tuner.note_off(1, 0);
    assert_eq!(
        recorder.take(),
        [
            vec![vec![0xe0, 0, 72]],
            vec![vec![0x90, 60, 100]],
            vec![vec![0xe1, 0, 56]],
            vec![vec![0x91, 64, 90]],
            vec![vec![0x80, 60, 0]],
        ]
    );
    tuner.stop();
    assert_eq!(recorder.take(), [vec![vec![0x81, 64, 0]]]);
}

#[test]
fn jit_message_handling() {
    let recorder = Recorder::default();
    let synth = TunableMidi::pitch_bend(target(&recorder, &[0, 1]));
    let mut tuner = JitTuner::start(synth, PoolingMode::Stop);
    let source = MidiInArgs { in_channel: 0, num_in_channels: 2, lumatone_offset: 12 }
        .get_midi_source()
        .unwrap();
    let offset = source.get_offset(1);
    let pitch_of = |key: PianoKey| {
        let midi_number = key.midi_number();
        if midi_number < 100 {
            Some((note(midi_number), 4096))
        } else {
            None
        }
    };

    // Key 48 on channel 1 is key 60.
    handle_jit_message(&mut tuner, ChannelMessageType::NoteOn { key: 48, velocity: 100 }, &offset, &pitch_of);
    assert_eq!(recorder.take(), [vec![vec![0xe0, 0, 72]], vec![vec![0x90, 60, 100]]]);

    // A key without a pitch is not started.
    handle_jit_message(&mut tuner, ChannelMessageType::NoteOn { key: 95, velocity: 90 }, &offset, &pitch_of);
    assert!(recorder.take().is_empty());

    handle_jit_message(
        &mut tuner,
        ChannelMessageType::PolyphonicKeyPressure { key: 48, pressure: 30 },
        &offset,
        &pitch_of,
    );
    assert_eq!(recorder.take(), [vec![vec![0xa0, 60, 30]]]);

    handle_jit_message(
        &mut tuner,
        ChannelMessageType::ControlChange { controller: 64, value: 127 },
        &offset,
        &pitch_of,
    );
    assert_eq!(recorder.take(), [vec![vec![0xb0, 64, 127]], vec![vec![0xb1, 64, 127]]]);

    // A note-on message with velocity 0 stops the note; a second stop finds nothing.
    handle_jit_message(&mut tuner, ChannelMessageType::NoteOn { key: 48, velocity: 0 }, &offset, &pitch_of);
    assert_eq!(recorder.take(), [vec![vec![0x80, 60, 0]]]);
    handle_jit_message(&mut tuner, ChannelMessageType::NoteOff { key: 48, velocity: 64 }, &offset, &pitch_of);
    assert!(recorder.take().is_empty());
}
