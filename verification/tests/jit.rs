use tune::note::Note;
use tune::tuner::{IsErr, JitTuner, TunableSynth};
use tune::tuner::{GroupBy, PoolingMode};

/// A synthesizer that records the calls it receives and fails on a chosen channel.
#[derive(Default)]
struct RecordingSynth {
    calls: Vec<String>,
    failing_channel: Option<usize>,
}

impl RecordingSynth {
    fn outcome(&self, channel: usize) -> Result<(), String> {
        if self.failing_channel == Some(channel) {
            Err(format!("channel {channel} failed"))
        } else {
            Ok(())
        }
    }
}

impl TunableSynth for RecordingSynth {
    type Result = Result<(), String>;
    type NoteAttr = u8;
    type GlobalAttr = &'static str;
    type Detuning = i32;

    fn num_channels(&self) -> usize {
        2
    }

    fn group_by(&self) -> GroupBy {
        GroupBy::Channel
    }

    fn notes_detune(&mut self, channel: usize, detuned_notes: &[(Note, i32)]) -> Self::Result {
        for (note, detuning) in detuned_notes {
            self.calls
                .push(format!("detune {channel} {} {detuning}", note.midi_number()));
        }
        self.outcome(channel)
    }

    fn note_on(&mut self, channel: usize, started_note: Note, attr: u8) -> Self::Result {
        self.calls
            .push(format!("on {channel} {} {attr}", started_note.midi_number()));
        self.outcome(channel)
    }

    fn note_off(&mut self, channel: usize, stopped_note: Note, attr: u8) -> Self::Result {
        self.calls
            .push(format!("off {channel} {} {attr}", stopped_note.midi_number()));
        self.outcome(channel)
    }

    fn note_attr(&mut self, channel: usize, affected_note: Note, attr: u8) -> Self::Result {
        self.calls
            .push(format!("attr {channel} {} {attr}", affected_note.midi_number()));
        self.outcome(channel)
    }

    fn global_attr(&mut self, attr: &'static str) -> Self::Result {
        self.calls.push(format!("global {attr}"));
        Ok(())
    }
}

fn note(midi_number: i32) -> Note {
    Note::from_midi_number(midi_number)
}

#[test]
fn jit_tuner_steals_the_oldest_channel() {
    let mut tuner = JitTuner::start(RecordingSynth::default(), PoolingMode::Stop);

    assert!(tuner.note_on(1, note(60), 10, 100).is_ok());
    assert!(tuner.note_on(2, note(62), -20, 90).is_ok());
    assert!(tuner.note_on(3, note(64), 30, 80).is_ok());
    assert!(tuner.note_pitch(3, |found: Note| found.midi_number() * 2).is_ok());
    assert!(tuner.note_attr(2, 70).is_ok());
    assert!(tuner.note_attr(1, 70).is_ok());
    assert!(tuner.global_attr("sustain").is_ok());
    assert!(tuner.note_off(2, 0).is_ok());
    assert!(tuner.note_off(2, 0).is_ok());

    let synth = tuner.stop();
    assert_eq!(
        synth.calls,
        [
            "detune 0 60 10",
            "on 0 60 100",
            "detune 1 62 -20",
            "on 1 62 90",
            "off 0 60 80",
            "detune 0 64 30",
            "on 0 64 80",
            "detune 0 64 128",
            "attr 1 62 70",
            "global sustain",
            "off 1 62 0",
            "off 0 64 0",
        ]
    );
}

#[test]
fn jit_tuner_blocks_and_reports_failures() {
    let synth = RecordingSynth {
        failing_channel: Some(1),
        ..RecordingSynth::default()
    };
    let mut tuner = JitTuner::start(synth, PoolingMode::Block);

    assert!(tuner.note_on(1, note(60), 0, 100).is_ok());
    // The detuning of channel 1 fails, so the note is not started.
    assert_eq!(tuner.note_on(2, note(62), 5, 100), Err("channel 1 failed".to_owned()));
    // Both channels are taken: the key is rejected without any call.
    assert!(tuner.note_on(3, note(64), 0, 100).is_ok());
    assert!(!<Result<(), String> as IsErr>::ok().is_err());
    assert!(IsErr::is_err(&Err::<(), String>("failed".to_owned())));

    let synth = tuner.stop();
    assert_eq!(synth.calls.len(), 5);
    assert_eq!(synth.calls[..3], ["detune 0 60 0", "on 0 60 100", "detune 1 62 5"]);
    let mut stopped = synth.calls[3..].to_vec();
    stopped.sort();
    assert_eq!(stopped, ["off 0 60 0", "off 1 62 0"]);
}
