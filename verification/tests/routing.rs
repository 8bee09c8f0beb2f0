use tune::routing::get_channels;
use tune::routing::parse_mitigation;
use tune::tuner::PoolingMode;
use tune::routing::ChannelRangeError;
use tune::routing::DeviceIdArg;
use tune::routing::MidiInArgs;
use tune::routing::MidiOutArgs;
use tune::routing::TuningMethod;
use tune::tuner::GroupBy;
use tune::tuner::MidiTunerMessage;
use tune::tuner::MidiTunerMessageHandler;
use tune::tuner::TunableSynth;

#[test]
fn routing_channels_wrap_around() {
    assert_eq!(get_channels(10, 8).unwrap(), [10, 11, 12, 13, 14, 15, 0, 1]);
    assert_eq!(get_channels(0, 0).unwrap(), []);
    assert_eq!(get_channels(16, 1), Err(ChannelRangeError::FirstChannelOutOfRange));
    assert_eq!(get_channels(0, 17), Err(ChannelRangeError::TooManyChannels));
}

#[test]
fn routing_midi_source_offsets() {
    let args = MidiInArgs { in_channel: 14, num_in_channels: 3, lumatone_offset: -5 };
    let source = args.get_midi_source().unwrap();
    assert_eq!(source.channels.iter().copied().collect::<Vec<_>>(), [0, 14, 15]);
    let offset = source.get_offset(3);
    assert_eq!(offset.get_piano_key(60).midi_number(), 45);
}

#[test]
fn routing_midi_target() {
    let args = MidiOutArgs {
        out_channel: 15,
        num_out_channels: 2,
        device_id: DeviceIdArg { device_id: 127 },
        tuning_program: 0,
    };
    let target = args.get_midi_target("handler").unwrap();
    assert_eq!(target.channels, [15, 0]);
    assert_eq!(target.midi_channel(1), 0);
    assert_eq!(target.tuning_program(1, 127), 0);
    assert_eq!(target.tuning_program(2, 5), 7);

    let bad = MidiOutArgs { out_channel: 16, ..args };
    assert!(matches!(bad.get_midi_target(()), Err(ChannelRangeError::FirstChannelOutOfRange)));
}

struct Bytes(Vec<Vec<u8>>);

impl MidiTunerMessageHandler for Bytes {
    fn handle(&mut self, message: MidiTunerMessage) {
        self.0.extend(message.to_bytes());
    }
}

#[test]
fn routing_create_synth_for_tuning_method() {
    let args = MidiOutArgs {
        out_channel: 3,
        num_out_channels: 2,
        device_id: DeviceIdArg { device_id: 5 },
        tuning_program: 20,
    };
    let mut synth = args.create_synth(args.get_midi_target(Bytes(Vec::new())).unwrap(), TuningMethod::FullKeyboardRt);
    assert_eq!(synth.group_by(), GroupBy::Note);
    synth.notes_detune(1, &[]);

    let octave = args.create_synth(args.get_midi_target(Bytes(Vec::new())).unwrap(), TuningMethod::Octave2);
    assert_eq!(octave.group_by(), GroupBy::NoteLetter);
    let bend = args.create_synth(args.get_midi_target(Bytes(Vec::new())).unwrap(), TuningMethod::PitchBend);
    assert_eq!(bend.group_by(), GroupBy::Channel);
}

#[test]
fn routing_parse_mitigation() {
    assert_eq!(parse_mitigation("block"), Ok(PoolingMode::Block));
    assert_eq!(parse_mitigation("Stop"), Ok(PoolingMode::Stop));
    assert_eq!(parse_mitigation("IGNORE"), Ok(PoolingMode::Ignore));
    assert_eq!(
        parse_mitigation("pause"),
        Err("Invalid mode. Should be `block`, `stop` or `ignore`")
    );
}

#[test]
fn routing_mitigation_of_lowercased() {
    assert_eq!(tune::routing::mitigation_of("stop"), Ok(PoolingMode::Stop));
    assert_eq!(tune::routing::mitigation_of("ignore"), Ok(PoolingMode::Ignore));
    assert_eq!(tune::routing::mitigation_of("block"), Ok(PoolingMode::Block));
    // Case is the caller's business: the comparison is exact.
    assert!(tune::routing::mitigation_of("Stop").is_err());
    assert_eq!(parse_mitigation("STOP"), Ok(PoolingMode::Stop));
}
