use tune::midi::ChannelMessage;
use tune::midi::ChannelMessageType;

fn message(channel: u8, message_type: ChannelMessageType) -> ChannelMessage {
    message_type.in_channel(channel).unwrap()
}

#[test]
fn parse_note_off() {
    let parsed = ChannelMessage::from_raw_message(&[0b1000_0111, 88, 99]).unwrap();
    assert_eq!(
        parsed,
        message(
            7,
            ChannelMessageType::NoteOff {
                key: 88,
                velocity: 99
            }
        )
    );
}

#[test]
fn parse_note_on() {
    let parsed = ChannelMessage::from_raw_message(&[0b1001_1000, 77, 88]).unwrap();
    assert_eq!(
        parsed,
        message(
            8,
            ChannelMessageType::NoteOn {
                key: 77,
                velocity: 88
            }
        )
    );
}

#[test]
fn parse_polyphonic_key_pressure() {
    let parsed = ChannelMessage::from_raw_message(&[0b1010_1001, 66, 77]).unwrap();
    assert_eq!(
        parsed,
        message(
            9,
            ChannelMessageType::PolyphonicKeyPressure {
                key: 66,
                pressure: 77
            }
        )
    );
}

#[test]
fn parse_control_change() {
    let parsed = ChannelMessage::from_raw_message(&[0b1011_1010, 55, 66]).unwrap();
    assert_eq!(
        parsed,
        message(
            10,
            ChannelMessageType::ControlChange {
                controller: 55,
                value: 66
            }
        )
    );
}

#[test]
fn parse_program_change() {
    let parsed = ChannelMessage::from_raw_message(&[0b1100_1011, 44]).unwrap();
    assert_eq!(
        parsed,
        message(11, ChannelMessageType::ProgramChange { program: 44 })
    );
}

#[test]
fn parse_channel_pressure() {
    let parsed = ChannelMessage::from_raw_message(&[0b1101_1100, 33]).unwrap();
    assert_eq!(
        parsed,
        message(12, ChannelMessageType::ChannelPressure { pressure: 33 })
    );
}

#[test]
fn parse_pitch_bend_change() {
    let parsed = ChannelMessage::from_raw_message(&[0b1110_1101, 22, 33]).unwrap();
    assert_eq!(
        parsed,
        message(13, ChannelMessageType::PitchBendChange { value: -3946 })
    );
}

#[test]
fn serialize_note_off() {
    let m = message(
        7,
        ChannelMessageType::NoteOff {
            key: 88,
            velocity: 99,
        },
    );
    assert_eq!(m.to_raw_message(), [0b1000_0111, 88, 99]);
}

#[test]
fn serialize_note_on() {
    let m = message(
        8,
        ChannelMessageType::NoteOn {
            key: 77,
            velocity: 88,
        },
    );
    assert_eq!(m.to_raw_message(), [0b1001_1000, 77, 88]);
}

#[test]
fn serialize_polyphonic_key_pressure() {
    let m = message(
        9,
        ChannelMessageType::PolyphonicKeyPressure {
            key: 66,
            pressure: 77,
        },
    );
    assert_eq!(m.to_raw_message(), [0b1010_1001, 66, 77]);
}

#[test]
fn serialize_control_change() {
    let m = message(
        10,
        ChannelMessageType::ControlChange {
            controller: 55,
            value: 66,
        },
    );
    assert_eq!(m.to_raw_message(), [0b1011_1010, 55, 66]);
}

#[test]
fn serialize_program_change() {
    let m = message(11, ChannelMessageType::ProgramChange { program: 44 });
    assert_eq!(m.to_raw_message(), [0b1100_1011, 44, 0]);
}

#[test]
fn serialize_channel_pressure() {
    let m = message(12, ChannelMessageType::ChannelPressure { pressure: 33 });
    assert_eq!(m.to_raw_message(), [0b1101_1100, 33, 0]);
}

#[test]
fn serialize_pitch_bend_change() {
    let m = message(13, ChannelMessageType::PitchBendChange { value: -3946 });
    assert_eq!(m.to_raw_message(), [0b1110_1101, 22, 33]);
}

#[test]
fn doc_parse_channel_and_type() {
    let parsed = ChannelMessage::from_raw_message(&[0b1001_1000, 77, 88]).unwrap();
    assert_eq!(parsed.channel(), 8);
    assert_eq!(
        parsed.message_type(),
        ChannelMessageType::NoteOn {
            key: 77,
            velocity: 88
        }
    );
    assert_eq!(ChannelMessage::from_raw_message(&[1, 2, 3]), None);
    assert_eq!(ChannelMessage::from_raw_message(&[]), None);
    assert_eq!(ChannelMessage::from_raw_message(&[0b1001_1000, 77]), None);
    let high_bytes = ChannelMessage::from_raw_message(&[0x90, 200, 200]).unwrap();
    assert_eq!(high_bytes.message_type(), ChannelMessageType::NoteOn { key: 200, velocity: 200 });
    let program = ChannelMessage::from_raw_message(&[0xc0, 0x80]).unwrap();
    assert_eq!(program.message_type(), ChannelMessageType::ProgramChange { program: 128 });
    let bend = ChannelMessage::from_raw_message(&[0xe0, 255, 255]).unwrap();
    assert_eq!(bend.message_type(), ChannelMessageType::PitchBendChange { value: 24703 });
}

#[test]
fn in_channel_range() {
    let message_type = ChannelMessageType::NoteOn {
        key: 77,
        velocity: 88,
    };
    let m = message_type.in_channel(15).unwrap();
    assert_eq!(m.channel(), 15);
    assert_eq!(m.message_type(), message_type);
    assert!(message_type.in_channel(16).is_none());
    assert_eq!(
        message_type.in_channel(7).unwrap().to_raw_message(),
        [0b1001_0111, 77, 88]
    );
}

#[test]
fn raw_message_roundtrip() {
    for value in [-8192i16, -3946, -1, 0, 1, 8191] {
        let m = message(3, ChannelMessageType::PitchBendChange { value });
        assert_eq!(ChannelMessage::from_raw_message(&m.to_raw_message()), Some(m));
    }
    let m = message(0, ChannelMessageType::ProgramChange { program: 5 });
    assert_eq!(ChannelMessage::from_raw_message(&m.to_raw_message()), Some(m));
}
