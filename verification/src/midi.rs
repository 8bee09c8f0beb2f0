//! Basic abstractions for MIDI Channel Voice / Channel Mode messages.
use vstd::prelude::*;

verus! {

/// Status bits for "Note Off event".
pub const NOTE_OFF: u8 = 0b1000;
/// Status bits for "Note On event".
pub const NOTE_ON: u8 = 0b1001;
/// Status bits for "Polyphonic Key Pressure (Aftertouch)".
pub const POLYPHONIC_KEY_PRESSURE: u8 = 0b1010;
/// Status bits for "Control Change".
pub const CONTROL_CHANGE: u8 = 0b1011;
/// Status bits for "Program Change".
pub const PROGRAM_CHANGE: u8 = 0b1100;
/// Status bits for "Channel Pressure (After-touch)".
pub const CHANNEL_PRESSURE: u8 = 0b1101;
/// Status bits for "Pitch Bend Change".
pub const PITCH_BEND_CHANGE: u8 = 0b1110;

/// A type-safe representation of MIDI messages that aren't System Common messages.
#[derive(Copy, Clone, Debug, Eq, PartialEq, Structural)]
pub struct ChannelMessage {
    channel: u8,
    message_type: ChannelMessageType,
}

/// A parsed representation of the channel-agnostic part of a MIDI message.
#[allow(inconsistent_fields)]
#[derive(Copy, Clone, Debug, Eq, PartialEq, Structural)]
pub enum ChannelMessageType {
    NoteOff { key: u8, velocity: u8 },
    NoteOn { key: u8, velocity: u8 },
    PolyphonicKeyPressure { key: u8, pressure: u8 },
    ControlChange { controller: u8, value: u8 },
    ProgramChange { program: u8 },
    ChannelPressure { pressure: u8 },
    PitchBendChange { value: i16 },
}

/// The message that a raw byte sequence stands for, if any.
pub open spec fn parsed_message(bytes: Seq<u8>) -> Option<(u8, ChannelMessageType)> {
    if bytes.len() == 0 {
        None
    } else {
        let channel = (bytes[0] % 16) as u8;
        let action = bytes[0] / 16;
        let two = bytes.len() >= 2;
        let three = bytes.len() >= 3;
        if action == NOTE_OFF && three {
            Some((channel, ChannelMessageType::NoteOff { key: bytes[1], velocity: bytes[2] }))
        } else if action == NOTE_ON && three {
            Some((channel, ChannelMessageType::NoteOn { key: bytes[1], velocity: bytes[2] }))
        } else if action == POLYPHONIC_KEY_PRESSURE && three {
            Some(
                (
                    channel,
                    ChannelMessageType::PolyphonicKeyPressure { key: bytes[1], pressure: bytes[2] },
                ),
            )
        } else if action == CONTROL_CHANGE && three {
            Some(
                (
                    channel,
                    ChannelMessageType::ControlChange { controller: bytes[1], value: bytes[2] },
                ),
            )
        } else if action == PROGRAM_CHANGE && two {
            Some((channel, ChannelMessageType::ProgramChange { program: bytes[1] }))
        } else if action == CHANNEL_PRESSURE && two {
            Some((channel, ChannelMessageType::ChannelPressure { pressure: bytes[1] }))
        } else if action == PITCH_BEND_CHANGE && three {
            Some(
                (
                    channel,
                    ChannelMessageType::PitchBendChange {
                        value: (bytes[1] + bytes[2] * 128 - 8192) as i16,
                    },
                ),
            )
        } else {
            None
        }
    }
}

/// Whether every data value of a message type fits into the data bytes of a MIDI message: 7 bits
/// each, and 14 bits for a pitch bend, whose value is centered at 0.
pub open spec fn data_fits(message_type: ChannelMessageType) -> bool {
    match message_type {
        ChannelMessageType::NoteOff { key, velocity } => key < 0x80 && velocity < 0x80,
        ChannelMessageType::NoteOn { key, velocity } => key < 0x80 && velocity < 0x80,
        ChannelMessageType::PolyphonicKeyPressure { key, pressure } => key < 0x80 && pressure < 0x80,
        ChannelMessageType::ControlChange { controller, value } => controller < 0x80 && value < 0x80,
        ChannelMessageType::ProgramChange { program } => program < 0x80,
        ChannelMessageType::ChannelPressure { pressure } => pressure < 0x80,
        ChannelMessageType::PitchBendChange { value } => -8192 <= value < 8192,
    }
}

/// The status nibble of a message type.
pub open spec fn status_of(message_type: ChannelMessageType) -> u8 {
    match message_type {
        ChannelMessageType::NoteOff { .. } => NOTE_OFF,
        ChannelMessageType::NoteOn { .. } => NOTE_ON,
        ChannelMessageType::PolyphonicKeyPressure { .. } => POLYPHONIC_KEY_PRESSURE,
        ChannelMessageType::ControlChange { .. } => CONTROL_CHANGE,
        ChannelMessageType::ProgramChange { .. } => PROGRAM_CHANGE,
        ChannelMessageType::ChannelPressure { .. } => CHANNEL_PRESSURE,
        ChannelMessageType::PitchBendChange { .. } => PITCH_BEND_CHANGE,
    }
}

/// The two data bytes of a message type.
pub open spec fn payload_of(message_type: ChannelMessageType) -> (u8, u8) {
    match message_type {
        ChannelMessageType::NoteOff { key, velocity } => (key, velocity),
        ChannelMessageType::NoteOn { key, velocity } => (key, velocity),
        ChannelMessageType::PolyphonicKeyPressure { key, pressure } => (key, pressure),
        ChannelMessageType::ControlChange { controller, value } => (controller, value),
        ChannelMessageType::ProgramChange { program } => (program, 0),
        ChannelMessageType::ChannelPressure { pressure } => (pressure, 0),
        ChannelMessageType::PitchBendChange { value } => (
            (value as int % 128) as u8,
            ((value as int / 128 + 64) % 256) as u8,
        ),
    }
}

/// The three bytes that encode a message on a channel.
pub open spec fn raw_message_of(channel: u8, message_type: ChannelMessageType) -> Seq<u8> {
    seq![
        (status_of(message_type) * 16 + channel) as u8,
        payload_of(message_type).0,
        payload_of(message_type).1,
    ]
}

impl ChannelMessage {
    /// A channel message always addresses one of the 16 MIDI channels.
    #[verifier::type_invariant]
    spec fn channel_in_range(self) -> bool {
        self.channel < 16
    }

    /// The channel of the message.
    pub closed spec fn channel_value(self) -> u8 {
        self.channel
    }

    /// The channel-agnostic part of the message.
    pub closed spec fn type_value(self) -> ChannelMessageType {
        self.message_type
    }

    /// Parses a MIDI message.
    ///
    /// When no valid Channel Voice or Channel Mode message is provided [`None`] is returned: an
    /// unknown status or too few bytes. The data bytes are taken as they are, and bytes beyond the
    /// ones that the message type needs are ignored.
    pub fn from_raw_message(message: &[u8]) -> (r: Option<ChannelMessage>)
        ensures
            match parsed_message(message@) {
                Some((channel, message_type)) => (r matches Some(m) && m.channel_value() == channel
                    && m.type_value() == message_type),
                None => r is None,
            },
    {
        if message.len() == 0 {
            return None;
        }
        let status_byte = message[0];
        let channel = status_byte & 0b0000_1111;
        let action = status_byte >> 4;
        assert(channel == status_byte % 16 && action == status_byte / 16) by (bit_vector)
            requires
                channel == status_byte & 0b0000_1111,
                action == status_byte >> 4,
        ;
        let two = message.len() >= 2;
        let three = message.len() >= 3;
        let message_type = if action == NOTE_OFF && three {
            ChannelMessageType::NoteOff { key: message[1], velocity: message[2] }
        } else if action == NOTE_ON && three {
            ChannelMessageType::NoteOn { key: message[1], velocity: message[2] }
        } else if action == POLYPHONIC_KEY_PRESSURE && three {
            ChannelMessageType::PolyphonicKeyPressure { key: message[1], pressure: message[2] }
        } else if action == CONTROL_CHANGE && three {
            ChannelMessageType::ControlChange { controller: message[1], value: message[2] }
        } else if action == PROGRAM_CHANGE && two {
            ChannelMessageType::ProgramChange { program: message[1] }
        } else if action == CHANNEL_PRESSURE && two {
            ChannelMessageType::ChannelPressure { pressure: message[1] }
        } else if action == PITCH_BEND_CHANGE && three {
            ChannelMessageType::PitchBendChange {
                value: (message[2] as i16 * 128 - 8192) + message[1] as i16,
            }
        } else {
            return None;
        };
        Some(ChannelMessage { channel, message_type })
    }

    /// Returns the byte representation of a MIDI message.
    pub fn to_raw_message(&self) -> (r: [u8; 3])
        ensures
            r@ == raw_message_of(self.channel_value(), self.type_value()),
    {
        proof {
            use_type_invariant(self);
        }
        match self.message_type {
            ChannelMessageType::NoteOff { key, velocity } => {
                channel_message(NOTE_OFF, self.channel, key, velocity)
            },
            ChannelMessageType::NoteOn { key, velocity } => {
                channel_message(NOTE_ON, self.channel, key, velocity)
            },
            ChannelMessageType::PolyphonicKeyPressure { key, pressure } => {
                channel_message(POLYPHONIC_KEY_PRESSURE, self.channel, key, pressure)
            },
            ChannelMessageType::ControlChange { controller, value } => {
                channel_message(CONTROL_CHANGE, self.channel, controller, value)
            },
            ChannelMessageType::ProgramChange { program } => {
                channel_message(PROGRAM_CHANGE, self.channel, program, 0)
            },
            ChannelMessageType::ChannelPressure { pressure } => {
                channel_message(CHANNEL_PRESSURE, self.channel, pressure, 0)
            },
            ChannelMessageType::PitchBendChange { value } => {
                let lsb = match value.checked_rem_euclid(128) {
                    Some(v) => v,
                    None => 0,
                };
                let msb_unwrapped = match value.checked_div_euclid(128) {
                    Some(v) => v + 64,
                    None => 0,
                };
                let msb = match msb_unwrapped.checked_rem_euclid(256) {
                    Some(v) => v,
                    None => 0,
                };
                proof {
                    vstd::arithmetic::div_mod::lemma_mod_bound(value as int, 128);
                    vstd::arithmetic::div_mod::lemma_mod_bound(msb_unwrapped as int, 256);
                    lemma_div_128_range(value);
                }
                channel_message(PITCH_BEND_CHANGE, self.channel, lsb as u8, msb as u8)
            },
        }
    }

    /// Returns the channel of a MIDI message.
    pub fn channel(&self) -> (r: u8)
        ensures
            r == self.channel_value(),
            r < 16,
    {
        proof {
            use_type_invariant(self);
        }
        self.channel
    }

    /// Returns the channel-agnostic part of a MIDI message.
    pub fn message_type(&self) -> (r: ChannelMessageType)
        ensures
            r == self.type_value(),
    {
        self.message_type
    }
}

proof fn lemma_div_128_range(value: i16)
    ensures
        -256 <= value as int / 128 <= 255,
{
    vstd::arithmetic::div_mod::lemma_fundamental_div_mod(value as int, 128);
    vstd::arithmetic::div_mod::lemma_mod_bound(value as int, 128);
}

fn channel_message(prefix: u8, channel: u8, payload1: u8, payload2: u8) -> (r: [u8; 3])
    requires
        prefix < 16,
        channel < 16,
    ensures
        r@ == seq![(prefix * 16 + channel) as u8, payload1, payload2],
{
    let status = (prefix << 4) | channel;
    assert(status == prefix * 16 + channel) by (bit_vector)
        requires
            prefix < 16,
            channel < 16,
            status == (prefix << 4) | channel,
    ;
    let r = [status, payload1, payload2];
    assert(r@ =~= seq![(prefix * 16 + channel) as u8, payload1, payload2]);
    r
}

impl ChannelMessageType {
    /// Creates a new [`ChannelMessage`] from `self` with the given `channel`.
    ///
    /// [`None`] is returned if the channel value is outside the range [0..16).
    pub fn in_channel(self, channel: u8) -> (r: Option<ChannelMessage>)
        ensures
            channel < 16 ==> (r matches Some(m) && m.channel_value() == channel && m.type_value()
                == self),
            channel >= 16 ==> r is None,
    {
        if channel < 16 {
            Some(ChannelMessage { channel, message_type: self })
        } else {
            None
        }
    }
}

/// Serializing a message and parsing it again gives back the message, provided that its data values
/// fit into data bytes (7 bits each, and the 14-bit range [-8192..8192) for a pitch bend).
pub proof fn lemma_raw_message_roundtrip(channel: u8, mt: ChannelMessageType)
    requires
        channel < 16,
        data_fits(mt),
    ensures
        parsed_message(raw_message_of(channel, mt)) == Some((channel, mt)),
{
    let bytes = raw_message_of(channel, mt);
    let status = status_of(mt);
    assert(bytes[0] % 16 == channel && bytes[0] / 16 == status) by {
        vstd::arithmetic::div_mod::lemma_fundamental_div_mod_converse(
            (status * 16 + channel) as int,
            16,
            status as int,
            channel as int,
        );
    }
    if let ChannelMessageType::PitchBendChange { value } = mt {
        let v = value as int;
        vstd::arithmetic::div_mod::lemma_fundamental_div_mod(v, 128);
        vstd::arithmetic::div_mod::lemma_mod_bound(v, 128);
        let q = v / 128;
        assert(-64 <= q < 64) by (nonlinear_arith)
            requires
                v == 128 * q + v % 128,
                0 <= v % 128 < 128,
                -8192 <= v < 8192,
        ;
        vstd::arithmetic::div_mod::lemma_small_mod((q + 64) as nat, 256);
    }
}

/// Parsing a three-byte message and serializing it again gives back the status byte, the data byte,
/// and the second data byte (or 0 where the message type has only one data byte). A pitch bend
/// needs a first data byte below 0x80, which serializing always writes.
pub proof fn lemma_parse_then_serialize(bytes: Seq<u8>)
    requires
        bytes.len() == 3,
        parsed_message(bytes) is Some,
        bytes[0] / 16 == PITCH_BEND_CHANGE ==> bytes[1] < 0x80,
    ensures
        ({
            let (channel, message_type) = parsed_message(bytes)->0;
            let action = bytes[0] / 16;
            raw_message_of(channel, message_type) == seq![
                bytes[0],
                bytes[1],
                if action == PROGRAM_CHANGE || action == CHANNEL_PRESSURE {
                    0u8
                } else {
                    bytes[2]
                },
            ]
        }),
{
    let (channel, message_type) = parsed_message(bytes)->0;
    let b0 = bytes[0] as int;
    vstd::arithmetic::div_mod::lemma_fundamental_div_mod(b0, 16);
    let raw = raw_message_of(channel, message_type);
    if let ChannelMessageType::PitchBendChange { value } = message_type {
        let v = value as int;
        let lsb = bytes[1] as int;
        let msb = bytes[2] as int;
        assert(v == lsb + msb * 128 - 8192);
        vstd::arithmetic::div_mod::lemma_fundamental_div_mod_converse(v, 128, msb - 64, lsb);
        vstd::arithmetic::div_mod::lemma_small_mod(msb as nat, 256);
    }
    assert(raw =~= seq![
        bytes[0],
        bytes[1],
        if bytes[0] / 16 == PROGRAM_CHANGE || bytes[0] / 16 == CHANNEL_PRESSURE {
            0u8
        } else {
            bytes[2]
        },
    ]);
}

} // verus!
