//! Routing between MIDI channels and keys for live retuning.
use vstd::prelude::*;
use std::collections::BTreeSet;
use crate::key::PianoKey;
use crate::midi::ChannelMessageType;
use crate::note::Note;
use crate::tuner::jit::{made_calls, note_on_calls};
use crate::tuner::{AccessKeyResult, IsErr, JitTuner, MidiTunerMessageHandler, RegisterKeyResult, SynthCall};
use crate::mts::ScaleOctaveTuningFormat;
use crate::tuner::midi::MidiTuning;
use crate::tuner::{MidiTarget, PoolingMode, TunableMidi};
use vstd::string::StringExecFns;

verus! {

/// MIDI channels that are listened to or sent to, described by the first channel and their number.
pub open spec fn channel_span(first_channel: u8, num_channels: u8) -> Seq<u8> {
    Seq::new(num_channels as nat, |i: int| ((first_channel + i) % 16) as u8)
}

/// A channel range was rejected.
#[derive(Clone, Copy, Debug, PartialEq, Eq, Structural)]
pub enum ChannelRangeError {
    /// The first channel is not in the range [0..16).
    FirstChannelOutOfRange,
    /// More than 16 channels were requested.
    TooManyChannels,
}

/// The channels `first_channel, first_channel + 1, ...`, wrapping around after channel 15.
pub fn get_channels(first_channel: u8, num_channels: u8) -> (r: Result<Vec<u8>, ChannelRangeError>)
    ensures
        first_channel >= 16 ==> r == Err::<Vec<u8>, ChannelRangeError>(
            ChannelRangeError::FirstChannelOutOfRange,
        ),
        first_channel < 16 && num_channels > 16 ==> r == Err::<Vec<u8>, ChannelRangeError>(
            ChannelRangeError::TooManyChannels,
        ),
        first_channel < 16 && num_channels <= 16 ==> (r matches Ok(channels) && channels@
            == channel_span(first_channel, num_channels)),
{
    if first_channel >= 16 {
        return Err(ChannelRangeError::FirstChannelOutOfRange);
    }
    if num_channels > 16 {
        return Err(ChannelRangeError::TooManyChannels);
    }
    let mut channels: Vec<u8> = Vec::new();
    let mut channel: u8 = 0;
    while channel < num_channels
        invariant
            first_channel < 16,
            channel <= num_channels <= 16,
            channels@ == channel_span(first_channel, channel),
        decreases num_channels - channel,
    {
        channels.push((first_channel + channel) % 16);
        channel = channel + 1;
        assert(channels@ =~= channel_span(first_channel, channel));
    }
    Ok(channels)
}

/// Where MIDI input comes from.
#[derive(Clone, Copy, Debug)]
pub struct MidiInArgs {
    /// First MIDI channel to listen to for MIDI events.
    pub in_channel: u8,
    /// Number of MIDI input channels to listen to; wraps around at channel 15.
    pub num_in_channels: u8,
    /// Offset in scale steps per channel number, for keyboards with more than 128 keys.
    pub lumatone_offset: i16,
}

impl MidiInArgs {
    /// The channels listened to, together with the offset per channel.
    pub fn get_midi_source(&self) -> (r: Result<MidiSource, ChannelRangeError>)
        ensures
            match get_channels_spec(self.in_channel, self.num_in_channels) {
                Ok(channels) => r matches Ok(source) && source.channels@ == channels.to_set()
                    && source.lumatone_offset == self.lumatone_offset,
                Err(error) => r == Err::<MidiSource, ChannelRangeError>(error),
            },
    {
        let channels = get_channels(self.in_channel, self.num_in_channels)?;
        let set = channel_set(&channels);
        Ok(MidiSource { channels: set, lumatone_offset: self.lumatone_offset })
    }
}

/// `u8` values are totally ordered as the ordered collections expect.
pub open spec fn u8_ordered() -> bool {
    vstd::laws_cmp::obeys_cmp::<u8>()
}

proof fn lemma_u8_ordered()
    ensures
        u8_ordered(),
{
    broadcast use vstd::laws_cmp::group_laws_cmp;

}

/// The set of the given channels.
fn channel_set(channels: &Vec<u8>) -> (r: BTreeSet<u8>)
    ensures
        r@ == channels@.to_set(),
{
    let mut set: BTreeSet<u8> = BTreeSet::new();
    let mut i: usize = 0;
    proof {
        lemma_u8_ordered();
        assert(channels@.take(0).to_set() =~= Set::empty());
    }
    while i < channels.len()
        invariant
            i <= channels@.len(),
            u8_ordered(),
            set@ == channels@.take(i as int).to_set(),
        decreases channels@.len() - i,
    {
        set.insert(channels[i]);
        proof {
            assert(channels@.take(i + 1) =~= channels@.take(i as int).push(channels@[i as int]));
            channels@.take(i as int).lemma_push_to_set_commute(channels@[i as int]);
        }
        i = i + 1;
    }
    assert(channels@.take(i as int) =~= channels@);
    set
}

/// The outcome of [`get_channels`].
pub open spec fn get_channels_spec(first_channel: u8, num_channels: u8) -> Result<Seq<u8>, ChannelRangeError> {
    if first_channel >= 16 {
        Err(ChannelRangeError::FirstChannelOutOfRange)
    } else if num_channels > 16 {
        Err(ChannelRangeError::TooManyChannels)
    } else {
        Ok(channel_span(first_channel, num_channels))
    }
}

/// The channels that MIDI input is received on.
#[derive(Debug)]
pub struct MidiSource {
    pub channels: BTreeSet<u8>,
    pub lumatone_offset: i16,
}

impl MidiSource {
    /// The key offset of a channel: the channel number times the offset per channel.
    pub fn get_offset(&self, channel: u8) -> (r: MultiChannelOffset)
        ensures
            r.offset_value() == channel * self.lumatone_offset,
    {
        assert(-0x80_0000 <= channel as i32 * self.lumatone_offset as i32 <= 0x80_0000) by (nonlinear_arith)
            requires
                0 <= channel <= u8::MAX,
                i16::MIN <= self.lumatone_offset <= i16::MAX,
        ;
        MultiChannelOffset { offset: channel as i32 * self.lumatone_offset as i32 }
    }
}

/// The number of keys by which the keys of a channel are shifted.
#[derive(Clone, Copy, Debug)]
pub struct MultiChannelOffset {
    offset: i32,
}

impl MultiChannelOffset {
    /// The offset in keys.
    pub closed spec fn offset_value(self) -> int {
        self.offset as int
    }

    /// The key that a MIDI number of the channel stands for.
    pub fn get_piano_key(&self, midi_number: u8) -> (r: PianoKey)
        requires
            i32::MIN <= midi_number + self.offset_value() <= i32::MAX,
        ensures
            r.midi() == midi_number + self.offset_value(),
            r == PianoKey::with_midi((midi_number + self.offset_value()) as i32),
    {
        PianoKey::from_midi_number(midi_number as i32 + self.offset)
    }
}

/// The ID of the device that should respond to MTS messages.
#[derive(Clone, Copy, Debug)]
pub struct DeviceIdArg {
    pub device_id: u8,
}

/// Where MIDI output goes to.
#[derive(Clone, Copy, Debug)]
pub struct MidiOutArgs {
    /// First MIDI channel to send the modified MIDI events to.
    pub out_channel: u8,
    /// Number of MIDI output channels that should be retuned; wraps around at channel 15.
    pub num_out_channels: u8,
    pub device_id: DeviceIdArg,
    /// First tuning program to be used to store the channel-specific tuning information; wraps
    /// around at tuning program 127.
    pub tuning_program: u8,
}

impl MidiOutArgs {
    /// The target that receives the retuned MIDI events on the output channels.
    pub fn get_midi_target<H>(&self, handler: H) -> (r: Result<MidiTarget<H>, ChannelRangeError>)
        ensures
            match get_channels_spec(self.out_channel, self.num_out_channels) {
                Ok(channels) => r matches Ok(target) && target.channels@ == channels
                    && target.handler == handler,
                Err(error) => r matches Err(e) && e == error,
            },
    {
        match get_channels(self.out_channel, self.num_out_channels) {
            Ok(channels) => Ok(MidiTarget { handler, channels }),
            Err(error) => Err(error),
        }
    }

    /// The synthesizer that retunes the target with the given method, using the device ID and
    /// the first tuning program of these arguments.
    pub fn create_synth<H>(&self, target: MidiTarget<H>, method: TuningMethod) -> (r: TunableMidi<H>)
        ensures
            r.channels() == target.channels@,
            r.tuning() == method_tuning(method, self.device_id.device_id, self.tuning_program),
            r.sent().len() == 0,
    {
        let device_id = self.device_id.device_id;
        match method {
            TuningMethod::FullKeyboard => TunableMidi::single_note_tuning_change(
                target,
                false,
                device_id,
                self.tuning_program,
            ),
            TuningMethod::FullKeyboardRt => TunableMidi::single_note_tuning_change(
                target,
                true,
                device_id,
                self.tuning_program,
            ),
            TuningMethod::Octave1 => TunableMidi::scale_octave_tuning(
                target,
                false,
                device_id,
                ScaleOctaveTuningFormat::OneByte,
            ),
            TuningMethod::Octave1Rt => TunableMidi::scale_octave_tuning(
                target,
                true,
                device_id,
                ScaleOctaveTuningFormat::OneByte,
            ),
            TuningMethod::Octave2 => TunableMidi::scale_octave_tuning(
                target,
                false,
                device_id,
                ScaleOctaveTuningFormat::TwoByte,
            ),
            TuningMethod::Octave2Rt => TunableMidi::scale_octave_tuning(
                target,
                true,
                device_id,
                ScaleOctaveTuningFormat::TwoByte,
            ),
            TuningMethod::ChannelFineTuning => TunableMidi::channel_fine_tuning(target),
            TuningMethod::PitchBend => TunableMidi::pitch_bend(target),
        }
    }
}

/// How a tuning method retunes: single note tuning changes (full keyboard), scale/octave tunings in
/// the 1-byte or 2-byte format, channel fine tuning or pitch bend; realtime where the method says
/// so.
pub open spec fn method_tuning(method: TuningMethod, device_id: u8, first_tuning_program: u8) -> MidiTuning {
    match method {
        TuningMethod::FullKeyboard => MidiTuning::SingleNoteTuningChange {
            device_id,
            realtime: false,
            first_tuning_program,
        },
        TuningMethod::FullKeyboardRt => MidiTuning::SingleNoteTuningChange {
            device_id,
            realtime: true,
            first_tuning_program,
        },
        TuningMethod::Octave1 => MidiTuning::ScaleOctaveTuning {
            device_id,
            realtime: false,
            format: ScaleOctaveTuningFormat::OneByte,
            octave_tunings: Map::empty(),
        },
        TuningMethod::Octave1Rt => MidiTuning::ScaleOctaveTuning {
            device_id,
            realtime: true,
            format: ScaleOctaveTuningFormat::OneByte,
            octave_tunings: Map::empty(),
        },
        TuningMethod::Octave2 => MidiTuning::ScaleOctaveTuning {
            device_id,
            realtime: false,
            format: ScaleOctaveTuningFormat::TwoByte,
            octave_tunings: Map::empty(),
        },
        TuningMethod::Octave2Rt => MidiTuning::ScaleOctaveTuning {
            device_id,
            realtime: true,
            format: ScaleOctaveTuningFormat::TwoByte,
            octave_tunings: Map::empty(),
        },
        TuningMethod::ChannelFineTuning => MidiTuning::ChannelFineTuning,
        TuningMethod::PitchBend => MidiTuning::PitchBend,
    }
}

/// Whether a tuning sends realtime messages: only the MIDI tuning standard messages carry the
/// flag.
pub open spec fn is_realtime(tuning: MidiTuning) -> bool {
    match tuning {
        MidiTuning::SingleNoteTuningChange { realtime, .. } => realtime,
        MidiTuning::ScaleOctaveTuning { realtime, .. } => realtime,
        _ => false,
    }
}

/// The tuning of `tuning` with its realtime flag set to `realtime`, where it has one.
pub open spec fn with_realtime(tuning: MidiTuning, realtime: bool) -> MidiTuning {
    match tuning {
        MidiTuning::SingleNoteTuningChange { device_id, first_tuning_program, .. } =>
            MidiTuning::SingleNoteTuningChange { device_id, realtime, first_tuning_program },
        MidiTuning::ScaleOctaveTuning { device_id, format, octave_tunings, .. } =>
            MidiTuning::ScaleOctaveTuning { device_id, realtime, format, octave_tunings },
        other => other,
    }
}

/// The realtime flag follows the `Rt` suffix of a method: exactly the `Rt` methods tune in
/// realtime, each `Rt` method tunes as its counterpart without the suffix but for that flag, and
/// the tuning carries the given device ID.
pub proof fn lemma_realtime_methods(method: TuningMethod, device_id: u8, first_tuning_program: u8)
    ensures
        is_realtime(method_tuning(method, device_id, first_tuning_program)) <==> (method
            == TuningMethod::FullKeyboardRt || method == TuningMethod::Octave1Rt || method
            == TuningMethod::Octave2Rt),
        method_tuning(TuningMethod::FullKeyboardRt, device_id, first_tuning_program) == with_realtime(
            method_tuning(TuningMethod::FullKeyboard, device_id, first_tuning_program),
            true,
        ),
        method_tuning(TuningMethod::Octave1Rt, device_id, first_tuning_program) == with_realtime(
            method_tuning(TuningMethod::Octave1, device_id, first_tuning_program),
            true,
        ),
        method_tuning(TuningMethod::Octave2Rt, device_id, first_tuning_program) == with_realtime(
            method_tuning(TuningMethod::Octave2, device_id, first_tuning_program),
            true,
        ),
        match method_tuning(method, device_id, first_tuning_program) {
            MidiTuning::SingleNoteTuningChange { device_id: d, first_tuning_program: p, .. } => d
                == device_id && p == first_tuning_program,
            MidiTuning::ScaleOctaveTuning { device_id: d, format, octave_tunings, .. } => d
                == device_id && octave_tunings.is_empty() && (format
                == ScaleOctaveTuningFormat::OneByte <==> (method == TuningMethod::Octave1 || method
                == TuningMethod::Octave1Rt)),
            _ => true,
        },
        (method == TuningMethod::FullKeyboard || method == TuningMethod::FullKeyboardRt)
            <==> method_tuning(method, device_id, first_tuning_program) is SingleNoteTuningChange,
        method == TuningMethod::ChannelFineTuning <==> method_tuning(
            method,
            device_id,
            first_tuning_program,
        ) is ChannelFineTuning,
        method == TuningMethod::PitchBend <==> method_tuning(method, device_id, first_tuning_program)
            is PitchBend,
        (method == TuningMethod::Octave1 || method == TuningMethod::Octave1Rt || method
            == TuningMethod::Octave2 || method == TuningMethod::Octave2Rt) <==> method_tuning(
            method,
            device_id,
            first_tuning_program,
        ) is ScaleOctaveTuning,
{
}

/// A scale/octave tuning sends, for each detuning on an addressable channel, one *Scale/Octave
/// Tuning* sysex whose header says what the tuning says: realtime (`0x7f`) or non-realtime
/// (`0x7e`), the device ID, and the 1-byte (`0x08`) or 2-byte (`0x09`) format; detuning keeps all
/// three. With [`lemma_realtime_methods`], a synthesizer created with an `Rt` scale/octave method
/// sends realtime sysex messages only, and one created without the suffix non-realtime ones only.
pub proof fn lemma_scale_octave_headers(
    tuning: MidiTuning,
    channel: usize,
    midi_channel: u8,
    notes: Seq<(Note, i32)>,
)
    ensures
        tuning matches MidiTuning::ScaleOctaveTuning { device_id, realtime, format, .. } ==> {
            let messages = tuning.detune_messages(channel, midi_channel, notes);
            &&& tuning.detuned(channel, notes) matches MidiTuning::ScaleOctaveTuning {
                device_id: d,
                realtime: rt,
                format: f,
                ..
            } && d == device_id && rt == realtime && f == format
            &&& midi_channel >= 16 ==> messages.len() == 0
            &&& midi_channel < 16 ==> {
                &&& messages.len() == 1
                &&& messages[0] matches crate::tuner::midi::MidiTunerMessageView::ScaleOctaveTuning {
                    sysex,
                } && sysex.len() >= 5 && sysex[0] == 0xf0 && sysex[1] == (if realtime {
                    0x7fu8
                } else {
                    0x7eu8
                }) && sysex[2] == device_id && sysex[3] == 0x08 && sysex[4] == (if format
                    == ScaleOctaveTuningFormat::OneByte {
                    0x08u8
                } else {
                    0x09u8
                })
            }
        },
{
}

/// The method that retunes a synthesizer.
#[derive(Copy, Clone, Debug, PartialEq, Eq, Structural)]
pub enum TuningMethod {
    FullKeyboard,
    FullKeyboardRt,
    Octave1,
    Octave1Rt,
    Octave2,
    Octave2Rt,
    ChannelFineTuning,
    PitchBend,
}

/// Connecting to a MIDI device failed.
#[derive(Clone, Debug)]
pub enum MidiError {
    DeviceNotFound { wanted: String, available: Vec<String> },
    AmbiguousDevice { wanted: String, matches: Vec<String> },
    Other(String),
}

/// The lowercase form of the characters `s`, as `str::to_lowercase` maps them.
pub uninterp spec fn lowercased(s: Seq<char>) -> Seq<char>;

/// Trusted: calls `str::to_lowercase`, whose documentation states that it returns the lowercase
/// equivalent of the string according to the Unicode `Lowercase` property; the contract names the
/// result as a function of the characters of `s` alone and states nothing else of it.
#[verifier::external_body]
fn to_lowercase(s: &str) -> (r: String)
    ensures
        r@ == lowercased(s@),
{
    s.to_lowercase()
}

/// The pooling mode named by `mode`, which parses exactly: `block`, `stop` or `ignore`.
pub open spec fn mitigation_spec(mode: Seq<char>) -> Result<PoolingMode, Seq<char>> {
    if mode == "block"@ {
        Ok(PoolingMode::Block)
    } else if mode == "stop"@ {
        Ok(PoolingMode::Stop)
    } else if mode == "ignore"@ {
        Ok(PoolingMode::Ignore)
    } else {
        Err("Invalid mode. Should be `block`, `stop` or `ignore`"@)
    }
}

/// Whether a parse result agrees with [`mitigation_spec`].
pub open spec fn mitigation_matches(r: Result<PoolingMode, &'static str>, spec: Result<PoolingMode, Seq<char>>) -> bool {
    match spec {
        Ok(mode) => r == Ok::<PoolingMode, &'static str>(mode),
        Err(message) => r matches Err(m) && m@ == message,
    }
}

/// The pooling mode named by an already lowercased `lowered`: `block`, `stop` or `ignore`.
pub fn mitigation_of(lowered: &str) -> (r: Result<PoolingMode, &'static str>)
    ensures
        mitigation_matches(r, mitigation_spec(lowered@)),
{
    proof {
        reveal_strlit("block");
        reveal_strlit("stop");
        reveal_strlit("ignore");
        assert("block"@ != "stop"@ && "block"@ != "ignore"@ && "stop"@ != "ignore"@) by {
            assert("block"@.len() == 5 && "stop"@.len() == 4 && "ignore"@.len() == 6);
        }
    }
    let lowered = String::from_str(lowered);
    if lowered == String::from_str("block") {
        Ok(PoolingMode::Block)
    } else if lowered == String::from_str("stop") {
        Ok(PoolingMode::Stop)
    } else if lowered == String::from_str("ignore") {
        Ok(PoolingMode::Ignore)
    } else {
        Err("Invalid mode. Should be `block`, `stop` or `ignore`")
    }
}

/// Parses how a full channel pool is handled, ignoring case: `block`, `stop` or `ignore`.
pub fn parse_mitigation(src: &str) -> (r: Result<PoolingMode, &'static str>)
    ensures
        mitigation_matches(r, mitigation_spec(lowercased(src@))),
{
    let lowered = to_lowercase(src);
    mitigation_of(lowered.as_str())
}

/// The key that a MIDI number received with `offset` stands for.
pub open spec fn offset_key(offset: MultiChannelOffset, midi_number: u8) -> PianoKey {
    PianoKey::with_midi((midi_number + offset.offset_value()) as i32)
}

/// The key and velocity of a message that stops a note: a note-off message, or a note-on message
/// with velocity 0.
pub open spec fn stops_note(message_type: ChannelMessageType) -> Option<(u8, u8)> {
    match message_type {
        ChannelMessageType::NoteOff { key, velocity } => Some((key, velocity)),
        ChannelMessageType::NoteOn { key, velocity } => if velocity == 0 {
            Some((key, velocity))
        } else {
            None
        },
        _ => None,
    }
}

/// Whether a message sets a channel-global attribute: a control change, program change, channel
/// pressure or pitch bend.
pub open spec fn is_global_attr(message_type: ChannelMessageType) -> bool {
    !(message_type is NoteOff || message_type is NoteOn || message_type is PolyphonicKeyPressure)
}

/// Passes a MIDI channel message received with `offset` on to a just-in-time tuner.
///
/// A note-off message, or a note-on message with velocity 0, stops the key's note. A note-on
/// message starts the note and detuning that `pitch_of` gives for the key, if it gives one. A
/// polyphonic key pressure sets the pressure of the key's note. Every other message goes to the
/// synthesizer as a channel-global attribute.
pub fn handle_jit_message<H: MidiTunerMessageHandler, F: Fn(PianoKey) -> Option<(Note, i32)>>(
    tuner: &mut JitTuner<PianoKey, TunableMidi<H>>,
    message_type: ChannelMessageType,
    offset: &MultiChannelOffset,
    pitch_of: &F,
)
    requires
        old(tuner).wf(),
        i32::MIN <= offset.offset_value(),
        offset.offset_value() + u8::MAX <= i32::MAX,
        forall|key: PianoKey| #[trigger] pitch_of.requires((key,)),
        forall|note: Note| #[trigger] old(tuner).model().can_register(note),
    ensures
        final(tuner).wf(),
        stops_note(message_type) matches Some((key, velocity)) ==> {
            let key = offset_key(*offset, key);
            &&& final(tuner).model() == old(tuner).model().deregistered(key)
            &&& final(tuner).calls() == match old(tuner).model().lookup(key) {
                AccessKeyResult::Found { channel, found_note } => old(tuner).calls().push(
                    SynthCall::NoteOff { channel, stopped_note: found_note, attr: velocity },
                ),
                AccessKeyResult::NotFound => old(tuner).calls(),
            }
        },
        message_type matches ChannelMessageType::NoteOn { key, velocity } ==> velocity != 0 ==> {
            let key = offset_key(*offset, key);
            exists|pitch: Option<(Note, i32)>|
                #[trigger] pitch_of.ensures((key,), pitch) && match pitch {
                    Some((note, detuning)) => {
                        let (model, answer) = old(tuner).model().registered(key, note);
                        &&& final(tuner).model() == model
                        &&& final(tuner).calls() == match answer {
                            RegisterKeyResult::Accepted { channel, stopped_note, started_note } => old(
                                tuner,
                            ).calls() + note_on_calls(
                                channel,
                                stopped_note,
                                started_note,
                                detuning,
                                velocity,
                                velocity,
                            ),
                            RegisterKeyResult::Rejected => old(tuner).calls(),
                        }
                    },
                    None => final(tuner).model() == old(tuner).model() && final(tuner).calls()
                        == old(tuner).calls(),
                }
        },
        message_type matches ChannelMessageType::PolyphonicKeyPressure { key, pressure } ==> {
            let key = offset_key(*offset, key);
            &&& final(tuner).model() == old(tuner).model()
            &&& final(tuner).calls() == match old(tuner).model().lookup(key) {
                AccessKeyResult::Found { channel, found_note } => old(tuner).calls().push(
                    SynthCall::NoteAttr { channel, affected_note: found_note, attr: pressure },
                ),
                AccessKeyResult::NotFound => old(tuner).calls(),
            }
        },
        is_global_attr(message_type) ==> final(tuner).model() == old(tuner).model()
            && final(tuner).calls() == old(tuner).calls().push(
            SynthCall::GlobalAttr { attr: message_type },
        ),
{
    match message_type {
        ChannelMessageType::NoteOff { key, velocity } => {
            let piano_key = offset.get_piano_key(key);
            tuner.note_off(piano_key, velocity);
        },
        ChannelMessageType::NoteOn { key, velocity } => {
            let piano_key = offset.get_piano_key(key);
            if velocity == 0 {
                tuner.note_off(piano_key, velocity);
            } else {
                let pitch = pitch_of(piano_key);
                assert(pitch_of.ensures((offset_key(*offset, key),), pitch));
                if let Some((note, detuning)) = pitch {
                    let ghost before = tuner.calls();
                    let ghost answer = tuner.model().registered(piano_key, note).1;
                    let r = tuner.note_on(piano_key, note, detuning, velocity);
                    proof {
                        if let RegisterKeyResult::Accepted { channel, stopped_note, started_note } =
                            answer {
                            let stop_attr = choose|stop_attr: u8|
                                #![trigger note_on_calls::<i32, u8, ChannelMessageType>(
                                    channel,
                                    stopped_note,
                                    started_note,
                                    detuning,
                                    stop_attr,
                                    velocity,
                                )]
                                (stopped_note is Some ==> cloned::<u8>(velocity, stop_attr))
                                    && made_calls(
                                    before,
                                    tuner.calls(),
                                    note_on_calls(
                                        channel,
                                        stopped_note,
                                        started_note,
                                        detuning,
                                        stop_attr,
                                        velocity,
                                    ),
                                    r.failed(),
                                );
                            let calls = note_on_calls::<i32, u8, ChannelMessageType>(
                                channel,
                                stopped_note,
                                started_note,
                                detuning,
                                velocity,
                                velocity,
                            );
                            assert(note_on_calls::<i32, u8, ChannelMessageType>(
                                channel,
                                stopped_note,
                                started_note,
                                detuning,
                                stop_attr,
                                velocity,
                            ) == calls);
                            assert(calls.take(calls.len() as int) == calls);
                        }
                    }
                }
            }
        },
        ChannelMessageType::PolyphonicKeyPressure { key, pressure } => {
            let piano_key = offset.get_piano_key(key);
            tuner.note_attr(piano_key, pressure);
        },
        _ => {
            tuner.global_attr(message_type);
        },
    }
}

} // verus!
