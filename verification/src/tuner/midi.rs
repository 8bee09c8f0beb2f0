//! Retuning MIDI synthesizers with the MIDI tuning standard, channel fine tuning or pitch bend.
//!
//! A detuning is given in steps of 1/16384 semitone, the finest resolution of the MIDI tuning
//! standard.
use std::collections::HashMap;
use std::collections::HashSet;
use vstd::prelude::*;

use crate::math;
use crate::midi::{raw_message_of, ChannelMessage, ChannelMessageType};
use crate::mts::{
    self, Channels, ScaleOctaveTuningFormat, ScaleOctaveTuningMessage, ScaleOctaveTuningOptions,
    SingleNoteTuningChange, SingleNoteTuningChangeMessage, SingleNoteTuningChangeOptions,
};
use crate::key::PianoKey;
use crate::note::Note;
use crate::tuner::{GroupBy, TunableSynth};

verus! {

broadcast use vstd::std_specs::hash::group_hash_axioms;

/// What a [`MidiTunerMessage`] carries.
pub enum MidiTunerMessageView {
    Channel { channel: u8, message_type: ChannelMessageType },
    ScaleOctaveTuning { sysex: Seq<u8> },
    SingleNoteTuningChange { sysex_calls: Seq<Seq<u8>> },
}

impl MidiTunerMessageView {
    /// The byte sequences that the message sends, in order.
    pub open spec fn bytes(self) -> Seq<Seq<u8>> {
        match self {
            MidiTunerMessageView::Channel { channel, message_type } => seq![
                raw_message_of(channel, message_type),
            ],
            MidiTunerMessageView::ScaleOctaveTuning { sysex } => seq![sysex],
            MidiTunerMessageView::SingleNoteTuningChange { sysex_calls } => sysex_calls,
        }
    }
}

enum MidiTunerMessageVariant {
    Channel(ChannelMessage),
    ScaleOctaveTuning(ScaleOctaveTuningMessage),
    SingleNoteTuningChange(SingleNoteTuningChangeMessage),
}

/// A message that a [`TunableMidi`] hands to its [`MidiTunerMessageHandler`].
pub struct MidiTunerMessage {
    variant: MidiTunerMessageVariant,
}

impl View for MidiTunerMessage {
    type V = MidiTunerMessageView;

    closed spec fn view(&self) -> MidiTunerMessageView {
        match self.variant {
            MidiTunerMessageVariant::Channel(message) => MidiTunerMessageView::Channel {
                channel: message.channel_value(),
                message_type: message.type_value(),
            },
            MidiTunerMessageVariant::ScaleOctaveTuning(message) => {
                MidiTunerMessageView::ScaleOctaveTuning { sysex: message.bytes() }
            },
            MidiTunerMessageVariant::SingleNoteTuningChange(message) => {
                MidiTunerMessageView::SingleNoteTuningChange { sysex_calls: message.calls() }
            },
        }
    }
}

impl MidiTunerMessage {
    fn channel(message: ChannelMessage) -> (r: Self)
        ensures
            r@ == (MidiTunerMessageView::Channel {
                channel: message.channel_value(),
                message_type: message.type_value(),
            }),
    {
        Self { variant: MidiTunerMessageVariant::Channel(message) }
    }

    /// The byte sequences to send for this message, in order: the raw channel message, the
    /// scale/octave sysex message, or the sysex messages of a single note tuning change.
    pub fn to_bytes(&self) -> (r: Vec<Vec<u8>>)
        ensures
            r@.map_values(|bytes: Vec<u8>| bytes@) == self@.bytes(),
    {
        let mut result: Vec<Vec<u8>> = Vec::new();
        match &self.variant {
            MidiTunerMessageVariant::Channel(message) => {
                let raw = message.to_raw_message();
                let mut bytes: Vec<u8> = Vec::new();
                bytes.push(raw[0]);
                bytes.push(raw[1]);
                bytes.push(raw[2]);
                assert(bytes@ =~= raw@);
                result.push(bytes);
            },
            MidiTunerMessageVariant::ScaleOctaveTuning(message) => {
                let sysex = message.sysex_bytes();
                result.push(copy_bytes(sysex));
            },
            MidiTunerMessageVariant::SingleNoteTuningChange(message) => {
                let calls = message.sysex_bytes();
                let mut i: usize = 0;
                while i < calls.len()
                    invariant
                        i <= calls@.len(),
                        result@.len() == i,
                        forall|j: int| 0 <= j < i ==> #[trigger] result@[j]@ == calls@[j]@,
                        result@.map_values(|bytes: Vec<u8>| bytes@) == calls@.take(i as int).map_values(
                            |call: Vec<u8>| call@,
                        ),
                    decreases calls@.len() - i,
                {
                    let call = copy_bytes(calls[i].as_slice());
                    assert(call@ == calls@[i as int]@);
                    let ghost before = result@;
                    result.push(call);
                    i = i + 1;
                    assert forall|j: int| 0 <= j < i implies #[trigger] result@[j]@ == calls@[j]@ by {
                        if j < i - 1 {
                            assert(result@[j] == before[j]);
                        }
                    }
                    assert(result@.map_values(|bytes: Vec<u8>| bytes@) =~= calls@.take(
                        i as int,
                    ).map_values(|call: Vec<u8>| call@));
                }
                assert(calls@.take(i as int) =~= calls@);
            },
        }
        proof {
            assert(result@.map_values(|bytes: Vec<u8>| bytes@) =~= self@.bytes());
        }
        result
    }
}

/// A copy of `bytes`.
fn copy_bytes(bytes: &[u8]) -> (r: Vec<u8>)
    ensures
        r@ == bytes@,
{
    let mut copy: Vec<u8> = Vec::new();
    let mut i: usize = 0;
    while i < bytes.len()
        invariant
            i <= bytes@.len(),
            copy@ == bytes@.take(i as int),
        decreases bytes@.len() - i,
    {
        copy.push(bytes[i]);
        i = i + 1;
        assert(copy@ =~= bytes@.take(i as int));
    }
    assert(bytes@.take(i as int) =~= bytes@);
    copy
}

/// Receives the messages of a [`TunableMidi`].
pub trait MidiTunerMessageHandler: Sized {
    fn handle(&mut self, message: MidiTunerMessage);

    /// Handles a channel message of the given type, if the channel lies in the range [0..16): the
    /// handler's [`MidiTunerMessageHandler::handle`] receives the message on that channel, and its
    /// outcome is the outcome of this call. Any other channel leaves the handler unchanged.
    fn handle_channel_message(&mut self, message_type: ChannelMessageType, channel: u8)
        ensures
            channel < 16 ==> exists|handler: &mut Self, message: MidiTunerMessage|
                #[trigger] call_ensures(Self::handle, (handler, message), ()) && *handler == *old(self)
                    && *final(handler) == *final(self) && message@ == (MidiTunerMessageView::Channel {
                    channel,
                    message_type,
                }),
            channel >= 16 ==> *final(self) == *old(self),
    {
        if let Some(message) = message_type.in_channel(channel) {
            self.handle(MidiTunerMessage::channel(message));
        }
    }
}

/// The MIDI channels that the channels of a tuner are sent to.
pub struct MidiTarget<H> {
    pub handler: H,
    pub channels: Vec<u8>,
}

impl<H> MidiTarget<H> {
    /// The MIDI channel of a tuner channel.
    pub fn midi_channel(&self, tuner_channel: usize) -> (r: u8)
        requires
            tuner_channel < self.channels@.len(),
        ensures
            r == self.channels@[tuner_channel as int],
    {
        self.channels[tuner_channel]
    }

    /// The tuning program of a tuner channel: counted from the first one, wrapping around at 128.
    pub fn tuning_program(&self, tuner_channel: usize, first_tuning_program: u8) -> (r: u8)
        ensures
            r == (tuner_channel + first_tuning_program) % 128,
    {
        tuning_program_of(tuner_channel, first_tuning_program)
    }
}

/// The integer nearest to `n / m`, halves rounded away from zero (`m` positive).
pub open spec fn round_div(n: int, m: int) -> int {
    if n >= 0 {
        (n + m / 2) / m
    } else {
        -((-n + m / 2) / m)
    }
}

/// `v` limited to `[min, max]`.
pub open spec fn clamped(v: int, min: int, max: int) -> int {
    if v < min {
        min
    } else if v > max {
        max
    } else {
        v
    }
}

/// The pitch value of a detuning in a *Scale/Octave Tuning* message: `cents + 64` rounded in the
/// 1-byte format, `(semitones + 1) * 8192` rounded in the 2-byte format, both limited to the range
/// of the format.
pub open spec fn octave_value(format: ScaleOctaveTuningFormat, detuning: int) -> int {
    match format {
        ScaleOctaveTuningFormat::OneByte => clamped(
            round_div(100 * detuning + 64 * 16384, 16384),
            0,
            127,
        ),
        ScaleOctaveTuningFormat::TwoByte => clamped(round_div(detuning + 16384, 2), 0, 16383),
    }
}

/// The channel fine tuning value of a detuning: `(semitones + 1) * 8192` rounded towards zero,
/// limited to 14 bits.
pub open spec fn fine_tuning_value(detuning: int) -> int {
    if detuning + 16384 < 0 {
        0
    } else {
        clamped((detuning + 16384) / 2, 0, 16383)
    }
}

/// The pitch bend value of a detuning: `semitones / 2 * 8192` rounded towards zero, limited to
/// `[-8192, 8192]`.
pub open spec fn pitch_bend_value(detuning: int) -> int {
    let quarter = if detuning >= 0 {
        detuning / 4
    } else {
        -((-detuning) / 4)
    };
    clamped(quarter, -8192, 8192)
}

fn encode_octave_value(format: ScaleOctaveTuningFormat, detuning: i32) -> (r: u16)
    ensures
        r == octave_value(format, detuning as int),
        r <= mts::max_pitch_value(format),
{
    let (n, m, max): (i64, i64, i64) = match format {
        ScaleOctaveTuningFormat::OneByte => (100 * detuning as i64 + 64 * 16384, 16384, 127),
        ScaleOctaveTuningFormat::TwoByte => (detuning as i64 + 16384, 2, 16383),
    };
    let rounded = if n >= 0 {
        (n + m / 2) / m
    } else {
        -((-n + m / 2) / m)
    };
    if rounded < 0 {
        0
    } else if rounded > max {
        max as u16
    } else {
        rounded as u16
    }
}

fn encode_fine_tuning(detuning: i32) -> (r: u16)
    ensures
        r == fine_tuning_value(detuning as int),
        r < 16384,
{
    let shifted = detuning as i64 + 16384;
    if shifted < 0 {
        0
    } else if shifted / 2 > 16383 {
        16383
    } else {
        (shifted / 2) as u16
    }
}

fn encode_pitch_bend(detuning: i32) -> (r: i16)
    ensures
        r == pitch_bend_value(detuning as int),
{
    let quarter = detuning / 4;
    assert(quarter == if detuning >= 0 {
        detuning / 4
    } else {
        -((-detuning) / 4)
    });
    if quarter < -8192 {
        -8192
    } else if quarter > 8192 {
        8192
    } else {
        quarter as i16
    }
}

/// How a [`TunableMidi`] retunes notes.
pub enum MidiTuning {
    /// A *Single Note Tuning Change* message per detuning, to a tuning program of each channel
    /// counted from the first one.
    SingleNoteTuningChange { device_id: u8, realtime: bool, first_tuning_program: u8 },
    /// A *Scale/Octave Tuning* message per detuning; the detunings of the twelve pitch classes of
    /// each channel are kept.
    ScaleOctaveTuning {
        device_id: u8,
        realtime: bool,
        format: ScaleOctaveTuningFormat,
        octave_tunings: Map<usize, Seq<i32>>,
    },
    /// Channel fine tuning messages.
    ChannelFineTuning,
    /// Pitch bend messages.
    PitchBend,
}

impl MidiTuning {
    /// How tuning changes affect the notes of a channel.
    pub open spec fn grouping(self) -> GroupBy {
        match self {
            MidiTuning::SingleNoteTuningChange { .. } => GroupBy::Note,
            MidiTuning::ScaleOctaveTuning { .. } => GroupBy::NoteLetter,
            _ => GroupBy::Channel,
        }
    }

    /// Whether pitch bend messages pass through: not when the pitch bend carries the tuning.
    pub open spec fn allows_pitch_bend(self) -> bool {
        !(self is PitchBend)
    }
}

/// A control change message on `channel`.
pub open spec fn control_change(channel: u8, controller: u8, value: u8) -> MidiTunerMessageView {
    MidiTunerMessageView::Channel {
        channel,
        message_type: ChannelMessageType::ControlChange { controller, value },
    }
}

/// The message of `message_type` on `midi_channel`, none if the channel lies outside [0..16).
pub open spec fn on_channel(midi_channel: u8, message_type: ChannelMessageType) -> Seq<
    MidiTunerMessageView,
> {
    if midi_channel < 16 {
        seq![MidiTunerMessageView::Channel { channel: midi_channel, message_type }]
    } else {
        Seq::empty()
    }
}

/// The tuning program change messages of `midi_channel`, none if it lies outside [0..16).
pub open spec fn tuning_program_messages(midi_channel: u8, tuning_program: u8) -> Seq<
    MidiTunerMessageView,
> {
    if midi_channel < 16 {
        seq![
            control_change(midi_channel, 0x65, 0x00),
            control_change(midi_channel, 0x64, 0x03),
            control_change(midi_channel, 0x06, tuning_program),
        ]
    } else {
        Seq::empty()
    }
}

/// The single note tuning change of a note and its detuning: the key of the note is retuned to
/// the note below the target pitch, detuned upwards.
pub open spec fn retuning(note: Note, detuning: int) -> SingleNoteTuningChange {
    SingleNoteTuningChange {
        key: PianoKey::with_midi(note.midi() as i32),
        target_note: Note::with_midi(
            clamped(note.midi() + detuning / 16384, i32::MIN as int, i32::MAX as int) as i32,
        ),
        detune: (detuning % 16384) as i32,
    }
}

/// The single note tuning changes of detuned notes.
pub open spec fn retunings(notes: Seq<(Note, i32)>) -> Seq<SingleNoteTuningChange> {
    notes.map_values(|entry: (Note, i32)| retuning(entry.0, entry.1 as int))
}

/// The options of the single note tuning change message of a tuning program.
pub open spec fn single_note_options(realtime: bool, device_id: u8, tuning_program: u8) -> SingleNoteTuningChangeOptions {
    SingleNoteTuningChangeOptions { realtime, device_id, tuning_program, with_bank_select: None }
}

/// The detunings of the twelve pitch classes after detuning `notes`, in order.
pub open spec fn retuned_octave(octave: Seq<i32>, notes: Seq<(Note, i32)>) -> Seq<i32>
    decreases notes.len(),
{
    if notes.len() == 0 {
        octave
    } else {
        retuned_octave(octave, notes.drop_last()).update(notes.last().0.midi() % 12, notes.last().1)
    }
}

/// The detunings of the twelve pitch classes of a channel: all zero before the first detuning.
pub open spec fn octave_of(octave_tunings: Map<usize, Seq<i32>>, channel: usize) -> Seq<i32> {
    if octave_tunings.dom().contains(channel) {
        octave_tunings[channel]
    } else {
        Seq::new(12, |_i: int| 0i32)
    }
}

/// The channel fine tuning messages of one detuning.
pub open spec fn fine_tuning_of(midi_channel: u8, detuning: int) -> Seq<MidiTunerMessageView> {
    let value = fine_tuning_value(detuning);
    if midi_channel < 16 {
        seq![
            control_change(midi_channel, 0x65, 0x00),
            control_change(midi_channel, 0x64, 0x01),
            control_change(midi_channel, 0x06, (value / 128) as u8),
            control_change(midi_channel, 0x26, (value % 128) as u8),
        ]
    } else {
        Seq::empty()
    }
}

/// The channel fine tuning messages of the detunings, in order.
pub open spec fn fine_tuning_messages(midi_channel: u8, notes: Seq<(Note, i32)>) -> Seq<
    MidiTunerMessageView,
>
    decreases notes.len(),
{
    if notes.len() == 0 {
        Seq::empty()
    } else {
        fine_tuning_messages(midi_channel, notes.drop_last()) + fine_tuning_of(
            midi_channel,
            notes.last().1 as int,
        )
    }
}

/// The pitch bend messages of the detunings, in order.
pub open spec fn pitch_bend_messages(midi_channel: u8, notes: Seq<(Note, i32)>) -> Seq<
    MidiTunerMessageView,
>
    decreases notes.len(),
{
    if notes.len() == 0 {
        Seq::empty()
    } else {
        pitch_bend_messages(midi_channel, notes.drop_last()) + on_channel(
            midi_channel,
            ChannelMessageType::PitchBendChange {
                value: pitch_bend_value(notes.last().1 as int) as i16,
            },
        )
    }
}

impl MidiTuning {
    /// The messages that detune `notes` on the tuner channel `channel`, whose MIDI channel is
    /// `midi_channel`.
    pub open spec fn detune_messages(self, channel: usize, midi_channel: u8, notes: Seq<(Note, i32)>) -> Seq<
        MidiTunerMessageView,
    > {
        match self {
            MidiTuning::SingleNoteTuningChange { device_id, realtime, first_tuning_program } => {
                let tuning_program = ((channel + first_tuning_program) % 128) as u8;
                let options = single_note_options(realtime, device_id, tuning_program);
                let changes = retunings(notes);
                tuning_program_messages(midi_channel, tuning_program) + if mts::options_error(
                    options,
                ) is None && mts::num_retunable(changes) <= 128 {
                    seq![
                        MidiTunerMessageView::SingleNoteTuningChange {
                            sysex_calls: mts::single_note_sysex_calls(
                                options,
                                mts::tuning_list(changes),
                            ),
                        },
                    ]
                } else {
                    Seq::empty()
                }
            },
            MidiTuning::ScaleOctaveTuning { device_id, realtime, format, octave_tunings } => {
                let octave = retuned_octave(octave_of(octave_tunings, channel), notes);
                if midi_channel < 16 {
                    seq![
                        MidiTunerMessageView::ScaleOctaveTuning {
                            sysex: mts::scale_octave_bytes(
                                realtime,
                                device_id,
                                Some(set![midi_channel]),
                                format,
                                octave.map_values(|d: i32| octave_value(format, d as int) as u16),
                            ),
                        },
                    ]
                } else {
                    Seq::empty()
                }
            },
            MidiTuning::ChannelFineTuning => fine_tuning_messages(midi_channel, notes),
            MidiTuning::PitchBend => pitch_bend_messages(midi_channel, notes),
        }
    }

    /// The tuning after detuning `notes` on the tuner channel `channel`: a scale/octave tuning
    /// keeps the detunings of the channel's pitch classes.
    pub open spec fn detuned(self, channel: usize, notes: Seq<(Note, i32)>) -> MidiTuning {
        match self {
            MidiTuning::ScaleOctaveTuning { device_id, realtime, format, octave_tunings } => {
                MidiTuning::ScaleOctaveTuning {
                    device_id,
                    realtime,
                    format,
                    octave_tunings: octave_tunings.insert(
                        channel,
                        retuned_octave(octave_of(octave_tunings, channel), notes),
                    ),
                }
            },
            _ => self,
        }
    }
}

enum MidiTuningCreator {
    SingleNoteTuningChange { device_id: u8, realtime: bool, first_tuning_program: u8 },
    ScaleOctaveTuning {
        device_id: u8,
        realtime: bool,
        format: ScaleOctaveTuningFormat,
        octave_tunings: HashMap<usize, [i32; 12]>,
    },
    ChannelFineTuning,
    PitchBend,
}

impl View for MidiTuningCreator {
    type V = MidiTuning;

    closed spec fn view(&self) -> MidiTuning {
        match self {
            MidiTuningCreator::SingleNoteTuningChange {
                device_id,
                realtime,
                first_tuning_program,
            } => MidiTuning::SingleNoteTuningChange {
                device_id: *device_id,
                realtime: *realtime,
                first_tuning_program: *first_tuning_program,
            },
            MidiTuningCreator::ScaleOctaveTuning { device_id, realtime, format, octave_tunings } => {
                MidiTuning::ScaleOctaveTuning {
                    device_id: *device_id,
                    realtime: *realtime,
                    format: *format,
                    octave_tunings: octave_tunings@.map_values(|octave: [i32; 12]| octave@),
                }
            },
            MidiTuningCreator::ChannelFineTuning => MidiTuning::ChannelFineTuning,
            MidiTuningCreator::PitchBend => MidiTuning::PitchBend,
        }
    }
}

/// The views of `messages`.
pub open spec fn views(messages: Seq<MidiTunerMessage>) -> Seq<MidiTunerMessageView> {
    messages.map_values(|message: MidiTunerMessage| message@)
}

/// Appends the message of `message_type` on `midi_channel`, if the channel lies in [0..16).
fn push_on_channel(messages: &mut Vec<MidiTunerMessage>, midi_channel: u8, message_type: ChannelMessageType)
    ensures
        views(final(messages)@) == views(old(messages)@) + on_channel(midi_channel, message_type),
{
    if let Some(message) = message_type.in_channel(midi_channel) {
        messages.push(MidiTunerMessage::channel(message));
    }
    assert(views(messages@) =~= views(old(messages)@) + on_channel(midi_channel, message_type));
}

/// The message that carries a channel message.
pub open spec fn channel_view(message: ChannelMessage) -> MidiTunerMessageView {
    MidiTunerMessageView::Channel { channel: message.channel_value(), message_type: message.type_value() }
}

/// Appends the channel messages.
fn push_channel_messages(messages: &mut Vec<MidiTunerMessage>, channel_messages: &[ChannelMessage])
    ensures
        views(final(messages)@) == views(old(messages)@) + channel_messages@.map_values(
            |message: ChannelMessage| channel_view(message),
        ),
{
    let ghost start = views(messages@);
    let ghost start_len = messages@.len();
    let mut i: usize = 0;
    while i < channel_messages.len()
        invariant
            i <= channel_messages@.len(),
            start == views(old(messages)@),
            start_len == start.len(),
            messages@.len() == start_len + i,
            forall|j: int| 0 <= j < start_len ==> #[trigger] messages@[j]@ == start[j],
            forall|j: int|
                0 <= j < i ==> #[trigger] messages@[start_len + j]@ == channel_view(channel_messages@[j]),
        decreases channel_messages@.len() - i,
    {
        let ghost before = messages@;
        messages.push(MidiTunerMessage::channel(channel_messages[i]));
        assert forall|j: int| 0 <= j < start_len implies #[trigger] messages@[j]@ == start[j] by {
            assert(messages@[j] == before[j]);
        }
        assert forall|j: int| 0 <= j < i + 1 implies #[trigger] messages@[start_len + j]@ == channel_view(channel_messages@[j]) by {
            if j < i {
                assert(messages@[start_len + j] == before[start_len + j]);
            }
        }
        i = i + 1;
    }
    let ghost mapped = channel_messages@.map_values(|message: ChannelMessage| channel_view(message));
    assert forall|k: int| 0 <= k < messages@.len() implies #[trigger] views(messages@)[k] == (start
        + mapped)[k] by {
        if k >= start_len {
            let j = k - start_len;
            assert(messages@[start_len + j]@ == channel_view(channel_messages@[j]));
        }
    }
    assert(views(messages@) =~= start + mapped);
}

/// The tuning program of a tuner channel: counted from the first one, wrapping around at 128.
fn tuning_program_of(tuner_channel: usize, first_tuning_program: u8) -> (r: u8)
    ensures
        r == (tuner_channel + first_tuning_program) % 128,
{
    proof {
        vstd::arithmetic::div_mod::lemma_add_mod_noop(
            tuner_channel as int,
            first_tuning_program as int,
            128,
        );
    }
    ((tuner_channel % 128) as u8 + first_tuning_program % 128) % 128
}

/// The single note tuning change of a note and its detuning (see [`retuning`]).
fn retuning_of(note: Note, detuning: i32) -> (r: SingleNoteTuningChange)
    ensures
        r == retuning(note, detuning as int),
{
    let (steps, rest) = math::i32_dr_u(detuning, 16384u32);
    let target = note.midi_number() as i64 + steps as i64;
    let target = if target < i32::MIN as i64 {
        i32::MIN
    } else if target > i32::MAX as i64 {
        i32::MAX
    } else {
        target as i32
    };
    let key = note.as_piano_key();
    proof {
        PianoKey::lemma_with_midi(note.midi() as i32);
        crate::key::lemma_piano_key_ext(key, PianoKey::with_midi(note.midi() as i32));
    }
    SingleNoteTuningChange { key, target_note: Note::from_midi_number(target), detune: rest as i32 }
}

/// The messages that detune notes with single note tuning changes (see
/// [`MidiTuning::detune_messages`]).
fn single_note_messages(
    device_id: u8,
    realtime: bool,
    first_tuning_program: u8,
    tuner_channel: usize,
    midi_channel: u8,
    detuned_notes: &[(Note, i32)],
) -> (r: Vec<MidiTunerMessage>)
    ensures
        views(r@) == (MidiTuning::SingleNoteTuningChange {
            device_id,
            realtime,
            first_tuning_program,
        }).detune_messages(tuner_channel, midi_channel, detuned_notes@),
{
    let mut messages: Vec<MidiTunerMessage> = Vec::new();
    assert(views(messages@) =~= Seq::<MidiTunerMessageView>::empty());
    let tuning_program = tuning_program_of(tuner_channel, first_tuning_program);
    if let Some(rpn) = mts::tuning_program_change(midi_channel, tuning_program) {
        push_channel_messages(&mut messages, &rpn);
        assert(rpn@.map_values(|message: ChannelMessage| channel_view(message))
            =~= tuning_program_messages(midi_channel, tuning_program));
    }
    assert(views(messages@) =~= tuning_program_messages(midi_channel, tuning_program));
    let options = SingleNoteTuningChangeOptions {
        realtime: realtime,
        device_id: device_id,
        tuning_program,
        with_bank_select: None,
    };
    let mut changes: Vec<SingleNoteTuningChange> = Vec::new();
    let mut i: usize = 0;
    while i < detuned_notes.len()
        invariant
            i <= detuned_notes@.len(),
            changes@ == retunings(detuned_notes@.take(i as int)),
        decreases detuned_notes@.len() - i,
    {
        let (note, detuning) = detuned_notes[i];
        changes.push(retuning_of(note, detuning));
        i = i + 1;
        assert(changes@ =~= retunings(detuned_notes@.take(i as int)));
    }
    assert(detuned_notes@.take(i as int) =~= detuned_notes@);
    assert(options == single_note_options(realtime, device_id, tuning_program));
    proof {
        assert forall|k: int| 0 <= k < changes@.len() implies -mts::U14_UPPER_BOUND
            <= #[trigger] changes@[k].detune < mts::U14_UPPER_BOUND by {
            vstd::arithmetic::div_mod::lemma_mod_bound(detuned_notes@[k].1 as int, 16384);
        }
    }
    match SingleNoteTuningChangeMessage::from_tuning_changes(&options, &changes) {
        Ok(message) => {
            let ghost before = messages@;
            messages.push(
                MidiTunerMessage {
                    variant: MidiTunerMessageVariant::SingleNoteTuningChange(message),
                },
            );
            assert(views(messages@) =~= views(before).push(messages@.last()@));
        },
        Err(_) => {},
    }
    messages
}

/// Keeps the detunings of the pitch classes of a channel and creates the scale/octave tuning
/// message of the channel (see [`MidiTuning::detune_messages`]).
fn scale_octave_messages(
    device_id: u8,
    realtime: bool,
    format: ScaleOctaveTuningFormat,
    octave_tunings: &mut HashMap<usize, [i32; 12]>,
    tuner_channel: usize,
    midi_channel: u8,
    detuned_notes: &[(Note, i32)],
) -> (r: Vec<MidiTunerMessage>)
    ensures
        views(r@) == (MidiTuning::ScaleOctaveTuning {
            device_id,
            realtime,
            format,
            octave_tunings: old(octave_tunings)@.map_values(|octave: [i32; 12]| octave@),
        }).detune_messages(tuner_channel, midi_channel, detuned_notes@),
        (MidiTuning::ScaleOctaveTuning {
            device_id,
            realtime,
            format,
            octave_tunings: final(octave_tunings)@.map_values(|octave: [i32; 12]| octave@),
        }) == (MidiTuning::ScaleOctaveTuning {
            device_id,
            realtime,
            format,
            octave_tunings: old(octave_tunings)@.map_values(|octave: [i32; 12]| octave@),
        }).detuned(tuner_channel, detuned_notes@),
{
    let mut messages: Vec<MidiTunerMessage> = Vec::new();
    assert(views(messages@) =~= Seq::<MidiTunerMessageView>::empty());
    let ghost tunings = octave_tunings@;
    let mut octave: [i32; 12] = match octave_tunings.get(&tuner_channel) {
        Some(octave) => *octave,
        None => {
            let zeros = [0i32; 12];
            assert(zeros@ =~= Seq::new(12, |_i: int| 0i32));
            zeros
        },
    };
    assert(octave@ == octave_of(
        tunings.map_values(|octave: [i32; 12]| octave@),
        tuner_channel,
    ));
    let ghost start = octave@;
    let mut i: usize = 0;
    while i < detuned_notes.len()
        invariant
            i <= detuned_notes@.len(),
            start.len() == 12,
            octave@ == retuned_octave(start, detuned_notes@.take(i as int)),
        decreases detuned_notes@.len() - i,
    {
        let (note, detuning) = detuned_notes[i];
        let pitch_class = math::i32_rem_u(note.midi_number(), 12u32) as usize;
        octave[pitch_class] = detuning;
        proof {
            lemma_retuned_octave_len(start, detuned_notes@.take(i as int));
            assert(detuned_notes@.take(i + 1).drop_last() =~= detuned_notes@.take(i as int));
        }
        i = i + 1;
        assert(octave@ =~= retuned_octave(start, detuned_notes@.take(i as int)));
    }
    assert(detuned_notes@.take(i as int) =~= detuned_notes@);
    octave_tunings.insert(tuner_channel, octave);
    let values = [
        encode_octave_value(format, octave[0]),
        encode_octave_value(format, octave[1]),
        encode_octave_value(format, octave[2]),
        encode_octave_value(format, octave[3]),
        encode_octave_value(format, octave[4]),
        encode_octave_value(format, octave[5]),
        encode_octave_value(format, octave[6]),
        encode_octave_value(format, octave[7]),
        encode_octave_value(format, octave[8]),
        encode_octave_value(format, octave[9]),
        encode_octave_value(format, octave[10]),
        encode_octave_value(format, octave[11]),
    ];
    assert(values@ =~= octave@.map_values(|d: i32| octave_value(format, d as int) as u16));
    let mut channels: HashSet<u8> = HashSet::new();
    channels.insert(midi_channel);
    assert(channels@ =~= set![midi_channel]);
    let options = ScaleOctaveTuningOptions {
        realtime: realtime,
        device_id: device_id,
        channels: Channels::Selected(channels),
        format: format,
    };
    proof {
        if midi_channel >= 16 {
            assert(set![midi_channel].contains(midi_channel));
        }
        if midi_channel < 16 {
            assert(!mts::channels_out_of_range(Some(set![midi_channel])));
        }
    }
    match ScaleOctaveTuningMessage::from_pitch_values(&options, values) {
        Ok(message) => {
            let ghost before = messages@;
            messages.push(
                MidiTunerMessage {
                    variant: MidiTunerMessageVariant::ScaleOctaveTuning(message),
                },
            );
            assert(views(messages@) =~= views(before).push(messages@.last()@));
        },
        Err(_) => {},
    }
    proof {
        assert(octave_tunings@.map_values(|octave: [i32; 12]| octave@) =~= tunings.map_values(
            |octave: [i32; 12]| octave@,
        ).insert(tuner_channel, octave@));
    }
    messages
}

/// The channel fine tuning messages of the detunings (see [`fine_tuning_messages`]).
fn fine_tuning_messages_of(midi_channel: u8, detuned_notes: &[(Note, i32)]) -> (r: Vec<MidiTunerMessage>)
    ensures
        views(r@) == fine_tuning_messages(midi_channel, detuned_notes@),
{
    let mut messages: Vec<MidiTunerMessage> = Vec::new();
    assert(views(messages@) =~= Seq::<MidiTunerMessageView>::empty());
    let mut i: usize = 0;
    while i < detuned_notes.len()
        invariant
            i <= detuned_notes@.len(),
            views(messages@) == fine_tuning_messages(
                midi_channel,
                detuned_notes@.take(i as int),
            ),
        decreases detuned_notes@.len() - i,
    {
        let (_, detuning) = detuned_notes[i];
        let value = encode_fine_tuning(detuning);
        if let Some(rpn) = mts::channel_fine_tuning(midi_channel, value) {
            push_channel_messages(&mut messages, &rpn);
            assert(rpn@.map_values(|message: ChannelMessage| channel_view(message))
                =~= fine_tuning_of(midi_channel, detuning as int));
        }
        assert(detuned_notes@.take(i + 1).drop_last() =~= detuned_notes@.take(i as int));
        i = i + 1;
        assert(views(messages@) =~= fine_tuning_messages(
            midi_channel,
            detuned_notes@.take(i as int),
        ));
    }
    assert(detuned_notes@.take(i as int) =~= detuned_notes@);
    messages
}

/// The pitch bend messages of the detunings (see [`pitch_bend_messages`]).
fn pitch_bend_messages_of(midi_channel: u8, detuned_notes: &[(Note, i32)]) -> (r: Vec<MidiTunerMessage>)
    ensures
        views(r@) == pitch_bend_messages(midi_channel, detuned_notes@),
{
    let mut messages: Vec<MidiTunerMessage> = Vec::new();
    assert(views(messages@) =~= Seq::<MidiTunerMessageView>::empty());
    let mut i: usize = 0;
    while i < detuned_notes.len()
        invariant
            i <= detuned_notes@.len(),
            views(messages@) == pitch_bend_messages(
                midi_channel,
                detuned_notes@.take(i as int),
            ),
        decreases detuned_notes@.len() - i,
    {
        let (_, detuning) = detuned_notes[i];
        let value = encode_pitch_bend(detuning);
        push_on_channel(
            &mut messages,
            midi_channel,
            ChannelMessageType::PitchBendChange { value },
        );
        assert(detuned_notes@.take(i + 1).drop_last() =~= detuned_notes@.take(i as int));
        i = i + 1;
        assert(views(messages@) =~= pitch_bend_messages(
            midi_channel,
            detuned_notes@.take(i as int),
        ));
    }
    assert(detuned_notes@.take(i as int) =~= detuned_notes@);
    messages
}

impl MidiTuningCreator {
    /// Creates the messages that detune `detuned_notes` on the tuner channel `tuner_channel`,
    /// whose MIDI channel is `midi_channel`, and keeps the detunings of a scale/octave tuning.
    fn create(&mut self, tuner_channel: usize, midi_channel: u8, detuned_notes: &[(Note, i32)]) -> (r:
        Vec<MidiTunerMessage>)
        ensures
            views(r@) == old(self)@.detune_messages(tuner_channel, midi_channel, detuned_notes@),
            final(self)@ == old(self)@.detuned(tuner_channel, detuned_notes@),
    {
        match self {
            MidiTuningCreator::SingleNoteTuningChange {
                device_id,
                realtime,
                first_tuning_program,
            } => single_note_messages(
                *device_id,
                *realtime,
                *first_tuning_program,
                tuner_channel,
                midi_channel,
                detuned_notes,
            ),
            MidiTuningCreator::ScaleOctaveTuning { device_id, realtime, format, octave_tunings } => {
                scale_octave_messages(
                    *device_id,
                    *realtime,
                    *format,
                    octave_tunings,
                    tuner_channel,
                    midi_channel,
                    detuned_notes,
                )
            },
            MidiTuningCreator::ChannelFineTuning => fine_tuning_messages_of(midi_channel, detuned_notes),
            MidiTuningCreator::PitchBend => pitch_bend_messages_of(midi_channel, detuned_notes),
        }
    }
}

proof fn lemma_retuned_octave_len(octave: Seq<i32>, notes: Seq<(Note, i32)>)
    requires
        octave.len() == 12,
    ensures
        retuned_octave(octave, notes).len() == octave.len(),
    decreases notes.len(),
{
    if notes.len() > 0 {
        lemma_retuned_octave_len(octave, notes.drop_last());
        vstd::arithmetic::div_mod::lemma_mod_bound(notes.last().0.midi(), 12);
    }
}

/// The messages of a note event on a tuner channel: on its MIDI channel, for a note in the MIDI
/// range [0..128); none for a channel beyond the target's channels.
pub open spec fn note_messages(
    channels: Seq<u8>,
    channel: usize,
    note: Note,
    message_type: ChannelMessageType,
) -> Seq<MidiTunerMessageView> {
    if channel < channels.len() && 0 <= note.midi() < 128 {
        on_channel(channels[channel as int], message_type)
    } else {
        Seq::empty()
    }
}

/// The messages of a channel-global event: one per MIDI channel, in order, except for pitch bend
/// messages when the pitch bend carries the tuning.
pub open spec fn global_messages(channels: Seq<u8>, allows_pitch_bend: bool, message_type: ChannelMessageType) -> Seq<
    MidiTunerMessageView,
>
    decreases channels.len(),
{
    if channels.len() == 0 {
        Seq::empty()
    } else {
        global_messages(channels.drop_last(), allows_pitch_bend, message_type) + if allows_pitch_bend
            || !(message_type is PitchBendChange) {
            on_channel(channels.last(), message_type)
        } else {
            Seq::empty()
        }
    }
}

/// A MIDI synthesizer retuned by messages of the MIDI tuning standard, channel fine tuning or
/// pitch bend, which are handed to the handler of its [`MidiTarget`].
///
/// Its detunings are given in steps of 1/16384 semitone.
pub struct TunableMidi<H> {
    midi_target: MidiTarget<H>,
    midi_tuning_creator: MidiTuningCreator,
    sent: Ghost<Seq<MidiTunerMessageView>>,
}

impl<H> TunableMidi<H> {
    /// The MIDI channels of the tuner channels.
    pub closed spec fn channels(self) -> Seq<u8> {
        self.midi_target.channels@
    }

    /// How the synthesizer retunes notes.
    pub closed spec fn tuning(self) -> MidiTuning {
        self.midi_tuning_creator@
    }

    /// The messages handed to the handler so far, in order.
    pub closed spec fn sent(self) -> Seq<MidiTunerMessageView> {
        self.sent@
    }

    /// The handler that receives the messages.
    pub closed spec fn handler(self) -> H {
        self.midi_target.handler
    }

    /// Retunes with *Single Note Tuning Change* messages, using a tuning program per channel,
    /// counted from `first_tuning_program`.
    pub fn single_note_tuning_change(
        midi_target: MidiTarget<H>,
        realtime: bool,
        device_id: u8,
        first_tuning_program: u8,
    ) -> (r: Self)
        ensures
            r.channels() == midi_target.channels@,
            r.tuning() == (MidiTuning::SingleNoteTuningChange {
                device_id,
                realtime,
                first_tuning_program,
            }),
            r.sent() == Seq::<MidiTunerMessageView>::empty(),
    {
        Self {
            midi_target,
            midi_tuning_creator: MidiTuningCreator::SingleNoteTuningChange {
                realtime,
                device_id,
                first_tuning_program,
            },
            sent: Ghost(Seq::empty()),
        }
    }

    /// Retunes with *Scale/Octave Tuning* messages of the given format.
    pub fn scale_octave_tuning(
        midi_target: MidiTarget<H>,
        realtime: bool,
        device_id: u8,
        format: ScaleOctaveTuningFormat,
    ) -> (r: Self)
        ensures
            r.channels() == midi_target.channels@,
            r.tuning() == (MidiTuning::ScaleOctaveTuning {
                device_id,
                realtime,
                format,
                octave_tunings: Map::empty(),
            }),
            r.sent() == Seq::<MidiTunerMessageView>::empty(),
    {
        let octave_tunings: HashMap<usize, [i32; 12]> = HashMap::new();
        let r = Self {
            midi_target,
            midi_tuning_creator: MidiTuningCreator::ScaleOctaveTuning {
                realtime,
                device_id,
                format,
                octave_tunings,
            },
            sent: Ghost(Seq::empty()),
        };
        assert(octave_tunings@.map_values(|octave: [i32; 12]| octave@) =~= Map::empty());
        r
    }

    /// Retunes with channel fine tuning messages.
    pub fn channel_fine_tuning(midi_target: MidiTarget<H>) -> (r: Self)
        ensures
            r.channels() == midi_target.channels@,
            r.tuning() == MidiTuning::ChannelFineTuning,
            r.sent() == Seq::<MidiTunerMessageView>::empty(),
    {
        Self {
            midi_target,
            midi_tuning_creator: MidiTuningCreator::ChannelFineTuning,
            sent: Ghost(Seq::empty()),
        }
    }

    /// Retunes with pitch bend messages.
    pub fn pitch_bend(midi_target: MidiTarget<H>) -> (r: Self)
        ensures
            r.channels() == midi_target.channels@,
            r.tuning() == MidiTuning::PitchBend,
            r.sent() == Seq::<MidiTunerMessageView>::empty(),
    {
        Self {
            midi_target,
            midi_tuning_creator: MidiTuningCreator::PitchBend,
            sent: Ghost(Seq::empty()),
        }
    }

    /// Whether pitch bend messages pass through.
    fn allow_pitch_bend(&self) -> (r: bool)
        ensures
            r == self.tuning().allows_pitch_bend(),
    {
        match self.midi_tuning_creator {
            MidiTuningCreator::PitchBend => false,
            _ => true,
        }
    }
}

impl<H: MidiTunerMessageHandler> TunableMidi<H> {
    /// Hands the messages to the handler, in order.
    fn send_all(&mut self, messages: Vec<MidiTunerMessage>)
        ensures
            final(self).channels() == old(self).channels(),
            final(self).tuning() == old(self).tuning(),
            final(self).sent() == old(self).sent() + views(messages@),
    {
        let ghost start = self.sent@;
        let ghost all = views(messages@);
        let mut remaining = messages;
        assert(all.skip(0) =~= all);
        assert(all.take(0) =~= Seq::<MidiTunerMessageView>::empty());
        assert(start + all.take(0) =~= start);
        while remaining.len() > 0
            invariant
                self.midi_target.channels@ == old(self).midi_target.channels@,
                self.midi_tuning_creator@ == old(self).midi_tuning_creator@,
                remaining@.len() <= all.len(),
                views(remaining@) == all.skip(all.len() - remaining@.len()),
                self.sent@ == start + all.take(all.len() - remaining@.len()),
            decreases remaining@.len(),
        {
            let ghost before = remaining@;
            let message = remaining.remove(0);
            let ghost view = message@;
            self.midi_target.handler.handle(message);
            proof {
                assert(before[0]@ == view);
                assert(views(remaining@) =~= views(before).drop_first());
                self.sent@ = self.sent@.push(view);
                let done = all.len() - before.len();
                assert(all.skip(done)[0] == all[done]);
                assert(views(before)[0] == view);
                assert(all.take(done + 1) =~= all.take(done).push(view));
                assert(all.skip(done).drop_first() =~= all.skip(done + 1));
            }
        }
        assert(all.take(all.len() as int) =~= all);
    }

    /// Hands the message of `message_type` on `midi_channel` to the handler, if the channel lies
    /// in [0..16): the handler's [`MidiTunerMessageHandler::handle`] receives exactly that message.
    fn send_on_channel(&mut self, midi_channel: u8, message_type: ChannelMessageType)
        ensures
            final(self).channels() == old(self).channels(),
            final(self).tuning() == old(self).tuning(),
            final(self).sent() == old(self).sent() + on_channel(midi_channel, message_type),
            midi_channel < 16 ==> exists|handler: &mut H, message: MidiTunerMessage|
                #[trigger] call_ensures(H::handle, (handler, message), ()) && *handler == old(
                    self,
                ).handler() && *final(handler) == final(self).handler() && message@
                    == on_channel(midi_channel, message_type)[0],
            midi_channel >= 16 ==> final(self).handler() == old(self).handler(),
    {
        if let Some(message) = message_type.in_channel(midi_channel) {
            let message = MidiTunerMessage::channel(message);
            let ghost view = message@;
            self.midi_target.handler.handle(message);
            proof {
                self.sent@ = self.sent@.push(view);
                assert(old(self).sent() + on_channel(midi_channel, message_type) =~= self.sent@);
            }
        } else {
            assert(old(self).sent() + on_channel(midi_channel, message_type) =~= self.sent@);
        }
    }

    /// Hands the message of a note event on a tuner channel to the handler.
    fn send_note_message(&mut self, channel: usize, note: Note, message_type: ChannelMessageType)
        ensures
            final(self).channels() == old(self).channels(),
            final(self).tuning() == old(self).tuning(),
            final(self).sent() == old(self).sent() + note_messages(
                old(self).channels(),
                channel,
                note,
                message_type,
            ),
            note_messages(old(self).channels(), channel, note, message_type).len() > 0 ==> exists|
                handler: &mut H,
                message: MidiTunerMessage,
            |
                #[trigger] call_ensures(H::handle, (handler, message), ()) && *handler == old(
                    self,
                ).handler() && *final(handler) == final(self).handler() && message@
                    == note_messages(old(self).channels(), channel, note, message_type)[0],
            note_messages(old(self).channels(), channel, note, message_type).len() == 0
                ==> final(self).handler() == old(self).handler(),
    {
        if channel < self.midi_target.channels.len() && note.checked_midi_number().is_some() {
            let midi_channel = self.midi_target.midi_channel(channel);
            self.send_on_channel(midi_channel, message_type);
        } else {
            assert(old(self).sent() + Seq::<MidiTunerMessageView>::empty() =~= old(self).sent());
        }
    }
}

impl<H: MidiTunerMessageHandler> TunableSynth for TunableMidi<H> {
    type Result = ();
    type NoteAttr = u8;
    type GlobalAttr = ChannelMessageType;
    type Detuning = i32;

    fn num_channels(&self) -> (r: usize)
        ensures
            r == self.channels().len(),
    {
        self.midi_target.channels.len()
    }

    fn group_by(&self) -> (r: GroupBy)
        ensures
            r == self.tuning().grouping(),
    {
        match self.midi_tuning_creator {
            MidiTuningCreator::SingleNoteTuningChange { .. } => GroupBy::Note,
            MidiTuningCreator::ScaleOctaveTuning { .. } => GroupBy::NoteLetter,
            MidiTuningCreator::ChannelFineTuning | MidiTuningCreator::PitchBend => GroupBy::Channel,
        }
    }

    /// Detunes the notes on a tuner channel; a channel beyond the target's channels sends nothing.
    fn notes_detune(&mut self, channel: usize, detuned_notes: &[(Note, i32)]) -> (r: ())
        ensures
            final(self).channels() == old(self).channels(),
            channel < old(self).channels().len() ==> {
                &&& final(self).tuning() == old(self).tuning().detuned(channel, detuned_notes@)
                &&& final(self).sent() == old(self).sent() + old(self).tuning().detune_messages(
                    channel,
                    old(self).channels()[channel as int],
                    detuned_notes@,
                )
            },
            channel >= old(self).channels().len() ==> final(self).tuning() == old(self).tuning()
                && final(self).sent() == old(self).sent(),
    {
        if channel < self.midi_target.channels.len() {
            let midi_channel = self.midi_target.midi_channel(channel);
            let messages = self.midi_tuning_creator.create(channel, midi_channel, detuned_notes);
            self.send_all(messages);
        }
    }

    fn note_on(&mut self, channel: usize, started_note: Note, velocity: u8) -> (r: ())
        ensures
            final(self).channels() == old(self).channels(),
            final(self).tuning() == old(self).tuning(),
            final(self).sent() == old(self).sent() + note_messages(
                old(self).channels(),
                channel,
                started_note,
                ChannelMessageType::NoteOn { key: started_note.midi() as u8, velocity },
            ),
            note_messages(old(self).channels(), channel, started_note, ChannelMessageType::NoteOn { key: started_note.midi() as u8, velocity }).len() > 0 ==> exists|handler: &mut H, message: MidiTunerMessage|
                #[trigger] call_ensures(H::handle, (handler, message), ()) && *handler == old(
                    self,
                ).handler() && *final(handler) == final(self).handler() && message@ == note_messages(old(self).channels(), channel, started_note, ChannelMessageType::NoteOn { key: started_note.midi() as u8, velocity })[0],
            note_messages(old(self).channels(), channel, started_note, ChannelMessageType::NoteOn { key: started_note.midi() as u8, velocity }).len() == 0 ==> final(self).handler() == old(self).handler(),
    {
        let key = match started_note.checked_midi_number() {
            Some(key) => key,
            None => 0,
        };
        self.send_note_message(channel, started_note, ChannelMessageType::NoteOn { key, velocity });
    }

    fn note_off(&mut self, channel: usize, stopped_note: Note, velocity: u8) -> (r: ())
        ensures
            final(self).channels() == old(self).channels(),
            final(self).tuning() == old(self).tuning(),
            final(self).sent() == old(self).sent() + note_messages(
                old(self).channels(),
                channel,
                stopped_note,
                ChannelMessageType::NoteOff { key: stopped_note.midi() as u8, velocity },
            ),
            note_messages(old(self).channels(), channel, stopped_note, ChannelMessageType::NoteOff { key: stopped_note.midi() as u8, velocity }).len() > 0 ==> exists|handler: &mut H, message: MidiTunerMessage|
                #[trigger] call_ensures(H::handle, (handler, message), ()) && *handler == old(
                    self,
                ).handler() && *final(handler) == final(self).handler() && message@ == note_messages(old(self).channels(), channel, stopped_note, ChannelMessageType::NoteOff { key: stopped_note.midi() as u8, velocity })[0],
            note_messages(old(self).channels(), channel, stopped_note, ChannelMessageType::NoteOff { key: stopped_note.midi() as u8, velocity }).len() == 0 ==> final(self).handler() == old(self).handler(),
    {
        let key = match stopped_note.checked_midi_number() {
            Some(key) => key,
            None => 0,
        };
        self.send_note_message(channel, stopped_note, ChannelMessageType::NoteOff { key, velocity });
    }

    fn note_attr(&mut self, channel: usize, affected_note: Note, pressure: u8) -> (r: ())
        ensures
            final(self).channels() == old(self).channels(),
            final(self).tuning() == old(self).tuning(),
            final(self).sent() == old(self).sent() + note_messages(
                old(self).channels(),
                channel,
                affected_note,
                ChannelMessageType::PolyphonicKeyPressure {
                    key: affected_note.midi() as u8,
                    pressure,
                },
            ),
            note_messages(old(self).channels(), channel, affected_note, ChannelMessageType::PolyphonicKeyPressure { key: affected_note.midi() as u8, pressure }).len() > 0 ==> exists|handler: &mut H, message: MidiTunerMessage|
                #[trigger] call_ensures(H::handle, (handler, message), ()) && *handler == old(
                    self,
                ).handler() && *final(handler) == final(self).handler() && message@ == note_messages(old(self).channels(), channel, affected_note, ChannelMessageType::PolyphonicKeyPressure { key: affected_note.midi() as u8, pressure })[0],
            note_messages(old(self).channels(), channel, affected_note, ChannelMessageType::PolyphonicKeyPressure { key: affected_note.midi() as u8, pressure }).len() == 0 ==> final(self).handler() == old(self).handler(),
    {
        let key = match affected_note.checked_midi_number() {
            Some(key) => key,
            None => 0,
        };
        self.send_note_message(
            channel,
            affected_note,
            ChannelMessageType::PolyphonicKeyPressure { key, pressure },
        );
    }

    /// Sends a channel-global message on every MIDI channel, except for pitch bend messages when
    /// the pitch bend carries the tuning.
    fn global_attr(&mut self, message_type: ChannelMessageType) -> (r: ())
        ensures
            final(self).channels() == old(self).channels(),
            final(self).tuning() == old(self).tuning(),
            final(self).sent() == old(self).sent() + global_messages(
                old(self).channels(),
                old(self).tuning().allows_pitch_bend(),
                message_type,
            ),
    {
        let ghost channels = self.channels();
        let allowed = self.allow_pitch_bend();
        let is_pitch_bend = match message_type {
            ChannelMessageType::PitchBendChange { .. } => true,
            _ => false,
        };
        let mut channel: usize = 0;
        assert(channels.take(0) =~= Seq::<u8>::empty());
        assert(old(self).sent() + Seq::<MidiTunerMessageView>::empty() =~= old(self).sent());
        while channel < self.midi_target.channels.len()
            invariant
                self.channels() == channels,
                self.tuning() == old(self).tuning(),
                allowed == old(self).tuning().allows_pitch_bend(),
                is_pitch_bend == (message_type is PitchBendChange),
                channel <= channels.len(),
                self.sent() == old(self).sent() + global_messages(
                    channels.take(channel as int),
                    allowed,
                    message_type,
                ),
            decreases channels.len() - channel,
        {
            let midi_channel = self.midi_target.midi_channel(channel);
            let ghost before = self.sent();
            if allowed || !is_pitch_bend {
                self.send_on_channel(midi_channel, message_type);
            }
            assert(channels.take(channel + 1).drop_last() =~= channels.take(channel as int));
            channel = channel + 1;
            assert(self.sent() =~= old(self).sent() + global_messages(
                channels.take(channel as int),
                allowed,
                message_type,
            ));
        }
        assert(channels.take(channel as int) =~= channels);
    }
}

/// A scale/octave tuning keeps what it has not been told otherwise: after detuning `notes`, a pitch
/// class carries the detuning of the last of them in that class, or its earlier detuning if none
/// is.
pub proof fn lemma_octave_keeps_pitch_classes(octave: Seq<i32>, notes: Seq<(Note, i32)>, pitch_class: int)
    requires
        octave.len() == 12,
        0 <= pitch_class < 12,
    ensures
        retuned_octave(octave, notes)[pitch_class] == if exists|i: int|
            0 <= i < notes.len() && #[trigger] notes[i].0.midi() % 12 == pitch_class {
            notes[last_in_class(notes, pitch_class)].1
        } else {
            octave[pitch_class]
        },
    decreases notes.len(),
{
    lemma_retuned_octave_len(octave, notes);
    if notes.len() > 0 {
        let previous = notes.drop_last();
        lemma_octave_keeps_pitch_classes(octave, previous, pitch_class);
        lemma_retuned_octave_len(octave, previous);
        vstd::arithmetic::div_mod::lemma_mod_bound(notes.last().0.midi(), 12);
        let last = notes.len() - 1;
        if notes.last().0.midi() % 12 == pitch_class {
            assert(notes[last].0.midi() % 12 == pitch_class);
        } else if exists|i: int| 0 <= i < previous.len() && #[trigger] previous[i].0.midi() % 12 == pitch_class {
            let i = choose|i: int| 0 <= i < previous.len() && #[trigger] previous[i].0.midi() % 12 == pitch_class;
            assert(notes[i] == previous[i]);
            assert(last_in_class(notes, pitch_class) == last_in_class(previous, pitch_class));
            assert(notes[last_in_class(previous, pitch_class)] == previous[last_in_class(previous, pitch_class)]) by {
                lemma_last_in_class_bound(previous, pitch_class);
            }
        } else {
            assert forall|i: int| 0 <= i < notes.len() implies #[trigger] notes[i].0.midi() % 12 != pitch_class by {
                if i < last {
                    assert(notes[i] == previous[i]);
                }
            }
        }
    }
}

/// The index of the last note in the given pitch class (meaningful if there is one).
pub open spec fn last_in_class(notes: Seq<(Note, i32)>, pitch_class: int) -> int
    decreases notes.len(),
{
    if notes.len() == 0 {
        0
    } else if notes.last().0.midi() % 12 == pitch_class {
        notes.len() - 1
    } else {
        last_in_class(notes.drop_last(), pitch_class)
    }
}

proof fn lemma_last_in_class_bound(notes: Seq<(Note, i32)>, pitch_class: int)
    requires
        notes.len() > 0,
    ensures
        0 <= last_in_class(notes, pitch_class) < notes.len(),
    decreases notes.len(),
{
    if notes.len() > 1 && notes.last().0.midi() % 12 != pitch_class {
        lemma_last_in_class_bound(notes.drop_last(), pitch_class);
    } else if notes.len() == 1 {
        assert(last_in_class(notes.drop_last(), pitch_class) == 0);
    }
}

} // verus!
