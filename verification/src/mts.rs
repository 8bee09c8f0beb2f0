//! Communication with devices over the MIDI Tuning Standard.
//!
//! Sysex messages have the shape `f0 7e <payload> f7` (non-real time) or `f0 7f <payload> f7`
//! (real time); tuning messages start their payload with `08`, followed by `02` (Single Note
//! Tuning Change), `07` (the same with Bank Select), `08` (Scale/Octave Tuning, 1-byte format) or
//! `09` (Scale/Octave Tuning, 2-byte format).
use vstd::prelude::*;
use std::collections::HashSet;
use vstd::std_specs::iter::IteratorSpec;
use crate::key::PianoKey;
use crate::midi::{ChannelMessage, ChannelMessageType};
use crate::math;
use crate::note::Note;

verus! {

broadcast use vstd::std_specs::hash::group_hash_axioms;

const SYSEX_START: u8 = 0xf0;

const SYSEX_NON_RT: u8 = 0x7e;

const SYSEX_RT: u8 = 0x7f;

const SYSEX_END: u8 = 0xf7;

const MIDI_TUNING_STANDARD: u8 = 0x08;

const SINGLE_NOTE_TUNING_CHANGE: u8 = 0x02;

const SINGLE_NOTE_TUNING_CHANGE_WITH_BANK_SELECT: u8 = 0x07;

const SCALE_OCTAVE_TUNING_1_BYTE_FORMAT: u8 = 0x08;

const SCALE_OCTAVE_TUNING_2_BYTE_FORMAT: u8 = 0x09;

const DEVICE_ID_BROADCAST: u8 = 0x7f;

/// The number of detune steps per semitone in the 14-bit resolution of tuning messages.
pub const U14_UPPER_BOUND: i32 = 16384;

/// Properties of the generated *Single Note Tuning Change* message.
#[derive(Copy, Clone, Debug)]
pub struct SingleNoteTuningChangeOptions {
    /// If set to true, generate a realtime SysEx message (defaults to `true`).
    pub realtime: bool,
    /// Specifies the device ID (defaults to broadcast/0x7f).
    pub device_id: u8,
    /// Specifies the tuning program to be affected (defaults to 0).
    pub tuning_program: u8,
    /// If given, generate a *Single Note Tuning Change with Bank Select* message.
    pub with_bank_select: Option<u8>,
}

impl Default for SingleNoteTuningChangeOptions {
    fn default() -> (r: Self)
        ensures
            r.realtime,
            r.device_id == 0x7f,
            r.tuning_program == 0,
            r.with_bank_select is None,
    {
        Self {
            realtime: true,
            device_id: DEVICE_ID_BROADCAST,
            tuning_program: 0,
            with_bank_select: None,
        }
    }
}

/// Creating a [`SingleNoteTuningChangeMessage`] failed.
#[derive(Copy, Clone, Debug, PartialEq, Eq, Structural)]
pub enum SingleNoteTuningChangeError {
    /// The tuning change list has more than 128 elements (discarded values are not counted).
    TuningChangeListTooLong,
    /// The device ID is greater than 127.
    DeviceIdOutOfRange,
    /// The tuning program number is greater than 127.
    TuningProgramOutOfRange,
    /// The tuning bank number is greater than 127.
    TuningBankNumberOutOfRange,
}

/// Tunes the given [`PianoKey`] to the given [`Note`], detuned by `detune` steps of 1/16384
/// semitone (negative values detune downwards).
#[derive(Copy, Clone, Debug, PartialEq, Eq, Structural)]
pub struct SingleNoteTuningChange {
    /// The key to tune.
    pub key: PianoKey,
    /// The note closest to the target pitch.
    pub target_note: Note,
    /// The deviation of the target pitch from `target_note`, in steps of 1/16384 semitone.
    pub detune: i32,
}

/// The target MIDI number and the upwards detune of a tuning change: a downwards detune is moved to
/// the note below.
pub open spec fn normalized_target(change: SingleNoteTuningChange) -> (int, int) {
    if change.detune < 0 {
        (change.target_note.midi() - 1, change.detune + U14_UPPER_BOUND)
    } else {
        (change.target_note.midi(), change.detune as int)
    }
}

/// Whether both the key and the (normalized) target note lie in the MIDI range [0..128).
pub open spec fn is_retunable(change: SingleNoteTuningChange) -> bool {
    &&& 0 <= change.key.midi() < 128
    &&& 0 <= normalized_target(change).0 < 128
}

/// The four bytes that retune one key: source key, target note, detune MSB and LSB.
pub open spec fn tuning_entry(change: SingleNoteTuningChange) -> Seq<u8> {
    let (target, detune) = normalized_target(change);
    seq![change.key.midi() as u8, target as u8, (detune / 128) as u8, (detune % 128) as u8]
}

/// The tuning entries of all retunable changes, in order.
pub open spec fn tuning_list(changes: Seq<SingleNoteTuningChange>) -> Seq<u8>
    decreases changes.len(),
{
    if changes.len() == 0 {
        Seq::empty()
    } else {
        tuning_list(changes.drop_last()) + if is_retunable(changes.last()) {
            tuning_entry(changes.last())
        } else {
            Seq::empty()
        }
    }
}

/// The number of retunable changes.
pub open spec fn num_retunable(changes: Seq<SingleNoteTuningChange>) -> nat
    decreases changes.len(),
{
    if changes.len() == 0 {
        0
    } else {
        num_retunable(changes.drop_last()) + if is_retunable(changes.last()) {
            1nat
        } else {
            0nat
        }
    }
}

/// The changes that cannot be retuned, in order.
pub open spec fn out_of_range_changes(changes: Seq<SingleNoteTuningChange>) -> Seq<SingleNoteTuningChange>
    decreases changes.len(),
{
    if changes.len() == 0 {
        Seq::empty()
    } else {
        out_of_range_changes(changes.drop_last()) + if is_retunable(changes.last()) {
            Seq::empty()
        } else {
            seq![changes.last()]
        }
    }
}

/// A *Single Note Tuning Change* sysex message for the given tuning entries.
pub open spec fn single_note_sysex(options: SingleNoteTuningChangeOptions, entries: Seq<u8>) -> Seq<u8> {
    seq![
        0xf0u8,
        if options.realtime {
            0x7fu8
        } else {
            0x7eu8
        },
        options.device_id,
        0x08u8,
        if options.with_bank_select is Some {
            0x07u8
        } else {
            0x02u8
        },
    ] + match options.with_bank_select {
        Some(bank) => seq![bank],
        None => Seq::empty(),
    } + seq![options.tuning_program, (entries.len() / 4) as u8] + entries + seq![0xf7u8]
}

/// The sysex messages for the given tuning entries: none for no entries, one for fewer than 128
/// entries, and two batches of 64 entries for 128 entries.
pub open spec fn single_note_sysex_calls(options: SingleNoteTuningChangeOptions, entries: Seq<u8>) -> Seq<
    Seq<u8>,
> {
    if entries.len() == 0 {
        Seq::empty()
    } else if entries.len() < 4 * 128 {
        seq![single_note_sysex(options, entries)]
    } else {
        seq![
            single_note_sysex(options, entries.subrange(0, 256)),
            single_note_sysex(options, entries.subrange(256, entries.len() as int)),
        ]
    }
}

/// The error that the options cause, if any.
pub open spec fn options_error(options: SingleNoteTuningChangeOptions) -> Option<
    SingleNoteTuningChangeError,
> {
    if options.device_id >= 128 {
        Some(SingleNoteTuningChangeError::DeviceIdOutOfRange)
    } else if options.tuning_program >= 128 {
        Some(SingleNoteTuningChangeError::TuningProgramOutOfRange)
    } else if options.with_bank_select matches Some(bank) && bank >= 128 {
        Some(SingleNoteTuningChangeError::TuningBankNumberOutOfRange)
    } else {
        None
    }
}

/// Retunes one or multiple MIDI notes using the *Single Note Tuning Change* message format.
#[derive(Clone, Debug)]
pub struct SingleNoteTuningChangeMessage {
    sysex_calls: Vec<Vec<u8>>,
    out_of_range_notes: Vec<SingleNoteTuningChange>,
}

impl SingleNoteTuningChangeMessage {
    /// The sysex messages.
    pub closed spec fn calls(self) -> Seq<Seq<u8>> {
        self.sysex_calls@.map_values(|call: Vec<u8>| call@)
    }

    /// The changes that the messages do not contain.
    pub closed spec fn discarded(self) -> Seq<SingleNoteTuningChange> {
        self.out_of_range_notes@
    }

    /// Creates a [`SingleNoteTuningChangeMessage`] from the provided `tuning_changes`.
    ///
    /// Changes whose key or target note lies outside of the MIDI range are not retuned but listed
    /// as out of range.
    pub fn from_tuning_changes(
        options: &SingleNoteTuningChangeOptions,
        tuning_changes: &[SingleNoteTuningChange],
    ) -> (r: Result<Self, SingleNoteTuningChangeError>)
        requires
            forall|i: int|
                0 <= i < tuning_changes@.len() ==> -U14_UPPER_BOUND <= #[trigger] tuning_changes@[i].detune
                    < U14_UPPER_BOUND,
        ensures
            match options_error(*options) {
                Some(error) => r == Err::<Self, SingleNoteTuningChangeError>(error),
                None => if num_retunable(tuning_changes@) > 128 {
                    r == Err::<Self, SingleNoteTuningChangeError>(
                        SingleNoteTuningChangeError::TuningChangeListTooLong,
                    )
                } else {
                    r matches Ok(message) && message.calls() == single_note_sysex_calls(
                        *options,
                        tuning_list(tuning_changes@),
                    ) && message.discarded() == out_of_range_changes(tuning_changes@)
                },
            },
    {
        if options.device_id >= 128 {
            return Err(SingleNoteTuningChangeError::DeviceIdOutOfRange);
        }
        if options.tuning_program >= 128 {
            return Err(SingleNoteTuningChangeError::TuningProgramOutOfRange);
        }
        if let Some(tuning_bank) = options.with_bank_select {
            if tuning_bank >= 128 {
                return Err(SingleNoteTuningChangeError::TuningBankNumberOutOfRange);
            }
        }
        let mut sysex_tuning_list: Vec<u8> = Vec::new();
        let mut num_retuned_notes: usize = 0;
        let mut out_of_range_notes: Vec<SingleNoteTuningChange> = Vec::new();
        let mut i: usize = 0;
        assert(tuning_changes@.take(0) =~= Seq::<SingleNoteTuningChange>::empty());
        while i < tuning_changes.len()
            invariant
                i <= tuning_changes@.len(),
                options_error(*options) is None,
                forall|j: int|
                    0 <= j < tuning_changes@.len() ==> -U14_UPPER_BOUND
                        <= #[trigger] tuning_changes@[j].detune < U14_UPPER_BOUND,
                sysex_tuning_list@ == tuning_list(tuning_changes@.take(i as int)),
                num_retuned_notes == num_retunable(tuning_changes@.take(i as int)),
                num_retuned_notes <= 128,
                out_of_range_notes@ == out_of_range_changes(tuning_changes@.take(i as int)),
            decreases tuning_changes@.len() - i,
        {
            let tuning_change = tuning_changes[i];
            let mut target: i64 = tuning_change.target_note.midi_number() as i64;
            let mut detune: i32 = tuning_change.detune;
            if detune < 0 {
                target = target - 1;
                detune = detune + U14_UPPER_BOUND;
            }
            let ghost prefix = tuning_changes@.take(i as int);
            assert(tuning_changes@.take(i + 1).drop_last() =~= prefix);
            assert(tuning_changes@.take(i + 1).last() == tuning_change);
            match tuning_change.key.checked_midi_number() {
                Some(source) if 0 <= target && target < 128 => {
                    let pitch_msb = (detune / 128) as u8;
                    let pitch_lsb = (detune % 128) as u8;
                    let ghost before = sysex_tuning_list@;
                    sysex_tuning_list.push(source);
                    sysex_tuning_list.push(target as u8);
                    sysex_tuning_list.push(pitch_msb);
                    sysex_tuning_list.push(pitch_lsb);
                    assert(sysex_tuning_list@ =~= before + tuning_entry(tuning_change));
                    num_retuned_notes = num_retuned_notes + 1;
                    assert(out_of_range_changes(tuning_changes@.take(i + 1)) =~= out_of_range_changes(
                        prefix,
                    ));
                },
                _ => {
                    out_of_range_notes.push(tuning_change);
                    assert(tuning_list(tuning_changes@.take(i + 1)) =~= tuning_list(prefix));
                },
            }
            if num_retuned_notes > 128 {
                proof {
                    lemma_num_retunable_prefix(tuning_changes@, i + 1);
                }
                return Err(SingleNoteTuningChangeError::TuningChangeListTooLong);
            }
            i = i + 1;
        }
        assert(tuning_changes@.take(i as int) =~= tuning_changes@);
        proof {
            lemma_tuning_list_len(tuning_changes@);
        }
        let mut sysex_calls: Vec<Vec<u8>> = Vec::new();
        if num_retuned_notes == 0 {
        } else if num_retuned_notes < 128 {
            sysex_calls.push(create_sysex(options, sysex_tuning_list.as_slice()));
        } else {
            let all = sysex_tuning_list.as_slice();
            sysex_calls.push(create_sysex(options, &all[0..256]));
            sysex_calls.push(create_sysex(options, &all[256..512]));
        }
        let message = SingleNoteTuningChangeMessage { sysex_calls, out_of_range_notes };
        assert(message.calls() =~= single_note_sysex_calls(*options, tuning_list(tuning_changes@)));
        Ok(message)
    }

    /// Returns the tuning messages conforming to the MIDI tuning standard.
    ///
    /// If less than 128 notes are retuned there is a single tuning message. If the number of
    /// retuned notes is 128 there are two messages with a batch of 64 notes each. If the number of
    /// retuned notes is 0 there is no message.
    pub fn sysex_bytes(&self) -> (r: &[Vec<u8>])
        ensures
            r@.map_values(|call: Vec<u8>| call@) == self.calls(),
    {
        self.sysex_calls.as_slice()
    }

    /// Returns the notes whose target pitch is not representable by the tuning message.
    pub fn out_of_range_notes(&self) -> (r: &[SingleNoteTuningChange])
        ensures
            r@ == self.discarded(),
    {
        self.out_of_range_notes.as_slice()
    }
}

/// Builds one *Single Note Tuning Change* sysex message.
fn create_sysex(options: &SingleNoteTuningChangeOptions, entries: &[u8]) -> (r: Vec<u8>)
    requires
        entries@.len() / 4 < 256,
    ensures
        r@ == single_note_sysex(*options, entries@),
{
    let mut sysex_call: Vec<u8> = Vec::new();
    sysex_call.push(SYSEX_START);
    sysex_call.push(
        if options.realtime {
            SYSEX_RT
        } else {
            SYSEX_NON_RT
        },
    );
    sysex_call.push(options.device_id);
    sysex_call.push(MIDI_TUNING_STANDARD);
    sysex_call.push(
        if options.with_bank_select.is_some() {
            SINGLE_NOTE_TUNING_CHANGE_WITH_BANK_SELECT
        } else {
            SINGLE_NOTE_TUNING_CHANGE
        },
    );
    if let Some(with_bank_select) = options.with_bank_select {
        sysex_call.push(with_bank_select);
    }
    sysex_call.push(options.tuning_program);
    sysex_call.push((entries.len() / 4) as u8);
    let ghost header = sysex_call@;
    push_all(&mut sysex_call, entries);
    sysex_call.push(SYSEX_END);
    assert(sysex_call@ =~= single_note_sysex(*options, entries@));
    sysex_call
}

/// Appends all bytes of `bytes`.
fn push_all(target: &mut Vec<u8>, bytes: &[u8])
    ensures
        final(target)@ == old(target)@ + bytes@,
{
    let ghost start = target@;
    let mut i: usize = 0;
    while i < bytes.len()
        invariant
            i <= bytes@.len(),
            target@ == start + bytes@.take(i as int),
        decreases bytes@.len() - i,
    {
        target.push(bytes[i]);
        i = i + 1;
        assert(target@ =~= start + bytes@.take(i as int));
    }
    assert(bytes@.take(i as int) =~= bytes@);
}

/// The number of retunable changes of a prefix does not exceed that of the whole sequence.
proof fn lemma_num_retunable_prefix(changes: Seq<SingleNoteTuningChange>, i: int)
    requires
        0 <= i <= changes.len(),
    ensures
        num_retunable(changes.take(i)) <= num_retunable(changes),
    decreases changes.len() - i,
{
    if i < changes.len() {
        lemma_num_retunable_prefix(changes, i + 1);
        assert(changes.take(i + 1).drop_last() =~= changes.take(i));
    } else {
        assert(changes.take(i) =~= changes);
    }
}

/// Every retunable change contributes four bytes.
proof fn lemma_tuning_list_len(changes: Seq<SingleNoteTuningChange>)
    ensures
        tuning_list(changes).len() == 4 * num_retunable(changes),
    decreases changes.len(),
{
    if changes.len() > 0 {
        lemma_tuning_list_len(changes.drop_last());
    }
}


/// 1-byte or 2-byte form of the *Scale/Octave Tuning* message.
///
/// The 1-byte form supports values in the range [-64cents..63cents], the 2-byte form supports
/// values in the range [-100cents..100cents).
#[derive(Copy, Clone, Debug, PartialEq, Eq, Structural)]
pub enum ScaleOctaveTuningFormat {
    OneByte,
    TwoByte,
}

/// Channels to be affected by the *Scale/Octave Tuning* message.
#[derive(Debug)]
pub enum Channels {
    All,
    Selected(HashSet<u8>),
}

impl Channels {
    /// The affected channels: `None` for all of them.
    pub open spec fn channel_set(self) -> Option<Set<u8>> {
        match self {
            Channels::All => None,
            Channels::Selected(channels) => Some(channels@),
        }
    }
}

/// Properties of the generated *Scale/Octave Tuning* message.
#[derive(Debug)]
pub struct ScaleOctaveTuningOptions {
    /// If set to true, generate a realtime SysEx message (defaults to `false`).
    pub realtime: bool,
    /// Specifies the device ID (defaults to broadcast/0x7f).
    pub device_id: u8,
    /// Specifies the channels that are affected by the tuning change (defaults to [`Channels::All`]).
    pub channels: Channels,
    /// Specifies whether to send a 1-byte or 2-byte message (defaults to [`ScaleOctaveTuningFormat::OneByte`]).
    pub format: ScaleOctaveTuningFormat,
}

impl Default for ScaleOctaveTuningOptions {
    fn default() -> (r: Self)
        ensures
            !r.realtime,
            r.channels is All,
            r.device_id == 0x7f,
            r.format == ScaleOctaveTuningFormat::OneByte,
    {
        Self {
            realtime: false,
            channels: Channels::All,
            device_id: DEVICE_ID_BROADCAST,
            format: ScaleOctaveTuningFormat::OneByte,
        }
    }
}

/// Creating a [`ScaleOctaveTuningMessage`] failed.
#[derive(Copy, Clone, Debug, Eq, PartialEq, Structural)]
pub enum ScaleOctaveTuningError {
    /// A channel number exceeds the allowed range [0..16).
    ChannelOutOfRange,
}

/// The channel bits of one row of 7 channels, up to bit `num_bits`: bit `b` of row `row` stands
/// for channel `7 * row + b`.
pub open spec fn channel_bits(channels: Set<u8>, row: nat, num_bits: nat) -> nat
    decreases num_bits,
{
    if num_bits == 0 {
        0
    } else {
        let bit = (num_bits - 1) as nat;
        let channel = 7 * row + bit;
        channel_bits(channels, row, bit) + if channel < 16 && channels.contains(channel as u8) {
            math::pow2(bit)
        } else {
            0
        }
    }
}

/// The three channel bytes of a *Scale/Octave Tuning* message: channels 15 to 16, 8 to 14 and 1
/// to 7 (counting from 1).
pub open spec fn channel_bytes(channels: Option<Set<u8>>) -> Seq<u8> {
    match channels {
        None => seq![0b0000_0011u8, 0b0111_1111u8, 0b0111_1111u8],
        Some(set) => seq![
            channel_bits(set, 2, 7) as u8,
            channel_bits(set, 1, 7) as u8,
            channel_bits(set, 0, 7) as u8,
        ],
    }
}

/// The encoded pitch values: one byte each in the 1-byte format, a 7-bit MSB and LSB each in the
/// 2-byte format.
pub open spec fn pitch_bytes(format: ScaleOctaveTuningFormat, values: Seq<u16>) -> Seq<u8>
    decreases values.len(),
{
    if values.len() == 0 {
        Seq::empty()
    } else {
        pitch_bytes(format, values.drop_last()) + match format {
            ScaleOctaveTuningFormat::OneByte => seq![values.last() as u8],
            ScaleOctaveTuningFormat::TwoByte => seq![
                (values.last() / 128) as u8,
                (values.last() % 128) as u8,
            ],
        }
    }
}

/// A *Scale/Octave Tuning* sysex message for the given channels (`None` for all of them).
pub open spec fn scale_octave_bytes(
    realtime: bool,
    device_id: u8,
    channels: Option<Set<u8>>,
    format: ScaleOctaveTuningFormat,
    values: Seq<u16>,
) -> Seq<u8> {
    seq![
        0xf0u8,
        if realtime {
            0x7fu8
        } else {
            0x7eu8
        },
        device_id,
        0x08u8,
        match format {
            ScaleOctaveTuningFormat::OneByte => 0x08u8,
            ScaleOctaveTuningFormat::TwoByte => 0x09u8,
        },
    ] + channel_bytes(channels) + pitch_bytes(format, values) + seq![0xf7u8]
}

/// A *Scale/Octave Tuning* sysex message.
pub open spec fn scale_octave_sysex(options: ScaleOctaveTuningOptions, values: Seq<u16>) -> Seq<u8> {
    scale_octave_bytes(
        options.realtime,
        options.device_id,
        options.channels.channel_set(),
        options.format,
        values,
    )
}

/// Whether some selected channel lies outside of the range [0..16).
pub open spec fn channels_out_of_range(channels: Option<Set<u8>>) -> bool {
    match channels {
        Some(set) => exists|c: u8| #[trigger] set.contains(c) && c >= 16,
        None => false,
    }
}

/// The largest pitch value that a format can hold.
pub open spec fn max_pitch_value(format: ScaleOctaveTuningFormat) -> u16 {
    match format {
        ScaleOctaveTuningFormat::OneByte => 127,
        ScaleOctaveTuningFormat::TwoByte => 16383,
    }
}

/// Retunes MIDI pitch classes within an octave using the *Scale/Octave Tuning* message format.
#[derive(Clone, Debug)]
pub struct ScaleOctaveTuningMessage {
    sysex_call: Vec<u8>,
}

impl ScaleOctaveTuningMessage {
    /// The sysex message.
    pub closed spec fn bytes(self) -> Seq<u8> {
        self.sysex_call@
    }

    /// Creates a [`ScaleOctaveTuningMessage`] from the encoded detunings of the twelve pitch classes
    /// C, C#, ..., B: `cents + 64` in the 1-byte format, `(semitones + 1) * 8192` in the 2-byte
    /// format.
    pub fn from_pitch_values(options: &ScaleOctaveTuningOptions, values: [u16; 12]) -> (r: Result<
        Self,
        ScaleOctaveTuningError,
    >)
        requires
            forall|i: int| 0 <= i < 12 ==> #[trigger] values@[i] <= max_pitch_value(options.format),
        ensures
            channels_out_of_range(options.channels.channel_set()) ==> r == Err::<
                Self,
                ScaleOctaveTuningError,
            >(ScaleOctaveTuningError::ChannelOutOfRange),
            !channels_out_of_range(options.channels.channel_set()) ==> (r matches Ok(message)
                && message.bytes() == scale_octave_sysex(*options, values@)),
    {
        let mut sysex_call: Vec<u8> = Vec::new();
        sysex_call.push(SYSEX_START);
        sysex_call.push(
            if options.realtime {
                SYSEX_RT
            } else {
                SYSEX_NON_RT
            },
        );
        sysex_call.push(options.device_id);
        sysex_call.push(MIDI_TUNING_STANDARD);
        sysex_call.push(
            match options.format {
                ScaleOctaveTuningFormat::OneByte => SCALE_OCTAVE_TUNING_1_BYTE_FORMAT,
                ScaleOctaveTuningFormat::TwoByte => SCALE_OCTAVE_TUNING_2_BYTE_FORMAT,
            },
        );
        let ghost start = sysex_call@;
        match &options.channels {
            Channels::All => {
                sysex_call.push(0b0000_0011);
                sysex_call.push(0b0111_1111);
                sysex_call.push(0b0111_1111);
            },
            Channels::Selected(channels) => {
                if !all_channels_in_range(channels) {
                    proof {
                        let c = choose|c: u8| !(channels@.contains(c) ==> c < 16);
                        assert(channels@.contains(c) && c >= 16);
                        assert(options.channels.channel_set()->0 == channels@);
                    }
                    return Err(ScaleOctaveTuningError::ChannelOutOfRange);
                }
                sysex_call.push(encode_channel_row(channels, 2));
                sysex_call.push(encode_channel_row(channels, 1));
                sysex_call.push(encode_channel_row(channels, 0));
            },
        }
        assert(sysex_call@ =~= start + channel_bytes(options.channels.channel_set()));
        let ghost header = sysex_call@;
        let mut i: usize = 0;
        assert(values@.take(0) =~= Seq::<u16>::empty());
        while i < 12
            invariant
                i <= 12,
                forall|j: int| 0 <= j < 12 ==> #[trigger] values@[j] <= max_pitch_value(options.format),
                sysex_call@ == header + pitch_bytes(options.format, values@.take(i as int)),
            decreases 12 - i,
        {
            let value = values[i];
            let ghost before = sysex_call@;
            match options.format {
                ScaleOctaveTuningFormat::OneByte => {
                    sysex_call.push(value as u8);
                },
                ScaleOctaveTuningFormat::TwoByte => {
                    sysex_call.push((value / 128) as u8);
                    sysex_call.push((value % 128) as u8);
                },
            }
            assert(values@.take(i + 1).drop_last() =~= values@.take(i as int));
            assert(sysex_call@ =~= header + pitch_bytes(options.format, values@.take(i + 1)));
            i = i + 1;
        }
        sysex_call.push(SYSEX_END);
        assert(values@.take(12) =~= values@);
        let message = ScaleOctaveTuningMessage { sysex_call };
        assert(message.bytes() =~= scale_octave_sysex(*options, values@));
        Ok(message)
    }

    /// Returns the tuning message conforming to the MIDI tuning standard.
    pub fn sysex_bytes(&self) -> (r: &[u8])
        ensures
            r@ == self.bytes(),
    {
        self.sysex_call.as_slice()
    }
}

/// Whether every channel lies in the range [0..16).
fn all_channels_in_range(channels: &HashSet<u8>) -> (r: bool)
    ensures
        r <==> (forall|c: u8| channels@.contains(c) ==> c < 16),
{
    let mut in_range = true;
    let ghost keys = vstd::std_specs::hash::spec_hash_keys_iter(channels).remaining();
    proof {
        vstd::std_specs::hash::axiom_spec_hash_keys_iter(channels);
    }
    for channel in it: channels.iter()
        invariant
            it.seq() == keys,
            in_range <==> (forall|j: int| 0 <= j < it.index() ==> *keys[j] < 16),
    {
        if *channel >= 16 {
            in_range = false;
        }
    }
    proof {
        assert forall|c: u8| in_range && channels@.contains(c) implies c < 16 by {
            assert(keys.unref().to_set().contains(c));
            let j = choose|j: int| 0 <= j < keys.len() && keys.unref()[j] == c;
            assert(keys.unref()[j] == *keys[j]);
        }
        if !in_range {
            let j = choose|j: int| 0 <= j < keys.len() && !(*keys[j] < 16);
            assert(keys.unref()[j] == *keys[j]);
            assert(keys.unref().to_set().contains(*keys[j]));
        }
    }
    in_range
}

/// Encodes the channels of one row as bits.
fn encode_channel_row(channels: &HashSet<u8>, row: u8) -> (r: u8)
    requires
        row < 3,
    ensures
        r == channel_bits(channels@, row as nat, 7),
{
    let mut byte: u16 = 0;
    let mut weight: u16 = 1;
    let mut bit: u8 = 0;
    proof {
        lemma_small_powers_of_two();
    }
    while bit < 7
        invariant
            bit <= 7,
            row < 3,
            weight == math::pow2(bit as nat),
            byte == channel_bits(channels@, row as nat, bit as nat),
            byte < weight,
        decreases 7 - bit,
    {
        proof {
            lemma_small_powers_of_two();
        }
        let channel = 7 * row + bit;
        if channel < 16 && channels.contains(&channel) {
            byte = byte + weight;
        }
        bit = bit + 1;
        weight = weight * 2;
    }
    byte as u8
}

proof fn lemma_small_powers_of_two()
    ensures
        math::pow2(0) == 1,
        math::pow2(1) == 2,
        math::pow2(2) == 4,
        math::pow2(3) == 8,
        math::pow2(4) == 16,
        math::pow2(5) == 32,
        math::pow2(6) == 64,
        math::pow2(7) == 128,
{
    reveal_with_fuel(math::pow2, 8);
}

/// `true` if the message is a *Control Change* of the given controller and value in `channel`.
pub open spec fn is_control_change(message: ChannelMessage, channel: u8, controller: u8, value: u8) -> bool {
    &&& message.channel_value() == channel
    &&& message.type_value() == (ChannelMessageType::ControlChange { controller, value })
}

/// Selects a registered parameter and sets its value (1-byte form).
fn rpn_message_1_byte(
    channel: u8,
    parameter_number_msb: u8,
    parameter_number_lsb: u8,
    value: u8,
) -> (r: Option<[ChannelMessage; 3]>)
    ensures
        channel >= 16 ==> r is None,
        channel < 16 ==> (r matches Some(messages) && is_control_change(
            messages[0],
            channel,
            0x65,
            parameter_number_msb,
        ) && is_control_change(messages[1], channel, 0x64, parameter_number_lsb)
            && is_control_change(messages[2], channel, 0x06, value)),
{
    Some(
        [
            ChannelMessageType::ControlChange {
                controller: RPN_MSB,
                value: parameter_number_msb,
            }.in_channel(channel)?,
            ChannelMessageType::ControlChange {
                controller: RPN_LSB,
                value: parameter_number_lsb,
            }.in_channel(channel)?,
            ChannelMessageType::ControlChange { controller: DATA_ENTRY_MSB, value }.in_channel(
                channel,
            )?,
        ],
    )
}

/// Selects a registered parameter and sets its value (2-byte form).
fn rpn_message_2_byte(
    channel: u8,
    parameter_number_msb: u8,
    parameter_number_lsb: u8,
    value_msb: u8,
    value_lsb: u8,
) -> (r: Option<[ChannelMessage; 4]>)
    ensures
        channel >= 16 ==> r is None,
        channel < 16 ==> (r matches Some(messages) && is_control_change(
            messages[0],
            channel,
            0x65,
            parameter_number_msb,
        ) && is_control_change(messages[1], channel, 0x64, parameter_number_lsb)
            && is_control_change(messages[2], channel, 0x06, value_msb) && is_control_change(
            messages[3],
            channel,
            0x26,
            value_lsb,
        )),
{
    Some(
        [
            ChannelMessageType::ControlChange {
                controller: RPN_MSB,
                value: parameter_number_msb,
            }.in_channel(channel)?,
            ChannelMessageType::ControlChange {
                controller: RPN_LSB,
                value: parameter_number_lsb,
            }.in_channel(channel)?,
            ChannelMessageType::ControlChange {
                controller: DATA_ENTRY_MSB,
                value: value_msb,
            }.in_channel(channel)?,
            ChannelMessageType::ControlChange {
                controller: DATA_ENTRY_LSB,
                value: value_lsb,
            }.in_channel(channel)?,
        ],
    )
}

const RPN_MSB: u8 = 0x65;

const RPN_LSB: u8 = 0x64;

const DATA_ENTRY_MSB: u8 = 0x06;

const DATA_ENTRY_LSB: u8 = 0x26;

/// Sets the fine tuning of a channel to `value` (14 bits; 8192 means no detuning and each step is
/// 1/8192 semitone).
pub fn channel_fine_tuning(channel: u8, value: u16) -> (r: Option<[ChannelMessage; 4]>)
    requires
        value < 16384,
    ensures
        channel >= 16 ==> r is None,
        channel < 16 ==> (r matches Some(messages) && is_control_change(messages[0], channel, 0x65, 0x00)
            && is_control_change(messages[1], channel, 0x64, 0x01) && is_control_change(
            messages[2],
            channel,
            0x06,
            (value / 128) as u8,
        ) && is_control_change(messages[3], channel, 0x26, (value % 128) as u8)),
{
    rpn_message_2_byte(channel, 0x00, 0x01, (value / 128) as u8, (value % 128) as u8)
}

/// Selects the tuning program of a channel.
pub fn tuning_program_change(channel: u8, tuning_program: u8) -> (r: Option<[ChannelMessage; 3]>)
    ensures
        channel >= 16 ==> r is None,
        channel < 16 ==> (r matches Some(messages) && is_control_change(messages[0], channel, 0x65, 0x00)
            && is_control_change(messages[1], channel, 0x64, 0x03) && is_control_change(
            messages[2],
            channel,
            0x06,
            tuning_program,
        )),
{
    rpn_message_1_byte(channel, 0x00, 0x03, tuning_program)
}

/// Selects the tuning bank of a channel.
pub fn tuning_bank_change(channel: u8, tuning_bank: u8) -> (r: Option<[ChannelMessage; 3]>)
    ensures
        channel >= 16 ==> r is None,
        channel < 16 ==> (r matches Some(messages) && is_control_change(messages[0], channel, 0x65, 0x00)
            && is_control_change(messages[1], channel, 0x64, 0x04) && is_control_change(
            messages[2],
            channel,
            0x06,
            tuning_bank,
        )),
{
    rpn_message_1_byte(channel, 0x00, 0x04, tuning_bank)
}

} // verus!
