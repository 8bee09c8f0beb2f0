//! Operations for working with physical or virtual keyboards.
use vstd::prelude::*;

verus! {

/// A physical or logical key on a real or virtual instrument without any notion of a pitch.
///
/// This struct does *not* represent a musical key, like in "F minor", which is why its name is [`PianoKey`].
#[derive(Copy, Clone, Debug, Eq, Hash, Ord, PartialEq, PartialOrd, Structural)]
pub struct PianoKey {
    midi_number: i32,
}

impl PianoKey {
    /// The MIDI number of this key.
    pub closed spec fn midi(self) -> int {
        self.midi_number as int
    }

    /// The MIDI number of a key fits in an `i32`.
    pub proof fn lemma_midi_bounds(self)
        ensures
            i32::MIN <= self.midi() <= i32::MAX,
    {
    }

    /// The key with the given MIDI number.
    pub closed spec fn with_midi(midi_number: i32) -> Self {
        PianoKey { midi_number }
    }

    /// The key with a MIDI number has that MIDI number.
    pub proof fn lemma_with_midi(midi_number: i32)
        ensures
            PianoKey::with_midi(midi_number).midi() == midi_number,
    {
    }

    /// Creates a [`PianoKey`] instance from the given MIDI number.
    pub fn from_midi_number(midi_number: i32) -> (r: Self)
        ensures
            r.midi() == midi_number,
            r == PianoKey::with_midi(midi_number),
    {
        Self { midi_number }
    }

    /// Returns the MIDI number of this [`PianoKey`].
    pub fn midi_number(self) -> (r: i32)
        ensures
            r == self.midi(),
    {
        self.midi_number
    }

    /// Returns the MIDI number of this [`PianoKey`] if it is in the valid MIDI range [0..128).
    pub fn checked_midi_number(self) -> (r: Option<u8>)
        ensures
            r == (if 0 <= self.midi() < 128 {
                Some(self.midi() as u8)
            } else {
                None
            }),
    {
        if 0 <= self.midi_number && self.midi_number < 128 {
            Some(self.midi_number as u8)
        } else {
            None
        }
    }

    /// Lists all [`PianoKey`]s in the range [`self`..`upper_bound`).
    pub fn keys_before(self, upper_bound: PianoKey) -> (r: Vec<PianoKey>)
        ensures
            r@.len() == if self.midi() < upper_bound.midi() {
                upper_bound.midi() - self.midi()
            } else {
                0
            },
            forall|i: int| 0 <= i < r@.len() ==> #[trigger] r@[i].midi() == self.midi() + i,
    {
        let mut keys: Vec<PianoKey> = Vec::new();
        let mut current = self.midi_number;
        while current < upper_bound.midi_number
            invariant
                self.midi() <= current,
                current <= upper_bound.midi() || current == self.midi(),
                keys@.len() == current - self.midi(),
                forall|i: int| 0 <= i < keys@.len() ==> #[trigger] keys@[i].midi() == self.midi() + i,
            decreases upper_bound.midi() - current,
        {
            keys.push(PianoKey::from_midi_number(current));
            current = current + 1;
        }
        keys
    }

    /// Counts the number of keys [left inclusive, right exclusive) between `self` and `other`.
    pub fn num_keys_before(self, other: PianoKey) -> (r: i32)
        requires
            i32::MIN <= other.midi() - self.midi() <= i32::MAX,
        ensures
            r == other.midi() - self.midi(),
    {
        other.midi_number - self.midi_number
    }

    /// Returns the key `num_steps` steps after `self`.
    pub fn plus_steps(self, num_steps: i32) -> (r: PianoKey)
        requires
            i32::MIN <= self.midi() + num_steps <= i32::MAX,
        ensures
            r.midi() == self.midi() + num_steps,
    {
        PianoKey::from_midi_number(self.midi_number + num_steps)
    }
}

/// Two keys with the same MIDI number are the same key.
pub proof fn lemma_piano_key_ext(a: PianoKey, b: PianoKey)
    requires
        a.midi() == b.midi(),
    ensures
        a == b,
{
}

} // verus!
