//! Keyboard mappings described by command line options.
use vstd::prelude::*;

use crate::key::PianoKey;
use crate::scala::import::{mapping_entry, parse_int};
use crate::scala::{Kbm, KbmBuildError, KbmBuilderView, KbmRoot, KbmView};

verus! {

/// An entry of a keyboard mapping: a mapped scale degree or an unmapped key.
#[derive(Clone, Copy, Debug, PartialEq, Eq, Structural)]
pub enum Item {
    Mapped(i16),
    Unmapped,
}

/// The entry that a mapping entry reads as (see [`mapping_entry`]).
pub open spec fn item_of(entry: Option<i16>) -> Item {
    match entry {
        Some(degree) => Item::Mapped(degree),
        None => Item::Unmapped,
    }
}

/// Parses a keyboard mapping entry: `x` or `X` for an unmapped key, a 16-bit signed integer for a
/// mapped one.
pub fn parse_item(s: &str) -> (r: Result<Item, &'static str>)
    requires
        s@.len() < usize::MAX,
    ensures
        match mapping_entry(s@) {
            Some(entry) => r == Ok::<Item, &'static str>(item_of(entry)),
            None => r is Err,
        },
{
    let mut chars: Vec<char> = Vec::new();
    for c in it: s.chars()
        invariant
            it.seq() == s@,
            chars@ == s@.take(it.index() as int),
    {
        assert(s@.take(it.index() + 1) =~= chars@.push(c));
        chars.push(c);
    }
    assert(chars@ =~= s@);
    if chars.len() == 1 && (chars[0] == 'x' || chars[0] == 'X') {
        assert(s@ =~= seq![chars[0]]);
        return Ok(Item::Unmapped);
    }
    assert(s@ != seq!['x'] && s@ != seq!['X']) by {
        if s@ == seq!['x'] || s@ == seq!['X'] {
            assert(chars@.len() == 1 && chars@[0] == s@[0]);
        }
    }
    assert(chars@.subrange(0, chars@.len() as int) =~= s@);
    match parse_int(&chars, 0, chars.len(), -0x8000, 0x7fff) {
        Some(degree) => Ok(Item::Mapped(degree as i16)),
        None => Err("Invalid keyboard mapping entry. Should be x, X or an 16-bit signed integer"),
    }
}

/// The reference note of a keyboard mapping, and the root note of its scale if it differs.
pub struct KbmRootOptions<P> {
    pub ref_note: KbmRoot<P>,
    pub root_note: Option<i16>,
}

impl<P: Copy> KbmRootOptions<P> {
    /// The root of the keyboard mapping: the scale's root is displaced to the root note, if given.
    pub fn to_kbm_root(&self) -> (r: KbmRoot<P>)
        requires
            self.root_note matches Some(root_note) ==> i32::MIN <= root_note
                - self.ref_note.ref_key.midi() <= i32::MAX,
        ensures
            r.ref_key == self.ref_note.ref_key,
            r.ref_pitch == self.ref_note.ref_pitch,
            r.root_offset == match self.root_note {
                Some(root_note) => root_note - self.ref_note.ref_key.midi(),
                None => self.ref_note.root_offset as int,
            },
    {
        match self.root_note {
            Some(root_note) => KbmRoot {
                ref_key: self.ref_note.ref_key,
                ref_pitch: self.ref_note.ref_pitch,
                root_offset: root_note as i32 - self.ref_note.ref_key.midi_number(),
            },
            None => self.ref_note,
        }
    }
}

/// A keyboard mapping described by options: its root, the mapped keys `[lower_key_bound,
/// upper_key_bound)`, the mapping entries (a linear mapping if there are none) and the formal
/// octave.
pub struct KbmOptions<P> {
    pub kbm_root: KbmRootOptions<P>,
    pub lower_key_bound: i32,
    pub upper_key_bound: i32,
    pub items: Option<Vec<Item>>,
    pub formal_octave: Option<i16>,
}

/// The scale degrees of the mapping entries.
pub open spec fn item_entries(items: Seq<Item>) -> Seq<Option<i16>> {
    items.map_values(
        |item: Item|
            match item {
                Item::Mapped(degree) => Some(degree),
                Item::Unmapped => None,
            },
    )
}

impl<P: Copy> KbmOptions<P> {
    /// The builder that the options describe.
    pub open spec fn builder_view(self) -> KbmBuilderView<P> {
        let root = self.kbm_root.ref_note;
        KbmBuilderView {
            ref_key: root.ref_key.midi(),
            ref_pitch: root.ref_pitch,
            root_offset: match self.kbm_root.root_note {
                Some(root_note) => root_note - root.ref_key.midi(),
                None => root.root_offset as int,
            },
            range_start: self.lower_key_bound as int,
            range_end: self.upper_key_bound as int,
            mapping: match self.items {
                Some(items) => item_entries(items@),
                None => Seq::empty(),
            },
            formal_octave: self.formal_octave,
        }
    }

    /// Builds the keyboard mapping, or reports why it cannot be built.
    pub fn to_kbm(&self) -> (r: Result<Kbm<P>, KbmBuildError>)
        requires
            self.kbm_root.root_note matches Some(root_note) ==> i32::MIN <= root_note
                - self.kbm_root.ref_note.ref_key.midi() <= i32::MAX,
        ensures
            match self.builder_view().build_error() {
                Some(error) => r == Err::<Kbm<P>, KbmBuildError>(error),
                None => r matches Ok(kbm) && kbm@ == self.builder_view().built(),
            },
    {
        let mut builder = Kbm::builder(self.kbm_root.to_kbm_root()).range(
            PianoKey::from_midi_number(self.lower_key_bound)..PianoKey::from_midi_number(
                self.upper_key_bound,
            ),
        );
        if let Some(items) = &self.items {
            let ghost start = builder@;
            let mut i: usize = 0;
            assert(item_entries(items@.take(0)) =~= Seq::<Option<i16>>::empty());
            assert(start.mapping =~= start.mapping + Seq::<Option<i16>>::empty());
            while i < items.len()
                invariant
                    i <= items@.len(),
                    builder@ == (KbmBuilderView {
                        mapping: start.mapping + item_entries(items@.take(i as int)),
                        ..start
                    }),
                decreases items@.len() - i,
            {
                match items[i] {
                    Item::Mapped(scale_degree) => {
                        builder = builder.push_mapped_key(scale_degree);
                    },
                    Item::Unmapped => {
                        builder = builder.push_unmapped_key();
                    },
                }
                i = i + 1;
                assert(builder@.mapping =~= start.mapping + item_entries(items@.take(i as int)));
            }
            assert(items@.take(i as int) =~= items@);
        }
        if let Some(formal_octave) = self.formal_octave {
            builder = builder.formal_octave(formal_octave);
        }
        assert(builder@ =~= self.builder_view());
        builder.build()
    }
}

} // verus!
