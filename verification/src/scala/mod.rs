//! Interop with Scala keyboard mapping files.
//!
//! The reference pitch of a keyboard mapping is carried as a value of the type parameter `P`,
//! which the mapping logic never inspects.
use core::ops::Range;
use vstd::prelude::*;

use vstd::string::StringExecFns;

use crate::key::PianoKey;
use crate::math;
use crate::text;

pub mod import;
pub mod options;
pub mod scl;

pub use import::{KbmImportError, KbmParseErrorKind, KbmStructuralError};
pub use scl::{
    create_harmonics_scale, PitchValue, Scl, SclBuildError, SclBuilder, SclImportError,
    SclParseErrorKind, SclStructuralError, SegmentType,
};

verus! {

/// Defines an absolute horizontal and vertical location of a scale.
///
/// The mapping described by [`KbmRoot`] is linear: the keyboard mapping degree and the scale degree
/// are the same number. If the mapping is required to be non-linear [`KbmRoot`] needs to be
/// surrounded by the more general [`Kbm`] struct.
#[derive(Copy, Clone, Debug, PartialEq)]
pub struct KbmRoot<P> {
    /// The [`PianoKey`] that maps to degree 0 of the keyboard mapping.
    /// If a [`Kbm`] surrounding is used with the first entry being *n*, `ref_key` maps to scale
    /// degree *n*.
    pub ref_key: PianoKey,
    /// A pitch that is guaranteed to be present in a tuning but which might be skipped in the
    /// keyboard mapping spanned by the [`Kbm`] surrounding.
    pub ref_pitch: P,
    /// The amount by which the scale's root is displaced wrt. to `ref_key`.
    pub root_offset: i32,
}

/// The mathematical content of a [`Kbm`].
pub struct KbmView<P> {
    pub ref_key: int,
    pub ref_pitch: P,
    pub root_offset: int,
    /// The mapped keys are `[range_start, range_end)`.
    pub range_start: int,
    pub range_end: int,
    /// The scale degree of each keyboard mapping degree, `None` for an unmapped key.
    pub mapping: Seq<Option<i16>>,
    /// The scale degree shift that corresponds to a shift of the mapping by its size.
    pub formal_octave: int,
}

impl<P> KbmView<P> {
    /// The scale degree of the key with the given MIDI number: keys outside the range and unmapped
    /// keys have none; an empty mapping is linear; otherwise the mapping repeats with a shift of
    /// `formal_octave` scale degrees.
    pub open spec fn scale_degree(self, key: int) -> Option<int> {
        if !(self.range_start <= key < self.range_end) {
            None
        } else {
            let key_degree = key - self.ref_key;
            let num_items = self.mapping.len() as int;
            if num_items == 0 {
                Some(key_degree)
            } else {
                match self.mapping[key_degree % num_items] {
                    Some(degree) => Some(degree + (key_degree / num_items) * self.formal_octave),
                    None => None,
                }
            }
        }
    }

    /// Whether the scale degree of `key`, and the intermediate values it is computed from, fit in
    /// an `i32`.
    pub open spec fn scale_degree_fits(self, key: int) -> bool {
        let key_degree = key - self.ref_key;
        let num_items = self.mapping.len() as int;
        self.range_start <= key < self.range_end ==> {
            &&& i32::MIN <= key_degree <= i32::MAX
            &&& num_items > 0 ==> (self.mapping[key_degree % num_items] matches Some(degree) ==> {
                &&& i32::MIN <= (key_degree / num_items) * self.formal_octave <= i32::MAX
                &&& i32::MIN <= degree + (key_degree / num_items) * self.formal_octave <= i32::MAX
            })
        }
    }
}

/// Keyboard mappings according to <http://www.huygens-fokker.org/scala/help.htm#mappings>.
///
/// For more specialized linear keyboard mappings use [`KbmRoot`].
#[derive(Debug)]
pub struct Kbm<P> {
    kbm_root: KbmRoot<P>,
    range_start: PianoKey,
    range_end: PianoKey,
    num_items: u16,
    key_mapping: Vec<Option<i16>>,
    formal_octave: i16,
}

impl<P> View for Kbm<P> {
    type V = KbmView<P>;

    closed spec fn view(&self) -> KbmView<P> {
        KbmView {
            ref_key: self.kbm_root.ref_key.midi(),
            ref_pitch: self.kbm_root.ref_pitch,
            root_offset: self.kbm_root.root_offset as int,
            range_start: self.range_start.midi(),
            range_end: self.range_end.midi(),
            mapping: self.key_mapping@,
            formal_octave: self.formal_octave as int,
        }
    }
}

impl<P> Kbm<P> {
    /// The number of mapping entries is recorded in `num_items`.
    #[verifier::type_invariant]
    spec fn consistent(self) -> bool {
        self.key_mapping@.len() == self.num_items
    }

    /// Starts building a [`Kbm`] around `kbm_root` that maps the keys `[0, 128)` linearly.
    pub fn builder(kbm_root: KbmRoot<P>) -> (r: KbmBuilder<P>)
        ensures
            r@ == (KbmBuilderView {
                ref_key: kbm_root.ref_key.midi(),
                ref_pitch: kbm_root.ref_pitch,
                root_offset: kbm_root.root_offset as int,
                range_start: 0,
                range_end: 128,
                mapping: Seq::empty(),
                formal_octave: None,
            }),
    {
        KbmBuilder {
            kbm_root,
            range: PianoKey::from_midi_number(0)..PianoKey::from_midi_number(128),
            key_mapping: Vec::new(),
            formal_octave: None,
        }
    }

    /// Replaces the root of the mapping.
    pub fn set_kbm_root(&mut self, kbm_root: KbmRoot<P>)
        ensures
            final(self)@ == (KbmView {
                ref_key: kbm_root.ref_key.midi(),
                ref_pitch: kbm_root.ref_pitch,
                root_offset: kbm_root.root_offset as int,
                ..old(self)@
            }),
    {
        proof {
            use_type_invariant(&*self);
        }
        self.kbm_root = kbm_root
    }

    /// The keys that the mapping covers, as a range.
    pub fn range(&self) -> (r: Range<PianoKey>)
        ensures
            r.start.midi() == self@.range_start,
            r.end.midi() == self@.range_end,
    {
        self.range_start..self.range_end
    }

    /// The keys that the mapping covers, in ascending order.
    pub fn range_iter(&self) -> (r: Vec<PianoKey>)
        ensures
            r@.len() == if self@.range_start < self@.range_end {
                self@.range_end - self@.range_start
            } else {
                0
            },
            forall|i: int| 0 <= i < r@.len() ==> #[trigger] r@[i].midi() == self@.range_start + i,
    {
        self.range_start.keys_before(self.range_end)
    }

    /// The scale degree shift that corresponds to a shift of the mapping by its size.
    pub fn formal_octave(&self) -> (r: i16)
        ensures
            r == self@.formal_octave,
    {
        self.formal_octave
    }

    /// The number of entries of the mapping.
    pub fn num_items(&self) -> (r: u16)
        ensures
            r == self@.mapping.len(),
    {
        proof {
            use_type_invariant(self);
        }
        self.num_items
    }

    /// Returns the scale degree for the given [`PianoKey`].
    pub fn scale_degree_of(&self, key: PianoKey) -> (r: Option<i32>)
        requires
            self@.scale_degree_fits(key.midi()),
        ensures
            r == (match self@.scale_degree(key.midi()) {
                Some(degree) => Some(degree as i32),
                None => None::<i32>,
            }),
    {
        proof {
            use_type_invariant(self);
        }
        if !(self.range_start.midi_number() <= key.midi_number() && key.midi_number()
            < self.range_end.midi_number()) {
            return None;
        }
        let key_degree = self.kbm_root.ref_key.num_keys_before(key);
        if self.num_items == 0 {
            return Some(key_degree);
        }
        let (factor, index) = math::i32_dr_u(key_degree, self.num_items);
        match self.key_mapping[index as usize] {
            Some(degree) => {
                Some(degree as i32 + factor * self.formal_octave as i32)
            },
            None => None,
        }
    }
}

impl<P> Kbm<P> {
    /// Imports a keyboard mapping in KBM file format, reading the reference frequency with
    /// `parse_pitch` (see [`import::import_kbm`]).
    pub fn import<F: Fn(&str) -> Option<P>>(input: &str, parse_pitch: F) -> (r: Result<
        Kbm<P>,
        KbmImportError,
    >)
        requires
            input@.len() < usize::MAX,
            import::kbm_range_fits(import::text_lines(input@)),
            forall|t: &str| #[trigger] parse_pitch.requires((t,)),
        ensures
            import::kbm_needs_pitch(import::text_lines(input@)) ==> exists|t: &str, pitch: Option<P>|
                t@ == import::item(import::text_lines(input@), 5) && #[trigger] parse_pitch.ensures(
                    (t,),
                    pitch,
                ) && import::import_view(r) == import::kbm_from_lines(
                    import::text_lines(input@),
                    pitch,
                ),
            !import::kbm_needs_pitch(import::text_lines(input@)) ==> import::import_view(r)
                == import::kbm_from_lines(import::text_lines(input@), None::<P>),
    {
        import::import_kbm(input, parse_pitch)
    }
}

impl<P: Copy> Clone for Kbm<P> {
    fn clone(&self) -> (r: Self)
        ensures
            r@ == self@,
    {
        proof {
            use_type_invariant(self);
        }
        let key_mapping = self.key_mapping.clone();
        assert(key_mapping@ =~= self.key_mapping@);
        Kbm {
            kbm_root: self.kbm_root,
            range_start: self.range_start,
            range_end: self.range_end,
            num_items: self.num_items,
            key_mapping,
            formal_octave: self.formal_octave,
        }
    }
}

impl<P: Copy> Kbm<P> {
    /// The root of the mapping.
    pub fn kbm_root(&self) -> (r: KbmRoot<P>)
        ensures
            r.ref_key.midi() == self@.ref_key,
            r.ref_pitch == self@.ref_pitch,
            r.root_offset == self@.root_offset,
    {
        self.kbm_root
    }
}

impl<P> KbmRoot<P> {
    /// Creates a quasi-equivalent [`Kbm`] surrounding which can be exported.
    pub fn to_kbm(self) -> (r: Kbm<P>)
        ensures
            r@ == (KbmView {
                ref_key: self.ref_key.midi(),
                ref_pitch: self.ref_pitch,
                root_offset: self.root_offset as int,
                range_start: 0,
                range_end: 128,
                mapping: seq![Some(0i16)],
                formal_octave: 1,
            }),
    {
        let kbm = Kbm::builder(self).push_mapped_key(0).formal_octave(1).build_unchecked();
        assert(kbm@.mapping =~= seq![Some(0i16)]);
        kbm
    }
}

/// A line of text: its content followed by a line break.
pub open spec fn text_line(content: Seq<char>) -> Seq<char> {
    content.push('\n')
}

/// The text of a mapping entry: `x` for an unmapped key, the scale degree otherwise.
pub open spec fn entry_text(entry: Option<i16>) -> Seq<char> {
    match entry {
        Some(degree) => text::decimal(degree as int),
        None => seq!['x'],
    }
}

/// The lines of the mapping table.
pub open spec fn mapping_text(mapping: Seq<Option<i16>>) -> Seq<char>
    decreases mapping.len(),
{
    if mapping.len() == 0 {
        Seq::empty()
    } else {
        mapping_text(mapping.drop_last()) + text_line(entry_text(mapping.last()))
    }
}

/// The keyboard mapping in KBM file format, with `pitch_text` as its reference frequency: map
/// size, first and last mapped MIDI note, the note of the scale's root, the reference note, the
/// reference frequency, the formal octave and the mapping table, one item per line.
pub open spec fn kbm_text<P>(kbm: KbmView<P>, pitch_text: Seq<char>) -> Seq<char> {
    text_line(text::decimal(kbm.mapping.len() as int)) + text_line(text::decimal(kbm.range_start))
        + text_line(text::decimal(kbm.range_end - 1)) + text_line(
        text::decimal(kbm.ref_key + kbm.root_offset),
    ) + text_line(text::decimal(kbm.ref_key)) + text_line(pitch_text) + text_line(
        text::decimal(kbm.formal_octave),
    ) + mapping_text(kbm.mapping)
}

impl<P> KbmView<P> {
    /// Whether the last mapped note and the note of the scale's root fit in an `i32`.
    pub open spec fn export_fits(self) -> bool {
        &&& i32::MIN < self.range_end
        &&& i32::MIN <= self.ref_key + self.root_offset <= i32::MAX
    }
}

impl<P> Kbm<P> {
    /// Exports the keyboard mapping in KBM file format, writing the reference frequency with
    /// `format_pitch`, which is called once.
    pub fn export<F: Fn(&P) -> String>(&self, format_pitch: F) -> (r: String)
        requires
            self@.export_fits(),
            format_pitch.requires((&self@.ref_pitch,)),
        ensures
            exists|pitch_text: String|
                #[trigger] format_pitch.ensures((&self@.ref_pitch,), pitch_text) && r@ == kbm_text(
                    self@,
                    pitch_text@,
                ),
    {
        proof {
            use_type_invariant(self);
        }
        let ghost kbm = self@;
        let mut out = String::new();
        text::push_decimal(&mut out, self.num_items as i64);
        text::push_char(&mut out, '\n');
        text::push_decimal(&mut out, self.range_start.midi_number() as i64);
        text::push_char(&mut out, '\n');
        text::push_decimal(&mut out, self.range_end.midi_number() as i64 - 1);
        text::push_char(&mut out, '\n');
        let ref_key = self.kbm_root.ref_key.midi_number();
        text::push_decimal(&mut out, (ref_key + self.kbm_root.root_offset) as i64);
        text::push_char(&mut out, '\n');
        text::push_decimal(&mut out, ref_key as i64);
        text::push_char(&mut out, '\n');
        let pitch_text = format_pitch(&self.kbm_root.ref_pitch);
        out.append(pitch_text.as_str());
        text::push_char(&mut out, '\n');
        text::push_decimal(&mut out, self.formal_octave as i64);
        text::push_char(&mut out, '\n');
        let ghost header = out@;
        assert(header =~= kbm_text(kbm, pitch_text@).take(header.len() as int)) by {
            assert(kbm_text(kbm, pitch_text@) =~= header + mapping_text(kbm.mapping));
        }
        let mut i: usize = 0;
        assert(kbm.mapping.take(0) =~= Seq::<Option<i16>>::empty());
        while i < self.key_mapping.len()
            invariant
                kbm == self@,
                i <= self.key_mapping@.len(),
                out@ == header + mapping_text(kbm.mapping.take(i as int)),
            decreases self.key_mapping@.len() - i,
        {
            match self.key_mapping[i] {
                Some(degree) => text::push_decimal(&mut out, degree as i64),
                None => text::push_char(&mut out, 'x'),
            }
            text::push_char(&mut out, '\n');
            assert(kbm.mapping.take(i + 1).drop_last() =~= kbm.mapping.take(i as int));
            assert(kbm.mapping.take(i + 1).last() == kbm.mapping[i as int]);
            i = i + 1;
            assert(out@ =~= header + mapping_text(kbm.mapping.take(i as int)));
        }
        assert(kbm.mapping.take(i as int) =~= kbm.mapping);
        assert(out@ =~= kbm_text(kbm, pitch_text@));
        out
    }
}

/// The lines of the KBM text of `kbm`, without their line breaks.
pub open spec fn kbm_items<P>(kbm: KbmView<P>, pitch_text: Seq<char>) -> Seq<Seq<char>> {
    seq![
        text::decimal(kbm.mapping.len() as int),
        text::decimal(kbm.range_start),
        text::decimal(kbm.range_end - 1),
        text::decimal(kbm.ref_key + kbm.root_offset),
        text::decimal(kbm.ref_key),
        pitch_text,
        text::decimal(kbm.formal_octave),
    ] + kbm.mapping.map_values(|entry: Option<i16>| entry_text(entry))
}

proof fn lemma_mapping_text_joined(mapping: Seq<Option<i16>>)
    ensures
        mapping_text(mapping) == import::joined_lines(
            mapping.map_values(|entry: Option<i16>| entry_text(entry)),
        ),
    decreases mapping.len(),
{
    if mapping.len() > 0 {
        lemma_mapping_text_joined(mapping.drop_last());
        let texts = mapping.map_values(|entry: Option<i16>| entry_text(entry));
        assert(texts.drop_last() =~= mapping.drop_last().map_values(
            |entry: Option<i16>| entry_text(entry),
        ));
    } else {
        assert(mapping.map_values(|entry: Option<i16>| entry_text(entry)) =~= Seq::<
            Seq<char>,
        >::empty());
    }
}

proof fn lemma_kbm_text_joined<P>(kbm: KbmView<P>, pitch_text: Seq<char>)
    ensures
        kbm_text(kbm, pitch_text) == import::joined_lines(kbm_items(kbm, pitch_text)),
{
    let header = kbm_items(kbm, pitch_text).take(7);
    let entries = kbm.mapping.map_values(|entry: Option<i16>| entry_text(entry));
    assert(kbm_items(kbm, pitch_text) =~= header + entries);
    import::lemma_joined_concat(header, entries);
    lemma_mapping_text_joined(kbm.mapping);
    reveal_with_fuel(import::joined_lines, 8);
    assert(header.drop_last().drop_last().drop_last().drop_last().drop_last().drop_last().drop_last()
        =~= Seq::<Seq<char>>::empty());
    assert(import::joined_lines(header) =~= text_line(text::decimal(kbm.mapping.len() as int))
        + text_line(text::decimal(kbm.range_start)) + text_line(text::decimal(kbm.range_end - 1))
        + text_line(text::decimal(kbm.ref_key + kbm.root_offset)) + text_line(
        text::decimal(kbm.ref_key),
    ) + text_line(pitch_text) + text_line(text::decimal(kbm.formal_octave)));
}

proof fn lemma_entries_read_back(lines: Seq<(int, Seq<char>)>, mapping: Seq<Option<i16>>)
    requires
        lines.len() == mapping.len(),
        forall|k: int| 0 <= k < lines.len() ==> (#[trigger] lines[k]).1 == entry_text(mapping[k]),
    ensures
        import::mapping_of(lines) == Ok::<Seq<Option<i16>>, KbmImportError>(mapping),
    decreases lines.len(),
{
    if lines.len() > 0 {
        let n = lines.len() - 1;
        lemma_entries_read_back(lines.drop_last(), mapping.drop_last());
        let entry = mapping[n];
        let t = entry_text(entry);
        match entry {
            Some(degree) => {
                import::lemma_decimal_parses(degree as int, i16::MIN as int, i16::MAX as int);
            },
            None => {
                assert(import::is_word(t));
            },
        }
        import::lemma_text_lines_of_words(seq![t]);
        assert(seq![t][0] == t);
        assert(import::main_item(lines.last().1) == t);
        assert(import::mapping_entry(t) == Some(entry));
        assert(mapping.drop_last().push(entry) =~= mapping);
    } else {
        assert(mapping =~= Seq::<Option<i16>>::empty());
    }
}

/// What [`Kbm::export`] writes, [`Kbm::import`] reads back: the KBM text of a mapping, with a
/// reference frequency written as a single word that reads back as the reference pitch, describes
/// that same mapping. This holds for every mapping whose reference note and root note fit in an
/// `i16`, as the format reads them.
pub proof fn lemma_export_then_import<P>(kbm: KbmView<P>, pitch_text: Seq<char>)
    requires
        kbm.mapping.len() <= u16::MAX,
        i32::MIN <= kbm.range_start <= i32::MAX,
        i32::MIN < kbm.range_end <= i32::MAX,
        i16::MIN <= kbm.ref_key <= i16::MAX,
        i16::MIN <= kbm.ref_key + kbm.root_offset <= i16::MAX,
        i16::MIN <= kbm.formal_octave <= i16::MAX,
        import::is_word(pitch_text),
    ensures
        import::kbm_range_fits(import::text_lines(kbm_text(kbm, pitch_text))),
        import::kbm_needs_pitch(import::text_lines(kbm_text(kbm, pitch_text))),
        import::item(import::text_lines(kbm_text(kbm, pitch_text)), 5) == pitch_text,
        import::kbm_from_lines(import::text_lines(kbm_text(kbm, pitch_text)), Some(kbm.ref_pitch))
            == Ok::<KbmView<P>, KbmImportError>(kbm),
{
    let items = kbm_items(kbm, pitch_text);
    let entries = kbm.mapping.map_values(|entry: Option<i16>| entry_text(entry));
    let lines = import::text_lines(kbm_text(kbm, pitch_text));
    assert(lines == import::numbered(items) && forall|k: int|
        0 <= k < items.len() ==> import::main_item(#[trigger] items[k]) == items[k]) by {
        lemma_kbm_text_joined(kbm, pitch_text);
        lemma_kbm_items_are_words(kbm, pitch_text);
        import::lemma_text_lines_of_words(items);
    }
    assert forall|k: int| 0 <= k < 7 implies import::item(lines, k) == #[trigger] items[k] by {
        assert(lines[k] == (k + 1, items[k]));
    }
    let header = import::KbmHeader {
        num_items: kbm.mapping.len() as int,
        first_note: kbm.range_start,
        last_note: kbm.range_end - 1,
        origin: kbm.ref_key + kbm.root_offset,
        ref_note: kbm.ref_key,
    };
    assert(import::kbm_header(lines) == Ok::<import::KbmHeader, KbmImportError>(header)) by {
        import::lemma_decimal_parses(kbm.mapping.len() as int, 0, u16::MAX as int);
        import::lemma_decimal_parses(kbm.range_start, i32::MIN as int, i32::MAX as int);
        import::lemma_decimal_parses(kbm.range_end - 1, i32::MIN as int, i32::MAX as int);
        import::lemma_decimal_parses(
            kbm.ref_key + kbm.root_offset,
            i16::MIN as int,
            i16::MAX as int,
        );
        import::lemma_decimal_parses(kbm.ref_key, i16::MIN as int, i16::MAX as int);
    }
    let rest = lines.subrange(7, lines.len() as int);
    assert(import::mapping_of(rest) == Ok::<Seq<Option<i16>>, KbmImportError>(kbm.mapping)) by {
        assert forall|k: int| 0 <= k < rest.len() implies (#[trigger] rest[k]).1 == entry_text(
            kbm.mapping[k],
        ) by {
            assert(rest[k] == lines[k + 7]);
            assert(items[k + 7] == entries[k]);
        }
        lemma_entries_read_back(rest, kbm.mapping);
    }
    assert(import::kbm_body(lines, header, kbm.ref_pitch) =~= Ok::<KbmView<P>, KbmImportError>(kbm))
        by {
        import::lemma_decimal_parses(kbm.formal_octave, i16::MIN as int, i16::MAX as int);
        assert(import::padded(kbm.mapping, kbm.mapping.len() as int) == kbm.mapping);
    }
}

proof fn lemma_kbm_items_are_words<P>(kbm: KbmView<P>, pitch_text: Seq<char>)
    requires
        kbm.mapping.len() <= u16::MAX,
        i32::MIN <= kbm.range_start <= i32::MAX,
        i32::MIN < kbm.range_end <= i32::MAX,
        i16::MIN <= kbm.ref_key <= i16::MAX,
        i16::MIN <= kbm.ref_key + kbm.root_offset <= i16::MAX,
        i16::MIN <= kbm.formal_octave <= i16::MAX,
        import::is_word(pitch_text),
    ensures
        forall|k: int|
            0 <= k < kbm_items(kbm, pitch_text).len() ==> import::is_word(
                #[trigger] kbm_items(kbm, pitch_text)[k],
            ),
{
    let items = kbm_items(kbm, pitch_text);
    let entries = kbm.mapping.map_values(|entry: Option<i16>| entry_text(entry));
    import::lemma_decimal_parses(kbm.mapping.len() as int, 0, u16::MAX as int);
    import::lemma_decimal_parses(kbm.range_start, i32::MIN as int, i32::MAX as int);
    import::lemma_decimal_parses(kbm.range_end - 1, i32::MIN as int, i32::MAX as int);
    import::lemma_decimal_parses(kbm.ref_key + kbm.root_offset, i16::MIN as int, i16::MAX as int);
    import::lemma_decimal_parses(kbm.ref_key, i16::MIN as int, i16::MAX as int);
    import::lemma_decimal_parses(kbm.formal_octave, i16::MIN as int, i16::MAX as int);
    assert forall|k: int| 0 <= k < items.len() implies import::is_word(#[trigger] items[k]) by {
        if k >= 7 {
            assert(items[k] == entries[k - 7]);
            match kbm.mapping[k - 7] {
                Some(degree) => {
                    import::lemma_decimal_parses(degree as int, i16::MIN as int, i16::MAX as int);
                },
                None => {},
            }
        }
    }
}

/// A shift by the size of a non-empty mapping shifts the scale degree by the formal octave: when
/// `key` and `key + num_items` both lie in the range, either both are unmapped or the degree of the
/// latter is that of the former plus `formal_octave`.
pub proof fn lemma_kbm_repeats<P>(kbm: KbmView<P>, key: int)
    requires
        kbm.mapping.len() > 0,
        kbm.range_start <= key,
        key + kbm.mapping.len() < kbm.range_end,
    ensures
        kbm.scale_degree(key + kbm.mapping.len()) == match kbm.scale_degree(key) {
            Some(degree) => Some(degree + kbm.formal_octave),
            None => None::<int>,
        },
{
    let n = kbm.mapping.len() as int;
    let d = key - kbm.ref_key;
    vstd::arithmetic::div_mod::lemma_mod_add_multiples_vanish(d, n);
    vstd::arithmetic::div_mod::lemma_div_plus_one(d, n);
    assert((key + n) - kbm.ref_key == d + n);
    match kbm.mapping[d % n] {
        Some(degree) => {
            vstd::arithmetic::mul::lemma_mul_is_distributive_add_other_way(
                kbm.formal_octave,
                d / n,
                1,
            );
        },
        None => {},
    }
}

/// The surrounding that [`KbmRoot::to_kbm`] creates maps every key of `[0, 128)` linearly: its
/// scale degree is its distance from the reference key.
pub proof fn lemma_to_kbm_is_linear<P>(kbm_root: KbmRoot<P>, key: int)
    requires
        0 <= key < 128,
    ensures
        (KbmView {
            ref_key: kbm_root.ref_key.midi(),
            ref_pitch: kbm_root.ref_pitch,
            root_offset: kbm_root.root_offset as int,
            range_start: 0,
            range_end: 128,
            mapping: seq![Some(0i16)],
            formal_octave: 1,
        }).scale_degree(key) == Some(key - kbm_root.ref_key.midi()),
{
    let d = key - kbm_root.ref_key.midi();
    vstd::arithmetic::div_mod::lemma_fundamental_div_mod(d, 1);
    vstd::arithmetic::div_mod::lemma_div_basics(d);
}

/// The mathematical content of a [`KbmBuilder`].
pub struct KbmBuilderView<P> {
    pub ref_key: int,
    pub ref_pitch: P,
    pub root_offset: int,
    pub range_start: int,
    pub range_end: int,
    pub mapping: Seq<Option<i16>>,
    pub formal_octave: Option<i16>,
}

impl<P> KbmBuilderView<P> {
    /// The error that building reports, if any: a non-empty mapping needs a formal octave, and the
    /// size of the mapping has to fit in a `u16`.
    pub open spec fn build_error(self) -> Option<KbmBuildError> {
        if self.mapping.len() > 0 && self.formal_octave is None {
            Some(KbmBuildError::FormalOctaveMissing)
        } else if self.mapping.len() > u16::MAX {
            Some(KbmBuildError::MappingTooLarge)
        } else {
            None
        }
    }

    /// The mapping that building yields.
    pub open spec fn built(self) -> KbmView<P> {
        KbmView {
            ref_key: self.ref_key,
            ref_pitch: self.ref_pitch,
            root_offset: self.root_offset,
            range_start: self.range_start,
            range_end: self.range_end,
            mapping: self.mapping,
            formal_octave: match self.formal_octave {
                Some(formal_octave) => formal_octave as int,
                None => 0,
            },
        }
    }
}

/// Builder created by [`Kbm::builder`].
pub struct KbmBuilder<P> {
    kbm_root: KbmRoot<P>,
    range: Range<PianoKey>,
    key_mapping: Vec<Option<i16>>,
    formal_octave: Option<i16>,
}

impl<P> View for KbmBuilder<P> {
    type V = KbmBuilderView<P>;

    closed spec fn view(&self) -> KbmBuilderView<P> {
        KbmBuilderView {
            ref_key: self.kbm_root.ref_key.midi(),
            ref_pitch: self.kbm_root.ref_pitch,
            root_offset: self.kbm_root.root_offset as int,
            range_start: self.range.start.midi(),
            range_end: self.range.end.midi(),
            mapping: self.key_mapping@,
            formal_octave: self.formal_octave,
        }
    }
}

impl<P> KbmBuilder<P> {
    /// Sets the keys that the mapping covers.
    pub fn range(self, range: Range<PianoKey>) -> (r: Self)
        ensures
            r@ == (KbmBuilderView {
                range_start: range.start.midi(),
                range_end: range.end.midi(),
                ..self@
            }),
    {
        let mut builder = self;
        builder.range = range;
        builder
    }

    /// Appends a key that maps to `scale_degree`.
    pub fn push_mapped_key(self, scale_degree: i16) -> (r: Self)
        ensures
            r@ == (KbmBuilderView { mapping: self@.mapping.push(Some(scale_degree)), ..self@ }),
    {
        let mut builder = self;
        builder.key_mapping.push(Some(scale_degree));
        builder
    }

    /// Appends a key that is not mapped.
    pub fn push_unmapped_key(self) -> (r: Self)
        ensures
            r@ == (KbmBuilderView { mapping: self@.mapping.push(None), ..self@ }),
    {
        let mut builder = self;
        builder.key_mapping.push(None);
        builder
    }

    /// Sets the formal octave, which is mandatory if at least one key is pushed.
    pub fn formal_octave(self, formal_octave: i16) -> (r: Self)
        ensures
            r@ == (KbmBuilderView { formal_octave: Some(formal_octave), ..self@ }),
    {
        let mut builder = self;
        builder.formal_octave = Some(formal_octave);
        builder
    }

    /// Builds the [`Kbm`], or reports why it cannot be built.
    pub fn build(self) -> (r: Result<Kbm<P>, KbmBuildError>)
        ensures
            match self@.build_error() {
                Some(error) => r == Err::<Kbm<P>, KbmBuildError>(error),
                None => r matches Ok(kbm) && kbm@ == self@.built(),
            },
    {
        if self.key_mapping.len() > 0 && self.formal_octave.is_none() {
            return Err(KbmBuildError::FormalOctaveMissing);
        }
        if self.key_mapping.len() > 65535 {
            return Err(KbmBuildError::MappingTooLarge);
        }
        Ok(self.build_unchecked())
    }

    /// Builds the [`Kbm`] of a mapping whose size fits.
    fn build_unchecked(self) -> (r: Kbm<P>)
        requires
            self@.mapping.len() <= u16::MAX,
        ensures
            r@ == self@.built(),
    {
        let num_items = self.key_mapping.len() as u16;
        let formal_octave = match self.formal_octave {
            Some(formal_octave) => formal_octave,
            None => 0,
        };
        Kbm {
            kbm_root: self.kbm_root,
            range_start: self.range.start,
            range_end: self.range.end,
            num_items,
            key_mapping: self.key_mapping,
            formal_octave,
        }
    }
}

/// Error reported when building a [`Kbm`] fails.
#[derive(Clone, Copy, Debug, Eq, PartialEq, Structural)]
pub enum KbmBuildError {
    /// No formal octave parameter has been set.
    ///
    /// The formal octave parameter is mandatory if at least one key is pushed.
    FormalOctaveMissing,
    /// There are too many items in this mapping.
    MappingTooLarge,
}

} // verus!
