//! Scales in Scala's SCL format: a description, the number of items, and one pitch value per
//! line, each a cents value, a ratio or an integer; the last item is the period.
//!
//! A cents value is of a type `C` of the caller's: the caller reads and writes it, and checks
//! whether the items lie within the period, which compares pitches.
use vstd::prelude::*;
use vstd::string::StrSliceExecFns;

use crate::scala::import::{
    int_at, int_item, item, lines_located, line_view, located, main_item, main_item_range,
    parse_int, parsed_int, text_lines, text_lines_of, TextLine,
};
use crate::text;

verus! {

broadcast use vstd::string::group_string_axioms;

/// A pitch value of a scale: a cents value, or a ratio of integers whose denominator is 1 where
/// it is absent.
#[derive(Clone, Copy, Debug)]
pub enum PitchValue<C> {
    Cents(C),
    Fraction(u32, Option<u32>),
}

/// Error reported when building an [`Scl`] fails.
#[derive(Clone, Copy, Debug, PartialEq, Eq, Structural)]
pub enum SclBuildError {
    /// The scale does not contain any items except for the default ratio (0 cents).
    ScaleIsTrivial,
    /// The scale contains an item that is smaller than the default ratio (0 cents) or larger than
    /// the period.
    ItemOutOfRange,
    /// There are too many items in this scale.
    ScaleTooLarge,
}

/// Error reported when importing an [`Scl`] fails.
#[derive(Clone, Copy, Debug, PartialEq, Eq, Structural)]
pub enum SclImportError {
    ParseError { line_number: usize, kind: SclParseErrorKind },
    StructuralError(SclStructuralError),
    BuildError(SclBuildError),
}

/// Specifies which kind of item is suspected to be malformed.
#[derive(Clone, Copy, Debug, PartialEq, Eq, Structural)]
pub enum SclParseErrorKind {
    /// Invalid integer value or out of range.
    IntValue,
    /// Invalid cents value.
    CentsValue,
    /// Invalid numerator.
    Numer,
    /// Invalid denominator.
    Denom,
}

/// Indicates that the structure of the imported [`Scl`] file is incomplete.
#[derive(Clone, Copy, Debug, PartialEq, Eq, Structural)]
pub enum SclStructuralError {
    ExpectingDescription,
    ExpectingNumberOfNotes,
    InconsistentNumberOfNotes,
}

/// A scale in SCL format.
pub struct Scl<C> {
    description: String,
    pitch_values: Vec<PitchValue<C>>,
}

/// The content of an [`Scl`].
pub struct SclView<C> {
    pub description: Seq<char>,
    pub pitch_values: Seq<PitchValue<C>>,
}

impl<C> View for Scl<C> {
    type V = SclView<C>;

    closed spec fn view(&self) -> SclView<C> {
        SclView { description: self.description@, pitch_values: self.pitch_values@ }
    }
}

/// The scale built from `pitch_values` with `description`, given what the check of the items
/// against the period found.
pub open spec fn built<C>(
    description: Seq<char>,
    pitch_values: Seq<PitchValue<C>>,
    checked: Option<SclBuildError>,
) -> Result<SclView<C>, SclBuildError> {
    match checked {
        Some(error) => Err(error),
        None => if pitch_values.len() > u16::MAX {
            Err(SclBuildError::ScaleTooLarge)
        } else {
            Ok(SclView { description, pitch_values })
        },
    }
}

/// The content of a build result.
pub open spec fn build_view<C>(r: Result<Scl<C>, SclBuildError>) -> Result<SclView<C>, SclBuildError> {
    match r {
        Ok(scl) => Ok(scl@),
        Err(error) => Err(error),
    }
}

impl<C> Scl<C> {
    /// A scale holds at most `u16::MAX` items.
    #[verifier::type_invariant]
    spec fn fits(self) -> bool {
        self.pitch_values@.len() <= u16::MAX
    }

    /// Starts building a scale with no items.
    pub fn builder() -> (r: SclBuilder<C>)
        ensures
            r@ == Seq::<PitchValue<C>>::empty(),
    {
        SclBuilder { pitch_values: Vec::new() }
    }

    /// The description of the scale.
    pub fn description(&self) -> (r: &str)
        ensures
            r@ == self@.description,
    {
        self.description.as_str()
    }

    /// Replaces the description of the scale.
    pub fn set_description(&mut self, description: String)
        ensures
            final(self)@.description == description@,
            final(self)@.pitch_values == old(self)@.pitch_values,
    {
        proof {
            use_type_invariant(&*self);
        }
        self.description = description;
    }

    /// The number of items, the period included.
    pub fn num_items(&self) -> (r: u16)
        ensures
            r == self@.pitch_values.len(),
    {
        proof {
            use_type_invariant(self);
        }
        self.pitch_values.len() as u16
    }

    /// The items, in the order of the file; the last one is the period.
    pub fn pitch_values(&self) -> (r: &[PitchValue<C>])
        ensures
            r@ == self@.pitch_values,
    {
        self.pitch_values.as_slice()
    }
}

/// Builder created by [`Scl::builder`].
pub struct SclBuilder<C> {
    pitch_values: Vec<PitchValue<C>>,
}

impl<C> View for SclBuilder<C> {
    type V = Seq<PitchValue<C>>;

    closed spec fn view(&self) -> Seq<PitchValue<C>> {
        self.pitch_values@
    }
}

impl<C> SclBuilder<C> {
    /// Appends a cents value.
    pub fn push_cents(self, cents_value: C) -> (r: Self)
        ensures
            r@ == self@.push(PitchValue::Cents(cents_value)),
    {
        let mut builder = self;
        builder.pitch_values.push(PitchValue::Cents(cents_value));
        builder
    }

    /// Appends an integer ratio.
    pub fn push_int(self, int_value: u32) -> (r: Self)
        ensures
            r@ == self@.push(PitchValue::Fraction(int_value, None)),
    {
        let mut builder = self;
        builder.pitch_values.push(PitchValue::Fraction(int_value, None));
        builder
    }

    /// Appends the ratio `numer/denom`.
    pub fn push_fraction(self, numer: u32, denom: u32) -> (r: Self)
        ensures
            r@ == self@.push(PitchValue::Fraction(numer, Some(denom))),
    {
        let mut builder = self;
        builder.pitch_values.push(PitchValue::Fraction(numer, Some(denom)));
        builder
    }

    /// Builds the scale with `description`. `check` tells whether the items lie between the
    /// default ratio (0 cents) and the period, and whether the period is the default ratio; it is
    /// called once, on the items.
    pub fn build_with_description<V: Fn(&[PitchValue<C>]) -> Option<SclBuildError>>(
        self,
        description: String,
        check: V,
    ) -> (r: Result<Scl<C>, SclBuildError>)
        requires
            forall|items: &[PitchValue<C>]| #[trigger] check.requires((items,)),
        ensures
            exists|items: &[PitchValue<C>], checked: Option<SclBuildError>|
                #[trigger] check.ensures((items,), checked) && items@ == self@ && build_view(r)
                    == built(description@, self@, checked),
    {
        let checked = check(self.pitch_values.as_slice());
        match checked {
            Some(error) => Err(error),
            None => if self.pitch_values.len() > 0xffff {
                Err(SclBuildError::ScaleTooLarge)
            } else {
                Ok(Scl { description, pitch_values: self.pitch_values })
            },
        }
    }
}

/// The text of a pitch value, with `cents_text` as the text of a cents value.
pub open spec fn pitch_value_text<C>(value: PitchValue<C>, cents_text: Seq<char>) -> Seq<char> {
    match value {
        PitchValue::Cents(_) => cents_text,
        PitchValue::Fraction(numer, Some(denom)) => text::decimal(numer as int) + seq!['/']
            + text::decimal(denom as int),
        PitchValue::Fraction(numer, None) => text::decimal(numer as int),
    }
}

/// The item lines of a scale, with `cents_texts[i]` as the text of the `i`-th value if it is a
/// cents value.
pub open spec fn items_text<C>(values: Seq<PitchValue<C>>, cents_texts: Seq<Seq<char>>) -> Seq<char>
    decreases values.len(),
{
    if values.len() == 0 {
        Seq::empty()
    } else {
        items_text(values.drop_last(), cents_texts) + pitch_value_text(
            values.last(),
            cents_texts[values.len() - 1],
        ).push('\n')
    }
}

/// The scale in SCL file format: the description, the number of items and the items, one per
/// line.
pub open spec fn scl_text<C>(scl: SclView<C>, cents_texts: Seq<Seq<char>>) -> Seq<char> {
    scl.description.push('\n') + text::decimal(scl.pitch_values.len() as int).push('\n')
        + items_text(scl.pitch_values, cents_texts)
}

impl<C> Scl<C> {
    /// Exports the scale in SCL file format, writing each cents value with `format_cents`.
    pub fn export<F: Fn(&C) -> String>(&self, format_cents: F) -> (r: String)
        requires
            forall|c: &C| #[trigger] format_cents.requires((c,)),
        ensures
            exists|cents_texts: Seq<Seq<char>>|
                #![trigger scl_text(self@, cents_texts)]
                {
                    &&& r@ == scl_text(self@, cents_texts)
                    &&& forall|i: int|
                        0 <= i < self@.pitch_values.len() ==> (
                        #[trigger] self@.pitch_values[i] matches PitchValue::Cents(c)
                            ==> exists|s: String|
                            format_cents.ensures((&c,), s) && s@ == cents_texts[i])
                },
    {
        proof {
            use_type_invariant(self);
        }
        let ghost scl = self@;
        let mut out = String::from_str(self.description.as_str());
        text::push_char(&mut out, '\n');
        text::push_decimal(&mut out, self.pitch_values.len() as i64);
        text::push_char(&mut out, '\n');
        let ghost header = out@;
        let ghost mut cents_texts: Seq<Seq<char>> = Seq::empty();
        let mut i: usize = 0;
        assert(scl.pitch_values.take(0) =~= Seq::<PitchValue<C>>::empty());
        while i < self.pitch_values.len()
            invariant
                scl == self@,
                forall|c: &C| #[trigger] format_cents.requires((c,)),
                i <= self.pitch_values@.len(),
                cents_texts.len() == i,
                out@ == header + items_text(scl.pitch_values.take(i as int), cents_texts),
                forall|j: int|
                    0 <= j < i ==> (#[trigger] scl.pitch_values[j] matches PitchValue::Cents(c)
                        ==> exists|s: String| format_cents.ensures((&c,), s) && s@ == cents_texts[j]),
            decreases self.pitch_values@.len() - i,
        {
            let ghost before = cents_texts;
            match &self.pitch_values[i] {
                PitchValue::Cents(c) => {
                    let s = format_cents(c);
                    out.append(s.as_str());
                    proof {
                        cents_texts = cents_texts.push(s@);
                    }
                },
                PitchValue::Fraction(numer, denom) => {
                    text::push_decimal(&mut out, *numer as i64);
                    if let Some(denom) = denom {
                        text::push_char(&mut out, '/');
                        text::push_decimal(&mut out, *denom as i64);
                    }
                    proof {
                        cents_texts = cents_texts.push(Seq::empty());
                    }
                },
            }
            text::push_char(&mut out, '\n');
            proof {
                let taken = scl.pitch_values.take(i + 1);
                assert(taken.drop_last() =~= scl.pitch_values.take(i as int));
                assert(taken.last() == scl.pitch_values[i as int]);
                lemma_items_text_indices(scl.pitch_values.take(i as int), before, cents_texts);
                assert forall|j: int|
                    0 <= j < i + 1 implies (#[trigger] scl.pitch_values[j] matches PitchValue::Cents(c)
                        ==> exists|s: String| format_cents.ensures((&c,), s) && s@ == cents_texts[j]) by {
                    if j < i {
                        assert(cents_texts[j] == before[j]);
                    }
                }
            }
            i = i + 1;
            assert(out@ =~= header + items_text(scl.pitch_values.take(i as int), cents_texts));
        }
        assert(scl.pitch_values.take(i as int) =~= scl.pitch_values);
        assert(out@ =~= scl_text(scl, cents_texts));
        out
    }
}

/// The item text depends only on the texts of its own items.
proof fn lemma_items_text_indices<C>(values: Seq<PitchValue<C>>, a: Seq<Seq<char>>, b: Seq<Seq<char>>)
    requires
        a.len() >= values.len(),
        b.len() >= values.len(),
        forall|j: int| 0 <= j < values.len() ==> a[j] == b[j],
    ensures
        items_text(values, a) == items_text(values, b),
    decreases values.len(),
{
    if values.len() > 0 {
        lemma_items_text_indices(values.drop_last(), a, b);
    }
}

/// The position of the first `c` in `t`, or the length of `t` if there is none.
pub open spec fn position_of(t: Seq<char>, c: char) -> int
    decreases t.len(),
{
    if t.len() == 0 || t[0] == c {
        0
    } else {
        1 + position_of(t.drop_first(), c)
    }
}

/// The position of the first `c` is `k` when `t[k]` is the first `c`, or when there is none and
/// `k` is the length of `t`.
proof fn lemma_position_of(t: Seq<char>, c: char, k: int)
    requires
        0 <= k <= t.len(),
        forall|j: int| 0 <= j < k ==> t[j] != c,
        k == t.len() || t[k] == c,
    ensures
        position_of(t, c) == k,
    decreases t.len(),
{
    if t.len() > 0 && t[0] != c {
        assert forall|j: int| 0 <= j < k - 1 implies t.drop_first()[j] != c by {
            assert(t.drop_first()[j] == t[j + 1]);
        }
        lemma_position_of(t.drop_first(), c, k - 1);
    }
}

/// The pitch value that the main item `t` of an item line denotes, with `cents` as what the
/// caller read from it if it holds a `.`: a cents value if it holds a `.`, else a ratio if it
/// holds a `/` (numerator before the first `/`, denominator after it), else an integer.
pub open spec fn scl_item<C>(t: Seq<char>, cents: Option<C>) -> Result<PitchValue<C>, SclParseErrorKind> {
    if position_of(t, '.') < t.len() {
        match cents {
            Some(c) => Ok(PitchValue::Cents(c)),
            None => Err(SclParseErrorKind::CentsValue),
        }
    } else if position_of(t, '/') < t.len() {
        let k = position_of(t, '/');
        match parsed_int(t.take(k), 0, u32::MAX as int) {
            None => Err(SclParseErrorKind::Numer),
            Some(numer) => match parsed_int(t.skip(k + 1), 0, u32::MAX as int) {
                None => Err(SclParseErrorKind::Denom),
                Some(denom) => Ok(PitchValue::Fraction(numer as u32, Some(denom as u32))),
            },
        }
    } else {
        match parsed_int(t, 0, u32::MAX as int) {
            None => Err(SclParseErrorKind::IntValue),
            Some(value) => Ok(PitchValue::Fraction(value as u32, None)),
        }
    }
}

/// Whether the main item `t` of an item line is a cents value.
pub open spec fn is_cents(t: Seq<char>) -> bool {
    position_of(t, '.') < t.len()
}

/// The pitch values of the item lines, each line numbered, with `cents[i]` as what the caller
/// read from the `i`-th one; the first malformed line gives the error.
pub open spec fn scl_items<C>(lines: Seq<(int, Seq<char>)>, cents: Seq<Option<C>>) -> Result<
    Seq<PitchValue<C>>,
    SclImportError,
>
    decreases lines.len(),
{
    if lines.len() == 0 {
        Ok(Seq::empty())
    } else {
        match scl_items(lines.drop_last(), cents) {
            Err(error) => Err(error),
            Ok(values) => match scl_item(main_item(lines.last().1), cents[lines.len() - 1]) {
                Err(kind) => Err(
                    SclImportError::ParseError { line_number: lines.last().0 as usize, kind },
                ),
                Ok(value) => Ok(values.push(value)),
            },
        }
    }
}

/// The item lines of the significant lines: all after the description and the number of items.
pub open spec fn item_lines(lines: Seq<(int, Seq<char>)>) -> Seq<(int, Seq<char>)> {
    if lines.len() < 2 {
        Seq::empty()
    } else {
        lines.skip(2)
    }
}

/// Whether the lines start with a description and a well-formed number of items.
pub open spec fn scl_header(lines: Seq<(int, Seq<char>)>) -> bool {
    &&& lines.len() >= 2
    &&& int_item(lines, 1, 0, u16::MAX as int) is Some
}

/// Whether the lines get as far as the check of the items against the period: a description, a
/// number of items and well-formed items.
pub open spec fn scl_checked<C>(lines: Seq<(int, Seq<char>)>, cents: Seq<Option<C>>) -> bool {
    &&& scl_header(lines)
    &&& scl_items(item_lines(lines), cents) is Ok
}

/// The scale that the significant lines of an SCL file denote, with `cents` as what the caller
/// read from the cents values and `checked` as what the check of the items found.
pub open spec fn scl_from_lines<C>(
    lines: Seq<(int, Seq<char>)>,
    cents: Seq<Option<C>>,
    checked: Option<SclBuildError>,
) -> Result<SclView<C>, SclImportError> {
    if lines.len() == 0 {
        Err(SclImportError::StructuralError(SclStructuralError::ExpectingDescription))
    } else if lines.len() == 1 {
        Err(SclImportError::StructuralError(SclStructuralError::ExpectingNumberOfNotes))
    } else {
        match int_item(lines, 1, 0, u16::MAX as int) {
            None => Err(
                SclImportError::ParseError {
                    line_number: lines[1].0 as usize,
                    kind: SclParseErrorKind::IntValue,
                },
            ),
            Some(num_notes) => match scl_items(item_lines(lines), cents) {
                Err(error) => Err(error),
                Ok(values) => match built(lines[0].1, values, checked) {
                    Err(error) => Err(SclImportError::BuildError(error)),
                    Ok(scl) => if values.len() == num_notes {
                        Ok(scl)
                    } else {
                        Err(
                            SclImportError::StructuralError(
                                SclStructuralError::InconsistentNumberOfNotes,
                            ),
                        )
                    },
                },
            },
        }
    }
}

/// The content of an import result.
pub open spec fn scl_import_view<C>(r: Result<Scl<C>, SclImportError>) -> Result<SclView<C>, SclImportError> {
    match r {
        Ok(scl) => Ok(scl@),
        Err(error) => Err(error),
    }
}

/// Whether `cents[i]` is what `parse_cents` read from each cents item `i` that it was called on:
/// those up to the first malformed item.
pub open spec fn cents_read<C, F: Fn(&str) -> Option<C>>(
    items: Seq<(int, Seq<char>)>,
    cents: Seq<Option<C>>,
    parse_cents: F,
) -> bool {
    forall|i: int|
        0 <= i < items.len() && scl_items(items.take(i), cents) is Ok && is_cents(
            main_item(items[i].1),
        ) ==> exists|t: &str|
            t@ == main_item(items[i].1) && #[trigger] parse_cents.ensures((t,), cents[i])
}

/// An error at an item line stays the error of every longer run of lines.
proof fn lemma_scl_items_error<C>(lines: Seq<(int, Seq<char>)>, cents: Seq<Option<C>>, k: int)
    requires
        0 <= k <= lines.len(),
        scl_items(lines.take(k), cents) is Err,
    ensures
        scl_items(lines, cents) == scl_items(lines.take(k), cents),
    decreases lines.len() - k,
{
    if k < lines.len() {
        assert(lines.take(k + 1).drop_last() =~= lines.take(k));
        lemma_scl_items_error(lines, cents, k + 1);
    } else {
        assert(lines.take(k) =~= lines);
    }
}

/// Only the entries of `cents` up to the number of lines matter.
proof fn lemma_scl_items_cents<C>(lines: Seq<(int, Seq<char>)>, a: Seq<Option<C>>, b: Seq<Option<C>>)
    requires
        forall|j: int| 0 <= j < lines.len() ==> a[j] == b[j],
    ensures
        scl_items(lines, a) == scl_items(lines, b),
    decreases lines.len(),
{
    if lines.len() > 0 {
        lemma_scl_items_cents(lines.drop_last(), a, b);
    }
}

/// The position of the first `c` in `chars[a..b]`, or `b` if there is none.
fn find_char(chars: &Vec<char>, a: usize, b: usize, c: char) -> (r: usize)
    requires
        a <= b <= chars@.len(),
    ensures
        a <= r <= b,
        r - a == position_of(chars@.subrange(a as int, b as int), c),
{
    let ghost t = chars@.subrange(a as int, b as int);
    let mut i = a;
    while i < b && chars[i] != c
        invariant
            a <= i <= b <= chars@.len(),
            t == chars@.subrange(a as int, b as int),
            forall|j: int| a <= j < i ==> chars@[j] != c,
        decreases b - i,
    {
        i = i + 1;
    }
    proof {
        assert forall|j: int| 0 <= j < i - a implies t[j] != c by {
            assert(t[j] == chars@[a + j]);
        }
        if i < b {
            assert(t[i - a] == chars@[i as int]);
        }
        lemma_position_of(t, c, i - a);
    }
    i
}

/// Reads the item of `chars[a..b]` that is not a cents value: a ratio or an integer.
fn read_ratio<C>(chars: &Vec<char>, a: usize, b: usize) -> (r: Result<PitchValue<C>, SclParseErrorKind>)
    requires
        a <= b <= chars@.len(),
        !is_cents(chars@.subrange(a as int, b as int)),
    ensures
        r == scl_item(chars@.subrange(a as int, b as int), None::<C>),
{
    let ghost t = chars@.subrange(a as int, b as int);
    let slash = find_char(chars, a, b, '/');
    if slash < b {
        assert(t.take(slash - a) =~= chars@.subrange(a as int, slash as int));
        assert(t.skip(slash - a + 1) =~= chars@.subrange(slash + 1, b as int));
        match parse_int(chars, a, slash, 0, 0xffff_ffff) {
            None => Err(SclParseErrorKind::Numer),
            Some(numer) => match parse_int(chars, slash + 1, b, 0, 0xffff_ffff) {
                None => Err(SclParseErrorKind::Denom),
                Some(denom) => Ok(PitchValue::Fraction(numer as u32, Some(denom as u32))),
            },
        }
    } else {
        match parse_int(chars, a, b, 0, 0xffff_ffff) {
            None => Err(SclParseErrorKind::IntValue),
            Some(value) => Ok(PitchValue::Fraction(value as u32, None)),
        }
    }
}

/// Imports a scale in SCL format from `input`. Cents values (items holding a `.`) are read with
/// `parse_cents`, called on the main item of each of them up to the first malformed item; `check`
/// checks the items against the period, as for [`SclBuilder::build_with_description`], and is
/// called once if the description, the number of items and all items are well-formed. The
/// description is the first significant line; lines starting with `!` are comments.
pub fn import_scl<
    C,
    F: Fn(&str) -> Option<C>,
    V: Fn(&[PitchValue<C>]) -> Option<SclBuildError>,
>(input: &str, parse_cents: F, check: V) -> (r: Result<Scl<C>, SclImportError>)
    requires
        input@.len() < usize::MAX,
        forall|t: &str| #[trigger] parse_cents.requires((t,)),
        forall|items: &[PitchValue<C>]| #[trigger] check.requires((items,)),
    ensures
        exists|cents: Seq<Option<C>>|
            #![trigger scl_items(item_lines(text_lines(input@)), cents)]
            (scl_header(text_lines(input@)) ==> cents_read(
                item_lines(text_lines(input@)),
                cents,
                parse_cents,
            )) && (
            scl_checked(text_lines(input@), cents) ==> exists|
                items: &[PitchValue<C>],
                checked: Option<SclBuildError>,
            |
                #[trigger] check.ensures((items,), checked) && items@ == scl_items(
                    item_lines(text_lines(input@)),
                    cents,
                )->Ok_0 && scl_import_view(r) == scl_from_lines(
                    text_lines(input@),
                    cents,
                    checked,
                )) && (!scl_checked(text_lines(input@), cents) ==> scl_import_view(r)
                == scl_from_lines(text_lines(input@), cents, None)),
{
    let mut chars: Vec<char> = Vec::new();
    for c in it: input.chars()
        invariant
            it.seq() == input@,
            chars@ == input@.take(it.index() as int),
    {
        assert(input@.take(it.index() + 1) =~= chars@.push(c));
        chars.push(c);
    }
    assert(chars@ =~= input@);
    let lines = text_lines_of(&chars);
    let ghost ls = located(chars@, lines@);
    assert(ls == text_lines(input@));
    let ghost items = item_lines(ls);
    if lines.len() == 0 {
        proof {
            assert(!scl_header(ls));
            let e = Seq::<Option<C>>::empty();
            assert(scl_items(item_lines(text_lines(input@)), e) is Ok);
            assert(!scl_checked(text_lines(input@), e));
            assert(scl_from_lines(text_lines(input@), e, None) == Err::<SclView<C>, SclImportError>(SclImportError::StructuralError(SclStructuralError::ExpectingDescription)));
        }
        return Err(SclImportError::StructuralError(SclStructuralError::ExpectingDescription));
    }
    if lines.len() == 1 {
        proof {
            assert(!scl_header(ls));
            let e = Seq::<Option<C>>::empty();
            assert(scl_items(item_lines(text_lines(input@)), e) is Ok);
        }
        return Err(SclImportError::StructuralError(SclStructuralError::ExpectingNumberOfNotes));
    }
    let num_notes = match int_at(&chars, &lines, 1, 0, 0xffff) {
        None => {
            proof {
                assert(!scl_header(ls));
                assert(!scl_checked(ls, Seq::<Option<C>>::empty()));
                let e = Seq::<Option<C>>::empty();
                assert(scl_items(item_lines(text_lines(input@)), e) == scl_items(items, e));
            }
            return Err(
                SclImportError::ParseError {
                    line_number: lines[1].number,
                    kind: SclParseErrorKind::IntValue,
                },
            );
        },
        Some(num_notes) => num_notes,
    };
    assert(ls[0] == line_view(chars@, lines@[0]));
    let description = String::from_str(input.substring_char(lines[0].start, lines[0].end));
    let mut values: Vec<PitchValue<C>> = Vec::new();
    let ghost mut cents: Seq<Option<C>> = Seq::empty();
    let mut k: usize = 2;
    assert(items.take(0) =~= Seq::<(int, Seq<char>)>::empty());
    while k < lines.len()
        invariant
            chars@ == input@,
            lines_located(chars@, lines@),
            ls == located(chars@, lines@),
            ls == text_lines(input@),
            ls.len() >= 2,
            int_item(ls, 1, 0, u16::MAX as int) == Some(num_notes as int),
            items == item_lines(ls),
            items.len() == ls.len() - 2,
            2 <= k <= lines@.len(),
            cents.len() == k - 2,
            scl_items(items.take(k - 2), cents) == Ok::<Seq<PitchValue<C>>, SclImportError>(
                values@,
            ),
            forall|t: &str| #[trigger] parse_cents.requires((t,)),
            forall|i: int|
                0 <= i < k - 2 && is_cents(main_item(items[i].1)) ==> exists|t: &str|
                    t@ == main_item(items[i].1) && #[trigger] parse_cents.ensures((t,), cents[i]),
        decreases lines@.len() - k,
    {
        let line = &lines[k];
        let ghost j = k - 2;
        assert(items[j] == ls[k as int]);
        assert(ls[k as int] == line_view(chars@, lines@[k as int]));
        let (a, b) = main_item_range(&chars, line.start, line.end);
        let ghost t = chars@.subrange(a as int, b as int);
        assert(t == main_item(items[j].1));
        let dot = find_char(&chars, a, b, '.');
        let ghost cents_before = cents;
        let result = if dot < b {
            let token = input.substring_char(a, b);
            let read = parse_cents(token);
            proof {
                cents = cents.push(read);
            }
            match read {
                Some(c) => Ok(PitchValue::Cents(c)),
                None => Err(SclParseErrorKind::CentsValue),
            }
        } else {
            proof {
                cents = cents.push(None);
            }
            read_ratio(&chars, a, b)
        };
        proof {
            assert(result == scl_item(t, cents[j]));
            assert(items.take(j + 1).drop_last() =~= items.take(j));
            assert(items.take(j + 1).last() == items[j]);
            lemma_scl_items_cents(items.take(j), cents_before, cents);
            assert forall|i: int|
                0 <= i < j + 1 && is_cents(main_item(items[i].1)) implies exists|t: &str|
                    t@ == main_item(items[i].1) && #[trigger] parse_cents.ensures((t,), cents[i]) by {
                if i < j {
                    assert(cents[i] == cents_before[i]);
                }
            }
        }
        match result {
            Err(kind) => {
                proof {
                    assert(scl_items(items.take(j + 1), cents) is Err);
                    lemma_scl_items_error(items, cents, j + 1);
                    assert forall|i: int|
                        0 <= i < items.len() && scl_items(items.take(i), cents) is Ok && is_cents(
                            main_item(items[i].1),
                        ) implies exists|t: &str|
                        t@ == main_item(items[i].1) && #[trigger] parse_cents.ensures(
                            (t,),
                            cents[i],
                        ) by {
                        if i > j {
                            assert(items.take(i).take(j + 1) =~= items.take(j + 1));
                            lemma_scl_items_error(items.take(i), cents, j + 1);
                        }
                    }
                    assert(cents_read(items, cents, parse_cents));
                    assert(items[j].0 == line.number);
                    assert(scl_items(items, cents) == Err::<Seq<PitchValue<C>>, SclImportError>(
                        SclImportError::ParseError { line_number: line.number, kind },
                    ));
                    assert(!scl_checked(ls, cents));
                    assert(scl_items(item_lines(text_lines(input@)), cents) is Err);
                }
                return Err(SclImportError::ParseError { line_number: line.number, kind });
            },
            Ok(value) => {
                values.push(value);
            },
        }
        k = k + 1;
    }
    proof {
        assert(items.take(k - 2) =~= items);
        assert forall|i: int|
            0 <= i < items.len() && scl_items(items.take(i), cents) is Ok && is_cents(
                main_item(items[i].1),
            ) implies exists|t: &str|
            t@ == main_item(items[i].1) && #[trigger] parse_cents.ensures((t,), cents[i]) by {
        }
        assert(cents_read(items, cents, parse_cents));
    }
    let builder = SclBuilder { pitch_values: values };
    match builder.build_with_description(description, check) {
        Err(error) => Err(SclImportError::BuildError(error)),
        Ok(scl) => {
            if scl.num_items() as i64 == num_notes {
                Ok(scl)
            } else {
                Err(SclImportError::StructuralError(SclStructuralError::InconsistentNumberOfNotes))
            }
        },
    }
}


/// Type of harmonic series segment to use.
#[derive(Clone, Copy, Debug, PartialEq, Eq, Structural)]
pub enum SegmentType {
    /// Harmonic segment of kind `n:n+1:n+2:..`.
    Otonal,
    /// Harmonic segment of kind `n/(n:n-1:n-2:..)`.
    Utonal,
}

/// The numbers after the first one in the description of a harmonic segment: the numerators
/// `start + 1 ..= start + size` upwards for an otonal segment, the denominators from
/// `start + size - 1` down to `start` for a utonal one.
pub open spec fn harmonic_numbers(segment_type: SegmentType, start: nat, size: nat) -> Seq<int> {
    match segment_type {
        SegmentType::Otonal => Seq::new(size, |i: int| start + 1 + i),
        SegmentType::Utonal => Seq::new(size, |i: int| start + size - 1 - i),
    }
}

/// The items of a harmonic segment: `n/start` for each numerator `n` of an otonal segment,
/// `(start + size)/d` for each denominator `d` of a utonal one.
pub open spec fn harmonic_items<C>(segment_type: SegmentType, start: nat, size: nat) -> Seq<
    PitchValue<C>,
> {
    let numbers = harmonic_numbers(segment_type, start, size);
    match segment_type {
        SegmentType::Otonal => Seq::new(
            size,
            |i: int| PitchValue::Fraction(numbers[i] as u32, Some(start as u32)),
        ),
        SegmentType::Utonal => Seq::new(
            size,
            |i: int| PitchValue::Fraction((start + size) as u32, Some(numbers[i] as u32)),
        ),
    }
}

/// Each of `numbers` in decimal, each preceded by a colon.
pub open spec fn colon_terms(numbers: Seq<int>) -> Seq<char>
    decreases numbers.len(),
{
    if numbers.len() == 0 {
        Seq::empty()
    } else {
        colon_terms(numbers.drop_last()) + seq![':'] + text::decimal(numbers.last())
    }
}

/// The description of a harmonic segment: `JI scale 9:10:11` for an otonal one starting at 9,
/// `JI scale 11/(11:10:9)` for a utonal one.
pub open spec fn harmonic_description(segment_type: SegmentType, start: nat, size: nat) -> Seq<char> {
    let terms = colon_terms(harmonic_numbers(segment_type, start, size));
    match segment_type {
        SegmentType::Otonal => "JI scale "@ + text::decimal(start as int) + terms,
        SegmentType::Utonal => "JI scale "@ + text::decimal((start + size) as int) + "/("@
            + text::decimal((start + size) as int) + terms + ")"@,
    }
}

/// Creates a scale of a segment of the harmonic series, starting at `segment_start` and with
/// `segment_size` items, described by `description` or, where there is none, by the segment's
/// numbers (see [`harmonic_description`]). `check` tells whether the items lie within the period,
/// as in [`SclBuilder::build_with_description`].
pub fn create_harmonics_scale<C, V: Fn(&[PitchValue<C>]) -> Option<SclBuildError>>(
    description: Option<String>,
    segment_type: SegmentType,
    segment_start: u16,
    segment_size: u16,
    check: V,
) -> (r: Result<Scl<C>, SclBuildError>)
    requires
        forall|items: &[PitchValue<C>]| #[trigger] check.requires((items,)),
    ensures
        exists|items: &[PitchValue<C>], checked: Option<SclBuildError>|
            #[trigger] check.ensures((items,), checked) && items@ == harmonic_items::<C>(
                segment_type,
                segment_start as nat,
                segment_size as nat,
            ) && build_view(r) == built(
                match description {
                    Some(text) => text@,
                    None => harmonic_description(
                        segment_type,
                        segment_start as nat,
                        segment_size as nat,
                    ),
                },
                harmonic_items::<C>(segment_type, segment_start as nat, segment_size as nat),
                checked,
            ),
{
    let ghost start = segment_start as nat;
    let ghost size = segment_size as nat;
    let ghost numbers = harmonic_numbers(segment_type, start, size);
    let mut builder = Scl::<C>::builder();
    let mut builtin = String::from_str("JI scale ");
    let start32 = segment_start as u32;
    let end32 = segment_start as u32 + segment_size as u32;
    match segment_type {
        SegmentType::Otonal => text::push_digits(&mut builtin, start32 as u64),
        SegmentType::Utonal => {
            text::push_digits(&mut builtin, end32 as u64);
            builtin.append("/(");
            text::push_digits(&mut builtin, end32 as u64);
        },
    }
    let ghost head = builtin@;
    let mut i: u16 = 0;
    while i < segment_size
        invariant
            i <= segment_size,
            start == segment_start,
            size == segment_size,
            end32 == segment_start + segment_size,
            start32 == segment_start,
            numbers == harmonic_numbers(segment_type, start, size),
            builder@ == harmonic_items::<C>(segment_type, start, size).take(i as int),
            builtin@ == head + colon_terms(numbers.take(i as int)),
        decreases segment_size - i,
    {
        let number: u32 = match segment_type {
            SegmentType::Otonal => start32 + 1 + i as u32,
            SegmentType::Utonal => end32 - 1 - i as u32,
        };
        builder = match segment_type {
            SegmentType::Otonal => builder.push_fraction(number, start32),
            SegmentType::Utonal => builder.push_fraction(end32, number),
        };
        text::push_char(&mut builtin, ':');
        text::push_digits(&mut builtin, number as u64);
        proof {
            let taken = numbers.take(i + 1);
            assert(taken.drop_last() =~= numbers.take(i as int));
            assert(taken.last() == number);
            assert(builder@ =~= harmonic_items::<C>(segment_type, start, size).take(i + 1));
        }
        i = i + 1;
    }
    proof {
        assert(numbers.take(size as int) =~= numbers);
        assert(harmonic_items::<C>(segment_type, start, size).take(size as int) =~= harmonic_items::<
            C,
        >(segment_type, start, size));
    }
    if let SegmentType::Utonal = segment_type {
        builtin.append(")");
    }
    let chosen = match description {
        Some(text) => text,
        None => builtin,
    };
    builder.build_with_description(chosen, check)
}

} // verus!
