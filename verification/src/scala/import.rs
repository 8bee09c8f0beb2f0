//! Reading the line-based Scala file formats: significant lines, their main items and integers.
use vstd::prelude::*;
use vstd::string::StrSliceExecFns;
use vstd::std_specs::iter::IteratorSpec;

use crate::key::PianoKey;
use crate::text;
use crate::scala::{Kbm, KbmBuildError, KbmBuilder, KbmRoot, KbmView};

verus! {

broadcast use vstd::string::group_string_axioms;

/// Whether `c` has the Unicode `White_Space` property, which `str::trim` strips.
pub open spec fn is_white_space(c: char) -> bool {
    let n = c as u32;
    ||| 0x9 <= n <= 0xd
    ||| n == 0x20
    ||| n == 0x85
    ||| n == 0xa0
    ||| n == 0x1680
    ||| 0x2000 <= n <= 0x200a
    ||| n == 0x2028
    ||| n == 0x2029
    ||| n == 0x202f
    ||| n == 0x205f
    ||| n == 0x3000
}

/// Whether `c` is ASCII whitespace, which separates the items of a line.
pub open spec fn is_ascii_white_space(c: char) -> bool {
    c == ' ' || c == '\t' || c == '\n' || c == '\x0C' || c == '\r'
}

/// The lines of `s`, separated by `'\n'`; `n` line breaks give `n + 1` lines.
pub open spec fn split_lines(s: Seq<char>) -> Seq<Seq<char>>
    decreases s.len(),
{
    if s.len() == 0 {
        seq![Seq::empty()]
    } else {
        let previous = split_lines(s.drop_last());
        if s.last() == '\n' {
            previous.push(Seq::empty())
        } else {
            previous.update(previous.len() - 1, previous.last().push(s.last()))
        }
    }
}

/// `l` without its leading white space.
pub open spec fn trim_start(l: Seq<char>) -> Seq<char>
    decreases l.len(),
{
    if l.len() > 0 && is_white_space(l[0]) {
        trim_start(l.drop_first())
    } else {
        l
    }
}

/// `l` without its trailing white space.
pub open spec fn trim_end(l: Seq<char>) -> Seq<char>
    decreases l.len(),
{
    if l.len() > 0 && is_white_space(l.last()) {
        trim_end(l.drop_last())
    } else {
        l
    }
}

/// `l` without leading and trailing white space.
pub open spec fn trimmed(l: Seq<char>) -> Seq<char> {
    trim_end(trim_start(l))
}

/// Whether a trimmed line carries content: it is neither empty nor a comment starting with `!`.
pub open spec fn is_significant(t: Seq<char>) -> bool {
    t.len() > 0 && t[0] != '!'
}

/// The trimmed significant lines with their line numbers, counted from 1.
pub open spec fn significant_lines(lines: Seq<Seq<char>>) -> Seq<(int, Seq<char>)>
    decreases lines.len(),
{
    if lines.len() == 0 {
        Seq::empty()
    } else {
        let previous = significant_lines(lines.drop_last());
        let t = trimmed(lines.last());
        if is_significant(t) {
            previous.push((lines.len() as int, t))
        } else {
            previous
        }
    }
}

/// The significant lines of a text.
pub open spec fn text_lines(s: Seq<char>) -> Seq<(int, Seq<char>)> {
    significant_lines(split_lines(s))
}

/// `t` without its leading ASCII white space.
pub open spec fn skip_ascii_white_space(t: Seq<char>) -> Seq<char>
    decreases t.len(),
{
    if t.len() > 0 && is_ascii_white_space(t[0]) {
        skip_ascii_white_space(t.drop_first())
    } else {
        t
    }
}

/// The number of leading characters of `t` that are not ASCII white space.
pub open spec fn word_len(t: Seq<char>) -> nat
    decreases t.len(),
{
    if t.len() == 0 || is_ascii_white_space(t[0]) {
        0
    } else {
        1 + word_len(t.drop_first())
    }
}

/// The main item of a line: its first word, separated by ASCII white space (empty if there is none).
pub open spec fn main_item(t: Seq<char>) -> Seq<char> {
    let rest = skip_ascii_white_space(t);
    rest.take(word_len(rest) as int)
}

/// Whether all characters of `d` are decimal digits.
pub open spec fn all_digits(d: Seq<char>) -> bool {
    forall|i: int| 0 <= i < d.len() ==> '0' <= #[trigger] d[i] <= '9'
}

/// The value of a sequence of decimal digits.
pub open spec fn digits_value(d: Seq<char>) -> int
    decreases d.len(),
{
    if d.len() == 0 {
        0
    } else {
        digits_value(d.drop_last()) * 10 + (d.last() as int - '0' as int)
    }
}

/// The integer that `t` denotes in the range `[min, max]`, as Rust's decimal parsing of integer
/// types reads it: an optional sign (`-` only for signed types, so when `min` is negative) followed
/// by at least one decimal digit; `None` if it is malformed or out of range.
pub open spec fn parsed_int(t: Seq<char>, min: int, max: int) -> Option<int> {
    if t.len() == 0 || ((t[0] == '+' || t[0] == '-') && t.len() == 1) {
        None
    } else {
        let negative = t[0] == '-' && min < 0;
        let digits = if t[0] == '+' || negative {
            t.drop_first()
        } else {
            t
        };
        let value = if negative {
            -digits_value(digits)
        } else {
            digits_value(digits)
        };
        if all_digits(digits) && min <= value <= max {
            Some(value)
        } else {
            None
        }
    }
}

/// A significant line of a text: its number and the character range of its trimmed content.
pub struct TextLine {
    pub number: usize,
    pub start: usize,
    pub end: usize,
}

/// The line number and trimmed content of a [`TextLine`] within `chars`.
pub open spec fn line_view(chars: Seq<char>, line: TextLine) -> (int, Seq<char>) {
    (line.number as int, chars.subrange(line.start as int, line.end as int))
}

/// The significant lines of `lines`, located in `chars`.
pub open spec fn lines_located(chars: Seq<char>, lines: Seq<TextLine>) -> bool {
    forall|j: int|
        0 <= j < lines.len() ==> #[trigger] lines[j].start <= lines[j].end <= chars.len()
}

proof fn lemma_trim_start_step(chars: Seq<char>, a: int, end: int)
    requires
        0 <= a < end <= chars.len(),
        is_white_space(chars[a]),
    ensures
        trim_start(chars.subrange(a, end)) == trim_start(chars.subrange(a + 1, end)),
{
    assert(chars.subrange(a, end).drop_first() =~= chars.subrange(a + 1, end));
}

proof fn lemma_trim_end_step(chars: Seq<char>, a: int, b: int)
    requires
        0 <= a < b <= chars.len(),
        is_white_space(chars[b - 1]),
    ensures
        trim_end(chars.subrange(a, b)) == trim_end(chars.subrange(a, b - 1)),
{
    assert(chars.subrange(a, b).drop_last() =~= chars.subrange(a, b - 1));
}

/// Whether the character is white space in the sense of [`is_white_space`].
fn white_space(c: char) -> (r: bool)
    ensures
        r == is_white_space(c),
{
    let n = c as u32;
    (0x9 <= n && n <= 0xd) || n == 0x20 || n == 0x85 || n == 0xa0 || n == 0x1680 || (0x2000 <= n
        && n <= 0x200a) || n == 0x2028 || n == 0x2029 || n == 0x202f || n == 0x205f || n == 0x3000
}

/// Whether the character is ASCII white space.
fn ascii_white_space(c: char) -> (r: bool)
    ensures
        r == is_ascii_white_space(c),
{
    c == ' ' || c == '\t' || c == '\n' || c == '\x0C' || c == '\r'
}

/// The range of `chars[start..end]` without leading and trailing white space.
fn trim_range(chars: &Vec<char>, start: usize, end: usize) -> (r: (usize, usize))
    requires
        start <= end <= chars@.len(),
    ensures
        start <= r.0 <= r.1 <= end,
        chars@.subrange(r.0 as int, r.1 as int) == trimmed(chars@.subrange(start as int, end as int)),
{
    let mut a = start;
    while a < end && white_space(chars[a])
        invariant
            start <= a <= end <= chars@.len(),
            trim_start(chars@.subrange(start as int, end as int)) == trim_start(
                chars@.subrange(a as int, end as int),
            ),
        decreases end - a,
    {
        proof {
            lemma_trim_start_step(chars@, a as int, end as int);
        }
        a = a + 1;
    }
    assert(trim_start(chars@.subrange(start as int, end as int)) == chars@.subrange(a as int, end as int));
    let mut b = end;
    while b > a && white_space(chars[b - 1])
        invariant
            start <= a <= b <= end <= chars@.len(),
            trim_end(chars@.subrange(a as int, end as int)) == trim_end(
                chars@.subrange(a as int, b as int),
            ),
        decreases b - a,
    {
        proof {
            lemma_trim_end_step(chars@, a as int, b as int);
        }
        b = b - 1;
    }
    (a, b)
}

proof fn lemma_split_lines_len(s: Seq<char>)
    ensures
        1 <= split_lines(s).len() <= s.len() + 1,
    decreases s.len(),
{
    if s.len() > 0 {
        lemma_split_lines_len(s.drop_last());
    }
}

/// The significant lines of the text `chars`, located by the character ranges of their trimmed
/// content.
pub fn text_lines_of(chars: &Vec<char>) -> (r: Vec<TextLine>)
    requires
        chars@.len() < usize::MAX,
    ensures
        lines_located(chars@, r@),
        r@.map_values(|line: TextLine| line_view(chars@, line)) == text_lines(chars@),
{
    let ghost cs = chars@;
    let mut lines: Vec<TextLine> = Vec::new();
    let mut line_start: usize = 0;
    let mut line_number: usize = 1;
    let mut position: usize = 0;
    proof {
        assert(cs.take(0) =~= Seq::<char>::empty());
        assert(cs.subrange(0, 0) =~= Seq::<char>::empty());
    }
    while position < chars.len()
        invariant
            cs == chars@,
            cs.len() < usize::MAX,
            line_start <= position <= cs.len(),
            line_number == split_lines(cs.take(position as int)).len(),
            split_lines(cs.take(position as int)).last() == cs.subrange(
                line_start as int,
                position as int,
            ),
            lines_located(cs, lines@),
            lines@.map_values(|line: TextLine| line_view(cs, line)) == significant_lines(
                split_lines(cs.take(position as int)).drop_last(),
            ),
        decreases cs.len() - position,
    {
        let c = chars[position];
        let ghost before = split_lines(cs.take(position as int));
        proof {
            lemma_split_lines_len(cs.take(position as int));
            assert(cs.take(position + 1).drop_last() =~= cs.take(position as int));
            assert(cs.take(position + 1).last() == c);
        }
        if c == '\n' {
            let (a, b) = trim_range(chars, line_start, position);
            let ghost old_lines = lines@;
            if a < b && chars[a] != '!' {
                lines.push(TextLine { number: line_number, start: a, end: b });
            }
            proof {
                let after = split_lines(cs.take(position + 1));
                assert(after == before.push(Seq::empty()));
                assert(after.drop_last() =~= before);
                assert(before.last() == before[before.len() - 1]);
                assert(significant_lines(before) == if is_significant(
                    trimmed(before.last()),
                ) {
                    significant_lines(before.drop_last()).push(
                        (before.len() as int, trimmed(before.last())),
                    )
                } else {
                    significant_lines(before.drop_last())
                });
                assert(lines_located(cs, lines@));
                assert(lines@.map_values(|line: TextLine| line_view(cs, line)) =~= significant_lines(
                    before,
                ));
                assert(after.last() =~= cs.subrange(position + 1, position + 1));
            }
            line_start = position + 1;
            line_number = line_number + 1;
        } else {
            proof {
                let after = split_lines(cs.take(position + 1));
                assert(after == before.update(before.len() - 1, before.last().push(c)));
                assert(after.drop_last() =~= before.drop_last());
                assert(after.last() =~= cs.subrange(line_start as int, position + 1));
            }
        }
        position = position + 1;
        proof {
            lemma_split_lines_len(cs.take(position as int));
        }
    }
    let ghost full = split_lines(cs);
    proof {
        assert(cs.take(position as int) =~= cs);
        lemma_split_lines_len(cs);
    }
    let (a, b) = trim_range(chars, line_start, position);
    if a < b && chars[a] != '!' {
        lines.push(TextLine { number: line_number, start: a, end: b });
    }
    proof {
        assert(significant_lines(full) == if is_significant(trimmed(full.last())) {
            significant_lines(full.drop_last()).push((full.len() as int, trimmed(full.last())))
        } else {
            significant_lines(full.drop_last())
        });
        assert(lines@.map_values(|line: TextLine| line_view(cs, line)) =~= significant_lines(full));
    }
    lines
}

/// The range of the main item of `chars[start..end]`.
pub fn main_item_range(chars: &Vec<char>, start: usize, end: usize) -> (r: (usize, usize))
    requires
        start <= end <= chars@.len(),
    ensures
        start <= r.0 <= r.1 <= end,
        chars@.subrange(r.0 as int, r.1 as int) == main_item(
            chars@.subrange(start as int, end as int),
        ),
{
    let ghost cs = chars@;
    let mut a = start;
    while a < end && ascii_white_space(chars[a])
        invariant
            cs == chars@,
            start <= a <= end <= cs.len(),
            skip_ascii_white_space(cs.subrange(start as int, end as int)) == skip_ascii_white_space(
                cs.subrange(a as int, end as int),
            ),
        decreases end - a,
    {
        assert(cs.subrange(a as int, end as int).drop_first() =~= cs.subrange(a + 1, end as int));
        a = a + 1;
    }
    let ghost rest = cs.subrange(a as int, end as int);
    assert(skip_ascii_white_space(cs.subrange(start as int, end as int)) == rest);
    let mut b = a;
    while b < end && !ascii_white_space(chars[b])
        invariant
            cs == chars@,
            a <= b <= end <= cs.len(),
            rest == cs.subrange(a as int, end as int),
            word_len(rest) == (b - a) + word_len(cs.subrange(b as int, end as int)),
        decreases end - b,
    {
        assert(cs.subrange(b as int, end as int).drop_first() =~= cs.subrange(b + 1, end as int));
        b = b + 1;
    }
    assert(word_len(cs.subrange(b as int, end as int)) == 0);
    assert(rest.take(b - a) =~= cs.subrange(a as int, b as int));
    (a, b)
}

proof fn lemma_digits_value_grows(d: Seq<char>, k: int)
    requires
        all_digits(d),
        0 <= k <= d.len(),
    ensures
        0 <= digits_value(d.take(k)) <= digits_value(d),
    decreases d.len(),
{
    if k < d.len() {
        let shorter = d.drop_last();
        assert(all_digits(shorter)) by {
            assert forall|i: int| 0 <= i < shorter.len() implies '0' <= #[trigger] shorter[i] <= '9' by {
                assert(shorter[i] == d[i]);
            }
        }
        lemma_digits_value_grows(shorter, k);
        lemma_digits_value_grows(shorter, shorter.len() as int);
        assert(shorter.take(k) =~= d.take(k));
        assert(shorter.take(shorter.len() as int) =~= shorter);
        assert('0' <= d[d.len() - 1] <= '9');
    } else {
        assert(d.take(k) =~= d);
        if d.len() > 0 {
            let shorter = d.drop_last();
            assert(all_digits(shorter)) by {
                assert forall|i: int| 0 <= i < shorter.len() implies '0' <= #[trigger] shorter[i] <= '9' by {
                    assert(shorter[i] == d[i]);
                }
            }
            lemma_digits_value_grows(shorter, shorter.len() as int);
            assert(shorter.take(shorter.len() as int) =~= shorter);
            assert('0' <= d[d.len() - 1] <= '9');
        }
    }
}

/// Parses `chars[start..end]` as a decimal integer in `[min, max]`, as [`parsed_int`] reads it.
pub fn parse_int(chars: &Vec<char>, start: usize, end: usize, min: i64, max: i64) -> (r: Option<i64>)
    requires
        start <= end <= chars@.len(),
        i32::MIN <= min <= 0 <= max <= u32::MAX,
    ensures
        r == (match parsed_int(chars@.subrange(start as int, end as int), min as int, max as int) {
            Some(value) => Some(value as i64),
            None => None::<i64>,
        }),
{
    let ghost t = chars@.subrange(start as int, end as int);
    if start == end {
        return None;
    }
    let first = chars[start];
    if (first == '+' || first == '-') && end - start == 1 {
        return None;
    }
    let negative = first == '-' && min < 0;
    let digits_start = if first == '+' || negative {
        start + 1
    } else {
        start
    };
    let ghost digits = chars@.subrange(digits_start as int, end as int);
    assert(t[0] == first);
    assert(digits =~= if first == '+' || negative {
        t.drop_first()
    } else {
        t
    });
    let mut value: i64 = 0;
    let mut i = digits_start;
    assert(chars@.subrange(digits_start as int, digits_start as int) =~= Seq::<char>::empty());
    while i < end
        invariant
            start <= digits_start <= i <= end <= chars@.len(),
            digits == chars@.subrange(digits_start as int, end as int),
            t == chars@.subrange(start as int, end as int),
            t.len() > 0,
            t[0] == first,
            !((first == '+' || first == '-') && t.len() == 1),
            negative == (first == '-' && min < 0),
            i32::MIN <= min <= 0 <= max <= u32::MAX,
            digits == if first == '+' || negative {
                t.drop_first()
            } else {
                t
            },
            all_digits(chars@.subrange(digits_start as int, i as int)),
            value == digits_value(chars@.subrange(digits_start as int, i as int)),
            0 <= value <= 0x1_0000_0000,
        decreases end - i,
    {
        let c = chars[i];
        let ghost prefix = chars@.subrange(digits_start as int, i as int);
        let ghost next = chars@.subrange(digits_start as int, i + 1);
        assert(next.drop_last() =~= prefix);
        assert(next.last() == c);
        if !('0' <= c && c <= '9') {
            assert(digits[i - digits_start] == c);
            assert(!all_digits(digits));
            return None;
        }
        assert(all_digits(next)) by {
            assert forall|j: int| 0 <= j < next.len() implies '0' <= #[trigger] next[j] <= '9' by {
                if j < prefix.len() {
                    assert(next[j] == prefix[j]);
                }
            }
        }
        value = value * 10 + (c as i64 - '0' as i64);
        i = i + 1;
        if value > 0x1_0000_0000 {
            proof {
                if all_digits(digits) {
                    lemma_digits_value_grows(digits, i - digits_start);
                    assert(digits.take(i - digits_start) =~= chars@.subrange(digits_start as int, i as int));
                }
            }
            return None;
        }
    }
    assert(chars@.subrange(digits_start as int, i as int) =~= digits);
    let signed_value = if negative {
        -value
    } else {
        value
    };
    if min <= signed_value && signed_value <= max {
        Some(signed_value)
    } else {
        None
    }
}

/// Error reported when importing a [`Kbm`] fails.
#[derive(Clone, Copy, Debug, PartialEq, Eq, Structural)]
pub enum KbmImportError {
    ParseError { line_number: usize, kind: KbmParseErrorKind },
    StructuralError(KbmStructuralError),
    BuildError(KbmBuildError),
}

/// Specifies which kind of item is suspected to be malformed.
#[derive(Clone, Copy, Debug, PartialEq, Eq, Structural)]
pub enum KbmParseErrorKind {
    /// Invalid integer value or out of range.
    IntValue,
    /// Invalid float value.
    FloatValue,
    /// Invalid keyboard mapping entry. Should be "x", "X" or an integer value.
    KeyboardMapping,
}

/// Indicates that the structure of the imported [`Kbm`] file is incomplete.
#[derive(Clone, Copy, Debug, PartialEq, Eq, Structural)]
pub enum KbmStructuralError {
    ExpectingMapSize,
    ExpectingFirstMidiNote,
    ExpectingLastMidiNote,
    ExpectingOrigin,
    ExpectingReferenceNote,
    ExpectingReferencePitch,
    ExpectingFormalOctave,
    InconsistentNumberOfItems,
}

/// The main item of the `k`-th significant line.
pub open spec fn item(lines: Seq<(int, Seq<char>)>, k: int) -> Seq<char> {
    main_item(lines[k].1)
}

/// The integer in `[min, max]` that the main item of the `k`-th significant line denotes.
pub open spec fn int_item(lines: Seq<(int, Seq<char>)>, k: int, min: int, max: int) -> Option<int> {
    parsed_int(item(lines, k), min, max)
}

/// The parse error of the `k`-th significant line.
pub open spec fn parse_error<T>(lines: Seq<(int, Seq<char>)>, k: int, kind: KbmParseErrorKind) -> Result<
    T,
    KbmImportError,
> {
    Err(KbmImportError::ParseError { line_number: lines[k].0 as usize, kind })
}

/// A structural error.
pub open spec fn structural_error<T>(error: KbmStructuralError) -> Result<T, KbmImportError> {
    Err(KbmImportError::StructuralError(error))
}

/// The header of a keyboard mapping file: map size, first and last mapped MIDI note, the note of
/// the scale's root (origin) and the reference note.
pub struct KbmHeader {
    pub num_items: int,
    pub first_note: int,
    pub last_note: int,
    pub origin: int,
    pub ref_note: int,
}

/// The header read from the first five significant lines.
pub open spec fn kbm_header(lines: Seq<(int, Seq<char>)>) -> Result<KbmHeader, KbmImportError> {
    if lines.len() < 1 {
        structural_error(KbmStructuralError::ExpectingMapSize)
    } else if int_item(lines, 0, 0, u16::MAX as int) is None {
        parse_error(lines, 0, KbmParseErrorKind::IntValue)
    } else if lines.len() < 2 {
        structural_error(KbmStructuralError::ExpectingFirstMidiNote)
    } else if int_item(lines, 1, i32::MIN as int, i32::MAX as int) is None {
        parse_error(lines, 1, KbmParseErrorKind::IntValue)
    } else if lines.len() < 3 {
        structural_error(KbmStructuralError::ExpectingLastMidiNote)
    } else if int_item(lines, 2, i32::MIN as int, i32::MAX as int) is None {
        parse_error(lines, 2, KbmParseErrorKind::IntValue)
    } else if lines.len() < 4 {
        structural_error(KbmStructuralError::ExpectingOrigin)
    } else if int_item(lines, 3, i16::MIN as int, i16::MAX as int) is None {
        parse_error(lines, 3, KbmParseErrorKind::IntValue)
    } else if lines.len() < 5 {
        structural_error(KbmStructuralError::ExpectingReferenceNote)
    } else if int_item(lines, 4, i16::MIN as int, i16::MAX as int) is None {
        parse_error(lines, 4, KbmParseErrorKind::IntValue)
    } else {
        Ok(
            KbmHeader {
                num_items: int_item(lines, 0, 0, u16::MAX as int)->0,
                first_note: int_item(lines, 1, i32::MIN as int, i32::MAX as int)->0,
                last_note: int_item(lines, 2, i32::MIN as int, i32::MAX as int)->0,
                origin: int_item(lines, 3, i16::MIN as int, i16::MAX as int)->0,
                ref_note: int_item(lines, 4, i16::MIN as int, i16::MAX as int)->0,
            },
        )
    }
}

/// The entry of a mapping line: `Some(None)` for an unmapped key (`x` or `X`), `Some(Some(d))`
/// for scale degree `d`, `None` if malformed.
pub open spec fn mapping_entry(t: Seq<char>) -> Option<Option<i16>> {
    if t == seq!['x'] || t == seq!['X'] {
        Some(None)
    } else {
        match parsed_int(t, i16::MIN as int, i16::MAX as int) {
            Some(degree) => Some(Some(degree as i16)),
            None => None,
        }
    }
}

/// The mapping entries of the given lines, or the parse error of the first malformed one.
pub open spec fn mapping_of(lines: Seq<(int, Seq<char>)>) -> Result<Seq<Option<i16>>, KbmImportError>
    decreases lines.len(),
{
    if lines.len() == 0 {
        Ok(Seq::empty())
    } else {
        match mapping_of(lines.drop_last()) {
            Err(error) => Err(error),
            Ok(entries) => match mapping_entry(main_item(lines.last().1)) {
                Some(entry) => Ok(entries.push(entry)),
                None => parse_error(lines, lines.len() - 1, KbmParseErrorKind::KeyboardMapping),
            },
        }
    }
}

/// `entries` padded with unmapped keys up to `len` entries.
pub open spec fn padded(entries: Seq<Option<i16>>, len: int) -> Seq<Option<i16>> {
    if entries.len() < len {
        entries + Seq::new((len - entries.len()) as nat, |_i: int| None::<i16>)
    } else {
        entries
    }
}

/// The keyboard mapping after the reference pitch: the formal octave (seventh significant line)
/// and the mapping table, padded with unmapped keys up to the map size.
pub open spec fn kbm_body<P>(lines: Seq<(int, Seq<char>)>, header: KbmHeader, ref_pitch: P) -> Result<
    KbmView<P>,
    KbmImportError,
> {
    if lines.len() < 7 {
        structural_error(KbmStructuralError::ExpectingFormalOctave)
    } else if int_item(lines, 6, i16::MIN as int, i16::MAX as int) is None {
        parse_error(lines, 6, KbmParseErrorKind::IntValue)
    } else {
        match mapping_of(lines.subrange(7, lines.len() as int)) {
            Err(error) => Err(error),
            Ok(entries) => {
                let mapping = padded(entries, header.num_items);
                if mapping.len() > u16::MAX {
                    Err(KbmImportError::BuildError(KbmBuildError::MappingTooLarge))
                } else if mapping.len() != header.num_items {
                    structural_error(KbmStructuralError::InconsistentNumberOfItems)
                } else {
                    Ok(
                        KbmView {
                            ref_key: header.ref_note,
                            ref_pitch,
                            root_offset: header.origin - header.ref_note,
                            range_start: header.first_note,
                            range_end: header.last_note + 1,
                            mapping,
                            formal_octave: int_item(lines, 6, i16::MIN as int, i16::MAX as int)->0,
                        },
                    )
                }
            },
        }
    }
}

/// Whether reading the significant lines reaches the reference pitch (the sixth significant line).
pub open spec fn kbm_needs_pitch(lines: Seq<(int, Seq<char>)>) -> bool {
    kbm_header(lines) is Ok && lines.len() >= 6
}

/// The keyboard mapping that the significant lines describe, given what the reference pitch reads
/// as (`None` if it is malformed).
pub open spec fn kbm_from_lines<P>(lines: Seq<(int, Seq<char>)>, ref_pitch: Option<P>) -> Result<
    KbmView<P>,
    KbmImportError,
> {
    match kbm_header(lines) {
        Err(error) => Err(error),
        Ok(header) => if lines.len() < 6 {
            structural_error(KbmStructuralError::ExpectingReferencePitch)
        } else {
            match ref_pitch {
                None => parse_error(lines, 5, KbmParseErrorKind::FloatValue),
                Some(pitch) => kbm_body(lines, header, pitch),
            }
        },
    }
}

/// Whether the last mapped MIDI note can be followed by another one, which the range needs.
pub open spec fn kbm_range_fits(lines: Seq<(int, Seq<char>)>) -> bool {
    lines.len() >= 3 && int_item(lines, 0, 0, u16::MAX as int) is Some && int_item(
        lines,
        1,
        i32::MIN as int,
        i32::MAX as int,
    ) is Some ==> int_item(lines, 2, i32::MIN as int, i32::MAX as int) != Some(i32::MAX as int)
}

/// The mathematical content of an import result.
pub open spec fn import_view<P>(r: Result<Kbm<P>, KbmImportError>) -> Result<KbmView<P>, KbmImportError> {
    match r {
        Ok(kbm) => Ok(kbm@),
        Err(error) => Err(error),
    }
}

/// The significant lines that `lines` locate in `chars`.
pub open spec fn located(chars: Seq<char>, lines: Seq<TextLine>) -> Seq<(int, Seq<char>)> {
    lines.map_values(|line: TextLine| line_view(chars, line))
}

/// Parses the main item of the `k`-th significant line as an integer in `[min, max]`.
pub(crate) fn int_at(chars: &Vec<char>, lines: &Vec<TextLine>, k: usize, min: i64, max: i64) -> (r: Option<i64>)
    requires
        lines_located(chars@, lines@),
        k < lines@.len(),
        i32::MIN <= min <= 0 <= max <= i32::MAX,
    ensures
        r == (match int_item(located(chars@, lines@), k as int, min as int, max as int) {
            Some(value) => Some(value as i64),
            None => None::<i64>,
        }),
{
    let line = &lines[k];
    assert(located(chars@, lines@)[k as int] == line_view(chars@, lines@[k as int]));
    let (a, b) = main_item_range(chars, line.start, line.end);
    parse_int(chars, a, b, min, max)
}

/// The parse error of the `k`-th significant line.
fn parse_error_at(lines: &Vec<TextLine>, k: usize, kind: KbmParseErrorKind) -> (r: KbmImportError)
    requires
        k < lines@.len(),
    ensures
        r == (KbmImportError::ParseError { line_number: lines@[k as int].number, kind }),
{
    KbmImportError::ParseError { line_number: lines[k].number, kind }
}

/// Reads the header from the first five significant lines.
fn read_header(chars: &Vec<char>, lines: &Vec<TextLine>) -> (r: Result<(u16, i32, i32, i16, i16), KbmImportError>)
    requires
        lines_located(chars@, lines@),
    ensures
        match kbm_header(located(chars@, lines@)) {
            Err(error) => r == Err::<(u16, i32, i32, i16, i16), KbmImportError>(error),
            Ok(header) => r matches Ok(values) && values.0 == header.num_items && values.1
                == header.first_note && values.2 == header.last_note && values.3 == header.origin
                && values.4 == header.ref_note,
        },
{
    let ghost ls = located(chars@, lines@);
    if lines.len() < 1 {
        return Err(KbmImportError::StructuralError(KbmStructuralError::ExpectingMapSize));
    }
    let num_items = match int_at(chars, lines, 0, 0, 65535) {
        Some(value) => value as u16,
        None => return Err(parse_error_at(lines, 0, KbmParseErrorKind::IntValue)),
    };
    if lines.len() < 2 {
        return Err(KbmImportError::StructuralError(KbmStructuralError::ExpectingFirstMidiNote));
    }
    let first_note = match int_at(chars, lines, 1, -0x8000_0000, 0x7fff_ffff) {
        Some(value) => value as i32,
        None => return Err(parse_error_at(lines, 1, KbmParseErrorKind::IntValue)),
    };
    if lines.len() < 3 {
        return Err(KbmImportError::StructuralError(KbmStructuralError::ExpectingLastMidiNote));
    }
    let last_note = match int_at(chars, lines, 2, -0x8000_0000, 0x7fff_ffff) {
        Some(value) => value as i32,
        None => return Err(parse_error_at(lines, 2, KbmParseErrorKind::IntValue)),
    };
    if lines.len() < 4 {
        return Err(KbmImportError::StructuralError(KbmStructuralError::ExpectingOrigin));
    }
    let origin = match int_at(chars, lines, 3, -0x8000, 0x7fff) {
        Some(value) => value as i16,
        None => return Err(parse_error_at(lines, 3, KbmParseErrorKind::IntValue)),
    };
    if lines.len() < 5 {
        return Err(KbmImportError::StructuralError(KbmStructuralError::ExpectingReferenceNote));
    }
    let ref_note = match int_at(chars, lines, 4, -0x8000, 0x7fff) {
        Some(value) => value as i16,
        None => return Err(parse_error_at(lines, 4, KbmParseErrorKind::IntValue)),
    };
    Ok((num_items, first_note, last_note, origin, ref_note))
}

/// Reads the formal octave and the mapping table of a keyboard mapping with the given header and
/// reference pitch.
fn read_body<P>(
    chars: &Vec<char>,
    lines: &Vec<TextLine>,
    header: (u16, i32, i32, i16, i16),
    ref_pitch: P,
) -> (r: Result<Kbm<P>, KbmImportError>)
    requires
        lines_located(chars@, lines@),
        lines@.len() >= 6,
        header.2 < i32::MAX,
    ensures
        import_view(r) == kbm_body(
            located(chars@, lines@),
            KbmHeader {
                num_items: header.0 as int,
                first_note: header.1 as int,
                last_note: header.2 as int,
                origin: header.3 as int,
                ref_note: header.4 as int,
            },
            ref_pitch,
        ),
{
    let ghost ls = located(chars@, lines@);
    let (num_items, first_note, last_note, origin, ref_note) = header;
    if lines.len() < 7 {
        return Err(KbmImportError::StructuralError(KbmStructuralError::ExpectingFormalOctave));
    }
    let formal_octave = match int_at(chars, lines, 6, -0x8000, 0x7fff) {
        Some(value) => value as i16,
        None => return Err(parse_error_at(lines, 6, KbmParseErrorKind::IntValue)),
    };
    let kbm_root = KbmRoot {
        ref_key: PianoKey::from_midi_number(ref_note as i32),
        ref_pitch,
        root_offset: origin as i32 - ref_note as i32,
    };
    let range = PianoKey::from_midi_number(first_note)..PianoKey::from_midi_number(last_note).plus_steps(1);
    let mut builder = Kbm::builder(kbm_root).range(range).formal_octave(formal_octave);
    let ghost start = builder@;
    let mut k: usize = 7;
    assert(ls.subrange(7, 7) =~= Seq::<(int, Seq<char>)>::empty());
    while k < lines.len()
        invariant
            lines_located(chars@, lines@),
            ls == located(chars@, lines@),
            7 <= k <= lines@.len(),
            int_item(ls, 6, i16::MIN as int, i16::MAX as int) is Some,
            mapping_of(ls.subrange(7, k as int)) is Ok,
            builder@ == (crate::scala::KbmBuilderView {
                mapping: mapping_of(ls.subrange(7, k as int))->Ok_0,
                ..start
            }),
        decreases lines@.len() - k,
    {
        let line = &lines[k];
        assert(ls[k as int] == line_view(chars@, lines@[k as int]));
        let (a, b) = main_item_range(chars, line.start, line.end);
        let ghost t = chars@.subrange(a as int, b as int);
        let ghost done = ls.subrange(7, k as int);
        let ghost next = ls.subrange(7, k + 1);
        assert(next.drop_last() =~= done);
        assert(next.last() == ls[k as int]);
        assert(t == main_item(next.last().1));
        if b - a == 1 && (chars[a] == 'x' || chars[a] == 'X') {
            assert(t =~= seq![chars[a as int]]);
            builder = builder.push_unmapped_key();
        } else {
            assert(t != seq!['x'] && t != seq!['X']) by {
                if t == seq!['x'] || t == seq!['X'] {
                    assert(t.len() == 1 && t[0] == chars@[a as int]);
                }
            }
            match parse_int(chars, a, b, -0x8000, 0x7fff) {
                Some(degree) => {
                    builder = builder.push_mapped_key(degree as i16);
                },
                None => {
                    assert(next.len() - 1 == k - 7);
                    assert(mapping_entry(t) is None);
                    assert(mapping_of(next) == parse_error::<Seq<Option<i16>>>(
                        next,
                        next.len() - 1,
                        KbmParseErrorKind::KeyboardMapping,
                    ));
                    assert(next[next.len() - 1].0 == lines@[k as int].number);
                    proof {
                        lemma_mapping_error_persists(ls.subrange(7, ls.len() as int), k - 7 + 1);
                        assert(ls.subrange(7, ls.len() as int).take(k - 7 + 1) =~= next);
                    }
                    return Err(
                        KbmImportError::ParseError {
                            line_number: line.number,
                            kind: KbmParseErrorKind::KeyboardMapping,
                        },
                    );
                },
            }
        }
        k = k + 1;
    }
    assert(ls.subrange(7, k as int) =~= ls.subrange(7, ls.len() as int));
    let ghost entries = mapping_of(ls.subrange(7, ls.len() as int))->Ok_0;
    let mut count: usize = lines.len() - 7;
    proof {
        lemma_mapping_len(ls.subrange(7, ls.len() as int));
    }
    assert(entries + Seq::new(0, |_i: int| None::<i16>) =~= entries);
    while count < num_items as usize
        invariant
            count == entries.len() || entries.len() < count <= num_items,
            entries.len() == lines@.len() - 7,
            builder@ == (crate::scala::KbmBuilderView {
                mapping: entries + Seq::new((count - entries.len()) as nat, |_i: int| None::<i16>),
                ..start
            }),
        decreases num_items as usize - count,
    {
        builder = builder.push_unmapped_key();
        count = count + 1;
        assert(builder@.mapping =~= entries + Seq::new((count - entries.len()) as nat, |_i: int| None::<i16>));
    }
    assert(builder@.mapping =~= padded(entries, num_items as int));
    match builder.build() {
        Err(error) => Err(KbmImportError::BuildError(error)),
        Ok(kbm) => {
            if kbm.num_items() == num_items {
                Ok(kbm)
            } else {
                Err(KbmImportError::StructuralError(KbmStructuralError::InconsistentNumberOfItems))
            }
        },
    }
}

proof fn lemma_mapping_error_persists(lines: Seq<(int, Seq<char>)>, k: int)
    requires
        0 <= k <= lines.len(),
        mapping_of(lines.take(k)) is Err,
    ensures
        mapping_of(lines) == mapping_of(lines.take(k)),
    decreases lines.len(),
{
    if k < lines.len() {
        assert(lines.drop_last().take(k) =~= lines.take(k));
        lemma_mapping_error_persists(lines.drop_last(), k);
    } else {
        assert(lines.take(k) =~= lines);
    }
}

proof fn lemma_mapping_len(lines: Seq<(int, Seq<char>)>)
    ensures
        mapping_of(lines) matches Ok(entries) ==> entries.len() == lines.len(),
    decreases lines.len(),
{
    if lines.len() > 0 {
        lemma_mapping_len(lines.drop_last());
    }
}

/// Imports a keyboard mapping in KBM format from `input`, reading the reference pitch with
/// `parse_pitch`, which is called once, on the main item of the reference pitch line, if the
/// lines before it are well-formed.
pub fn import_kbm<P, F: Fn(&str) -> Option<P>>(input: &str, parse_pitch: F) -> (r: Result<
    Kbm<P>,
    KbmImportError,
>)
    requires
        input@.len() < usize::MAX,
        kbm_range_fits(text_lines(input@)),
        forall|t: &str| #[trigger] parse_pitch.requires((t,)),
    ensures
        kbm_needs_pitch(text_lines(input@)) ==> exists|t: &str, pitch: Option<P>|
            t@ == item(text_lines(input@), 5) && #[trigger] parse_pitch.ensures((t,), pitch)
                && import_view(r) == kbm_from_lines(text_lines(input@), pitch),
        !kbm_needs_pitch(text_lines(input@)) ==> import_view(r) == kbm_from_lines(
            text_lines(input@),
            None::<P>,
        ),
{
    let mut chars: Vec<char> = Vec::new();
    for c in it: input.chars()
        invariant
            it.seq() == input@,
            chars@ == input@.take(it.index() as int),
    {
        assert(input@.take(it.index() + 1) =~= chars@.push(c));
        chars.push(c);
    }
    assert(chars@ =~= input@);
    let lines = text_lines_of(&chars);
    let ghost ls = located(chars@, lines@);
    assert(ls == text_lines(input@));
    let header = match read_header(&chars, &lines) {
        Err(error) => return Err(error),
        Ok(header) => header,
    };
    if lines.len() < 6 {
        return Err(KbmImportError::StructuralError(KbmStructuralError::ExpectingReferencePitch));
    }
    let line = &lines[5];
    assert(ls[5] == line_view(chars@, lines@[5]));
    let (a, b) = main_item_range(&chars, line.start, line.end);
    let token = input.substring_char(a, b);
    let pitch = parse_pitch(token);
    match pitch {
        None => Err(
            KbmImportError::ParseError {
                line_number: line.number,
                kind: KbmParseErrorKind::FloatValue,
            },
        ),
        Some(ref_pitch) => read_body(&chars, &lines, header, ref_pitch),
    }
}

/// Whether `t` is a word: not empty, free of white space and not the start of a comment.
pub open spec fn is_word(t: Seq<char>) -> bool {
    &&& t.len() > 0
    &&& t[0] != '!'
    &&& forall|i: int| 0 <= i < t.len() ==> !is_white_space(#[trigger] t[i])
}

/// The lines `items`, each followed by a line break.
pub open spec fn joined_lines(items: Seq<Seq<char>>) -> Seq<char>
    decreases items.len(),
{
    if items.len() == 0 {
        Seq::empty()
    } else {
        joined_lines(items.drop_last()) + items.last().push('\n')
    }
}

/// The items numbered from 1, as significant lines.
pub open spec fn numbered(items: Seq<Seq<char>>) -> Seq<(int, Seq<char>)> {
    Seq::new(items.len(), |i: int| (i + 1, items[i]))
}

/// Appending text without line breaks extends the last line.
proof fn lemma_split_append(s: Seq<char>, c: Seq<char>)
    requires
        forall|i: int| 0 <= i < c.len() ==> #[trigger] c[i] != '\n',
    ensures
        split_lines(s + c) == split_lines(s).update(
            split_lines(s).len() - 1,
            split_lines(s).last() + c,
        ),
    decreases c.len(),
{
    lemma_split_lines_len(s);
    if c.len() == 0 {
        assert(s + c =~= s);
        assert(split_lines(s).last() + c =~= split_lines(s).last());
        assert(split_lines(s).update(split_lines(s).len() - 1, split_lines(s).last()) =~= split_lines(
            s,
        ));
    } else {
        let shorter = c.drop_last();
        lemma_split_append(s, shorter);
        assert((s + c).drop_last() =~= s + shorter);
        assert((s + c).last() == c[c.len() - 1]);
        let previous = split_lines(s + shorter);
        assert(split_lines(s + c) == previous.update(
            previous.len() - 1,
            previous.last().push(c[c.len() - 1]),
        ));
        assert((split_lines(s).last() + shorter).push(c[c.len() - 1]) =~= split_lines(s).last() + c);
        assert(split_lines(s + c) =~= split_lines(s).update(
            split_lines(s).len() - 1,
            split_lines(s).last() + c,
        ));
    }
}

/// The lines of joined words are the words, followed by the empty line after the last break.
proof fn lemma_split_joined(items: Seq<Seq<char>>)
    requires
        forall|k: int| 0 <= k < items.len() ==> is_word(#[trigger] items[k]),
    ensures
        split_lines(joined_lines(items)) == items.push(Seq::empty()),
    decreases items.len(),
{
    if items.len() == 0 {
        assert(split_lines(Seq::empty()) =~= seq![Seq::<char>::empty()]);
        assert(items.push(Seq::empty()) =~= seq![Seq::<char>::empty()]);
    } else {
        let previous = items.drop_last();
        let c = items.last();
        assert forall|k: int| 0 <= k < previous.len() implies is_word(#[trigger] previous[k]) by {
            assert(previous[k] == items[k]);
        }
        lemma_split_joined(previous);
        let joined = joined_lines(previous);
        assert forall|i: int| 0 <= i < c.len() implies #[trigger] c[i] != '\n' by {
            assert(is_word(items[items.len() - 1]));
            assert(!is_white_space(c[i]));
        }
        lemma_split_append(joined, c);
        assert(previous.push(Seq::empty()).update(previous.len() as int, Seq::<char>::empty() + c)
            =~= previous.push(c));
        assert(joined_lines(items) =~= (joined + c).push('\n'));
        assert((joined + c).push('\n').drop_last() =~= joined + c);
        assert(previous.push(c) =~= items);
    }
}

/// A word is its own trimmed content.
proof fn lemma_word_trimmed(t: Seq<char>)
    requires
        is_word(t),
    ensures
        trimmed(t) == t,
        is_significant(t),
{
    assert(!is_white_space(t[0]));
    assert(trim_start(t) == t);
    assert(!is_white_space(t[t.len() - 1]));
    assert(trim_end(t) == t);
}

/// A word is its own main item.
proof fn lemma_word_main_item(t: Seq<char>)
    requires
        is_word(t),
    ensures
        main_item(t) == t,
{
    assert(!is_white_space(t[0]));
    assert(skip_ascii_white_space(t) == t);
    lemma_word_len(t);
    assert(t.take(t.len() as int) =~= t);
}

proof fn lemma_word_len(t: Seq<char>)
    requires
        forall|i: int| 0 <= i < t.len() ==> !is_white_space(#[trigger] t[i]),
    ensures
        word_len(t) == t.len(),
    decreases t.len(),
{
    if t.len() > 0 {
        assert(!is_white_space(t[0]));
        let rest = t.drop_first();
        assert forall|i: int| 0 <= i < rest.len() implies !is_white_space(#[trigger] rest[i]) by {
            assert(rest[i] == t[i + 1]);
        }
        lemma_word_len(rest);
    }
}

/// The significant lines of lines that are all words are the words, numbered from 1.
#[verifier::spinoff_prover]
proof fn lemma_significant_words(items: Seq<Seq<char>>)
    requires
        forall|k: int| 0 <= k < items.len() ==> is_word(#[trigger] items[k]),
    ensures
        significant_lines(items) == numbered(items),
        significant_lines(items.push(Seq::empty())) == numbered(items),
    decreases items.len(),
{
    if items.len() > 0 {
        let previous = items.drop_last();
        assert forall|k: int| 0 <= k < previous.len() implies is_word(#[trigger] previous[k]) by {
            assert(previous[k] == items[k]);
        }
        lemma_significant_words(previous);
        assert(is_word(items[items.len() - 1]));
        lemma_word_trimmed(items.last());
        assert(numbered(previous).push((items.len() as int, items.last())) =~= numbered(items));
    }
    let pushed = items.push(Seq::empty());
    assert(pushed.drop_last() =~= items);
    assert(trim_start(Seq::<char>::empty()) == Seq::<char>::empty());
    assert(trimmed(pushed.last()) =~= Seq::<char>::empty());
}

/// Joined words read back as the words, numbered from 1, each being its own main item.
pub proof fn lemma_text_lines_of_words(items: Seq<Seq<char>>)
    requires
        forall|k: int| 0 <= k < items.len() ==> is_word(#[trigger] items[k]),
    ensures
        text_lines(joined_lines(items)) == numbered(items),
        forall|k: int| 0 <= k < items.len() ==> main_item(#[trigger] items[k]) == items[k],
{
    lemma_split_joined(items);
    lemma_significant_words(items);
    assert forall|k: int| 0 <= k < items.len() implies main_item(#[trigger] items[k]) == items[k] by {
        lemma_word_main_item(items[k]);
    }
}

/// Joining concatenated lists of lines concatenates the joined texts.
pub proof fn lemma_joined_concat(a: Seq<Seq<char>>, b: Seq<Seq<char>>)
    ensures
        joined_lines(a + b) == joined_lines(a) + joined_lines(b),
    decreases b.len(),
{
    if b.len() == 0 {
        assert(a + b =~= a);
        assert(joined_lines(a) + joined_lines(b) =~= joined_lines(a));
    } else {
        lemma_joined_concat(a, b.drop_last());
        assert((a + b).drop_last() =~= a + b.drop_last());
        assert((a + b).last() == b.last());
        assert(joined_lines(a + b) =~= joined_lines(a) + joined_lines(b));
    }
}

proof fn lemma_digits_of(n: nat)
    ensures
        digits_of_len_pos(n),
        all_digits(text::digits_of(n)),
        digits_value(text::digits_of(n)) == n,
    decreases n,
{
    if n >= 10 {
        lemma_digits_of(n / 10);
        let d = text::digits_of(n / 10);
        let c = text::digit_char(n % 10);
        assert(text::digits_of(n).drop_last() =~= d);
        assert(text::digits_of(n).last() == c);
        lemma_digit_char(n % 10);
        vstd::arithmetic::div_mod::lemma_fundamental_div_mod(n as int, 10);
        assert(digits_value(text::digits_of(n)) == digits_value(d) * 10 + (c as int - '0' as int));
        assert(all_digits(text::digits_of(n))) by {
            assert forall|i: int| 0 <= i < text::digits_of(n).len() implies '0' <= #[trigger] text::digits_of(n)[i] <= '9' by {
                if i < d.len() {
                    assert(text::digits_of(n)[i] == d[i]);
                }
            }
        }
    } else {
        lemma_digit_char(n);
        assert(seq![text::digit_char(n)].drop_last() =~= Seq::<char>::empty());
        assert(digits_value(Seq::<char>::empty()) == 0);
        assert(digits_value(text::digits_of(n)) == digits_value(Seq::<char>::empty()) * 10 + (
        text::digit_char(n) as int - '0' as int));
    }
}

proof fn lemma_digit_char(d: nat)
    requires
        d < 10,
    ensures
        text::digit_char(d) as int == d + '0' as int,
        '0' <= text::digit_char(d) <= '9',
{
}

/// The digits of a number are never empty.
pub open spec fn digits_of_len_pos(n: nat) -> bool {
    text::digits_of(n).len() > 0
}

/// The decimal representation of a number is a word that parses back to the number, and neither
/// `x` nor `X`.
pub proof fn lemma_decimal_parses(v: int, min: int, max: int)
    requires
        min <= v <= max,
    ensures
        is_word(text::decimal(v)),
        parsed_int(text::decimal(v), min, max) == Some(v),
        text::decimal(v) != seq!['x'],
        text::decimal(v) != seq!['X'],
{
    let t = text::decimal(v);
    if v < 0 {
        let d = text::digits_of((-v) as nat);
        lemma_digits_of((-v) as nat);
        assert(t.drop_first() =~= d);
        assert forall|i: int| 0 <= i < t.len() implies !is_white_space(#[trigger] t[i]) by {
            if i > 0 {
                assert(t[i] == d[i - 1]);
                assert('0' <= d[i - 1] <= '9');
            }
        }
        assert(t.len() >= 2);
    } else {
        lemma_digits_of(v as nat);
        assert forall|i: int| 0 <= i < t.len() implies !is_white_space(#[trigger] t[i]) by {
            assert('0' <= t[i] <= '9');
        }
        assert('0' <= t[0] <= '9');
    }
    assert(t.len() != 1 || t[0] != 'x') by {
        if v < 0 {
            assert(t[0] == '-');
        } else {
            assert('0' <= t[0] <= '9');
        }
    }
    if t == seq!['x'] || t == seq!['X'] {
        assert(t[0] == 'x' || t[0] == 'X');
        if v >= 0 {
            assert('0' <= t[0] <= '9');
        }
    }
}

} // verus!
