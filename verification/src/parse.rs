//! Splitting expressions at separators outside of braces.
use vstd::prelude::*;
use vstd::string::StrSliceExecFns;
use vstd::std_specs::iter::IteratorSpec;

verus! {

broadcast use vstd::string::group_string_axioms;

/// The brace depth after reading `s`: `{` opens and `}` closes a level (unmatched `}` make it
/// negative).
pub open spec fn brace_depth(s: Seq<char>) -> int
    decreases s.len(),
{
    if s.len() == 0 {
        0
    } else {
        brace_depth(s.drop_last()) + if s.last() == '{' {
            1int
        } else if s.last() == '}' {
            -1int
        } else {
            0int
        }
    }
}

/// Whether `s` is split at position `i`: the character there is the separator and lies outside
/// of any braces.
pub open spec fn is_split_point(s: Seq<char>, i: int, separator: char) -> bool {
    &&& s[i] != '{'
    &&& s[i] != '}'
    &&& s[i] == separator
    &&& brace_depth(s.take(i)) == 0
}

/// The pieces between the split points, in order; `n` split points give `n + 1` pieces.
pub open spec fn balanced_pieces(s: Seq<char>, separator: char) -> Seq<Seq<char>>
    decreases s.len(),
{
    if s.len() == 0 {
        seq![Seq::empty()]
    } else {
        let previous = balanced_pieces(s.drop_last(), separator);
        if is_split_point(s, s.len() - 1, separator) {
            previous.push(Seq::empty())
        } else {
            previous.update(previous.len() - 1, previous.last().push(s.last()))
        }
    }
}

/// The pieces joined again, with the separator between neighbouring pieces.
pub open spec fn joined(pieces: Seq<Seq<char>>, separator: char) -> Seq<char>
    decreases pieces.len(),
{
    if pieces.len() <= 1 {
        if pieces.len() == 1 {
            pieces[0]
        } else {
            Seq::empty()
        }
    } else {
        joined(pieces.drop_last(), separator) + seq![separator] + pieces.last()
    }
}

/// Appending a character to the last piece appends it to the joined text.
proof fn lemma_joined_extend_last(pieces: Seq<Seq<char>>, separator: char, c: char)
    requires
        pieces.len() >= 1,
    ensures
        joined(pieces.update(pieces.len() - 1, pieces.last().push(c)), separator) == joined(
            pieces,
            separator,
        ).push(c),
{
    let updated = pieces.update(pieces.len() - 1, pieces.last().push(c));
    if pieces.len() > 1 {
        assert(updated.drop_last() =~= pieces.drop_last());
    }
}

/// Splitting loses nothing: joining the pieces with the separator gives back the text.
pub proof fn lemma_split_then_join(s: Seq<char>, separator: char)
    ensures
        balanced_pieces(s, separator).len() >= 1,
        joined(balanced_pieces(s, separator), separator) == s,
    decreases s.len(),
{
    if s.len() > 0 {
        let previous = s.drop_last();
        lemma_split_then_join(previous, separator);
        let pieces = balanced_pieces(previous, separator);
        if is_split_point(s, s.len() - 1, separator) {
            let pushed = pieces.push(Seq::<char>::empty());
            assert(pushed.drop_last() =~= pieces);
            assert(joined(pushed, separator) =~= s);
        } else {
            lemma_joined_extend_last(pieces, separator, s.last());
            assert(previous.push(s.last()) =~= s);
        }
    }
}

/// Whether the brace depth stays within the `i32` range along `s`.
pub open spec fn depth_fits(s: Seq<char>) -> bool {
    forall|i: int| 0 <= i <= s.len() ==> i32::MIN <= #[trigger] brace_depth(s.take(i)) <= i32::MAX
}

/// The pieces `chars[starts[j]..ends[j]]`.
pub open spec fn completed_pieces(chars: Seq<char>, starts: Seq<usize>, ends: Seq<usize>) -> Seq<
    Seq<char>,
> {
    Seq::new(starts.len(), |j: int| chars.subrange(starts[j] as int, ends[j] as int))
}

/// The completed pieces `chars[starts[j]..ends[j]]`, followed by the current piece
/// `chars[start..position]`, are the pieces of the first `position` characters.
pub open spec fn pieces_match(
    chars: Seq<char>,
    starts: Seq<usize>,
    ends: Seq<usize>,
    start: usize,
    position: int,
    separator: char,
) -> bool {
    &&& start <= position <= chars.len()
    &&& forall|j: int| 0 <= j < starts.len() ==> #[trigger] starts[j] <= ends[j] <= position
    &&& balanced_pieces(chars.take(position), separator) == completed_pieces(chars, starts, ends).push(chars.subrange(start as int, position))
}

/// Splits `s` at every `split_character` that does not lie within braces.
pub fn split_balanced(s: &str, split_character: char) -> (r: Vec<&str>)
    requires
        depth_fits(s@),
        s@.len() < usize::MAX,
    ensures
        r@.map_values(|piece: &str| piece@) == balanced_pieces(s@, split_character),
{
    let ghost chars = s@;
    let mut starts: Vec<usize> = Vec::new();
    let mut ends: Vec<usize> = Vec::new();
    let mut num_parens: i32 = 0;
    let mut start: usize = 0;
    let mut position: usize = 0;
    proof {
        assert(chars.take(0) =~= Seq::<char>::empty());
        assert(brace_depth(chars.take(0)) == 0);
        assert(balanced_pieces(chars.take(0), split_character) =~= completed_pieces(chars, starts@, ends@).push(chars.subrange(0, 0)));
    }
    for c in it: s.chars()
        invariant
            it.seq() == chars,
            chars == s@,
            chars.len() < usize::MAX,
            position == it.index(),
            position <= chars.len(),
            depth_fits(chars),
            num_parens == brace_depth(chars.take(position as int)),
            start <= position,
            starts@.len() == ends@.len(),
            pieces_match(chars, starts@, ends@, start, position as int, split_character),
    {
        assert(position < chars.len());
        assert(chars[position as int] == c);
        let ghost prefix = chars.take(position as int);
        let ghost old_starts = starts@;
        let ghost old_ends = ends@;
        let ghost old_start = start;
        let ghost completed = completed_pieces(chars, old_starts, old_ends);
        proof {
            assert(chars.take(position + 1).drop_last() =~= prefix);
            assert(chars.take(position + 1).last() == c);
            assert(chars.take(position + 1) =~= prefix.push(c));
            assert(i32::MIN <= brace_depth(chars.take(position + 1)) <= i32::MAX);
        }
        if c == '{' {
            num_parens = num_parens + 1;
        } else if c == '}' {
            num_parens = num_parens - 1;
        } else if num_parens == 0 && c == split_character {
            starts.push(start);
            ends.push(position);
            start = position + 1;
        }
        proof {
            let next = chars.take(position + 1);
            assert(next.drop_last() =~= prefix);
            assert(next.take(position as int) =~= prefix);
            let split = is_split_point(next, position as int, split_character);
            assert(split <==> (c != '{' && c != '}' && num_parens == 0 && c == split_character));
            assert(next.len() == position + 1);
            assert forall|j: int| 0 <= j < starts@.len() implies #[trigger] starts@[j] <= ends@[j] <= position + 1 by {
                if j < old_starts.len() {
                    assert(starts@[j] == old_starts[j]);
                }
            }
            if split {
                assert(balanced_pieces(next, split_character) == balanced_pieces(prefix, split_character).push(
                    Seq::empty(),
                ));
                assert(chars.subrange(start as int, position + 1) =~= Seq::<char>::empty());
                assert(completed_pieces(chars, starts@, ends@) =~= completed.push(chars.subrange(old_start as int, position as int)));
                assert(balanced_pieces(next, split_character) =~= completed_pieces(chars, starts@, ends@).push(chars.subrange(start as int, position + 1)));
            } else {
                assert(chars.subrange(old_start as int, position + 1) =~= chars.subrange(
                    old_start as int,
                    position as int,
                ).push(c));
                assert(completed_pieces(chars, starts@, ends@) =~= completed);
                assert(balanced_pieces(next, split_character) =~= completed.push(
                    chars.subrange(start as int, position + 1),
                ));
            }
            assert(start <= position + 1 <= chars.len());
            assert(balanced_pieces(chars.take(position + 1), split_character) == completed_pieces(chars, starts@, ends@).push(chars.subrange(start as int, position + 1)));
            assert(pieces_match(chars, starts@, ends@, start, position + 1, split_character));
        }
        position = position + 1;
    }
    assert(chars.take(position as int) =~= chars);
    let ghost completed = completed_pieces(chars, starts@, ends@);
    starts.push(start);
    ends.push(position);
    assert(completed_pieces(chars, starts@, ends@) =~= balanced_pieces(chars, split_character));
    assert(forall|j: int| 0 <= j < starts@.len() ==> #[trigger] starts@[j] <= ends@[j] <= chars.len());
    let mut pieces: Vec<&str> = Vec::new();
    let mut i: usize = 0;
    while i < starts.len()
        invariant
            chars == s@,
            i <= starts@.len(),
            starts@.len() == ends@.len(),
            forall|j: int| 0 <= j < starts@.len() ==> #[trigger] starts@[j] <= ends@[j] <= chars.len(),
            pieces@.len() == i,
            forall|j: int|
                0 <= j < i ==> (#[trigger] pieces@[j])@ == chars.subrange(
                    starts@[j] as int,
                    ends@[j] as int,
                ),
        decreases starts@.len() - i,
    {
        pieces.push(s.substring_char(starts[i], ends[i]));
        i = i + 1;
    }
    assert(pieces@.map_values(|piece: &str| piece@) =~= balanced_pieces(chars, split_character));
    pieces
}

} // verus!
