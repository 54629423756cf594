//! Lines of text as bytes: where one ends, what its content is, and when two
//! of them match.

use vstd::prelude::*;

verus! {

/// The line feed, which ends a line.
pub const LF: u8 = 10;

/// The carriage return, which belongs to the terminator only directly before
/// a line feed.
pub const CR: u8 = 13;

/// How many bytes of `line` are content: all of them but one trailing
/// terminator, `\n` or `\r\n`. Other trailing white space is content.
pub open spec fn content_len(line: Seq<u8>) -> int {
    let n = line.len() as int;
    if n >= 1 && line[n - 1] == LF {
        if n >= 2 && line[n - 2] == CR {
            n - 2
        } else {
            n - 1
        }
    } else {
        n
    }
}

/// The content of `line`: the line without its terminator.
pub open spec fn content(line: Seq<u8>) -> Seq<u8> {
    line.take(content_len(line))
}

/// Two lines match when their contents are equal, whatever their terminators.
pub open spec fn same_content(a: Seq<u8>, b: Seq<u8>) -> bool {
    content(a) == content(b)
}

/// A line is blank when it has no content.
pub open spec fn is_blank(line: Seq<u8>) -> bool {
    content_len(line) == 0
}

/// Computes [`content_len`].
pub fn content_length(line: &[u8]) -> (n: usize)
    ensures
        n == content_len(line@),
{
    let n: usize = line.len();
    if n >= 1 && line[n - 1] == LF {
        if n >= 2 && line[n - 2] == CR {
            n - 2
        } else {
            n - 1
        }
    } else {
        n
    }
}

/// Decides whether two lines match.
pub fn lines_match(a: &[u8], b: &[u8]) -> (same: bool)
    ensures
        same == same_content(a@, b@),
{
    let n: usize = content_length(a);
    if n != content_length(b) {
        assert(content(a@).len() != content(b@).len());
        return false;
    }
    let mut i: usize = 0;
    while i < n
        invariant
            i <= n,
            n == content_len(a@),
            n == content_len(b@),
            forall|j: int| 0 <= j < i ==> a@[j] == b@[j],
        decreases n - i,
    {
        if a[i] != b[i] {
            assert(content(a@)[i as int] != content(b@)[i as int]);
            return false;
        }
        i += 1;
    }
    assert(content(a@) =~= content(b@));
    true
}

/// The length of the first line of `input`: it reaches up to and including
/// the first line feed, or to the end of `input` where there is none.
pub open spec fn first_line_len(input: Seq<u8>) -> int
    decreases input.len(),
{
    if input.len() == 0 {
        0
    } else if input[0] == LF {
        1
    } else {
        1 + first_line_len(input.drop_first())
    }
}

/// The lines of `input`, in order, each with its terminator. Only the last
/// line can lack one, and no line is empty; joined again they are `input`.
pub open spec fn split_lines(input: Seq<u8>) -> Seq<Seq<u8>>
    decreases input.len(),
    via split_lines_decreases
{
    if input.len() == 0 {
        Seq::empty()
    } else {
        let n = first_line_len(input);
        seq![input.take(n)] + split_lines(input.skip(n))
    }
}

#[via_fn]
proof fn split_lines_decreases(input: Seq<u8>) {
    lemma_first_line_len(input);
}

/// The first line of a non-empty input is not empty, lies within the input,
/// holds no line feed before its last byte, and ends in a line feed unless it
/// ends the input.
pub proof fn lemma_first_line_len(input: Seq<u8>)
    ensures
        0 <= first_line_len(input) <= input.len(),
        input.len() > 0 ==> first_line_len(input) >= 1,
        forall|i: int| 0 <= i < first_line_len(input) - 1 ==> input[i] != LF,
        first_line_len(input) < input.len() ==> input[first_line_len(input) - 1] == LF,
    decreases input.len(),
{
    if input.len() > 0 && input[0] != LF {
        let rest = input.drop_first();
        lemma_first_line_len(rest);
        assert forall|i: int| 0 <= i < first_line_len(input) - 1 implies input[i] != LF by {
            if i > 0 {
                assert(input[i] == rest[i - 1]);
            }
        }
        if first_line_len(input) < input.len() {
            assert(input[first_line_len(input) - 1] == rest[first_line_len(rest) - 1]);
        }
    }
}

/// A line as splitting yields it: not empty, with no line feed before its
/// last byte.
pub open spec fn is_line(line: Seq<u8>) -> bool {
    &&& line.len() > 0
    &&& forall|i: int| 0 <= i < line.len() - 1 ==> line[i] != LF
}

/// `lines` could be the lines of one input: each is a line, and each but the
/// last ends in a line feed.
pub open spec fn are_lines(lines: Seq<Seq<u8>>) -> bool {
    forall|i: int|
        0 <= i < lines.len() ==> is_line(#[trigger] lines[i]) && (i + 1 < lines.len()
            ==> lines[i].last() == LF)
}

/// What splitting yields are lines of one input.
pub proof fn lemma_split_lines_are_lines(input: Seq<u8>)
    ensures
        are_lines(split_lines(input)),
    decreases input.len(),
{
    if input.len() > 0 {
        lemma_first_line_len(input);
        let n = first_line_len(input);
        let first = input.take(n);
        let rest = split_lines(input.skip(n));
        lemma_split_lines_are_lines(input.skip(n));
        let lines = split_lines(input);
        assert(lines =~= seq![first] + rest);
        assert forall|i: int| 0 <= i < lines.len() implies is_line(#[trigger] lines[i]) && (i + 1
            < lines.len() ==> lines[i].last() == LF) by {
            if i == 0 {
                assert(lines[0] == first);
                if rest.len() > 0 {
                    assert(input.skip(n).len() > 0);
                }
            } else {
                assert(lines[i] == rest[i - 1]);
            }
        }
    }
}

/// The lines of an input, joined, are that input.
pub proof fn lemma_split_lines_join(input: Seq<u8>)
    ensures
        split_lines(input).flatten() == input,
    decreases input.len(),
{
    if input.len() > 0 {
        lemma_first_line_len(input);
        let n = first_line_len(input);
        let lines = split_lines(input);
        lemma_split_lines_join(input.skip(n));
        assert(lines.first() == input.take(n));
        assert(lines.drop_first() =~= split_lines(input.skip(n)));
        assert(lines.flatten() =~= input.take(n) + input.skip(n));
        assert(input.take(n) + input.skip(n) =~= input);
    }
}

/// Where a line is followed by more bytes only behind its line feed, it is
/// the first line of the whole.
pub proof fn lemma_first_line_of_concat(line: Seq<u8>, rest: Seq<u8>)
    requires
        is_line(line),
        rest.len() > 0 ==> line.last() == LF,
    ensures
        first_line_len(line + rest) == line.len(),
    decreases line.len(),
{
    let whole = line + rest;
    assert(whole[0] == line[0]);
    if line[0] == LF {
        assert(line.len() == 1);
    } else if line.len() == 1 {
        assert(rest.len() == 0);
        assert(whole.drop_first().len() == 0);
        assert(first_line_len(whole.drop_first()) == 0);
    } else {
        let tail = line.drop_first();
        assert forall|i: int| 0 <= i < tail.len() - 1 implies tail[i] != LF by {
            assert(tail[i] == line[i + 1]);
        }
        assert(tail.last() == line.last());
        lemma_first_line_of_concat(tail, rest);
        assert(whole.drop_first() =~= tail + rest);
        assert(first_line_len(whole) == 1 + first_line_len(whole.drop_first()));
    }
}

/// Lines of one input, joined and split again, come back as they were.
pub proof fn lemma_join_split(lines: Seq<Seq<u8>>)
    requires
        are_lines(lines),
    ensures
        split_lines(lines.flatten()) == lines,
    decreases lines.len(),
{
    if lines.len() > 0 {
        let first = lines.first();
        let rest = lines.drop_first();
        let whole = lines.flatten();
        assert(is_line(lines[0]));
        assert forall|i: int| 0 <= i < rest.len() implies is_line(#[trigger] rest[i]) && (i + 1
            < rest.len() ==> rest[i].last() == LF) by {
            assert(rest[i] == lines[i + 1]);
        }
        lemma_join_split(rest);
        assert(whole == first + rest.flatten());
        if rest.flatten().len() > 0 {
            assert(rest.len() > 0);
            assert(lines[0].last() == LF);
        }
        lemma_first_line_of_concat(first, rest.flatten());
        assert(whole.take(first.len() as int) =~= first);
        assert(whole.skip(first.len() as int) =~= rest.flatten());
        assert(split_lines(whole) =~= seq![first] + rest);
        assert(seq![first] + rest =~= lines);
    }
}

/// Finds where the line that starts at `start` ends: the index just past its
/// last byte.
pub fn line_end(input: &[u8], start: usize) -> (end: usize)
    requires
        start < input.len(),
    ensures
        start < end <= input.len(),
        end == start + first_line_len(input@.skip(start as int)),
{
    let mut i: usize = start;
    while i < input.len() && input[i] != LF
        invariant
            start <= i <= input.len(),
            first_line_len(input@.skip(start as int)) == (i - start) + first_line_len(
                input@.skip(i as int),
            ),
        decreases input.len() - i,
    {
        assert(input@.skip(i as int).drop_first() =~= input@.skip(i + 1));
        i += 1;
    }
    if i < input.len() {
        i + 1
    } else {
        i
    }
}

} // verus!
