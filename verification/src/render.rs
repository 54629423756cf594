//! How a finished run is written out: the line as it was read, behind its
//! count where counts are asked for.

use crate::run::{Run, RunView};
use vstd::prelude::*;

verus! {

/// The space, which pads the count and parts it from the line.
pub const SPACE: u8 = 32;

/// The digit zero; the other digits follow it.
pub const ZERO: u8 = 48;

/// The narrowest that a count is written: shorter ones are padded on the
/// left, longer ones are written in full.
pub const COUNT_WIDTH: usize = 4;

/// The decimal digits of `n`, most significant first, without leading zeros.
pub open spec fn decimal(n: nat) -> Seq<u8>
    decreases n,
{
    if n < 10 {
        seq![(ZERO + n) as u8]
    } else {
        decimal(n / 10).push((ZERO + n % 10) as u8)
    }
}

/// `width` spaces.
pub open spec fn spaces(width: nat) -> Seq<u8> {
    Seq::new(width, |i: int| SPACE)
}

/// The count `n` as it is written: its decimal digits, right-aligned in
/// [`COUNT_WIDTH`] columns, never cut short.
pub open spec fn count_field(n: nat) -> Seq<u8> {
    let digits = decimal(n);
    if digits.len() < COUNT_WIDTH {
        spaces((COUNT_WIDTH - digits.len()) as nat) + digits
    } else {
        digits
    }
}

/// One run as it is written: with counts, the count field, one space and the
/// line; without, the line alone. The line keeps its terminator.
pub open spec fn rendered(run: RunView, show_count: bool) -> Seq<u8> {
    if show_count {
        count_field(run.count) + seq![SPACE] + run.line
    } else {
        run.line
    }
}

/// The runs written one after another.
pub open spec fn rendered_all(runs: Seq<RunView>, show_count: bool) -> Seq<u8>
    decreases runs.len(),
{
    if runs.len() == 0 {
        Seq::empty()
    } else {
        rendered_all(runs.drop_last(), show_count) + rendered(runs.last(), show_count)
    }
}

/// Writing one more run appends it to what was written before.
pub proof fn lemma_rendered_all_push(runs: Seq<RunView>, run: RunView, show_count: bool)
    ensures
        rendered_all(runs.push(run), show_count) == rendered_all(runs, show_count) + rendered(
            run,
            show_count,
        ),
{
    assert(runs.push(run).drop_last() =~= runs);
}

/// Appends the decimal digits of `n` to `out`.
pub fn push_decimal(out: &mut Vec<u8>, n: usize)
    ensures
        final(out)@ == old(out)@ + decimal(n as nat),
    decreases n,
{
    if n >= 10 {
        push_decimal(out, n / 10);
    }
    let digit: u8 = ZERO + (n % 10) as u8;
    out.push(digit);
    assert(final(out)@ =~= old(out)@ + decimal(n as nat)) by {
        if n < 10 {
            assert(n % 10 == n);
        }
    }
}

/// Appends the count field of `n` to `out`.
pub fn push_count_field(out: &mut Vec<u8>, n: usize)
    ensures
        final(out)@ == old(out)@ + count_field(n as nat),
{
    let mut digits: Vec<u8> = Vec::new();
    push_decimal(&mut digits, n);
    assert(digits@ =~= decimal(n as nat));
    let mut width: usize = digits.len();
    while width < COUNT_WIDTH
        invariant
            digits.len() <= width,
            width > digits.len() ==> width <= COUNT_WIDTH,
            out@ == old(out)@ + spaces((width - digits.len()) as nat),
        decreases COUNT_WIDTH - width,
    {
        out.push(SPACE);
        width = width + 1;
        assert(out@ =~= old(out)@ + spaces((width - digits.len()) as nat));
    }
    out.extend_from_slice(digits.as_slice());
    assert(final(out)@ =~= old(out)@ + count_field(n as nat));
}

impl Run {
    /// Appends this run to `out` as it is written.
    pub fn render_into(&self, show_count: bool, out: &mut Vec<u8>)
        ensures
            final(out)@ == old(out)@ + rendered(self@, show_count),
    {
        if show_count {
            push_count_field(out, self.count);
            out.push(SPACE);
        }
        out.extend_from_slice(self.line.as_slice());
        assert(final(out)@ =~= old(out)@ + rendered(self@, show_count));
    }

    /// This run as it is written.
    pub fn render(&self, show_count: bool) -> (bytes: Vec<u8>)
        ensures
            bytes@ == rendered(self@, show_count),
    {
        let mut bytes: Vec<u8> = Vec::new();
        self.render_into(show_count, &mut bytes);
        assert(bytes@ =~= rendered(self@, show_count));
        bytes
    }
}

} // verus!
