//! The filter itself, from a whole input to what is written for it.

use crate::config::Config;
use crate::line::{line_end, split_lines};
use crate::render::{lemma_rendered_all_push, rendered_all};
use crate::run::{collapse, completed, finished_runs, pending_after, remainder, PendingRun};
use vstd::prelude::*;
use vstd::slice::slice_subrange;
use vstd::utf8::valid_utf8;

verus! {

/// Why the filter stopped before the end of its input.
#[derive(Debug, Clone, Copy, PartialEq, Eq)]
pub enum ProcessError {
    /// The line with this index, counted from zero, is not well-formed UTF-8.
    InvalidUtf8 { line_index: usize },
}

/// What is written for `input`: each run of its lines, in order.
pub open spec fn collapsed_output(input: Seq<u8>, show_count: bool) -> Seq<u8> {
    rendered_all(collapse(split_lines(input)), show_count)
}

/// Every one of `lines` is well-formed UTF-8.
pub open spec fn all_well_formed(lines: Seq<Seq<u8>>) -> bool {
    forall|i: int| 0 <= i < lines.len() ==> valid_utf8(#[trigger] lines[i])
}

/// `std::str::from_utf8`, asked only whether it accepts `bytes`: it does so
/// exactly when they are well-formed UTF-8.
#[verifier::external_body]
fn is_utf8(bytes: &[u8]) -> (ok: bool)
    ensures
        ok == valid_utf8(bytes@),
{
    std::str::from_utf8(bytes).is_ok()
}

/// Reads `reader` line by line and appends to `writer` one line for each run
/// of matching lines, with its count in front where `config` asks for counts.
///
/// The line written for a run is the first line of the run as it was read.
/// Blank lines at the very start of the input match the empty pending line,
/// so their run is written as the empty line.
///
/// A line that is not well-formed UTF-8 stops the pass: the runs finished
/// before it stay written, the run then pending is not.
pub fn process_read_write(reader: &[u8], writer: &mut Vec<u8>, config: &Config) -> (res: Result<
    (),
    ProcessError,
>)
    ensures
        res is Ok <==> all_well_formed(split_lines(reader@)),
        res is Ok ==> final(writer)@ == old(writer)@ + collapsed_output(
            reader@,
            config.show_count,
        ),
        res matches Err(ProcessError::InvalidUtf8 { line_index }) ==> {
            let lines = split_lines(reader@);
            &&& line_index < lines.len()
            &&& !valid_utf8(lines[line_index as int])
            &&& all_well_formed(lines.take(line_index as int))
            &&& final(writer)@ == old(writer)@ + rendered_all(
                finished_runs(lines.take(line_index as int)),
                config.show_count,
            )
        },
{
    let ghost lines = split_lines(reader@);
    let ghost mut seen: Seq<Seq<u8>> = Seq::empty();
    let mut pending = PendingRun::new();
    let mut start: usize = 0;
    let mut index: usize = 0;
    assert(reader@.skip(0) =~= reader@);
    while start < reader.len()
        invariant
            start <= reader.len(),
            lines == split_lines(reader@),
            lines == seen + split_lines(reader@.skip(start as int)),
            index == seen.len(),
            index <= start,
            all_well_formed(seen),
            pending@ == pending_after(seen),
            pending@.count <= index,
            writer@ == old(writer)@ + rendered_all(finished_runs(seen), config.show_count),
        decreases reader.len() - start,
    {
        let end: usize = line_end(reader, start);
        let line: &[u8] = slice_subrange(reader, start, end);
        proof {
            let rest = reader@.skip(start as int);
            assert(rest.take(end - start) =~= line@);
            assert(rest.skip(end - start) =~= reader@.skip(end as int));
            assert(lines =~= seen.push(line@) + split_lines(reader@.skip(end as int)));
            assert(lines[index as int] == line@);
            assert(lines.take(index as int) =~= seen);
            assert(seen.push(line@).drop_last() =~= seen);
        }
        if !is_utf8(line) {
            return Err(ProcessError::InvalidUtf8 { line_index: index });
        }
        match pending.observe(line) {
            Some(run) => {
                run.render_into(config.show_count, writer);
            },
            None => {},
        }
        proof {
            let before = finished_runs(seen);
            match completed(pending_after(seen), line@) {
                Some(run) => {
                    lemma_rendered_all_push(before, run, config.show_count);
                    assert(writer@ =~= old(writer)@ + rendered_all(
                        before.push(run),
                        config.show_count,
                    ));
                },
                None => {},
            }
            seen = seen.push(line@);
        }
        start = end;
        index = index + 1;
    }
    proof {
        assert(seen =~= lines);
    }
    match pending.flush() {
        Some(run) => {
            run.render_into(config.show_count, writer);
        },
        None => {},
    }
    proof {
        match remainder(pending_after(lines)) {
            Some(run) => {
                lemma_rendered_all_push(finished_runs(lines), run, config.show_count);
                assert(writer@ =~= old(writer)@ + rendered_all(
                    collapse(lines),
                    config.show_count,
                ));
            },
            None => {},
        }
    }
    Ok(())
}

} // verus!
