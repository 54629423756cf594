//! Runs of matching lines: what the runs of a sequence of lines are, and the
//! pending run that finds them one line at a time.

use crate::line::{content, is_blank, lines_match, same_content};
use vstd::prelude::*;
use vstd::slice::slice_to_vec;

verus! {

/// A run as contracts speak of it: the line that stands for it, terminator
/// included, and how many lines it holds.
pub struct RunView {
    pub line: Seq<u8>,
    pub count: nat,
}

/// A finished run: the line that stands for it and the number of its lines.
#[derive(Debug, PartialEq, Eq)]
pub struct Run {
    pub line: Vec<u8>,
    pub count: usize,
}

impl View for Run {
    type V = RunView;

    open spec fn view(&self) -> RunView {
        RunView { line: self.line@, count: self.count as nat }
    }
}

/// The pending run before any line was seen: no line, no count.
pub open spec fn no_run() -> RunView {
    RunView { line: Seq::empty(), count: 0 }
}

/// The pending run after `line` was seen. A line that matches the pending
/// line joins its run; any other line opens a run of its own.
pub open spec fn advance(pending: RunView, line: Seq<u8>) -> RunView {
    if same_content(pending.line, line) {
        RunView { line: pending.line, count: pending.count + 1 }
    } else {
        RunView { line: line, count: 1 }
    }
}

/// The run that `line` finishes: the pending one, where it holds a line and
/// `line` does not match it.
pub open spec fn completed(pending: RunView, line: Seq<u8>) -> Option<RunView> {
    if pending.count > 0 && !same_content(pending.line, line) {
        Some(pending)
    } else {
        None
    }
}

/// The run that the end of the input finishes: the pending one, where it
/// holds a line.
pub open spec fn remainder(pending: RunView) -> Option<RunView> {
    if pending.count > 0 {
        Some(pending)
    } else {
        None
    }
}

/// The pending run once all of `lines` were seen, starting from [`no_run`].
pub open spec fn pending_after(lines: Seq<Seq<u8>>) -> RunView
    decreases lines.len(),
{
    if lines.len() == 0 {
        no_run()
    } else {
        advance(pending_after(lines.drop_last()), lines.last())
    }
}

/// The runs that were finished while `lines` were seen, in order. The run
/// still pending after the last line is not among them.
pub open spec fn finished_runs(lines: Seq<Seq<u8>>) -> Seq<RunView>
    decreases lines.len(),
{
    if lines.len() == 0 {
        Seq::empty()
    } else {
        let before = finished_runs(lines.drop_last());
        match completed(pending_after(lines.drop_last()), lines.last()) {
            Some(run) => before.push(run),
            None => before,
        }
    }
}

/// All the runs of `lines`, in order: those finished on the way and the one
/// that the end of the input finishes.
pub open spec fn collapse(lines: Seq<Seq<u8>>) -> Seq<RunView> {
    match remainder(pending_after(lines)) {
        Some(run) => finished_runs(lines).push(run),
        None => finished_runs(lines),
    }
}

/// The run that a single line makes at the start of the input. A blank first
/// line matches the empty pending line, so no line takes its place.
pub open spec fn opening_run(line: Seq<u8>) -> RunView {
    RunView { line: if is_blank(line) { Seq::empty() } else { line }, count: 1 }
}

/// How many lines the runs before the one with index `i` hold together.
pub open spec fn lines_before(runs: Seq<RunView>, i: int) -> int
    decreases i,
{
    if i <= 0 {
        0
    } else {
        lines_before(runs, i - 1) + runs[i - 1].count
    }
}

/// How many lines `runs` hold together.
pub open spec fn total_count(runs: Seq<RunView>) -> int {
    lines_before(runs, runs.len() as int)
}

/// The run with index `i` is a maximal stretch of matching lines of `lines`,
/// which begins where the runs before it end. Its line is the first line of
/// the stretch; only the run of a blank first line has the empty line.
pub open spec fn run_covers(runs: Seq<RunView>, lines: Seq<Seq<u8>>, i: int) -> bool {
    let start = lines_before(runs, i);
    &&& runs[i].count >= 1
    &&& start + runs[i].count <= lines.len()
    &&& runs[i].line == if i == 0 && is_blank(lines[0]) {
        Seq::<u8>::empty()
    } else {
        lines[start]
    }
    &&& forall|j: int|
        start <= j < start + runs[i].count ==> same_content(#[trigger] lines[j], runs[i].line)
    &&& i + 1 < runs.len() ==> !same_content(runs[i].line, runs[i + 1].line)
}

/// `runs` are the runs of `lines`: they follow one another in the order of
/// the lines, each a maximal stretch of matching lines, and cover them all.
pub open spec fn describes(runs: Seq<RunView>, lines: Seq<Seq<u8>>) -> bool {
    &&& total_count(runs) == lines.len()
    &&& forall|i: int| 0 <= i < runs.len() ==> #[trigger] run_covers(runs, lines, i)
}

/// Runs that agree up to index `i` hold the same number of lines up to there.
pub proof fn lemma_lines_before_agree(a: Seq<RunView>, b: Seq<RunView>, i: int)
    requires
        i <= a.len(),
        i <= b.len(),
        forall|k: int| 0 <= k < i ==> a[k] == b[k],
    ensures
        lines_before(a, i) == lines_before(b, i),
    decreases i,
{
    if i > 0 {
        lemma_lines_before_agree(a, b, i - 1);
    }
}

/// The number of lines before a run grows with the run's index.
pub proof fn lemma_lines_before_grows(runs: Seq<RunView>, i: int, j: int)
    requires
        0 <= i <= j <= runs.len(),
    ensures
        0 <= lines_before(runs, i) <= lines_before(runs, j),
    decreases j,
{
    if j > 0 {
        if i < j {
            lemma_lines_before_grows(runs, i, j - 1);
        } else {
            lemma_lines_before_grows(runs, i - 1, j - 1);
        }
    }
}

/// After at least one line a run is pending, and the runs are the finished
/// ones and the pending one.
pub proof fn lemma_collapse_pending(lines: Seq<Seq<u8>>)
    requires
        lines.len() > 0,
    ensures
        pending_after(lines).count >= 1,
        collapse(lines) == finished_runs(lines).push(pending_after(lines)),
        collapse(lines).len() >= 1,
{
}

/// How one more line changes the runs: the first line opens a run; a later
/// one joins the last run where it matches that run's line, and opens a run
/// of its own where it does not.
pub proof fn lemma_collapse_push(lines: Seq<Seq<u8>>, line: Seq<u8>)
    ensures
        collapse(lines.push(line)) == if lines.len() == 0 {
            seq![opening_run(line)]
        } else {
            let runs = collapse(lines);
            let last = runs.last();
            if same_content(last.line, line) {
                runs.update(runs.len() - 1, RunView { line: last.line, count: last.count + 1 })
            } else {
                runs.push(RunView { line: line, count: 1 })
            }
        },
{
    let more = lines.push(line);
    assert(more.drop_last() =~= lines);
    assert(more.last() == line);
    if lines.len() == 0 {
        assert(content(Seq::<u8>::empty()) =~= Seq::<u8>::empty());
        assert(is_blank(line) <==> content(line) =~= Seq::<u8>::empty());
        assert(pending_after(lines) == no_run());
        assert(finished_runs(lines) =~= Seq::<RunView>::empty());
        assert(pending_after(more) == advance(no_run(), line));
        assert(pending_after(more) == opening_run(line));
        assert(finished_runs(more) =~= Seq::<RunView>::empty());
        assert(collapse(more) =~= seq![opening_run(line)]);
    } else {
        lemma_collapse_pending(lines);
        let runs = collapse(lines);
        let last = runs.last();
        assert(last == pending_after(lines));
        if same_content(last.line, line) {
            assert(collapse(more) =~= runs.update(
                runs.len() - 1,
                RunView { line: last.line, count: last.count + 1 },
            ));
        } else {
            assert(collapse(more) =~= runs.push(RunView { line: line, count: 1 }));
        }
    }
}

/// The run in progress: the line that stands for it and the number of lines
/// seen in it so far. With a count of zero no run is open.
#[derive(Debug)]
pub struct PendingRun {
    line: Vec<u8>,
    count: usize,
}

impl View for PendingRun {
    type V = RunView;

    closed spec fn view(&self) -> RunView {
        RunView { line: self.line@, count: self.count as nat }
    }
}

impl PendingRun {
    /// The state before the first line.
    pub fn new() -> (pending: PendingRun)
        ensures
            pending@ == no_run(),
    {
        PendingRun { line: Vec::new(), count: 0 }
    }

    /// The number of lines in the run in progress.
    pub fn count(&self) -> (n: usize)
        ensures
            n == self@.count,
    {
        self.count
    }

    /// Takes the next line in. Returns the run that this line finishes, if
    /// it finishes one.
    pub fn observe(&mut self, line: &[u8]) -> (done: Option<Run>)
        requires
            old(self)@.count < usize::MAX,
        ensures
            final(self)@ == advance(old(self)@, line@),
            match done {
                Some(run) => completed(old(self)@, line@) == Some(run@),
                None => completed(old(self)@, line@) is None,
            },
    {
        if lines_match(self.line.as_slice(), line) {
            self.count = self.count + 1;
            None
        } else {
            let mut taken: Vec<u8> = slice_to_vec(line);
            std::mem::swap(&mut self.line, &mut taken);
            let seen: usize = self.count;
            self.count = 1;
            if seen > 0 {
                Some(Run { line: taken, count: seen })
            } else {
                None
            }
        }
    }

    /// Ends the run in progress and returns it, if one is open. The pending
    /// line stays; the count starts again at zero.
    pub fn flush(&mut self) -> (done: Option<Run>)
        ensures
            final(self)@ == (RunView { line: old(self)@.line, count: 0 }),
            match done {
                Some(run) => remainder(old(self)@) == Some(run@),
                None => remainder(old(self)@) is None,
            },
    {
        if self.count > 0 {
            let run = Run { line: slice_to_vec(self.line.as_slice()), count: self.count };
            self.count = 0;
            Some(run)
        } else {
            None
        }
    }
}

} // verus!
