//! What holds of the filter as a whole, stated over the functions that the
//! contracts use and proved from their definitions.

use crate::line::{
    are_lines, content, is_blank, is_line, lemma_join_split, lemma_split_lines_are_lines,
    lemma_split_lines_join, same_content, split_lines, LF,
};
use crate::process::{all_well_formed, collapsed_output};
use crate::render::{count_field, lemma_rendered_all_push, rendered_all, SPACE};
use crate::run::{
    collapse, describes, lemma_collapse_pending, lemma_collapse_push, lemma_lines_before_agree,
    lemma_lines_before_grows, lines_before, opening_run, run_covers, total_count, RunView,
};
use vstd::prelude::*;

verus! {

/// Every line on its own, as a run of one: what the runs are where no line
/// matches the one before it.
pub open spec fn single_runs(lines: Seq<Seq<u8>>) -> Seq<RunView> {
    Seq::new(lines.len(), |i: int| RunView { line: lines[i], count: 1 })
}

/// No line of `lines` matches the line before it, and the first is not blank.
pub open spec fn all_distinct(lines: Seq<Seq<u8>>) -> bool {
    &&& lines.len() > 0 ==> !is_blank(lines[0])
    &&& forall|i: int| 0 <= i < lines.len() - 1 ==> !same_content(#[trigger] lines[i], lines[i + 1])
}

/// The lines that stand for `runs`, in order.
pub open spec fn run_lines(runs: Seq<RunView>) -> Seq<Seq<u8>> {
    Seq::new(runs.len(), |i: int| runs[i].line)
}

/// The runs of `lines` follow the lines in their order. Each run is a
/// maximal stretch of matching lines and begins where the run before it ends,
/// and its line is the first line of the stretch (the empty line, for a run
/// of blank lines at the start of the input).
pub proof fn lemma_collapse_describes(lines: Seq<Seq<u8>>)
    ensures
        describes(collapse(lines), lines),
    decreases lines.len(),
{
    if lines.len() == 0 {
        assert(collapse(lines) =~= Seq::<RunView>::empty());
    } else {
        let prev = lines.drop_last();
        let line = lines.last();
        assert(lines =~= prev.push(line));
        lemma_collapse_describes(prev);
        lemma_collapse_push(prev, line);
        let old_runs = collapse(prev);
        let runs = collapse(lines);
        if prev.len() == 0 {
            assert(runs =~= seq![opening_run(line)]);
            assert(lines_before(runs, 0) == 0);
            assert(lines_before(runs, 1) == 1);
            assert(content(Seq::<u8>::empty()) =~= Seq::<u8>::empty());
            assert(content(line).len() == 0 ==> content(line) =~= Seq::<u8>::empty());
            assert(run_covers(runs, lines, 0));
        } else {
            lemma_collapse_pending(prev);
            let n = old_runs.len() as int;
            let last = old_runs.last();
            assert(run_covers(old_runs, prev, n - 1));
            assert(lines[0] == prev[0]);
            if same_content(last.line, line) {
                assert(runs.len() == n);
                assert forall|i: int| 0 <= i < n implies lines_before(runs, i) == lines_before(
                    old_runs,
                    i,
                ) by {
                    lemma_lines_before_agree(runs, old_runs, i);
                }
                assert(lines_before(runs, n) == lines_before(runs, n - 1) + runs[n - 1].count);
                assert(lines_before(old_runs, n) == lines_before(old_runs, n - 1) + last.count);
                assert forall|i: int| 0 <= i < runs.len() implies #[trigger] run_covers(
                    runs,
                    lines,
                    i,
                ) by {
                    assert(run_covers(old_runs, prev, i));
                    let start = lines_before(runs, i);
                    lemma_lines_before_grows(old_runs, i, n - 1);
                    assert(lines[start] == prev[start]);
                    assert forall|j: int| start <= j < start + runs[i].count implies same_content(
                        #[trigger] lines[j],
                        runs[i].line,
                    ) by {
                        if j < prev.len() {
                            assert(lines[j] == prev[j]);
                        }
                    }
                }
            } else {
                assert(runs.len() == n + 1);
                assert forall|i: int| 0 <= i <= n implies lines_before(runs, i) == lines_before(
                    old_runs,
                    i,
                ) by {
                    lemma_lines_before_agree(runs, old_runs, i);
                }
                assert(lines_before(runs, n + 1) == lines_before(runs, n) + runs[n].count);
                assert forall|i: int| 0 <= i < runs.len() implies #[trigger] run_covers(
                    runs,
                    lines,
                    i,
                ) by {
                    let start = lines_before(runs, i);
                    if i < n {
                        assert(run_covers(old_runs, prev, i));
                        assert(runs[i] == old_runs[i]);
                        lemma_lines_before_grows(old_runs, i, n);
                        assert(lines[start] == prev[start]);
                        assert forall|j: int|
                            start <= j < start + runs[i].count implies same_content(
                            #[trigger] lines[j],
                            runs[i].line,
                        ) by {
                            assert(lines[j] == prev[j]);
                        }
                    }
                }
            }
        }
    }
}

/// The counts of the runs of `lines` add up to the number of lines.
pub proof fn lemma_counts_add_up(lines: Seq<Seq<u8>>)
    ensures
        total_count(collapse(lines)) == lines.len(),
{
    lemma_collapse_describes(lines);
}

/// Where no line matches the line before it and the first line is not blank,
/// every line is a run of its own.
pub proof fn lemma_collapse_distinct(lines: Seq<Seq<u8>>)
    requires
        all_distinct(lines),
    ensures
        collapse(lines) == single_runs(lines),
    decreases lines.len(),
{
    if lines.len() == 0 {
        assert(collapse(lines) =~= single_runs(lines));
    } else {
        let prev = lines.drop_last();
        let line = lines.last();
        assert(lines =~= prev.push(line));
        assert forall|i: int| 0 <= i < prev.len() - 1 implies !same_content(
            #[trigger] prev[i],
            prev[i + 1],
        ) by {
            assert(prev[i] == lines[i]);
            assert(prev[i + 1] == lines[i + 1]);
        }
        if prev.len() > 0 {
            assert(prev[0] == lines[0]);
        }
        lemma_collapse_distinct(prev);
        lemma_collapse_push(prev, line);
        if prev.len() > 0 {
            let k = prev.len() - 1;
            assert(single_runs(prev).last().line == lines[k]);
            assert(line == lines[k + 1]);
        }
        assert(collapse(lines) =~= single_runs(lines));
    }
}

/// Written without counts, runs are their lines joined.
pub proof fn lemma_rendered_plain(runs: Seq<RunView>)
    ensures
        rendered_all(runs, false) == run_lines(runs).flatten(),
    decreases runs.len(),
{
    if runs.len() == 0 {
        assert(run_lines(runs) =~= Seq::<Seq<u8>>::empty());
    } else {
        let prev = runs.drop_last();
        lemma_rendered_plain(prev);
        assert(run_lines(runs) =~= run_lines(prev).push(runs.last().line));
        run_lines(prev).lemma_flatten_push(runs.last().line);
    }
}

/// Input in which no line matches the line before it, and which does not
/// begin with a blank line, is written out unchanged where no counts are
/// asked for.
pub proof fn lemma_distinct_input_unchanged(input: Seq<u8>)
    requires
        all_distinct(split_lines(input)),
    ensures
        collapsed_output(input, false) == input,
{
    let lines = split_lines(input);
    lemma_collapse_distinct(lines);
    lemma_rendered_plain(single_runs(lines));
    assert(run_lines(single_runs(lines)) =~= lines);
    lemma_split_lines_join(input);
}

/// Nothing is written for the empty input.
pub proof fn lemma_empty_input(show_count: bool)
    ensures
        collapsed_output(Seq::<u8>::empty(), show_count) == Seq::<u8>::empty(),
{
    let lines = split_lines(Seq::<u8>::empty());
    assert(lines =~= Seq::<Seq<u8>>::empty());
    assert(collapse(lines) =~= Seq::<RunView>::empty());
}

/// An input of one line that is not blank is written as that line: alone
/// without counts, behind the count 1 with them.
pub proof fn lemma_single_line(input: Seq<u8>)
    requires
        split_lines(input).len() == 1,
        !is_blank(input),
    ensures
        collapsed_output(input, false) == input,
        collapsed_output(input, true) == count_field(1) + seq![SPACE] + input,
        count_field(1) == seq![SPACE, SPACE, SPACE, 49u8],
{
    let lines = split_lines(input);
    lemma_split_lines_join(input);
    lines.lemma_flatten_singleton();
    assert(lines =~= Seq::<Seq<u8>>::empty().push(input));
    lemma_collapse_push(Seq::<Seq<u8>>::empty(), input);
    let run = RunView { line: input, count: 1 };
    assert(collapse(lines) =~= Seq::<RunView>::empty().push(run));
    lemma_rendered_all_push(Seq::<RunView>::empty(), run, false);
    lemma_rendered_all_push(Seq::<RunView>::empty(), run, true);
    assert(rendered_all(Seq::<RunView>::empty(), false) =~= Seq::<u8>::empty());
    assert(rendered_all(Seq::<RunView>::empty(), true) =~= Seq::<u8>::empty());
    assert(collapsed_output(input, false) =~= input);
    assert(collapsed_output(input, true) =~= count_field(1) + seq![SPACE] + input);
    assert(count_field(1) =~= seq![SPACE, SPACE, SPACE, 49u8]);
}

/// The lines that are written for `lines` without counts: the lines of the
/// runs, but for the empty line of a run of blank lines at the start.
pub open spec fn kept_lines(lines: Seq<Seq<u8>>) -> Seq<Seq<u8>> {
    let all = run_lines(collapse(lines));
    if all.len() > 0 && all[0].len() == 0 {
        all.drop_first()
    } else {
        all
    }
}

/// The lines kept of the lines of one input are again lines of one input,
/// each of them one of the lines given; no two neighbours among them match,
/// and the first is not blank.
pub proof fn lemma_kept_lines(lines: Seq<Seq<u8>>)
    requires
        are_lines(lines),
    ensures
        are_lines(kept_lines(lines)),
        all_distinct(kept_lines(lines)),
        kept_lines(lines).flatten() == rendered_all(collapse(lines), false),
        forall|k: int|
            0 <= k < kept_lines(lines).len() ==> lines.contains(#[trigger] kept_lines(lines)[k]),
{
    let runs = collapse(lines);
    let all = run_lines(runs);
    let kept = kept_lines(lines);
    lemma_collapse_describes(lines);
    lemma_rendered_plain(runs);
    let off: int = if all.len() > 0 && all[0].len() == 0 {
        1
    } else {
        0
    };
    if off == 1 {
        assert(all.flatten() =~= all.drop_first().flatten());
    }
    assert(content(Seq::<u8>::empty()) =~= Seq::<u8>::empty());
    assert forall|k: int| 0 <= k < kept.len() implies is_line(#[trigger] kept[k]) && (k + 1
        < kept.len() ==> kept[k].last() == LF) && lines.contains(kept[k]) && (k + 1 < kept.len()
        ==> !same_content(kept[k], kept[k + 1])) by {
        let i = k + off;
        assert(kept[k] == runs[i].line);
        assert(run_covers(runs, lines, i));
        let start = lines_before(runs, i);
        lemma_lines_before_grows(runs, 0, i);
        assert(is_line(lines[start]));
        if i == 0 && is_blank(lines[0]) {
            assert(all[0].len() == 0);
        }
        assert(kept[k] == lines[start]);
        if k + 1 < kept.len() {
            assert(run_covers(runs, lines, i + 1));
            assert(lines_before(runs, i + 1) == start + runs[i].count);
            assert(kept[k + 1] == runs[i + 1].line);
        }
    }
    if kept.len() > 0 {
        assert(run_covers(runs, lines, 0));
        if off == 1 {
            assert(kept[0] == runs[1].line);
            assert(runs[0].line =~= Seq::<u8>::empty());
            if is_blank(kept[0]) {
                assert(content(kept[0]) =~= Seq::<u8>::empty());
            }
        } else {
            assert(kept[0] == runs[0].line);
            if is_blank(lines[0]) {
                assert(all[0].len() == 0);
            }
        }
    }
}

/// Filtering twice gives what filtering once gives: what is written for an
/// input without counts is written unchanged when it is the input. Where the
/// lines of the input are well-formed UTF-8, so are those of what is written.
pub proof fn lemma_idempotent(input: Seq<u8>)
    ensures
        collapsed_output(collapsed_output(input, false), false) == collapsed_output(input, false),
        all_well_formed(split_lines(input)) ==> all_well_formed(
            split_lines(collapsed_output(input, false)),
        ),
{
    let lines = split_lines(input);
    let kept = kept_lines(lines);
    let output = collapsed_output(input, false);
    lemma_split_lines_are_lines(input);
    lemma_kept_lines(lines);
    lemma_join_split(kept);
    assert(split_lines(output) == kept);
    lemma_collapse_distinct(kept);
    lemma_rendered_plain(single_runs(kept));
    assert(run_lines(single_runs(kept)) =~= kept);
    if all_well_formed(lines) {
        assert forall|k: int| 0 <= k < kept.len() implies vstd::utf8::valid_utf8(
            #[trigger] kept[k],
        ) by {
            assert(lines.contains(kept[k]));
            let j = choose|j: int| 0 <= j < lines.len() && lines[j] == kept[k];
            assert(vstd::utf8::valid_utf8(lines[j]));
        }
    }
}

} // verus!
