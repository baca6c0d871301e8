//! The deduplicating tool: consecutive lines whose content is equal
//! once the trailing line ending is stripped collapse into runs, each
//! run keeping its first line as representative together with its
//! length.

use vstd::prelude::*;
use vstd::string::StringExecFns;
use crate::numfmt::dec_str;
use crate::numfmt::format_usize;
use crate::numfmt::justify_right;
use crate::text::eq_strip_eol;
use crate::text::strip_eol;

verus! {

/// Validated flags of the deduplicating tool: the input, the optional
/// output file, and whether each run is printed with its length.
#[derive(Debug)]
pub struct Config {
    pub in_file: String,
    pub out_file: Option<String>,
    pub count: bool,
}

/// One maximal group of consecutive equal lines: the first line of the
/// group, kept exactly as read, and how many lines the group holds.
#[derive(Debug)]
pub struct Run {
    pub text: String,
    pub count: usize,
}

/// The runs of `runs`, as pairs of representative and length.
pub open spec fn runs_view(runs: Seq<Run>) -> Seq<(Seq<char>, nat)> {
    Seq::new(runs.len(), |i: int| (runs[i].text@, runs[i].count as nat))
}

/// The runs of a line sequence: each line either joins the current run,
/// when its content (trailing line ending stripped) matches the run's
/// representative, or opens a new run of length one.
pub open spec fn runs_of(lines: Seq<Seq<char>>) -> Seq<(Seq<char>, nat)>
    decreases lines.len(),
{
    if lines.len() == 0 {
        Seq::empty()
    } else {
        let prev = runs_of(lines.drop_last());
        let l = lines.last();
        if prev.len() > 0 && strip_eol(l) == strip_eol(prev.last().0) {
            prev.update(prev.len() - 1, (prev.last().0, (prev.last().1 + 1) as nat))
        } else {
            prev.push((l, 1nat))
        }
    }
}

/// The total length of all runs.
pub open spec fn counts_total(runs: Seq<(Seq<char>, nat)>) -> nat
    decreases runs.len(),
{
    if runs.len() == 0 {
        0
    } else {
        counts_total(runs.drop_last()) + runs.last().1
    }
}

/// The run lengths of a line sequence add up to the number of lines.
pub proof fn lemma_runs_total(lines: Seq<Seq<char>>)
    ensures
        counts_total(runs_of(lines)) == lines.len(),
    decreases lines.len(),
{
    if lines.len() > 0 {
        lemma_runs_total(lines.drop_last());
        let prev = runs_of(lines.drop_last());
        let l = lines.last();
        if prev.len() > 0 && strip_eol(l) == strip_eol(prev.last().0) {
            let upd = prev.update(prev.len() - 1, (prev.last().0, (prev.last().1 + 1) as nat));
            assert(upd.drop_last() =~= prev.drop_last());
        } else {
            assert(prev.push((l, 1nat)).drop_last() =~= prev);
        }
    }
}

/// Every run holds at least one line.
pub proof fn lemma_run_counts_positive(lines: Seq<Seq<char>>)
    ensures
        forall|i: int| 0 <= i < runs_of(lines).len() ==> (#[trigger] runs_of(lines)[i]).1 >= 1,
    decreases lines.len(),
{
    if lines.len() > 0 {
        lemma_run_counts_positive(lines.drop_last());
        let prev = runs_of(lines.drop_last());
        let cur = runs_of(lines);
        assert forall|i: int| 0 <= i < cur.len() implies (#[trigger] cur[i]).1 >= 1 by {
            if i < prev.len() {
                assert(prev[i].1 >= 1);
            }
        }
    }
}

/// One line repeated `n` times.
pub open spec fn repeat_line(l: Seq<char>, n: nat) -> Seq<Seq<char>>
    decreases n,
{
    if n == 0 {
        Seq::empty()
    } else {
        repeat_line(l, (n - 1) as nat).push(l)
    }
}

/// Every run written out in full: each representative repeated as many
/// times as its run is long.
pub open spec fn expand_runs(runs: Seq<(Seq<char>, nat)>) -> Seq<Seq<char>>
    decreases runs.len(),
{
    if runs.len() == 0 {
        Seq::empty()
    } else {
        expand_runs(runs.drop_last()) + repeat_line(runs.last().0, runs.last().1)
    }
}

/// Writing every run out in full reconstructs the input line for line,
/// up to the trailing line ending: a run keeps its first line, and the
/// lines grouped under it may differ from it only there.
pub proof fn lemma_runs_reconstruct(lines: Seq<Seq<char>>)
    ensures
        expand_runs(runs_of(lines)).len() == lines.len(),
        forall|i: int|
            0 <= i < lines.len() ==> strip_eol(#[trigger] expand_runs(runs_of(lines))[i])
                == strip_eol(lines[i]),
    decreases lines.len(),
{
    if lines.len() > 0 {
        lemma_runs_reconstruct(lines.drop_last());
        let prev = runs_of(lines.drop_last());
        let l = lines.last();
        let cur = runs_of(lines);
        if prev.len() > 0 && strip_eol(l) == strip_eol(prev.last().0) {
            let rep = prev.last().0;
            let c = prev.last().1;
            assert(cur.drop_last() =~= prev.drop_last());
            assert(expand_runs(cur) =~= (expand_runs(prev.drop_last()) + repeat_line(
                rep,
                c,
            )).push(rep));
            assert(expand_runs(cur) =~= expand_runs(prev).push(rep));
        } else {
            assert(cur.drop_last() =~= prev);
            assert(repeat_line(l, 0nat) =~= Seq::<Seq<char>>::empty());
            assert(repeat_line(l, 1) =~= Seq::<Seq<char>>::empty().push(l));
            assert(expand_runs(cur) =~= expand_runs(prev).push(l));
        }
        assert forall|i: int| 0 <= i < lines.len() implies strip_eol(
            #[trigger] expand_runs(cur)[i],
        ) == strip_eol(lines[i]) by {
            if i < lines.len() - 1 {
                assert(expand_runs(cur)[i] == expand_runs(prev)[i]);
                assert(lines.drop_last()[i] == lines[i]);
            }
        }
    }
}

/// Groups `lines` into runs: scanning in order, a line whose content
/// matches the previous line's (both taken with the trailing line
/// ending stripped) lengthens the current run, and any other line
/// starts a new run of length one. The first line always starts the
/// first run; empty input yields no runs.
pub fn uniq_runs(lines: &Vec<String>) -> (runs: Vec<Run>)
    ensures
        runs_view(runs@) == runs_of(lines.deep_view()),
{
    let mut runs: Vec<Run> = Vec::new();
    let mut i: usize = 0;
    let len = lines.len();
    proof {
        assert(lines.deep_view().take(0int) =~= Seq::<Seq<char>>::empty());
        assert(runs_view(runs@) =~= Seq::<(Seq<char>, nat)>::empty());
    }
    while i < len
        invariant
            i <= len,
            len == lines@.len(),
            runs_view(runs@) == runs_of(lines.deep_view().take(i as int)),
        decreases len - i,
    {
        let ghost taken = lines.deep_view().take(i + 1);
        proof {
            assert(taken.drop_last() =~= lines.deep_view().take(i as int));
            assert(taken.last() == lines@[i as int]@);
        }
        let line = &lines[i];
        let matched = runs.len() > 0 && {
            let last_idx = runs.len() - 1;
            eq_strip_eol(line.as_str(), runs[last_idx].text.as_str())
        };
        if matched {
            proof {
                lemma_runs_total(lines.deep_view().take(i as int));
                let rv = runs_view(runs@);
                assert(counts_total(rv) == counts_total(rv.drop_last()) + rv.last().1);
            }
            let last = runs.pop().unwrap();
            runs.push(Run { text: last.text, count: last.count + 1 });
            proof {
                assert(runs_view(runs@) =~= runs_of(taken));
            }
        } else {
            runs.push(Run { text: line.clone(), count: 1 });
            proof {
                assert(runs_view(runs@) =~= runs_of(taken));
            }
        }
        i = i + 1;
    }
    proof {
        assert(lines.deep_view().take(len as int) =~= lines.deep_view());
    }
    runs
}

/// The text printed for one run: its representative, prefixed with the
/// run length right-justified to four characters and a space when
/// lengths are requested.
pub open spec fn run_text(rep: Seq<char>, count: nat, counted: bool) -> Seq<char> {
    if counted {
        justify_right(dec_str(count), 4) + seq![' '] + rep
    } else {
        rep
    }
}

/// The whole printed output, one chunk per run, each representative
/// kept exactly as read (its original trailing line ending included).
pub open spec fn uniq_output(runs: Seq<(Seq<char>, nat)>, counted: bool) -> Seq<Seq<char>> {
    Seq::new(runs.len(), |i: int| run_text(runs[i].0, runs[i].1, counted))
}

/// Each run as printed: the representative alone, or prefixed with the
/// justified run length and a space when lengths are requested.
pub fn render_uniq(runs: &Vec<Run>, counted: bool) -> (out: Vec<String>)
    ensures
        out.deep_view() == uniq_output(runs_view(runs@), counted),
{
    let mut out: Vec<String> = Vec::new();
    let mut i: usize = 0;
    let len = runs.len();
    while i < len
        invariant
            i <= len,
            len == runs@.len(),
            out@.len() == i,
            forall|j: int|
                0 <= j < i ==> out@[j]@ == run_text(runs@[j].text@, runs@[j].count as nat, counted),
        decreases len - i,
    {
        let r = &runs[i];
        if counted {
            let mut s = format_usize(r.count, 4);
            s.append(" ");
            s.append(r.text.as_str());
            proof {
                reveal_strlit(" ");
                assert(" "@ =~= seq![' ']);
            }
            out.push(s);
        } else {
            out.push(r.text.clone());
        }
        i = i + 1;
    }
    proof {
        assert(out.deep_view() =~= uniq_output(runs_view(runs@), counted));
    }
    out
}

/// The deduplicated line sequence: the representative of each run, in
/// order, as printed when run lengths are off.
pub open spec fn dedup_lines(lines: Seq<Seq<char>>) -> Seq<Seq<char>> {
    uniq_output(runs_of(lines), false)
}

/// Whether no two consecutive lines are equal once the trailing line
/// ending is stripped.
pub open spec fn no_adjacent_dups(lines: Seq<Seq<char>>) -> bool {
    forall|i: int|
        0 <= i < lines.len() - 1 ==> strip_eol(#[trigger] lines[i]) != strip_eol(lines[i + 1])
}

/// Consecutive runs always have distinct representatives (trailing
/// line ending stripped): the deduplicated output has no adjacent
/// duplicates left.
pub proof fn lemma_runs_adjacent_distinct(lines: Seq<Seq<char>>)
    ensures
        forall|i: int|
            0 <= i < runs_of(lines).len() - 1 ==> strip_eol(#[trigger] runs_of(lines)[i].0)
                != strip_eol(runs_of(lines)[i + 1].0),
    decreases lines.len(),
{
    if lines.len() > 0 {
        lemma_runs_adjacent_distinct(lines.drop_last());
        let prev = runs_of(lines.drop_last());
        let l = lines.last();
        let cur = runs_of(lines);
        if prev.len() > 0 && strip_eol(l) == strip_eol(prev.last().0) {
            assert forall|i: int|
                0 <= i < cur.len() - 1 implies strip_eol(#[trigger] cur[i].0) != strip_eol(
                cur[i + 1].0,
            ) by {
                assert(cur[i].0 == prev[i].0);
                assert(cur[i + 1].0 == prev[i + 1].0);
            }
        } else {
            assert forall|i: int|
                0 <= i < cur.len() - 1 implies strip_eol(#[trigger] cur[i].0) != strip_eol(
                cur[i + 1].0,
            ) by {
                assert(cur[i].0 == prev[i].0);
                if i + 1 < cur.len() - 1 {
                    assert(cur[i + 1].0 == prev[i + 1].0);
                }
            }
        }
    }
}

/// On input with no adjacent duplicates the deduplicator changes
/// nothing: every line becomes a run of length one, and the output
/// (run lengths off) equals the input.
pub proof fn lemma_dedup_noop(lines: Seq<Seq<char>>)
    requires
        no_adjacent_dups(lines),
    ensures
        runs_of(lines) =~= Seq::new(lines.len(), |i: int| (lines[i], 1nat)),
        dedup_lines(lines) =~= lines,
    decreases lines.len(),
{
    if lines.len() > 0 {
        assert(no_adjacent_dups(lines.drop_last())) by {
            assert(forall|i: int|
                0 <= i < lines.len() - 2 ==> strip_eol(#[trigger] lines.drop_last()[i]) == strip_eol(
                    lines[i],
                ) && strip_eol(lines.drop_last()[i + 1]) == strip_eol(lines[i + 1]));
        }
        lemma_dedup_noop(lines.drop_last());
        let prev = runs_of(lines.drop_last());
        if prev.len() > 0 {
            assert(prev.last().0 == lines[lines.len() - 2]);
            assert(strip_eol(lines.last()) != strip_eol(prev.last().0));
        }
    }
}

/// Running the deduplicator on its own output (run lengths off) is a
/// no-op: deduplication is idempotent.
pub proof fn lemma_dedup_idempotent(lines: Seq<Seq<char>>)
    ensures
        dedup_lines(dedup_lines(lines)) == dedup_lines(lines),
{
    lemma_runs_adjacent_distinct(lines);
    let out = dedup_lines(lines);
    assert forall|i: int| 0 <= i < out.len() - 1 implies strip_eol(#[trigger] out[i]) != strip_eol(
        out[i + 1],
    ) by {
        assert(out[i] == runs_of(lines)[i].0);
        assert(out[i + 1] == runs_of(lines)[i + 1].0);
    }
    lemma_dedup_noop(out);
}

} // verus!
