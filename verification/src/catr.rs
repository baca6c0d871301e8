//! The concatenating tool: every line is emitted in order and
//! reproduced exactly, its original line ending included, optionally
//! prefixed with a right-justified 1-based sequence number, where
//! blank lines can be left unnumbered without consuming a number.

use vstd::prelude::*;
use vstd::string::StringExecFns;
use crate::numfmt::dec_str;
use crate::numfmt::format_usize;
use crate::numfmt::justify_right;
use crate::text::strip_eol;
use crate::text::strip_eol_len;

verus! {

/// Validated flags of the concatenating tool: the files to read and
/// which numbering mode, if any, is active. The two modes are mutually
/// exclusive at the parsing boundary.
#[derive(Debug)]
pub struct Config {
    pub files: Vec<String>,
    pub number_lines: bool,
    pub number_nonblank_lines: bool,
}

/// Whether a line is blank: nothing remains of it once its trailing
/// line ending is stripped.
pub open spec fn is_blank(line: Seq<char>) -> bool {
    strip_eol(line).len() == 0
}

/// Whether a line receives a sequence number: some numbering mode must
/// be active, and a blank line is skipped when only non-blank lines
/// are numbered.
pub open spec fn is_numbered(line: Seq<char>, number_all: bool, number_nonblank: bool) -> bool {
    (number_all || number_nonblank) && !(is_blank(line) && number_nonblank)
}

/// How many of the first `k` lines receive a number.
pub open spec fn numbered_before(
    lines: Seq<Seq<char>>,
    k: int,
    number_all: bool,
    number_nonblank: bool,
) -> nat
    decreases k,
{
    if k <= 0 {
        0
    } else {
        numbered_before(lines, k - 1, number_all, number_nonblank) + if is_numbered(
            lines[k - 1],
            number_all,
            number_nonblank,
        ) {
            1nat
        } else {
            0nat
        }
    }
}

/// The text printed for the line at `i`: the line exactly as read, its
/// original line ending included, preceded by its number
/// right-justified to six characters and a tab when it is numbered; an
/// unnumbered line is the chunk itself, unmodified.
pub open spec fn cat_line_text(
    lines: Seq<Seq<char>>,
    i: int,
    number_all: bool,
    number_nonblank: bool,
) -> Seq<char> {
    if is_numbered(lines[i], number_all, number_nonblank) {
        justify_right(dec_str(numbered_before(lines, i, number_all, number_nonblank) + 1), 6)
            + seq!['\t'] + lines[i]
    } else {
        lines[i]
    }
}

/// The whole printed output, one chunk per input line.
pub open spec fn cat_output(
    lines: Seq<Seq<char>>,
    number_all: bool,
    number_nonblank: bool,
) -> Seq<Seq<char>> {
    Seq::new(lines.len(), |i: int| cat_line_text(lines, i, number_all, number_nonblank))
}

/// Every line of the input, with lines that receive no number emitted
/// unmodified and numbered lines prefixed with the count of numbered
/// lines before them, plus one, justified to six characters and
/// followed by a tab. Each chunk ends exactly as the line it carries
/// did: line endings are reproduced, never added or normalized.
pub fn render_cat_lines(lines: &Vec<String>, number_all: bool, number_nonblank: bool) -> (out: Vec<
    String,
>)
    ensures
        out.deep_view() == cat_output(lines.deep_view(), number_all, number_nonblank),
{
    let mut out: Vec<String> = Vec::new();
    let mut numbered: usize = 0;
    let mut i: usize = 0;
    let len = lines.len();
    while i < len
        invariant
            i <= len,
            len == lines@.len(),
            numbered == numbered_before(lines.deep_view(), i as int, number_all, number_nonblank),
            numbered <= i,
            out@.len() == i,
            forall|j: int|
                0 <= j < i ==> out@[j]@ == cat_line_text(
                    lines.deep_view(),
                    j,
                    number_all,
                    number_nonblank,
                ),
        decreases len - i,
    {
        let line = &lines[i];
        let blank = strip_eol_len(line.as_str()) == 0;
        if (number_all || number_nonblank) && !(blank && number_nonblank) {
            let mut s = format_usize(numbered + 1, 6);
            s.append("\t");
            s.append(line.as_str());
            proof {
                reveal_strlit("\t");
                assert("\t"@ =~= seq!['\t']);
            }
            out.push(s);
            numbered = numbered + 1;
        } else {
            out.push(line.clone());
        }
        i = i + 1;
    }
    proof {
        assert(out.deep_view() =~= cat_output(lines.deep_view(), number_all, number_nonblank));
    }
    out
}

proof fn lemma_numbered_monotone(
    lines: Seq<Seq<char>>,
    k1: int,
    k2: int,
    number_all: bool,
    number_nonblank: bool,
)
    requires
        0 <= k1 <= k2 <= lines.len(),
    ensures
        numbered_before(lines, k1, number_all, number_nonblank) <= numbered_before(
            lines,
            k2,
            number_all,
            number_nonblank,
        ),
    decreases k2 - k1,
{
    if k1 < k2 {
        lemma_numbered_monotone(lines, k1, k2 - 1, number_all, number_nonblank);
    }
}

proof fn lemma_numbered_hits(
    lines: Seq<Seq<char>>,
    k: int,
    v: nat,
    number_all: bool,
    number_nonblank: bool,
)
    requires
        0 <= k <= lines.len(),
        1 <= v <= numbered_before(lines, k, number_all, number_nonblank),
    ensures
        exists|i: int|
            0 <= i < k && is_numbered(lines[i], number_all, number_nonblank) && numbered_before(
                lines,
                i,
                number_all,
                number_nonblank,
            ) + 1 == v,
    decreases k,
{
    if v <= numbered_before(lines, k - 1, number_all, number_nonblank) {
        lemma_numbered_hits(lines, k - 1, v, number_all, number_nonblank);
    } else {
        assert(is_numbered(lines[k - 1], number_all, number_nonblank));
        assert(numbered_before(lines, k - 1, number_all, number_nonblank) + 1 == v);
    }
}

/// In non-blank numbering mode the emitted sequence numbers are
/// exactly 1 through the count of non-blank lines: blank lines are
/// emitted unmodified, with no number and no tab; each non-blank line
/// carries one more than the count of non-blank lines before it; those
/// numbers are strictly increasing, stay within 1 and the total count
/// of non-blank lines, and every value in that range is emitted once.
pub proof fn lemma_nonblank_numbering(lines: Seq<Seq<char>>)
    ensures
        forall|i: int|
            0 <= i < lines.len() && is_blank(#[trigger] lines[i]) ==> cat_output(
                lines,
                false,
                true,
            )[i] == lines[i],
        forall|i: int|
            0 <= i < lines.len() && !is_blank(#[trigger] lines[i]) ==> cat_output(
                lines,
                false,
                true,
            )[i] == justify_right(dec_str(numbered_before(lines, i, false, true) + 1), 6)
                + seq!['\t'] + lines[i],
        forall|i: int, j: int|
            0 <= i < j < lines.len() && !is_blank(lines[i]) && !is_blank(lines[j])
                ==> numbered_before(lines, i, false, true) + 1 < numbered_before(
                lines,
                j,
                false,
                true,
            ) + 1,
        forall|i: int|
            0 <= i < lines.len() && !is_blank(#[trigger] lines[i]) ==> 1 <= numbered_before(
                lines,
                i,
                false,
                true,
            ) + 1 <= numbered_before(lines, lines.len() as int, false, true),
{
    assert forall|i: int, j: int|
        0 <= i < j < lines.len() && !is_blank(lines[i]) && !is_blank(
            lines[j],
        ) implies numbered_before(lines, i, false, true) + 1 < numbered_before(
        lines,
        j,
        false,
        true,
    ) + 1 by {
        lemma_numbered_monotone(lines, i + 1, j, false, true);
    }
    assert forall|i: int|
        0 <= i < lines.len() && !is_blank(#[trigger] lines[i]) implies 1 <= numbered_before(
        lines,
        i,
        false,
        true,
    ) + 1 <= numbered_before(lines, lines.len() as int, false, true) by {
        lemma_numbered_monotone(lines, i + 1, lines.len() as int, false, true);
    }
}

/// In non-blank numbering mode every value from 1 through the count of
/// non-blank lines is emitted as a sequence number: some non-blank
/// line carries it.
pub proof fn lemma_nonblank_number_emitted(lines: Seq<Seq<char>>, v: nat)
    requires
        1 <= v <= numbered_before(lines, lines.len() as int, false, true),
    ensures
        exists|i: int|
            0 <= i < lines.len() && !is_blank(#[trigger] lines[i]) && numbered_before(
                lines,
                i,
                false,
                true,
            ) + 1 == v,
{
    lemma_numbered_hits(lines, lines.len() as int, v, false, true);
    let w = choose|i: int|
        0 <= i < lines.len() && is_numbered(lines[i], false, true) && numbered_before(
            lines,
            i,
            false,
            true,
        ) + 1 == v;
    assert(!is_blank(lines[w]) && numbered_before(lines, w, false, true) + 1 == v);
}

} // verus!
