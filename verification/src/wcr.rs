//! The counting tool: line, word, byte and character tallies of one
//! stream, and the formatting of per-file and total rows.

use vstd::prelude::*;
use vstd::string::StrSliceExecFns;
use vstd::string::StringExecFns;
use vstd::string::StringSliceAdditionalSpecFns;
use crate::numfmt::dec_str;
use crate::numfmt::format_usize;
use crate::numfmt::justify_right;
use crate::text::is_space;
use crate::text::line_count;
use crate::text::newline_count;
use crate::text::word_count;

verus! {

/// Validated flags of the counting tool: which files to read and which
/// of the four tallies to show.
#[derive(Debug)]
pub struct Config {
    pub files: Vec<String>,
    pub lines: bool,
    pub words: bool,
    pub bytes: bool,
    pub chars: bool,
}

/// The four tallies of one stream.
#[derive(Debug, PartialEq, Eq, Structural)]
pub struct FileInfo {
    pub num_lines: usize,
    pub num_words: usize,
    pub num_bytes: usize,
    pub num_chars: usize,
}

/// Tallies one stream's whole content: lines are counted per line
/// terminator plus a trailing partial line, words per
/// whitespace-delimited token, bytes over the encoded form, and
/// characters over the decoded form.
pub fn count(input: &str) -> (r: FileInfo)
    ensures
        r.num_lines == line_count(input@),
        r.num_words == word_count(input@),
        r.num_bytes == input.spec_bytes().len() as usize,
        r.num_chars == input@.len(),
{
    let num_bytes = input.len();
    let num_chars = input.unicode_len();
    let mut newlines: usize = 0;
    let mut words: usize = 0;
    let mut i: usize = 0;
    proof {
        assert(input@.take(0int) =~= Seq::<char>::empty());
    }
    while i < num_chars
        invariant
            i <= num_chars,
            num_chars == input@.len(),
            newlines == newline_count(input@.take(i as int)),
            newlines <= i,
            words == word_count(input@.take(i as int)),
            words <= i,
        decreases num_chars - i,
    {
        let c = input.get_char(i);
        proof {
            assert(input@.take(i + 1).drop_last() =~= input@.take(i as int));
            assert(input@.take(i + 1).last() == input@[i as int]);
        }
        if c == '\n' {
            newlines = newlines + 1;
        }
        if !c.is_whitespace() && (i == 0 || {
            let prev = input.get_char(i - 1);
            prev.is_whitespace()
        }) {
            words = words + 1;
        }
        i = i + 1;
    }
    proof {
        assert(input@.take(num_chars as int) =~= input@);
    }
    let num_lines = if num_chars > 0 && input.get_char(num_chars - 1) != '\n' {
        proof {
            crate::text::lemma_newline_count_le(input@.drop_last());
        }
        newlines + 1
    } else {
        newlines
    };
    FileInfo { num_lines, num_words: words, num_bytes, num_chars }
}

/// One tally column: the value right-justified to eight characters when
/// it is selected, and nothing when it is not.
pub fn format_field(value: usize, show: bool) -> (r: String)
    ensures
        show ==> r@ == justify_right(dec_str(value as nat), 8),
        !show ==> r@ == Seq::<char>::empty(),
{
    if show {
        format_usize(value, 8)
    } else {
        String::new()
    }
}

/// The selected columns of one tally, concatenated in the fixed order
/// lines, words, bytes, characters.
pub open spec fn counts_text(info: FileInfo, lines: bool, words: bool, bytes: bool, chars: bool) -> Seq<
    char,
> {
    field_text(info.num_lines as nat, lines) + field_text(info.num_words as nat, words)
        + field_text(info.num_bytes as nat, bytes) + field_text(info.num_chars as nat, chars)
}

/// One column of a tally row: justified when selected, empty when not.
pub open spec fn field_text(value: nat, show: bool) -> Seq<char> {
    if show {
        justify_right(dec_str(value), 8)
    } else {
        Seq::<char>::empty()
    }
}

/// The selected columns of one tally as printed.
pub fn format_counts(info: &FileInfo, lines: bool, words: bool, bytes: bool, chars: bool) -> (r:
    String)
    ensures
        r@ == counts_text(*info, lines, words, bytes, chars),
{
    let mut s = format_field(info.num_lines, lines);
    let w = format_field(info.num_words, words);
    let b = format_field(info.num_bytes, bytes);
    let c = format_field(info.num_chars, chars);
    s.append(w.as_str());
    s.append(b.as_str());
    s.append(c.as_str());
    proof {
        assert(s@ =~= counts_text(*info, lines, words, bytes, chars));
    }
    s
}

/// The suffix of a per-file row: nothing for the standard-input
/// placeholder, otherwise a space and the file name.
pub open spec fn name_suffix(name: Seq<char>) -> Seq<char> {
    if name == "_"@ {
        Seq::<char>::empty()
    } else {
        seq![' '] + name
    }
}

/// One per-file output row: the selected columns, then the file name
/// unless it is the standard-input placeholder.
pub fn format_file_row(
    info: &FileInfo,
    lines: bool,
    words: bool,
    bytes: bool,
    chars: bool,
    name: &str,
) -> (r: String)
    ensures
        r@ == counts_text(*info, lines, words, bytes, chars) + name_suffix(name@),
{
    let mut s = format_counts(info, lines, words, bytes, chars);
    proof {
        reveal_strlit("_");
    }
    let placeholder = name.unicode_len() == 1 && name.get_char(0) == '_';
    proof {
        if placeholder {
            assert(name@ =~= "_"@);
        } else {
            assert(name@ != "_"@);
        }
    }
    if !placeholder {
        s.append(" ");
        s.append(name);
        proof {
            reveal_strlit(" ");
            assert(" "@ =~= seq![' ']);
        }
    }
    s
}

/// The total row printed after the last of several files: the selected
/// columns of the summed tally, then the word `total`.
pub fn format_total_row(info: &FileInfo, lines: bool, words: bool, bytes: bool, chars: bool) -> (r:
    String)
    ensures
        r@ == counts_text(*info, lines, words, bytes, chars) + " total"@,
{
    let mut s = format_counts(info, lines, words, bytes, chars);
    s.append(" total");
    s
}

/// The tally selection as resolved at startup: when the caller selects
/// no tally at all, lines, words and bytes are shown by default; any
/// explicit selection is kept as given.
pub fn apply_default_selection(lines: bool, words: bool, bytes: bool, chars: bool) -> (r: (
    bool,
    bool,
    bool,
    bool,
))
    ensures
        (lines || words || bytes || chars) ==> r == (lines, words, bytes, chars),
        !(lines || words || bytes || chars) ==> r == (true, true, true, false),
{
    if !lines && !words && !bytes && !chars {
        (true, true, true, false)
    } else {
        (lines, words, bytes, chars)
    }
}

/// The element-wise sum of two tallies, as the running total across
/// files accumulates them.
pub fn tally_add(a: &FileInfo, b: &FileInfo) -> (r: FileInfo)
    requires
        a.num_lines + b.num_lines <= usize::MAX,
        a.num_words + b.num_words <= usize::MAX,
        a.num_bytes + b.num_bytes <= usize::MAX,
        a.num_chars + b.num_chars <= usize::MAX,
    ensures
        r.num_lines == a.num_lines + b.num_lines,
        r.num_words == a.num_words + b.num_words,
        r.num_bytes == a.num_bytes + b.num_bytes,
        r.num_chars == a.num_chars + b.num_chars,
{
    FileInfo {
        num_lines: a.num_lines + b.num_lines,
        num_words: a.num_words + b.num_words,
        num_bytes: a.num_bytes + b.num_bytes,
        num_chars: a.num_chars + b.num_chars,
    }
}

} // verus!
