//! Character and line-level specifications shared by the tools:
//! whitespace, line counting, word counting, and trailing-whitespace
//! trimming.

use vstd::prelude::*;
use vstd::string::StrSliceExecFns;

verus! {

/// Whether a character has the Unicode `White_Space` property, as
/// `char::is_whitespace` decides it. The property is a fixed table of
/// the Unicode standard, so the answer depends on the character alone.
pub uninterp spec fn is_space(c: char) -> bool;

/// Relies on `char::is_whitespace`: true exactly when the character has
/// the Unicode `White_Space` property, a function of the character alone.
pub assume_specification[ char::is_whitespace ](c: char) -> (r: bool)
    ensures
        r == is_space(c),
;

/// Number of line terminators (`'\n'`) in `s`.
pub open spec fn newline_count(s: Seq<char>) -> nat
    decreases s.len(),
{
    if s.len() == 0 {
        0
    } else {
        newline_count(s.drop_last()) + if s.last() == '\n' {
            1nat
        } else {
            0nat
        }
    }
}

/// A sequence holds no more line terminators than characters.
pub proof fn lemma_newline_count_le(s: Seq<char>)
    ensures
        newline_count(s) <= s.len(),
    decreases s.len(),
{
    if s.len() > 0 {
        lemma_newline_count_le(s.drop_last());
    }
}

/// Number of lines read from `s` one line at a time: one per line
/// terminator, plus one for a trailing partial line.
pub open spec fn line_count(s: Seq<char>) -> nat {
    newline_count(s) + if s.len() > 0 && s.last() != '\n' {
        1nat
    } else {
        0nat
    }
}

/// Number of whitespace-delimited tokens in `s`, counted by their first
/// character: a token starts at a non-space character that is either at
/// the front or preceded by a space.
pub open spec fn word_count(s: Seq<char>) -> nat
    decreases s.len(),
{
    if s.len() == 0 {
        0
    } else {
        word_count(s.drop_last()) + if !is_space(s.last()) && (s.len() == 1 || is_space(
            s[s.len() - 2],
        )) {
            1nat
        } else {
            0nat
        }
    }
}

/// `s` with its trailing line ending removed: a final `"\r\n"` or
/// `"\n"` is dropped, and anything else — trailing spaces included —
/// is kept.
pub open spec fn strip_eol(s: Seq<char>) -> Seq<char> {
    if s.len() >= 2 && s[s.len() - 2] == '\r' && s.last() == '\n' {
        s.take(s.len() - 2)
    } else if s.len() >= 1 && s.last() == '\n' {
        s.take(s.len() - 1)
    } else {
        s
    }
}

/// The number of characters of `s` once its trailing line ending is
/// removed.
pub fn strip_eol_len(s: &str) -> (r: usize)
    ensures
        r == strip_eol(s@).len(),
        strip_eol(s@) == s@.take(r as int),
{
    let n = s.unicode_len();
    proof {
        assert(s@.take(n as int) =~= s@);
    }
    if n >= 2 && s.get_char(n - 2) == '\r' && s.get_char(n - 1) == '\n' {
        n - 2
    } else if n >= 1 && s.get_char(n - 1) == '\n' {
        n - 1
    } else {
        n
    }
}

/// Whether two strings are equal once the trailing line ending is
/// removed from both.
pub fn eq_strip_eol(a: &str, b: &str) -> (r: bool)
    ensures
        r == (strip_eol(a@) == strip_eol(b@)),
{
    let ta = strip_eol_len(a);
    let tb = strip_eol_len(b);
    if ta != tb {
        proof {
            assert(strip_eol(a@).len() != strip_eol(b@).len());
        }
        return false;
    }
    let mut i: usize = 0;
    while i < ta
        invariant
            i <= ta,
            ta == tb,
            ta == strip_eol(a@).len(),
            strip_eol(a@) == a@.take(ta as int),
            strip_eol(b@) == b@.take(tb as int),
            ta <= a@.len(),
            tb <= b@.len(),
            forall|j: int| 0 <= j < i ==> a@[j] == b@[j],
        decreases ta - i,
    {
        if a.get_char(i) != b.get_char(i) {
            proof {
                assert(strip_eol(a@)[i as int] != strip_eol(b@)[i as int]);
            }
            return false;
        }
        i = i + 1;
    }
    proof {
        assert(strip_eol(a@) =~= strip_eol(b@));
    }
    true
}

} // verus!
