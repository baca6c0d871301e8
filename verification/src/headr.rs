//! The head tool: a verified positive-integer parser for its limits,
//! truncation of a stream to its first lines or bytes, and the
//! header and separator layout of multi-file output.

use vstd::prelude::*;
use vstd::string::StrSliceExecFns;
use vstd::string::StringExecFns;
use vstd::string::StringSliceAdditionalSpecFns;
use vstd::utf8::encode_utf8;

verus! {

/// Validated flags of the head tool: the files to read, the line limit,
/// and the byte limit that replaces it when given.
#[derive(Debug)]
pub struct Config {
    pub files: Vec<String>,
    pub lines: usize,
    pub bytes: Option<usize>,
}

/// Whether `c` is a decimal digit.
pub open spec fn is_dec_digit(c: char) -> bool {
    48 <= c as int <= 57
}

/// The value of a decimal digit character; zero on any other character.
pub open spec fn digit_val(c: char) -> nat {
    if is_dec_digit(c) {
        (c as int - 48) as nat
    } else {
        0
    }
}

/// The value of a digit string read most significant digit first.
pub open spec fn dec_val(s: Seq<char>) -> nat
    decreases s.len(),
{
    if s.len() == 0 {
        0
    } else {
        dec_val(s.drop_last()) * 10 + digit_val(s.last())
    }
}

/// The digits of a decimal integer literal: everything after an
/// optional leading plus sign.
pub open spec fn digits_part(s: Seq<char>) -> Seq<char> {
    if s.len() > 0 && s[0] == '+' {
        s.skip(1)
    } else {
        s
    }
}

/// Whether `s` is a decimal integer literal: at least one digit after
/// the optional plus sign, and nothing else.
pub open spec fn is_int_literal(s: Seq<char>) -> bool {
    digits_part(s).len() >= 1 && forall|i: int|
        0 <= i < digits_part(s).len() ==> is_dec_digit(digits_part(s)[i])
}

/// Whether `s` parses as a positive machine-sized integer: a decimal
/// integer literal whose value is positive and fits the machine word.
pub open spec fn parses_positive(s: Seq<char>) -> bool {
    &&& is_int_literal(s)
    &&& dec_val(digits_part(s)) <= usize::MAX
    &&& dec_val(digits_part(s)) > 0
}

/// The value of a digit string is at least the value of any prefix.
proof fn lemma_dec_val_prefix_le(s: Seq<char>, k: int)
    requires
        0 <= k <= s.len(),
    ensures
        dec_val(s.take(k)) <= dec_val(s),
    decreases s.len(),
{
    if k < s.len() {
        lemma_dec_val_prefix_le(s.drop_last(), k);
        assert(s.drop_last().take(k) =~= s.take(k));
    } else {
        assert(s.take(k) =~= s);
    }
}

/// Parses a positive line or byte limit. Returns the parsed value
/// exactly when the input is a decimal integer literal (an optional
/// plus sign, then digits) whose value is positive and fits the
/// machine word; on any other input, returns the offending input
/// itself as the error.
pub fn parse_positive_int(val: &str) -> (r: Result<usize, String>)
    ensures
        r is Ok <==> parses_positive(val@),
        r is Ok ==> r->Ok_0 == dec_val(digits_part(val@)),
        r is Err ==> r->Err_0@ == val@,
{
    let len = val.unicode_len();
    let has_sign = len > 0 && val.get_char(0) == '+';
    let start: usize = if has_sign {
        1
    } else {
        0
    };
    if len == start {
        return Err(val.to_owned());
    }
    let ghost dp = digits_part(val@);
    proof {
        if has_sign {
            assert(dp =~= val@.skip(1));
        } else {
            assert(dp =~= val@);
        }
        assert(val@.take(start as int).skip(start as int) =~= Seq::<char>::empty());
        assert(dp.take(0int) =~= Seq::<char>::empty());
    }
    let mut v: usize = 0;
    let mut i: usize = start;
    while i < len
        invariant
            start <= i <= len,
            start <= 1,
            len == val@.len(),
            dp == digits_part(val@),
            dp.len() == len - start,
            forall|j: int| 0 <= j < i - start ==> dp[j] == val@[j + start],
            forall|j: int| 0 <= j < i - start ==> is_dec_digit(#[trigger] dp[j]),
            v == dec_val(dp.take(i - start)),
        decreases len - i,
    {
        let c = val.get_char(i);
        proof {
            assert(dp[i - start] == val@[i as int]);
        }
        let u = c as u32;
        if u < 48 || u > 57 {
            return Err(val.to_owned());
        }
        let d = (u - 48) as usize;
        proof {
            assert(dp.take(i - start + 1).drop_last() =~= dp.take(i - start));
            assert(dp.take(i - start + 1).last() == dp[i - start]);
            assert(digit_val(dp[i - start]) == d);
        }
        if v <= (usize::MAX - d) / 10 {
            proof {
                assert(10 * ((usize::MAX - d) as int / 10) <= (usize::MAX - d) as int);
            }
            v = v * 10 + d;
        } else {
            proof {
                let m = (usize::MAX - d) as int;
                assert(10 * (m / 10) + m % 10 == m);
                assert(m % 10 < 10);
                assert(dec_val(dp.take(i - start + 1)) > usize::MAX);
                lemma_dec_val_prefix_le(dp, i - start + 1);
            }
            return Err(val.to_owned());
        }
        i = i + 1;
    }
    proof {
        assert(dp.take(len - start) =~= dp);
    }
    if v == 0 {
        return Err(val.to_owned());
    }
    Ok(v)
}

/// The first `n` lines of a stream's lines; all of them when fewer
/// than `n` are available.
pub open spec fn head_body(lines: Seq<Seq<char>>, n: nat) -> Seq<Seq<char>> {
    if n < lines.len() {
        lines.take(n as int)
    } else {
        lines
    }
}

/// The first `n` lines of `lines`; all of them when the stream ends
/// first.
pub fn head_lines(lines: &Vec<String>, n: usize) -> (r: Vec<String>)
    ensures
        r.deep_view() == head_body(lines.deep_view(), n as nat),
{
    let k = if n < lines.len() {
        n
    } else {
        lines.len()
    };
    let mut r: Vec<String> = Vec::new();
    let mut i: usize = 0;
    while i < k
        invariant
            i <= k,
            k <= lines@.len(),
            r@.len() == i,
            forall|j: int| 0 <= j < i ==> r@[j]@ == lines@[j]@,
        decreases k - i,
    {
        r.push(lines[i].clone());
        i = i + 1;
    }
    proof {
        assert(r.deep_view() =~= head_body(lines.deep_view(), n as nat));
    }
    r
}

/// The first `b` bytes of a stream's bytes; all of them when fewer
/// than `b` are available.
pub open spec fn head_bytes_body(data: Seq<u8>, b: nat) -> Seq<u8> {
    if b < data.len() {
        data.take(b as int)
    } else {
        data
    }
}

/// The first `n` bytes of a stream; all of them when the stream ends
/// first. A byte limit may split a multi-byte character; the cut is
/// kept at the byte boundary.
pub fn head_bytes(data: &Vec<u8>, n: usize) -> (r: Vec<u8>)
    ensures
        r@ == head_bytes_body(data@, n as nat),
{
    let k = if n < data.len() {
        n
    } else {
        data.len()
    };
    let mut r: Vec<u8> = Vec::new();
    let mut i: usize = 0;
    while i < k
        invariant
            i <= k,
            k <= data@.len(),
            r@ =~= data@.take(i as int),
        decreases k - i,
    {
        r.push(data[i]);
        i = i + 1;
    }
    proof {
        if n >= data@.len() {
            assert(r@ =~= data@);
        }
    }
    r
}

/// The header line naming a file, as printed before its content when
/// several files are given.
pub open spec fn header_text(name: Seq<char>) -> Seq<char> {
    "==> "@ + name + " <==\n"@
}

/// The header line naming a file.
pub fn header_line(name: &str) -> (r: String)
    ensures
        r@ == header_text(name@),
{
    let mut s = String::from_str("==> ");
    s.append(name);
    s.append(" <==\n");
    s
}

/// The printed chunks for one of several files: a header when more
/// than one file is given, the first `n` lines, and a blank separator
/// line after every file but the last.
pub open spec fn head_file_chunks(
    name: Seq<char>,
    lines: Seq<Seq<char>>,
    n: nat,
    nfiles: nat,
    index: nat,
) -> Seq<Seq<char>> {
    let hdr: Seq<Seq<char>> = if nfiles > 1 {
        seq![header_text(name)]
    } else {
        Seq::empty()
    };
    let sep: Seq<Seq<char>> = if nfiles > 1 && index + 1 < nfiles {
        seq!["\n"@]
    } else {
        Seq::empty()
    };
    hdr + head_body(lines, n) + sep
}

/// The printed chunks for the file at `index` out of `nfiles`: its
/// header when several files are given, its first `n` lines, and the
/// blank separator after every file but the last.
pub fn render_head_file(
    name: &str,
    lines: &Vec<String>,
    n: usize,
    nfiles: usize,
    index: usize,
) -> (out: Vec<String>)
    ensures
        out.deep_view() == head_file_chunks(
            name@,
            lines.deep_view(),
            n as nat,
            nfiles as nat,
            index as nat,
        ),
{
    let mut out: Vec<String> = Vec::new();
    if nfiles > 1 {
        out.push(header_line(name));
    }
    let mut body = head_lines(lines, n);
    out.append(&mut body);
    if nfiles > 1 && index < usize::MAX && index + 1 < nfiles {
        out.push(String::from_str("\n"));
    }
    proof {
        assert(out.deep_view() =~= head_file_chunks(
            name@,
            lines.deep_view(),
            n as nat,
            nfiles as nat,
            index as nat,
        ));
    }
    out
}

/// The printed chunks for the file at `index` out of `nfiles` in byte
/// mode: the same layout as line mode, with the header and the blank
/// separator line carried as encoded bytes around the first `b` bytes
/// of the file.
pub open spec fn head_bytes_chunks(
    name: Seq<char>,
    data: Seq<u8>,
    b: nat,
    nfiles: nat,
    index: nat,
) -> Seq<Seq<u8>> {
    let hdr: Seq<Seq<u8>> = if nfiles > 1 {
        seq![encode_utf8(header_text(name))]
    } else {
        Seq::empty()
    };
    let sep: Seq<Seq<u8>> = if nfiles > 1 && index + 1 < nfiles {
        seq![seq![('\n' as u8)]]
    } else {
        Seq::empty()
    };
    hdr + seq![head_bytes_body(data, b)] + sep
}

/// The printed chunks for the file at `index` out of `nfiles` in byte
/// mode: its header when several files are given, its first `b` bytes,
/// and the blank separator after every file but the last.
pub fn render_head_bytes_file(
    name: &str,
    data: &Vec<u8>,
    b: usize,
    nfiles: usize,
    index: usize,
) -> (out: Vec<Vec<u8>>)
    ensures
        out.deep_view() == head_bytes_chunks(
            name@,
            data@,
            b as nat,
            nfiles as nat,
            index as nat,
        ),
{
    let mut out: Vec<Vec<u8>> = Vec::new();
    if nfiles > 1 {
        let h = header_line(name);
        out.push(h.as_str().as_bytes_vec());
    }
    out.push(head_bytes(data, b));
    if nfiles > 1 && index < usize::MAX && index + 1 < nfiles {
        let mut sep: Vec<u8> = Vec::new();
        sep.push('\n' as u8);
        out.push(sep);
    }
    proof {
        assert(out.deep_view() =~~= head_bytes_chunks(
            name@,
            data@,
            b as nat,
            nfiles as nat,
            index as nat,
        ));
    }
    out
}

/// One input file of a multi-file batch: its name and its lines.
pub struct HeadFile {
    pub name: String,
    pub lines: Vec<String>,
}

/// The printed chunks of the files from `index` on.
pub open spec fn head_chunks_from(files: Seq<HeadFile>, n: nat, index: int) -> Seq<Seq<char>>
    decreases files.len() - index,
{
    if index < 0 || index >= files.len() {
        Seq::empty()
    } else {
        head_file_chunks(
            files[index].name@,
            files[index].lines.deep_view(),
            n,
            files.len(),
            index as nat,
        ) + head_chunks_from(files, n, index + 1)
    }
}

/// The whole printed output of a multi-file batch: each file's header,
/// first `n` lines, and separator, in order.
pub open spec fn head_all_chunks(files: Seq<HeadFile>, n: nat) -> Seq<Seq<char>> {
    head_chunks_from(files, n, 0)
}

/// The printed chunks of a whole batch of files, each limited to its
/// first `n` lines, with a header per file and a blank separator line
/// between files whenever more than one file is given.
pub fn render_head_all(files: &Vec<HeadFile>, n: usize) -> (out: Vec<String>)
    ensures
        out.deep_view() == head_all_chunks(files@, n as nat),
{
    let mut out: Vec<String> = Vec::new();
    let nfiles = files.len();
    let mut i: usize = 0;
    proof {
        assert(out.deep_view() =~= Seq::<Seq<char>>::empty());
    }
    while i < nfiles
        invariant
            i <= nfiles,
            nfiles == files@.len(),
            head_all_chunks(files@, n as nat) == out.deep_view() + head_chunks_from(
                files@,
                n as nat,
                i as int,
            ),
        decreases nfiles - i,
    {
        let ghost prev = out.deep_view();
        let mut chunk = render_head_file(&files[i].name, &files[i].lines, n, nfiles, i);
        let ghost chunk_view = chunk.deep_view();
        out.append(&mut chunk);
        proof {
            assert(out.deep_view() =~= prev + chunk_view);
        }
        i = i + 1;
    }
    out
}

/// With two files, the output is exactly: the first file's header, its
/// first `n` lines, one blank separator line, the second file's
/// header, and its first `n` lines — one header per file, one
/// separator between them, and nothing after the last.
pub proof fn lemma_head_two_files(files: Seq<HeadFile>, n: nat)
    requires
        files.len() == 2,
    ensures
        head_all_chunks(files, n) == seq![header_text(files[0].name@)] + head_body(
            files[0].lines.deep_view(),
            n,
        ) + seq!["\n"@] + seq![header_text(files[1].name@)] + head_body(
            files[1].lines.deep_view(),
            n,
        ),
{
    let c0 = head_file_chunks(files[0].name@, files[0].lines.deep_view(), n, 2, 0);
    let c1 = head_file_chunks(files[1].name@, files[1].lines.deep_view(), n, 2, 1);
    assert(head_chunks_from(files, n, 2) =~= Seq::<Seq<char>>::empty());
    assert(head_chunks_from(files, n, 1) =~= c1);
    assert(head_all_chunks(files, n) =~= c0 + c1);
    assert(c0 =~= seq![header_text(files[0].name@)] + head_body(files[0].lines.deep_view(), n)
        + seq!["\n"@]);
    assert(c1 =~= seq![header_text(files[1].name@)] + head_body(files[1].lines.deep_view(), n));
    assert(c0 + c1 =~= seq![header_text(files[0].name@)] + head_body(
        files[0].lines.deep_view(),
        n,
    ) + seq!["\n"@] + seq![header_text(files[1].name@)] + head_body(
        files[1].lines.deep_view(),
        n,
    ));
}

} // verus!
