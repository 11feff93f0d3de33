//! Core of the `head`-like tool: validation of the numeric command-line
//! options and the line/byte truncation logic.

use vstd::prelude::*;
use vstd::string::StrSliceExecFns;
use vstd::string::StringExecFns;

verus! {

/// A character is an ASCII decimal digit.
pub open spec fn is_ascii_digit(c: char) -> bool {
    48 <= c as int <= 57
}

/// Value of a sequence of decimal digit characters, most significant first.
pub open spec fn digit_seq_val(s: Seq<char>) -> int
    decreases s.len(),
{
    if s.len() == 0 {
        0
    } else {
        10 * digit_seq_val(s.drop_last()) + (s.last() as int - 48)
    }
}

/// The digits of a numeric literal: an optional leading `+` sign is dropped.
pub open spec fn num_body(s: Seq<char>) -> Seq<char> {
    if s.len() > 0 && s[0] == '+' {
        s.skip(1)
    } else {
        s
    }
}

/// `s` is a well-formed unsigned decimal literal: at least one digit after
/// the optional sign, and nothing but digits.
pub open spec fn is_unsigned_literal(s: Seq<char>) -> bool {
    &&& num_body(s).len() > 0
    &&& forall|i: int| 0 <= i < num_body(s).len() ==> is_ascii_digit(#[trigger] num_body(s)[i])
}

/// Numeric value of the literal `s`; meaningful when `is_unsigned_literal(s)`.
pub open spec fn literal_val(s: Seq<char>) -> int {
    digit_seq_val(num_body(s))
}

/// `s` parses as a positive integer that fits in `usize`.
pub open spec fn parses_positive(s: Seq<char>) -> bool {
    &&& is_unsigned_literal(s)
    &&& 1 <= literal_val(s) <= usize::MAX
}

/// Parses `val` as a positive `usize`, exactly as the standard decimal
/// parse does (optional leading `+`, one or more digits, no overflow),
/// additionally rejecting zero. On failure the offending literal itself is
/// returned as the error.
pub fn parse_positive_int(val: &str) -> (r: Result<usize, String>)
    ensures
        match r {
            Ok(n) => parses_positive(val@) && n == literal_val(val@),
            Err(e) => !parses_positive(val@) && e@ == val@,
        },
{
    let n_chars = val.unicode_len();
    let start: usize = if n_chars > 0 && val.get_char(0) == '+' {
        1
    } else {
        0
    };
    if start >= n_chars {
        // empty input, or a bare sign with no digits
        return Err(val.to_owned());
    }
    let mut acc: usize = 0;
    let mut over = false;
    let mut j = start;
    while j < n_chars
        invariant
            val@.len() == n_chars,
            start <= 1,
            start <= j <= n_chars,
            start < n_chars,
            start == 1 ==> val@.len() > 0 && val@[0] == '+',
            start == 0 ==> !(val@.len() > 0 && val@[0] == '+'),
            forall|k: int| start <= k < j ==> is_ascii_digit(#[trigger] val@[k]),
            !over ==> acc == digit_seq_val(val@.subrange(start as int, j as int)),
            over ==> digit_seq_val(val@.subrange(start as int, j as int)) > usize::MAX,
        decreases n_chars - j,
    {
        let c = val.get_char(j);
        let u = c as u32;
        if u < 48 || u > 57 {
            // a non-digit inside the body: the literal is malformed
            proof {
                assert(!is_ascii_digit(val@[j as int]));
                if start == 1 {
                    assert(num_body(val@) == val@.skip(1));
                    assert(num_body(val@)[j - 1] == val@[j as int]);
                } else {
                    assert(num_body(val@) == val@);
                    assert(num_body(val@)[j as int] == val@[j as int]);
                }
            }
            return Err(val.to_owned());
        }
        let d = (u - 48) as usize;
        proof {
            assert(val@.subrange(start as int, j + 1).drop_last() =~= val@.subrange(
                start as int,
                j as int,
            ));
            assert(val@.subrange(start as int, j + 1).last() == val@[j as int]);
        }
        if !over {
            if acc > (usize::MAX - d) / 10 {
                proof {
                    vstd::arithmetic::div_mod::lemma_fundamental_div_mod(
                        (usize::MAX - d) as int,
                        10,
                    );
                }
                over = true;
            } else {
                proof {
                    vstd::arithmetic::div_mod::lemma_fundamental_div_mod(
                        (usize::MAX - d) as int,
                        10,
                    );
                }
                acc = acc * 10 + d;
            }
        }
        j += 1;
    }
    proof {
        assert(num_body(val@) =~= val@.subrange(start as int, n_chars as int));
    }
    if over {
        // the literal denotes a value beyond `usize::MAX`
        return Err(val.to_owned());
    }
    if acc == 0 {
        // zero is not a positive count
        return Err(val.to_owned());
    }
    Ok(acc)
}

/// Length in bytes of the first line of `s`: everything up to and
/// including the first newline byte, or all of `s` if it holds none.
pub open spec fn first_line_len(s: Seq<u8>) -> int
    decreases s.len(),
{
    if s.len() == 0 {
        0
    } else if s[0] == 10 {
        1
    } else {
        1 + first_line_len(s.skip(1))
    }
}

pub proof fn lemma_first_line_len_bounds(s: Seq<u8>)
    ensures
        s.len() == 0 ==> first_line_len(s) == 0,
        s.len() > 0 ==> 1 <= first_line_len(s) <= s.len(),
    decreases s.len(),
{
    if s.len() > 0 && s[0] != 10 {
        lemma_first_line_len_bounds(s.skip(1));
    }
}

/// The lines of `s`, split after every newline byte; each terminator stays
/// with its line, and a final fragment without a newline is a line too.
pub open spec fn lines_of(s: Seq<u8>) -> Seq<Seq<u8>>
    decreases s.len(),
    via lines_of_decreases
{
    if s.len() == 0 {
        Seq::empty()
    } else {
        seq![s.take(first_line_len(s))] + lines_of(s.skip(first_line_len(s)))
    }
}

#[via_fn]
proof fn lines_of_decreases(s: Seq<u8>) {
    if s.len() > 0 {
        lemma_first_line_len_bounds(s);
    }
}

/// How many bytes the line mode emits: bytes are consumed until `n`
/// newline bytes have been consumed or the input ends.
pub open spec fn head_cut(s: Seq<u8>, n: nat) -> int
    decreases s.len(),
{
    if n == 0 || s.len() == 0 {
        0
    } else if s[0] == 10 {
        1 + head_cut(s.skip(1), (n - 1) as nat)
    } else {
        1 + head_cut(s.skip(1), n)
    }
}

/// The line split loses nothing: concatenating the lines of `s` in order
/// gives `s` back.
pub proof fn lemma_lines_of_flatten(s: Seq<u8>)
    ensures
        lines_of(s).flatten() == s,
    decreases s.len(),
{
    if s.len() == 0 {
        assert(lines_of(s).flatten() =~= s);
    } else {
        lemma_first_line_len_bounds(s);
        let l = first_line_len(s);
        lemma_lines_of_flatten(s.skip(l));
        let parts = lines_of(s);
        assert(parts.first() == s.take(l));
        assert(parts.drop_first() =~= lines_of(s.skip(l)));
        assert(parts.flatten() == parts.first() + parts.drop_first().flatten());
        assert(s.take(l) + s.skip(l) =~= s);
    }
}

/// The cut for `n` lines advances by exactly one whole line at a time.
pub proof fn lemma_head_cut_first_line(s: Seq<u8>, n: nat)
    requires
        n >= 1,
        s.len() > 0,
    ensures
        head_cut(s, n) == first_line_len(s) + head_cut(s.skip(first_line_len(s)), (n - 1) as nat),
    decreases s.len(),
{
    if s[0] != 10 && s.len() > 1 {
        lemma_head_cut_first_line(s.skip(1), n);
        lemma_first_line_len_bounds(s.skip(1));
        let l1 = first_line_len(s.skip(1));
        assert(s.skip(1).skip(l1) =~= s.skip(1 + l1));
    } else if s[0] != 10 {
        assert(s.skip(1).len() == 0);
        assert(first_line_len(s.skip(1)) == 0);
        assert(head_cut(s.skip(1), n) == 0);
        assert(head_cut(s.skip(1), (n - 1) as nat) == 0);
    }
}

/// The cut never passes the end of the input.
pub proof fn lemma_head_cut_bounds(s: Seq<u8>, n: nat)
    ensures
        0 <= head_cut(s, n) <= s.len(),
    decreases s.len(),
{
    if n >= 1 && s.len() > 0 {
        if s[0] == 10 {
            lemma_head_cut_bounds(s.skip(1), (n - 1) as nat);
        } else {
            lemma_head_cut_bounds(s.skip(1), n);
        }
    }
}

/// Line mode is exact: the emitted prefix is the concatenation of the
/// first `n` lines of the input with their original terminators — all of
/// the lines, when the input has fewer than `n`.
pub proof fn lemma_head_lines_exact(s: Seq<u8>, n: nat)
    ensures
        s.take(head_cut(s, n)) == lines_of(s).take(
            vstd::math::min(n as int, lines_of(s).len() as int),
        ).flatten(),
    decreases s.len(),
{
    if n == 0 || s.len() == 0 {
        assert(lines_of(s).take(
            vstd::math::min(n as int, lines_of(s).len() as int),
        ) =~= Seq::<Seq<u8>>::empty());
        assert(Seq::<Seq<u8>>::empty().flatten() =~= Seq::<u8>::empty());
        assert(s.take(0) =~= Seq::<u8>::empty());
    } else {
        lemma_first_line_len_bounds(s);
        let l = first_line_len(s);
        lemma_head_cut_first_line(s, n);
        lemma_head_cut_bounds(s.skip(l), (n - 1) as nat);
        lemma_head_lines_exact(s.skip(l), (n - 1) as nat);
        let parts = lines_of(s);
        let rest = lines_of(s.skip(l));
        let m = vstd::math::min(n as int, parts.len() as int);
        let m2 = vstd::math::min(n - 1, rest.len() as int);
        assert(parts.take(m) =~= seq![s.take(l)] + rest.take(m2));
        assert(parts.take(m).first() == s.take(l));
        assert(parts.take(m).drop_first() =~= rest.take(m2));
        assert(parts.take(m).flatten() == s.take(l) + rest.take(m2).flatten());
        let c2 = head_cut(s.skip(l), (n - 1) as nat);
        assert(s.take(l + c2) =~= s.take(l) + s.skip(l).take(c2));
    }
}

/// The leading portion of `content` holding its first `n` lines (fewer if
/// the input has fewer), with the original line terminators kept.
pub fn head_line_prefix(content: &Vec<u8>, n: usize) -> (r: Vec<u8>)
    ensures
        r@ == content@.take(head_cut(content@, n as nat)),
{
    let mut out: Vec<u8> = Vec::new();
    let mut seen: usize = 0;
    let mut i: usize = 0;
    proof {
        assert(content@.skip(0) =~= content@);
    }
    while i < content.len() && seen < n
        invariant
            i <= content@.len(),
            seen <= n,
            out@ == content@.take(i as int),
            head_cut(content@, n as nat) == i + head_cut(
                content@.skip(i as int),
                (n - seen) as nat,
            ),
        decreases content@.len() - i,
    {
        let b = content[i];
        out.push(b);
        proof {
            assert(content@.skip(i as int)[0] == content@[i as int]);
            assert(content@.skip(i as int).skip(1) =~= content@.skip(i + 1));
            assert(content@.take(i as int).push(content@[i as int]) =~= content@.take(i + 1));
        }
        if b == 10 {
            seen += 1;
        }
        i += 1;
    }
    proof {
        if seen < n {
            assert(content@.skip(i as int).len() == 0);
        }
    }
    out
}

/// The first `n` bytes of `content`, or all of it if it is shorter.
pub fn head_byte_prefix(content: &Vec<u8>, n: usize) -> (r: Vec<u8>)
    ensures
        r@ == content@.take(vstd::math::min(n as int, content@.len() as int)),
{
    let m = if n < content.len() {
        n
    } else {
        content.len()
    };
    let mut out: Vec<u8> = Vec::new();
    let mut i: usize = 0;
    while i < m
        invariant
            m == vstd::math::min(n as int, content@.len() as int),
            i <= m,
            out@ == content@.take(i as int),
        decreases m - i,
    {
        out.push(content[i]);
        proof {
            assert(content@.take(i as int).push(content@[i as int]) =~= content@.take(i + 1));
        }
        i += 1;
    }
    out
}

/// What `String::from_utf8_lossy` returns for a given byte sequence: the
/// bytes decoded as UTF-8, with invalid sequences replaced by U+FFFD.
pub uninterp spec fn lossy_utf8(bytes: Seq<u8>) -> Seq<char>;

/// Relies on `String::from_utf8_lossy`: its result is a function of the
/// bytes alone, and on valid UTF-8 it is exactly the decoded text.
#[verifier::external_body]
fn lossy_decode(bytes: &Vec<u8>) -> (r: String)
    ensures
        r@ == lossy_utf8(bytes@),
        vstd::utf8::valid_utf8(bytes@) ==> r@ == vstd::utf8::decode_utf8(bytes@),
{
    String::from_utf8_lossy(bytes).into_owned()
}

/// The text that byte mode prints: the first `n` bytes of `content` (or
/// all of it, if shorter) decoded as UTF-8 with the replacement character
/// standing in for invalid sequences.
pub fn head_byte_text(content: &Vec<u8>, n: usize) -> (r: String)
    ensures
        r@ == lossy_utf8(content@.take(vstd::math::min(n as int, content@.len() as int))),
{
    let prefix = head_byte_prefix(content, n);
    lossy_decode(&prefix)
}

/// The header printed before a file's output when several files are
/// named: `==> name <==` with a trailing newline, preceded by a blank
/// line for every file after the first.
pub open spec fn header_of(name: Seq<char>, first: bool) -> Seq<char> {
    (if first {
        Seq::<char>::empty()
    } else {
        seq!['\n']
    }) + "==> "@ + name + " <==\n"@
}

pub fn format_header(filename: &str, first: bool) -> (r: String)
    ensures
        r@ == header_of(filename@, first),
{
    let mut out = if first {
        String::new()
    } else {
        proof {
            reveal_strlit("\n");
            assert("\n"@ =~= seq!['\n']);
        }
        "\n".to_owned()
    };
    out.append("==> ");
    out.append(filename);
    out.append(" <==\n");
    out
}

/// Error text for a rejected line-count option value.
pub open spec fn line_count_error(v: Seq<char>) -> Seq<char> {
    "illegal line count -- "@ + v
}

/// Error text for a rejected byte-count option value.
pub open spec fn byte_count_error(v: Seq<char>) -> Seq<char> {
    "illegal byte count -- "@ + v
}

/// Configuration of one head-like invocation.
#[derive(Debug)]
pub struct Config {
    /// Path tokens, in command-line order; `-` stands for standard input.
    pub files: Vec<String>,
    /// Number of lines printed in line mode.
    pub lines: usize,
    /// Byte mode when present: number of bytes printed. Takes precedence
    /// over the line count.
    pub bytes: Option<usize>,
}

impl Config {
    /// The limits are positive and at least one file token is present.
    pub open spec fn well_formed(self) -> bool {
        &&& self.lines >= 1
        &&& match self.bytes {
            Some(b) => b >= 1,
            None => true,
        }
        &&& self.files@.len() >= 1
    }

    /// Builds the configuration from the raw command-line values, or
    /// fails with a message naming the offending option value before any
    /// file is touched. `lines_val` and `bytes_val` are the option
    /// strings as given (the line count defaults to 10 when absent);
    /// `files` holds the positional arguments (standard input, `-`, when
    /// there are none).
    pub fn resolve(files: Vec<String>, lines_val: Option<&str>, bytes_val: Option<&str>) -> (r:
        Result<Config, String>)
        ensures
            match r {
                Ok(c) => {
                    &&& match lines_val {
                        Some(v) => parses_positive(v@) && c.lines == literal_val(v@),
                        None => c.lines == 10,
                    }
                    &&& match bytes_val {
                        Some(v) => parses_positive(v@) && c.bytes is Some && c.bytes->0
                            == literal_val(v@),
                        None => c.bytes is None,
                    }
                    &&& if files@.len() == 0 {
                        c.files@.len() == 1 && c.files@[0]@ == "-"@
                    } else {
                        c.files@ == files@
                    }
                    &&& c.well_formed()
                },
                Err(e) => {
                    ||| {
                        &&& lines_val is Some
                        &&& !parses_positive(lines_val->0@)
                        &&& e@ == line_count_error(lines_val->0@)
                    }
                    ||| {
                        &&& match lines_val {
                            Some(v) => parses_positive(v@),
                            None => true,
                        }
                        &&& bytes_val is Some
                        &&& !parses_positive(bytes_val->0@)
                        &&& e@ == byte_count_error(bytes_val->0@)
                    }
                },
            },
    {
        let lines: usize = match lines_val {
            Some(v) => match parse_positive_int(v) {
                Ok(n) => n,
                Err(bad) => {
                    let mut msg = "illegal line count -- ".to_owned();
                    msg.append(bad.as_str());
                    return Err(msg);
                },
            },
            None => 10,
        };
        let bytes: Option<usize> = match bytes_val {
            Some(v) => match parse_positive_int(v) {
                Ok(n) => Some(n),
                Err(bad) => {
                    let mut msg = "illegal byte count -- ".to_owned();
                    msg.append(bad.as_str());
                    return Err(msg);
                },
            },
            None => None,
        };
        let mut files = files;
        if files.len() == 0 {
            files.push("-".to_owned());
        }
        Ok(Config { files, lines, bytes })
    }

    /// Renders one file's head. In byte mode the result is the UTF-8
    /// encoding of the text that `head_byte_text` yields for the byte
    /// limit; otherwise it is the prefix holding the first `lines` lines
    /// of the content, terminators kept. Byte mode wins when both limits
    /// are set.
    pub fn render(&self, content: &Vec<u8>) -> (r: Vec<u8>)
        ensures
            match self.bytes {
                Some(n) => r@ == vstd::utf8::encode_utf8(
                    lossy_utf8(content@.take(vstd::math::min(n as int, content@.len() as int))),
                ),
                None => r@ == content@.take(head_cut(content@, self.lines as nat)),
            },
    {
        match self.bytes {
            Some(n) => {
                let text = head_byte_text(content, n);
                vstd::slice::slice_to_vec(text.as_str().as_bytes())
            },
            None => head_line_prefix(content, self.lines),
        }
    }
}

} // verus!
