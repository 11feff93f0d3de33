//! Core of the `cat`-like tool: the line-numbering renderer.

use vstd::prelude::*;
use vstd::string::StringExecFns;

verus! {

/// How lines are numbered when a file is echoed.
#[derive(Clone, Copy, PartialEq, Eq, Structural, Debug)]
pub enum NumberingMode {
    /// Lines are printed verbatim.
    Plain,
    /// Every line carries a 1-based number.
    All,
    /// Only non-blank lines carry a number; the numbering is contiguous.
    NonBlank,
}

/// The decimal digit character for `d`.
pub open spec fn digit_char(d: nat) -> char {
    if d == 0 {
        '0'
    } else if d == 1 {
        '1'
    } else if d == 2 {
        '2'
    } else if d == 3 {
        '3'
    } else if d == 4 {
        '4'
    } else if d == 5 {
        '5'
    } else if d == 6 {
        '6'
    } else if d == 7 {
        '7'
    } else if d == 8 {
        '8'
    } else {
        '9'
    }
}

/// The decimal representation of `n`, most significant digit first, with
/// no leading zeros.
pub open spec fn dec_rep(n: nat) -> Seq<char>
    decreases n,
{
    if n < 10 {
        seq![digit_char(n)]
    } else {
        dec_rep(n / 10).push(digit_char(n % 10))
    }
}

/// `n` space characters.
pub open spec fn spaces(n: nat) -> Seq<char> {
    Seq::new(n, |i: int| ' ')
}

/// `s` right-aligned in a field of width six; longer values keep their
/// full width.
pub open spec fn pad6(s: Seq<char>) -> Seq<char> {
    if s.len() >= 6 {
        s
    } else {
        spaces((6 - s.len()) as nat) + s
    }
}

/// A numbered output line: the number right-aligned in a six-character
/// field, a tab, then the line content.
pub open spec fn numbered_line(n: nat, l: Seq<char>) -> Seq<char> {
    pad6(dec_rep(n)) + seq!['\t'] + l
}

fn digit_str(d: usize) -> (r: &'static str)
    requires
        d < 10,
    ensures
        r@ == seq![digit_char(d as nat)],
{
    proof {
        reveal_strlit("0");
        reveal_strlit("1");
        reveal_strlit("2");
        reveal_strlit("3");
        reveal_strlit("4");
        reveal_strlit("5");
        reveal_strlit("6");
        reveal_strlit("7");
        reveal_strlit("8");
        reveal_strlit("9");
    }
    if d == 0 {
        let r = "0";
        proof {
            assert(r@ =~= seq![digit_char(d as nat)]);
        }
        r
    } else if d == 1 {
        let r = "1";
        proof {
            assert(r@ =~= seq![digit_char(d as nat)]);
        }
        r
    } else if d == 2 {
        let r = "2";
        proof {
            assert(r@ =~= seq![digit_char(d as nat)]);
        }
        r
    } else if d == 3 {
        let r = "3";
        proof {
            assert(r@ =~= seq![digit_char(d as nat)]);
        }
        r
    } else if d == 4 {
        let r = "4";
        proof {
            assert(r@ =~= seq![digit_char(d as nat)]);
        }
        r
    } else if d == 5 {
        let r = "5";
        proof {
            assert(r@ =~= seq![digit_char(d as nat)]);
        }
        r
    } else if d == 6 {
        let r = "6";
        proof {
            assert(r@ =~= seq![digit_char(d as nat)]);
        }
        r
    } else if d == 7 {
        let r = "7";
        proof {
            assert(r@ =~= seq![digit_char(d as nat)]);
        }
        r
    } else if d == 8 {
        let r = "8";
        proof {
            assert(r@ =~= seq![digit_char(d as nat)]);
        }
        r
    } else {
        let r = "9";
        proof {
            assert(r@ =~= seq![digit_char(d as nat)]);
        }
        r
    }
}

fn dec_string(n: usize) -> (r: String)
    ensures
        r@ == dec_rep(n as nat),
    decreases n,
{
    if n < 10 {
        digit_str(n).to_owned()
    } else {
        let mut s = dec_string(n / 10);
        s.append(digit_str(n % 10));
        proof {
            assert(dec_rep((n / 10) as nat) + seq![digit_char((n % 10) as nat)] =~= dec_rep(
                (n / 10) as nat,
            ).push(digit_char((n % 10) as nat)));
        }
        s
    }
}

proof fn lemma_dec_len(n: nat)
    ensures
        n < 10 ==> dec_rep(n).len() == 1,
        10 <= n < 100 ==> dec_rep(n).len() == 2,
        100 <= n < 1000 ==> dec_rep(n).len() == 3,
        1000 <= n < 10000 ==> dec_rep(n).len() == 4,
        10000 <= n < 100000 ==> dec_rep(n).len() == 5,
        100000 <= n ==> dec_rep(n).len() >= 6,
    decreases n,
{
    if n >= 10 {
        lemma_dec_len(n / 10);
    }
}

/// One output line in a numbering mode: `n` right-aligned in a
/// six-character field, a tab, then the line itself.
fn number_line(n: usize, line: &str) -> (r: String)
    ensures
        r@ == numbered_line(n as nat, line@),
{
    let digits = dec_string(n);
    proof {
        lemma_dec_len(n as nat);
        reveal_strlit("     ");
        reveal_strlit("    ");
        reveal_strlit("   ");
        reveal_strlit("  ");
        reveal_strlit(" ");
        reveal_strlit("");
        reveal_strlit("\t");
    }
    let pad: &'static str = if n < 10 {
        "     "
    } else if n < 100 {
        "    "
    } else if n < 1000 {
        "   "
    } else if n < 10000 {
        "  "
    } else if n < 100000 {
        " "
    } else {
        ""
    };
    proof {
        assert(pad@ =~= spaces((6 - dec_rep(n as nat).len()) as nat) || dec_rep(
            n as nat,
        ).len() >= 6);
        if dec_rep(n as nat).len() >= 6 {
            assert(pad@ =~= Seq::<char>::empty());
        }
    }
    let mut out = pad.to_owned();
    out.append(digits.as_str());
    out.append("\t");
    out.append(line);
    proof {
        assert(out@ =~= numbered_line(n as nat, line@));
    }
    out
}

/// Count of non-blank lines among the first `i` lines of `ls`.
pub open spec fn nonblank_before(ls: Seq<Seq<char>>, i: int) -> nat
    decreases i,
{
    if i <= 0 {
        0
    } else {
        nonblank_before(ls, i - 1) + (if ls[i - 1].len() > 0 {
            1nat
        } else {
            0nat
        })
    }
}

/// The rendered form of line `i` of `ls` under `mode`: verbatim, or
/// numbered; in non-blank mode a blank line stays verbatim and a
/// non-blank line carries one more than the count of non-blank lines
/// before it.
pub open spec fn cat_line(ls: Seq<Seq<char>>, mode: NumberingMode, i: int) -> Seq<char> {
    match mode {
        NumberingMode::Plain => ls[i],
        NumberingMode::All => numbered_line((i + 1) as nat, ls[i]),
        NumberingMode::NonBlank => if ls[i].len() == 0 {
            ls[i]
        } else {
            numbered_line(nonblank_before(ls, i) + 1, ls[i])
        },
    }
}

/// Configuration of one cat-like invocation.
pub struct Config {
    /// Path tokens, in command-line order; `-` stands for standard input.
    pub files: Vec<String>,
    /// How lines are numbered.
    pub mode: NumberingMode,
}

impl Config {
    /// Builds the configuration from the raw command-line values: the
    /// two numbering flags (number-all wins when both are set) and the
    /// positional arguments (standard input, `-`, when there are none).
    pub fn new(files: Vec<String>, number_lines: bool, number_nonblank: bool) -> (c: Config)
        ensures
            c.mode == (if number_lines {
                NumberingMode::All
            } else if number_nonblank {
                NumberingMode::NonBlank
            } else {
                NumberingMode::Plain
            }),
            files@.len() == 0 ==> c.files@.len() == 1 && c.files@[0]@ == "-"@,
            files@.len() > 0 ==> c.files@ == files@,
    {
        let mode = if number_lines {
            NumberingMode::All
        } else if number_nonblank {
            NumberingMode::NonBlank
        } else {
            NumberingMode::Plain
        };
        let mut files = files;
        if files.len() == 0 {
            files.push("-".to_owned());
        }
        Config { files, mode }
    }

    /// Renders the lines of one file: each output line is the input line
    /// numbered according to the mode. Non-blank numbering is
    /// contiguous, and blank lines carry no number.
    pub fn render(&self, lines: &Vec<String>) -> (out: Vec<String>)
        ensures
            out@.len() == lines@.len(),
            forall|k: int|
                0 <= k < lines@.len() ==> (#[trigger] out@[k])@ == cat_line(
                    lines.deep_view(),
                    self.mode,
                    k,
                ),
    {
        let ghost ls = lines.deep_view();
        let mut out: Vec<String> = Vec::new();
        let mut count: usize = 0;
        let mut i: usize = 0;
        while i < lines.len()
            invariant
                i <= lines@.len(),
                out@.len() == i,
                ls == lines.deep_view(),
                self.mode == NumberingMode::NonBlank ==> count == nonblank_before(ls, i as int),
                count <= i,
                forall|k: int|
                    0 <= k < i ==> (#[trigger] out@[k])@ == cat_line(ls, self.mode, k),
            decreases lines@.len() - i,
        {
            let line: &String = &lines[i];
            proof {
                assert(ls[i as int] == lines@[i as int]@);
            }
            match self.mode {
                NumberingMode::Plain => {
                    out.push(line.clone());
                },
                NumberingMode::All => {
                    out.push(number_line(i + 1, line.as_str()));
                },
                NumberingMode::NonBlank => {
                    if line.as_str().is_empty() {
                        out.push(line.clone());
                    } else {
                        count = count + 1;
                        out.push(number_line(count, line.as_str()));
                    }
                },
            }
            i += 1;
        }
        out
    }
}

/// Counting non-blank lines never decreases as the scan advances.
pub proof fn lemma_nonblank_monotone(ls: Seq<Seq<char>>, i: int, j: int)
    requires
        0 <= i <= j,
    ensures
        nonblank_before(ls, i) <= nonblank_before(ls, j),
    decreases j - i,
{
    if i < j {
        lemma_nonblank_monotone(ls, i, j - 1);
    }
}

/// Non-blank numbering is strictly increasing across the non-blank
/// lines: of two non-blank lines, the later one always carries the
/// larger number (blank lines, which carry no number, never disturb the
/// order).
pub proof fn lemma_nonblank_numbers_increase(ls: Seq<Seq<char>>, i: int, j: int)
    requires
        0 <= i < j < ls.len(),
        ls[i].len() > 0,
        ls[j].len() > 0,
    ensures
        nonblank_before(ls, i) + 1 < nonblank_before(ls, j) + 1,
{
    lemma_nonblank_monotone(ls, i + 1, j);
}

} // verus!
