//! Command-line argument parsing: board size, win length, and help.

use vstd::prelude::*;

use crate::error::Error;

verus! {

/// The parsed command-line options: an optional board size, the win
/// length, and whether help was asked for.
#[derive(Debug)]
pub struct Args {
    pub width: Option<usize>,
    pub height: Option<usize>,
    pub win_len: usize,
    pub help: bool,
}

/// A decimal digit.
pub open spec fn is_digit(c: char) -> bool {
    48 <= c as int <= 57
}

/// The numeric value of a decimal digit.
pub open spec fn digit_val(c: char) -> int {
    c as int - 48
}

/// The value of the first `n` characters of `s` read as decimal digits.
pub open spec fn digits_val(s: Seq<char>, n: int) -> int
    decreases n,
{
    if n <= 0 {
        0
    } else {
        digits_val(s, n - 1) * 10 + digit_val(s[n - 1])
    }
}

/// Every character of `s` is a decimal digit.
pub open spec fn all_digits(s: Seq<char>) -> bool {
    forall|i: int| 0 <= i < s.len() ==> is_digit(#[trigger] s[i])
}

/// What `usize` parsing accepts: an optional leading `+`, then at least
/// one decimal digit and nothing else, with a value that fits the
/// machine word; and the value it then gives.
pub open spec fn spec_parse_usize(s: Seq<char>) -> Option<int> {
    let body = if s.len() > 0 && s[0] == '+' {
        s.subrange(1, s.len() as int)
    } else {
        s
    };
    if body.len() > 0 && all_digits(body) && digits_val(body, body.len() as int) <= usize::MAX {
        Some(digits_val(body, body.len() as int))
    } else {
        None
    }
}

/// A prefix of a digit string is worth no more than the whole: appending
/// digits never shrinks the value, which never goes negative.
proof fn lemma_digits_val_nonneg(s: Seq<char>, i: int)
    requires
        0 <= i <= s.len(),
        forall|m: int| 0 <= m < i ==> is_digit(#[trigger] s[m]),
    ensures
        digits_val(s, i) >= 0,
    decreases i,
{
    if i > 0 {
        lemma_digits_val_nonneg(s, i - 1);
    }
}

proof fn lemma_digits_val_mono(s: Seq<char>, i: int, j: int)
    requires
        0 <= i <= j <= s.len(),
        forall|m: int| 0 <= m < j ==> is_digit(#[trigger] s[m]),
    ensures
        0 <= digits_val(s, i) <= digits_val(s, j),
    decreases j - i,
{
    lemma_digits_val_nonneg(s, i);
    if i < j {
        lemma_digits_val_mono(s, i, j - 1);
        lemma_digits_val_nonneg(s, j - 1);
    }
}

/// Parses a `usize` from a string exactly as the standard library does:
/// an optional leading `+`, then decimal digits; `None` on anything else
/// or on overflow.
fn parse_usize(s: &str) -> (r: Option<usize>)
    ensures
        match spec_parse_usize(s@) {
            Some(v) => 0 <= v && r == Some(v as usize),
            None => r is None,
        },
{
    let n = s.unicode_len();
    if n == 0 {
        return None;
    }
    let start: usize = if s.get_char(0) == '+' {
        1
    } else {
        0
    };
    if start == n {
        return None;
    }
    let ghost body = if s@[0] == '+' {
        s@.subrange(1, n as int)
    } else {
        s@
    };
    let mut acc: usize = 0;
    let mut j: usize = start;
    while j < n
        invariant
            n == s@.len(),
            start <= j <= n,
            start == 0 || start == 1,
            start == 1 <==> s@[0] == '+',
            body == if s@[0] == '+' {
                s@.subrange(1, n as int)
            } else {
                s@
            },
            body.len() == n - start,
            forall|m: int| 0 <= m < j - start ==> is_digit(#[trigger] body[m]),
            acc == digits_val(body, j - start),
        decreases n - j,
    {
        let c = s.get_char(j);
        let d = c as u32;
        if d < 48 || d > 57 {
            proof {
                assert(body[j - start] == s@[j as int]);
                assert(!is_digit(body[j - start]));
            }
            return None;
        }
        let dv = (d - 48) as usize;
        if acc > (usize::MAX - dv) / 10 {
            proof {
                assert(body[j - start] == s@[j as int]);
                assert(is_digit(body[j - start]));
                assert(digits_val(body, j - start + 1) == acc * 10 + dv);
                assert(acc * 10 + dv > usize::MAX);
                if all_digits(body) {
                    lemma_digits_val_mono(body, j - start + 1, body.len() as int);
                }
            }
            return None;
        }
        acc = acc * 10 + dv;
        proof {
            assert(body[j - start] == s@[j as int]);
            assert(digits_val(body, j - start + 1) == digits_val(body, j - start) * 10 + digit_val(
                body[j - start],
            ));
        }
        j = j + 1;
    }
    proof {
        assert(body.len() > 0);
        assert(all_digits(body));
        assert(digits_val(body, body.len() as int) == acc);
    }
    Some(acc)
}

/// The string compares equal to the literal.
fn str_is(a: &String, lit: &str) -> (r: bool)
    ensures
        r == (a@ == lit@),
{
    let s = lit.to_owned();
    *a == s
}

/// What pulling one number out of the argument list gives: the number and
/// the advance by one, or the message the caller reports.
pub open spec fn spec_get_num(args: Seq<Seq<char>>, i: int) -> Result<int, Seq<char>> {
    if i >= args.len() {
        Err("missing argument parameter"@)
    } else {
        match spec_parse_usize(args[i]) {
            Some(v) => Ok(v),
            None => Err("number expected, got '"@ + args[i] + "'"@),
        }
    }
}

/// What one step of parsing does to the options and the position, or the
/// message it stops with.
pub open spec fn spec_parse(args: Seq<Seq<char>>, i: int, a: Args) -> Result<Args, Seq<char>>
    decreases args.len() - i,
{
    if i >= args.len() {
        Ok(a)
    } else if args[i] == "-s"@ || args[i] == "--size"@ {
        match spec_get_num(args, i + 1) {
            Err(m) => Err(m),
            Ok(v1) => match spec_get_num(args, i + 2) {
                Err(m) => Err(m),
                Ok(v2) => {
                    if v1 < 3 || v2 < 3 {
                        Err("minimum supported size is 3"@)
                    } else {
                        spec_parse(
                            args,
                            i + 3,
                            Args {
                                width: Some(v1 as usize),
                                height: Some(v2 as usize),
                                win_len: a.win_len,
                                help: a.help,
                            },
                        )
                    }
                },
            },
        }
    } else if args[i] == "-w"@ || args[i] == "--win"@ {
        match spec_get_num(args, i + 1) {
            Err(m) => Err(m),
            Ok(v) => {
                if v < 3 {
                    Err("minimum supported win length is 3"@)
                } else {
                    spec_parse(
                        args,
                        i + 2,
                        Args { width: a.width, height: a.height, win_len: v as usize, help: a.help },
                    )
                }
            },
        }
    } else if args[i] == "-h"@ || args[i] == "--help"@ {
        spec_parse(
            args,
            i + 1,
            Args { width: a.width, height: a.height, win_len: a.win_len, help: true },
        )
    } else {
        Err("unexpected argument: '"@ + args[i] + "'"@)
    }
}

impl Args {
    /// The options before any argument is read.
    pub open spec fn spec_default() -> Args {
        Args { width: None, height: None, win_len: 5, help: false }
    }

    /// Parses the argument list, the program name at its head ignored,
    /// and gives the options it describes or the first error, exactly as
    /// `spec_parse` says.
    pub fn parse(args: Vec<String>) -> (r: Result<Args, Error>)
        ensures
            match spec_parse(args.deep_view(), 1, Args::spec_default()) {
                Ok(a) => r == Ok::<Args, Error>(a),
                Err(m) => r matches Err(e) && e matches Error::Msg(s) && s@ == m,
            },
    {
        let ghost av = args.deep_view();
        let mut parsed = Args::default();
        let mut i: usize = 1;
        while i < args.len()
            invariant
                av == args.deep_view(),
                av.len() == args@.len(),
                1 <= i,
                spec_parse(av, 1, Args::spec_default()) == spec_parse(av, i as int, parsed),
            decreases args@.len() - i,
        {
            proof {
                assert(av[i as int] == args@[i as int]@);
            }
            let a = &args[i];
            if str_is(a, "-s") || str_is(a, "--size") {
                let mut pos = i + 1;
                match parsed.parse_size(&args, &mut pos) {
                    Ok(()) => {
                        i = pos;
                    },
                    Err(e) => {
                        return Err(e);
                    },
                }
            } else if str_is(a, "-w") || str_is(a, "--win") {
                let mut pos = i + 1;
                match parsed.parse_win(&args, &mut pos) {
                    Ok(()) => {
                        i = pos;
                    },
                    Err(e) => {
                        return Err(e);
                    },
                }
            } else if str_is(a, "-h") || str_is(a, "--help") {
                parsed.help = true;
                i = i + 1;
            } else {
                let msg = String::from_str("unexpected argument: '").concat(a.as_str()).concat(
                    "'",
                );
                return Err(Error::Msg(msg));
            }
        }
        Ok(parsed)
    }

    /// Reads the two size parameters after a size flag and checks the
    /// minimum; on a rejected size the fields are already written, as the
    /// caller discards them anyway.
    pub fn parse_size(&mut self, args: &Vec<String>, pos: &mut usize) -> (r: Result<(), Error>)
        requires
            *old(pos) <= args@.len(),
        ensures
            final(self).win_len == old(self).win_len,
            final(self).help == old(self).help,
            match spec_get_num(args.deep_view(), *old(pos) as int) {
                Err(m) => {
                    &&& r matches Err(e) && e matches Error::Msg(s) && s@ == m
                    &&& *final(self) == *old(self)
                },
                Ok(v1) => match spec_get_num(args.deep_view(), *old(pos) + 1) {
                    Err(m) => {
                        &&& r matches Err(e) && e matches Error::Msg(s) && s@ == m
                        &&& final(self).width == Some(v1 as usize)
                        &&& final(self).height == old(self).height
                    },
                    Ok(v2) => {
                        &&& final(self).width == Some(v1 as usize)
                        &&& final(self).height == Some(v2 as usize)
                        &&& *final(pos) == *old(pos) + 2
                        &&& if v1 < 3 || v2 < 3 {
                            r matches Err(e) && e matches Error::Msg(s) && s@
                                == "minimum supported size is 3"@
                        } else {
                            r == Ok::<(), Error>(())
                        }
                    },
                },
            },
    {
        let w = match Args::get_num(args, pos) {
            Ok(v) => v,
            Err(e) => {
                return Err(e);
            },
        };
        self.width = Some(w);
        let h = match Args::get_num(args, pos) {
            Ok(v) => v,
            Err(e) => {
                return Err(e);
            },
        };
        self.height = Some(h);
        if w < 3 || h < 3 {
            return Err(Error::Msg("minimum supported size is 3".to_owned()));
        }
        Ok(())
    }

    /// Reads the win length after a win flag and checks the minimum.
    pub fn parse_win(&mut self, args: &Vec<String>, pos: &mut usize) -> (r: Result<(), Error>)
        requires
            *old(pos) <= args@.len(),
        ensures
            final(self).width == old(self).width,
            final(self).height == old(self).height,
            final(self).help == old(self).help,
            match spec_get_num(args.deep_view(), *old(pos) as int) {
                Err(m) => {
                    &&& r matches Err(e) && e matches Error::Msg(s) && s@ == m
                    &&& *final(self) == *old(self)
                },
                Ok(v) => {
                    &&& final(self).win_len == v as usize
                    &&& *final(pos) == *old(pos) + 1
                    &&& if v < 3 {
                        r matches Err(e) && e matches Error::Msg(s) && s@
                            == "minimum supported win length is 3"@
                    } else {
                        r == Ok::<(), Error>(())
                    }
                },
            },
    {
        let v = match Args::get_num(args, pos) {
            Ok(v) => v,
            Err(e) => {
                return Err(e);
            },
        };
        self.win_len = v;
        if v < 3 {
            return Err(Error::Msg("minimum supported win length is 3".to_owned()));
        }
        Ok(())
    }

    /// Reads one number from the argument list at `pos`, advancing `pos`
    /// past it.
    pub fn get_num(args: &Vec<String>, pos: &mut usize) -> (r: Result<usize, Error>)
        requires
            *old(pos) <= args@.len(),
        ensures
            *final(pos) == if *old(pos) < args@.len() {
                *old(pos) + 1
            } else {
                *old(pos) as int
            },
            match spec_get_num(args.deep_view(), *old(pos) as int) {
                Ok(v) => 0 <= v && r == Ok::<usize, Error>(v as usize),
                Err(m) => r matches Err(e) && e matches Error::Msg(s) && s@ == m,
            },
    {
        if *pos >= args.len() {
            return Err(Error::Msg("missing argument parameter".to_owned()));
        }
        let val = &args[*pos];
        *pos = *pos + 1;
        proof {
            assert(args.deep_view()[*old(pos) as int] == val@);
        }
        match parse_usize(val.as_str()) {
            Some(v) => Ok(v),
            None => {
                let msg = String::from_str("number expected, got '").concat(val.as_str()).concat(
                    "'",
                );
                Err(Error::Msg(msg))
            },
        }
    }
}

impl Default for Args {
    /// No size given, the default win length of five, no help asked.
    fn default() -> (r: Args)
        ensures
            r == Args::spec_default(),
    {
        Args { width: None, height: None, win_len: 5, help: false }
    }
}

} // verus!
