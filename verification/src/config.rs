use vstd::prelude::*;

verus! {

use vstd::string::{StringExecFns, StrSliceExecFns};
use crate::numfmt::{spec_decimal_signed, isize_to_string};

/// The run configuration: where the output goes and which log file
/// indices to walk.
#[derive(Debug, Clone)]
pub struct Config {
    pub output_filename: String,
    pub start_index: isize,
    pub end_index: isize,
}

/// Whether a character is a decimal digit.
pub open spec fn spec_is_digit(c: char) -> bool {
    '0' <= c <= '9'
}

/// The value of a digit run, `None` at the first non-digit.
pub open spec fn spec_digits_value(s: Seq<char>, i: int, acc: int) -> Option<int>
    decreases s.len() - i,
{
    if i < 0 || i >= s.len() {
        Some(acc)
    } else if spec_is_digit(s[i]) {
        spec_digits_value(s, i + 1, acc * 10 + (s[i] as int - '0' as int))
    } else {
        None
    }
}

/// What parsing a signed decimal number yields: an optional sign, then at
/// least one digit and nothing else, with the value representable.
pub open spec fn spec_parse_isize(s: Seq<char>) -> Option<isize> {
    let neg = s.len() > 0 && s[0] == '-';
    let start: int = if s.len() > 0 && (s[0] == '-' || s[0] == '+') {
        1
    } else {
        0
    };
    if s.len() <= start {
        None
    } else {
        match spec_digits_value(s, start, 0) {
            Some(v) => {
                let sv = if neg {
                    -v
                } else {
                    v
                };
                if isize::MIN <= sv <= isize::MAX {
                    Some(sv as isize)
                } else {
                    None
                }
            },
            None => None,
        }
    }
}

/// A digit run read from position `i` on is at least the value carried
/// into it.
proof fn lemma_digits_value_monotone(s: Seq<char>, i: int, acc: int)
    requires
        acc >= 0,
    ensures
        match spec_digits_value(s, i, acc) {
            Some(v) => v >= acc,
            None => true,
        },
    decreases s.len() - i,
{
    if 0 <= i < s.len() && spec_is_digit(s[i]) {
        let d = s[i] as int - '0' as int;
        assert(acc * 10 + d >= acc) by (nonlinear_arith)
            requires
                acc >= 0 && d >= 0,
        ;
        lemma_digits_value_monotone(s, i + 1, acc * 10 + d);
    }
}

/// Parses a signed decimal number, exactly as `spec_parse_isize`
/// describes: an optional sign, then one or more digits and nothing
/// else; `None` on other text or when the value does not fit.
fn parse_isize_str(s: &str) -> (r: Option<isize>)
    ensures
        r == spec_parse_isize(s@),
{
    let n = s.unicode_len();
    if n == 0 {
        return None;
    }
    let c0 = s.get_char(0);
    let neg = c0 == '-';
    let start: usize = if c0 == '-' || c0 == '+' {
        1
    } else {
        0
    };
    if n <= start {
        return None;
    }
    let bound: usize = if neg {
        (isize::MAX as usize) + 1
    } else {
        isize::MAX as usize
    };
    let mut acc: usize = 0;
    let mut i = start;
    while i < n
        invariant
            start <= i <= n,
            n == s@.len(),
            start < n,
            acc <= bound,
            neg == (s@.len() > 0 && s@[0] == '-'),
            start as int == (if s@.len() > 0 && (s@[0] == '-' || s@[0] == '+') {
                1int
            } else {
                0int
            }),
            bound as int == (if neg {
                isize::MAX as int + 1
            } else {
                isize::MAX as int
            }),
            spec_digits_value(s@, i as int, acc as int) == spec_digits_value(
                s@,
                start as int,
                0,
            ),
        decreases n - i,
    {
        let c = s.get_char(i);
        let cv = c as u32;
        if !(48 <= cv && cv <= 57) {
            proof {
                assert(!spec_is_digit(s@[i as int]));
            }
            return None;
        }
        let d = ((cv - 48) as usize);
        proof {
            assert(spec_is_digit(s@[i as int]));
            assert(d as int == s@[i as int] as int - '0' as int);
        }
        if acc > bound / 10 || (acc == bound / 10 && d > bound % 10) {
            proof {
                assert(acc * 10 + d > bound) by (nonlinear_arith)
                    requires
                        acc <= bound && d < 10 && (acc > bound / 10 || (acc == bound / 10 && d
                            > bound % 10)),
                ;
                lemma_digits_value_monotone(s@, i as int + 1, acc as int * 10 + d as int);
            }
            return None;
        }
        proof {
            assert(acc * 10 + d <= bound) by (nonlinear_arith)
                requires
                    d < 10 && (acc < bound / 10 || (acc == bound / 10 && d <= bound % 10)),
            ;
        }
        acc = acc * 10 + d;
        i = i + 1;
    }
    if neg {
        if acc == (isize::MAX as usize) + 1 {
            Some(isize::MIN)
        } else {
            Some(-(acc as isize))
        }
    } else {
        Some(acc as isize)
    }
}

/// Reads the run configuration from the command line: the output file
/// name first, then the start and end indices, each falling back to its
/// default when absent or unreadable; a missing name is derived from the
/// two indices.
pub fn parse_config(args: Vec<String>) -> (c: Config)
    ensures
        c.start_index as int == (match (if args@.len() > 2 {
            spec_parse_isize(args@[2]@)
        } else {
            None
        }) {
            Some(v) => v as int,
            None => 280,
        }),
        c.end_index as int == (match (if args@.len() > 3 {
            spec_parse_isize(args@[3]@)
        } else {
            None
        }) {
            Some(v) => v as int,
            None => 281,
        }),
        args@.len() > 1 ==> c.output_filename == args@[1],
        args@.len() <= 1 ==> c.output_filename@ == "out_"@ + spec_decimal_signed(
            c.start_index as int,
        ) + "_"@ + spec_decimal_signed(c.end_index as int),
{
    let start_index: isize = if args.len() > 2 {
        match parse_isize_str(args[2].as_str()) {
            Some(x) => x,
            None => 280,
        }
    } else {
        280
    };
    let end_index: isize = if args.len() > 3 {
        match parse_isize_str(args[3].as_str()) {
            Some(x) => x,
            None => 281,
        }
    } else {
        281
    };
    let output_filename = if args.len() > 1 {
        args[1].clone()
    } else {
        let mut s = String::from_str("out_");
        s.append(isize_to_string(start_index).as_str());
        s.append("_");
        s.append(isize_to_string(end_index).as_str());
        proof {
            reveal_strlit("out_");
            reveal_strlit("_");
        }
        s
    };
    Config { output_filename, start_index, end_index }
}

} // verus!
