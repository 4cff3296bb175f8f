//! The command line of the discovery tool: an optional bound on how long
//! discovery runs.

use vstd::prelude::*;
use crate::text::{chars_of, str_equal};

verus! {

/// Whether `c` is an ASCII decimal digit.
pub open spec fn is_digit(c: char) -> bool {
    '0' <= c && c <= '9'
}

/// The value of an ASCII decimal digit.
pub open spec fn digit_value(c: char) -> nat {
    ((c as u32) - ('0' as u32)) as nat
}

/// The number that a sequence of decimal digits denotes.
pub open spec fn digits_value(s: Seq<char>) -> nat
    decreases s.len(),
{
    if s.len() == 0 {
        0
    } else {
        digits_value(s.drop_last()) * 10 + digit_value(s.last())
    }
}

/// Whether every character of `s` is a decimal digit.
pub open spec fn all_digits(s: Seq<char>) -> bool {
    forall|i: int| 0 <= i < s.len() ==> is_digit(#[trigger] s[i])
}

/// `s` without one leading `+`.
pub open spec fn unsigned_part(s: Seq<char>) -> Seq<char> {
    if s.len() > 0 && s[0] == '+' {
        s.drop_first()
    } else {
        s
    }
}

/// What `str::parse::<u64>` makes of `s`: an optional `+`, then one or more
/// decimal digits whose value fits in a `u64`.
pub open spec fn parse_u64_text(s: Seq<char>) -> Option<u64> {
    let body = unsigned_part(s);
    if body.len() > 0 && all_digits(body) && digits_value(body) <= u64::MAX {
        Some(digits_value(body) as u64)
    } else {
        None
    }
}

proof fn lemma_digits_value_grows(s: Seq<char>, k: int)
    requires
        0 <= k <= s.len(),
        forall|i: int| 0 <= i < s.len() ==> is_digit(#[trigger] s[i]),
    ensures
        digits_value(s.take(k)) <= digits_value(s),
    decreases s.len() - k,
{
    if k < s.len() {
        lemma_digits_value_grows(s, k + 1);
        assert(s.take(k + 1).drop_last() =~= s.take(k));
    } else {
        assert(s.take(k) =~= s);
    }
}

/// Parses a decimal `u64` as `str::parse::<u64>` does.
pub fn parse_u64(s: &str) -> (r: Option<u64>)
    ensures
        r == parse_u64_text(s@),
{
    let chars = chars_of(s);
    let start: usize = if chars.len() > 0 && chars[0] == '+' {
        1
    } else {
        0
    };
    let ghost body = chars@.skip(start as int);
    assert(body =~= unsigned_part(s@));
    if start == chars.len() {
        return None;
    }
    let mut value: u64 = 0;
    let mut i: usize = start;
    while i < chars.len()
        invariant
            start <= i <= chars@.len(),
            body == chars@.skip(start as int),
            body == unsigned_part(s@),
            body.len() > 0,
            forall|j: int| 0 <= j < i - start ==> is_digit(#[trigger] body[j]),
            value == digits_value(body.take(i - start)),
        decreases chars.len() - i,
    {
        let c = chars[i];
        assert(c == body[i - start]);
        if !('0' <= c && c <= '9') {
            assert(!is_digit(body[i - start]));
            return None;
        }
        let d = (c as u32 - '0' as u32) as u64;
        assert(body.take(i - start + 1).drop_last() =~= body.take(i - start));
        assert(digits_value(body.take(i - start + 1)) == value * 10 + d);
        let tens = value.checked_mul(10);
        let next = match tens {
            Some(t) => t.checked_add(d),
            None => None,
        };
        match next {
            Some(v) => {
                value = v;
            },
            None => {
                proof {
                    if all_digits(body) {
                        lemma_digits_value_grows(body, i - start + 1);
                    }
                }
                return None;
            },
        }
        i = i + 1;
    }
    assert(body.take(body.len() as int) =~= body);
    Some(value)
}


/// Why the command line was refused.
#[derive(Debug)]
pub enum TimeoutArgError {
    /// The first argument is not `--timeout-seconds`.
    UnknownArgument(String),
    /// `--timeout-seconds` is not followed by a positive integer.
    MissingSeconds,
    /// An argument follows the number of seconds.
    UnexpectedArgument(String),
}

impl TimeoutArgError {
    /// The message shown for the refusal.
    pub fn message(&self) -> (m: String)
        ensures
            m@ == match self {
                TimeoutArgError::UnknownArgument(a) => "unknown argument: "@ + a@,
                TimeoutArgError::MissingSeconds => "--timeout-seconds requires a positive integer"@,
                TimeoutArgError::UnexpectedArgument(a) => "unexpected argument: "@ + a@,
            },
    {
        match self {
            TimeoutArgError::UnknownArgument(a) => {
                let mut m = String::from_str("unknown argument: ");
                m.append(a.as_str());
                m
            },
            TimeoutArgError::MissingSeconds => String::from_str(
                "--timeout-seconds requires a positive integer",
            ),
            TimeoutArgError::UnexpectedArgument(a) => {
                let mut m = String::from_str("unexpected argument: ");
                m.append(a.as_str());
                m
            },
        }
    }
}

/// A positive number of seconds given as text.
pub open spec fn positive_seconds(s: Seq<char>) -> bool {
    parse_u64_text(s) matches Some(n) && n > 0
}

/// Reads the arguments that follow the program name: none, or
/// `--timeout-seconds` and a positive integer. Gives the bound in seconds,
/// `None` for no bound, or why the arguments were refused.
pub fn parse_timeout_args(args: &Vec<String>) -> (r: Result<Option<u64>, TimeoutArgError>)
    ensures
        args@.len() == 0 ==> r == Ok::<Option<u64>, TimeoutArgError>(None),
        args@.len() > 0 && args@[0]@ != "--timeout-seconds"@ ==> (r matches Err(
            TimeoutArgError::UnknownArgument(a),
        ) && a@ == args@[0]@),
        args@.len() > 0 && args@[0]@ == "--timeout-seconds"@ && (args@.len() < 2
            || !positive_seconds(args@[1]@)) ==> r matches Err(TimeoutArgError::MissingSeconds),
        args@.len() > 2 && args@[0]@ == "--timeout-seconds"@ && positive_seconds(args@[1]@) ==> (
        r matches Err(TimeoutArgError::UnexpectedArgument(a)) && a@ == args@[2]@),
        args@.len() == 2 && args@[0]@ == "--timeout-seconds"@ && positive_seconds(args@[1]@) ==> r
            == Ok::<Option<u64>, TimeoutArgError>(parse_u64_text(args@[1]@)),
{
    if args.len() == 0 {
        return Ok(None);
    }
    if !str_equal(args[0].as_str(), "--timeout-seconds") {
        return Err(TimeoutArgError::UnknownArgument(args[0].clone()));
    }
    if args.len() < 2 {
        return Err(TimeoutArgError::MissingSeconds);
    }
    let seconds = match parse_u64(args[1].as_str()) {
        Some(n) => if n > 0 {
            n
        } else {
            return Err(TimeoutArgError::MissingSeconds);
        },
        None => {
            return Err(TimeoutArgError::MissingSeconds);
        },
    };
    if args.len() > 2 {
        return Err(TimeoutArgError::UnexpectedArgument(args[2].clone()));
    }
    Ok(Some(seconds))
}

} // verus!
