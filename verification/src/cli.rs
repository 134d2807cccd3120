//! Entry-point decisions.
//!
//! The program takes exactly one positional argument, the target version.
//! This module decides between proceeding with that version and stopping at
//! once with a usage diagnostic — before any network or filesystem work —
//! and derives the cache directory from the user's home directory.

use vstd::prelude::*;

verus! {

/// What the program does with its argument list: run the pipeline with the
/// one given version, or print the usage diagnostic and stop.
pub enum CliDecision {
    Usage { message: String },
    Proceed { version: String },
}

pub open spec fn digit_char(d: nat) -> char {
    if d == 0 {
        '0'
    } else if d == 1 {
        '1'
    } else if d == 2 {
        '2'
    } else if d == 3 {
        '3'
    } else if d == 4 {
        '4'
    } else if d == 5 {
        '5'
    } else if d == 6 {
        '6'
    } else if d == 7 {
        '7'
    } else if d == 8 {
        '8'
    } else {
        '9'
    }
}

/// The decimal digits of `n`, most significant first, no leading zero
/// except for `n == 0` itself.
pub open spec fn dec_digits(n: nat) -> Seq<char>
    decreases n,
{
    if n < 10 {
        seq![digit_char(n)]
    } else {
        dec_digits(n / 10).push(digit_char(n % 10))
    }
}

fn digit_str(d: usize) -> (r: &'static str)
    requires
        d < 10,
    ensures
        r@ == seq![digit_char(d as nat)],
{
    proof {
        reveal_strlit("0");
        reveal_strlit("1");
        reveal_strlit("2");
        reveal_strlit("3");
        reveal_strlit("4");
        reveal_strlit("5");
        reveal_strlit("6");
        reveal_strlit("7");
        reveal_strlit("8");
        reveal_strlit("9");
    }
    let r: &'static str = if d == 0 {
        "0"
    } else if d == 1 {
        "1"
    } else if d == 2 {
        "2"
    } else if d == 3 {
        "3"
    } else if d == 4 {
        "4"
    } else if d == 5 {
        "5"
    } else if d == 6 {
        "6"
    } else if d == 7 {
        "7"
    } else if d == 8 {
        "8"
    } else {
        "9"
    };
    proof {
        assert(r@ =~= seq![digit_char(d as nat)]);
    }
    r
}

/// `n` written in decimal.
pub fn usize_to_string(n: usize) -> (s: String)
    ensures
        s@ == dec_digits(n as nat),
    decreases n,
{
    if n < 10 {
        digit_str(n).to_owned()
    } else {
        let mut s = usize_to_string(n / 10);
        s.append(digit_str(n % 10));
        proof {
            assert(s@ =~= dec_digits(n as nat));
        }
        s
    }
}

/// The diagnostic printed when the argument count `n` is not 1.
pub open spec fn usage_message_model(n: nat) -> Seq<char> {
    "Expected 1 argument, got "@ + dec_digits(n)
}

/// Argument check: with exactly one argument the pipeline proceeds with it as the
/// version; with any other count the program stops at once with the usage
/// diagnostic, and neither network nor filesystem is touched.
pub fn check_args(args: &Vec<String>) -> (d: CliDecision)
    ensures
        args@.len() == 1 ==> (d matches CliDecision::Proceed { version } && version@
            == args@[0]@),
        args@.len() != 1 ==> (d matches CliDecision::Usage { message } && message@
            == usage_message_model(args@.len())),
{
    if args.len() == 1 {
        CliDecision::Proceed { version: args[0].clone() }
    } else {
        let mut message = "Expected 1 argument, got ".to_owned();
        let count = usize_to_string(args.len());
        message.append(count.as_str());
        CliDecision::Usage { message }
    }
}

/// The cache directory that one run owns, derived from the home directory:
/// `<home>/.cache/fabric-installers/`.
pub fn cache_dir_path(home: &str) -> (r: String)
    ensures
        r@ == home@ + "/.cache/fabric-installers/"@,
{
    let mut r = home.to_owned();
    r.append("/.cache/fabric-installers/");
    r
}

} // verus!
