//! The command line of the framework's program: `--test`, optionally
//! followed by a number of seconds, runs it in test mode for that long.

use vstd::prelude::*;
use crate::plugin::texts;

verus! {

/// How long test mode lasts when the command line does not say.
pub const TEST_MODE_DEFAULT_DURATION_SECS: u64 = 60;

/// What the command line asks for.
#[derive(Debug, Clone, Copy, PartialEq, Eq, Structural)]
pub struct Args {
    pub test_mode: bool,
    pub test_duration_secs: u64,
}

/// Whether every character of `d` is an ASCII digit.
pub open spec fn all_digits(d: Seq<char>) -> bool {
    forall|i: int| 0 <= i < d.len() ==> '0' <= #[trigger] d[i] <= '9'
}

/// The number that the decimal digits `d` write.
pub open spec fn digits_value(d: Seq<char>) -> int
    decreases d.len(),
{
    if d.len() == 0 {
        0
    } else {
        digits_value(d.drop_last()) * 10 + (d.last() as int - '0' as int)
    }
}

/// The digits of `s`, once an optional leading `+` is set aside.
pub open spec fn unsigned_digits(s: Seq<char>) -> Seq<char> {
    if s.len() > 0 && s[0] == '+' {
        s.drop_first()
    } else {
        s
    }
}

/// What parsing `s` as a `u64` gives: the number when `s` is an optional
/// `+` followed by one or more digits whose number fits, nothing otherwise.
pub open spec fn parsed_u64(s: Seq<char>) -> Option<u64> {
    let d = unsigned_digits(s);
    if d.len() > 0 && all_digits(d) && digits_value(d) <= u64::MAX {
        Some(digits_value(d) as u64)
    } else {
        None
    }
}

/// Parses `s` as a `u64`, from `str::parse::<u64>` (which, as its
/// documentation says, takes an optional `+` followed by digits only, and
/// fails on an empty string or a number that does not fit).
#[verifier::external_body]
fn parse_u64(s: &str) -> (r: Option<u64>)
    ensures
        r == parsed_u64(s@),
{
    s.parse::<u64>().ok()
}

/// Whether `args` holds `--test` at position `i`.
pub open spec fn is_test_flag(args: Seq<Seq<char>>, i: int) -> bool {
    args[i] == "--test"@
}

/// The duration that the first `n` arguments set: that of the last `--test`
/// among them followed by a number, else the default.
pub open spec fn duration_set_by(args: Seq<Seq<char>>, n: int) -> u64
    decreases n,
{
    if n <= 0 {
        TEST_MODE_DEFAULT_DURATION_SECS
    } else if is_test_flag(args, n - 1) && n < args.len() && parsed_u64(args[n]) is Some {
        parsed_u64(args[n])->0
    } else {
        duration_set_by(args, n - 1)
    }
}

/// What the arguments `args` (the program's name first) ask for: test mode
/// when `--test` is among them, lasting the number that follows the last
/// `--test` followed by one.
pub open spec fn args_of(args: Seq<Seq<char>>) -> Args {
    Args {
        test_mode: exists|i: int| 0 <= i < args.len() && is_test_flag(args, i),
        test_duration_secs: duration_set_by(args, args.len() as int),
    }
}

/// While no later `--test` is followed by a number, the duration set by a
/// prefix that ends past `--test` at `i` is the number after it.
proof fn lemma_duration_from(args: Seq<Seq<char>>, i: int, m: int)
    requires
        0 <= i,
        i + 1 < args.len(),
        args[i] == "--test"@,
        parsed_u64(args[i + 1]) is Some,
        forall|j: int| i < j && j + 1 < args.len() && args[j] == "--test"@ ==> parsed_u64(#[trigger] args[j + 1]) is None,
        i + 1 <= m <= args.len(),
    ensures
        duration_set_by(args, m) == parsed_u64(args[i + 1])->0,
    decreases m,
{
    if m > i + 1 {
        if args[m - 1] == "--test"@ && m < args.len() {
            assert(parsed_u64(args[(m - 1) + 1]) is None);
        }
        lemma_duration_from(args, i, m - 1);
    }
}

/// With no `--test` followed by a number among its first `m` arguments, a
/// prefix sets the default duration.
proof fn lemma_duration_default(args: Seq<Seq<char>>, m: int)
    requires
        forall|j: int| 0 <= j && j + 1 < args.len() && args[j] == "--test"@ ==> parsed_u64(#[trigger] args[j + 1]) is None,
        0 <= m <= args.len(),
    ensures
        duration_set_by(args, m) == 60,
    decreases m,
{
    if m > 0 {
        if args[m - 1] == "--test"@ && m < args.len() {
            assert(parsed_u64(args[(m - 1) + 1]) is None);
        }
        lemma_duration_default(args, m - 1);
    }
}

/// The last `--test` that is followed by a number sets the test duration to
/// that number, and turns test mode on.
pub proof fn lemma_last_numbered_test_flag_sets_duration(args: Seq<Seq<char>>, i: int)
    requires
        0 <= i,
        i + 1 < args.len(),
        args[i] == "--test"@,
        parsed_u64(args[i + 1]) is Some,
        forall|j: int| i < j && j + 1 < args.len() && args[j] == "--test"@ ==> parsed_u64(#[trigger] args[j + 1]) is None,
    ensures
        args_of(args).test_mode,
        args_of(args).test_duration_secs == parsed_u64(args[i + 1])->0,
{
    lemma_duration_from(args, i, args.len() as int);
    assert(0 <= i < args.len() && is_test_flag(args, i));
}

/// Without a `--test` followed by a number, the test duration is the
/// default of sixty seconds.
pub proof fn lemma_no_numbered_test_flag_keeps_default(args: Seq<Seq<char>>)
    requires
        forall|j: int| 0 <= j && j + 1 < args.len() && args[j] == "--test"@ ==> parsed_u64(#[trigger] args[j + 1]) is None,
    ensures
        args_of(args).test_duration_secs == 60,
{
    lemma_duration_default(args, args.len() as int);
}

/// Test mode is on exactly when `--test` is among the arguments.
pub proof fn lemma_test_mode_iff_flag(args: Seq<Seq<char>>)
    ensures
        args_of(args).test_mode <==> args.contains("--test"@),
{
    if args.contains("--test"@) {
        let k = choose|k: int| 0 <= k < args.len() && args[k] == "--test"@;
        assert(is_test_flag(args, k));
    }
}

/// Reads the command line `args` (the program's name first).
pub fn parse_args(args: &Vec<String>) -> (a: Args)
    ensures
        a == args_of(texts(args@)),
        a.test_mode <==> texts(args@).contains("--test"@),
        forall|i: int|
            0 <= i && i + 1 < args.len() && texts(args@)[i] == "--test"@ && parsed_u64(#[trigger] texts(args@)[i + 1]) is Some
                && (forall|j: int| i < j && j + 1 < args.len() && texts(args@)[j] == "--test"@
                    ==> parsed_u64(#[trigger] texts(args@)[j + 1]) is None)
                ==> a.test_duration_secs == parsed_u64(texts(args@)[i + 1])->0,
        (forall|j: int| 0 <= j && j + 1 < args.len() && texts(args@)[j] == "--test"@
            ==> parsed_u64(#[trigger] texts(args@)[j + 1]) is None) ==> a.test_duration_secs == 60,
{
    let ghost all = texts(args@);
    let mut test_mode = false;
    let mut test_duration_secs = TEST_MODE_DEFAULT_DURATION_SECS;
    let flag = String::from_str("--test");
    let mut i: usize = 0;
    while i < args.len()
        invariant
            i <= args.len(),
            all == texts(args@),
            flag@ == "--test"@,
            test_mode == exists|j: int| 0 <= j < i && is_test_flag(all, j),
            test_duration_secs == duration_set_by(all, i as int),
        decreases args.len() - i,
    {
        assert(all[i as int] == args@[i as int]@);
        if args[i] == flag {
            test_mode = true;
            if i + 1 < args.len() {
                assert(all[i + 1] == args@[i + 1]@);
                match parse_u64(args[i + 1].as_str()) {
                    Some(secs) => {
                        test_duration_secs = secs;
                    },
                    None => {},
                }
            }
        }
        assert(test_mode == exists|j: int| 0 <= j < i + 1 && is_test_flag(all, j)) by {
            if is_test_flag(all, i as int) {
                assert(0 <= i < i + 1 && is_test_flag(all, i as int));
            }
        }
        i = i + 1;
    }
    proof {
        lemma_test_mode_iff_flag(all);
        assert forall|i: int|
            0 <= i && i + 1 < args.len() && all[i] == "--test"@ && parsed_u64(#[trigger] all[i + 1]) is Some
                && (forall|j: int| i < j && j + 1 < args.len() && all[j] == "--test"@
                    ==> parsed_u64(#[trigger] all[j + 1]) is None)
            implies test_duration_secs == parsed_u64(all[i + 1])->0 by {
            lemma_last_numbered_test_flag_sets_duration(all, i);
        }
        if forall|j: int| 0 <= j && j + 1 < args.len() && all[j] == "--test"@
            ==> parsed_u64(#[trigger] all[j + 1]) is None {
            lemma_no_numbered_test_flag_keeps_default(all);
        }
    }
    Args { test_mode, test_duration_secs }
}

} // verus!
