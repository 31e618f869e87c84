//! The summary of how an analysis ran.
//!
//! The summary has four lines: the commits processed and the time it took,
//! the commits per second, the chunk size, and the number of parallel tasks:
//!
//! ```text
//! Processed 120 commits in 1.50s
//! Commits/sec: 80.0
//! Chunk size: 100
//! Parallel tasks: 3
//! ```
//!
//! The time is cut to hundredths of a second, the rate to tenths of a commit
//! per second.

use vstd::prelude::*;
use vstd::string::*;

verus! {

/// The text of one decimal digit.
pub open spec fn digit_text(digit: nat) -> Seq<char> {
    if digit == 0 {
        "0"@
    } else if digit == 1 {
        "1"@
    } else if digit == 2 {
        "2"@
    } else if digit == 3 {
        "3"@
    } else if digit == 4 {
        "4"@
    } else if digit == 5 {
        "5"@
    } else if digit == 6 {
        "6"@
    } else if digit == 7 {
        "7"@
    } else if digit == 8 {
        "8"@
    } else {
        "9"@
    }
}

/// A number in decimal digits, without leading zeros.
pub open spec fn decimal_text(number: nat) -> Seq<char>
    decreases number,
{
    if number < 10 {
        digit_text(number)
    } else {
        decimal_text(number / 10) + digit_text(number % 10)
    }
}

/// A number below a hundred in two decimal digits.
pub open spec fn two_digit_text(number: nat) -> Seq<char> {
    digit_text(number / 10) + digit_text(number % 10)
}

/// The text of one decimal digit.
fn digit(value: u128) -> (text: &'static str)
    requires
        value < 10,
    ensures
        text@ == digit_text(value as nat),
{
    if value == 0 {
        "0"
    } else if value == 1 {
        "1"
    } else if value == 2 {
        "2"
    } else if value == 3 {
        "3"
    } else if value == 4 {
        "4"
    } else if value == 5 {
        "5"
    } else if value == 6 {
        "6"
    } else if value == 7 {
        "7"
    } else if value == 8 {
        "8"
    } else {
        "9"
    }
}

/// Writes a number in decimal digits behind `text`.
pub fn append_decimal(text: &mut String, number: u128)
    ensures
        final(text)@ == old(text)@ + decimal_text(number as nat),
    decreases number,
{
    if number >= 10 {
        append_decimal(text, number / 10);
    }
    let ghost before = text@;
    text.append(digit(number % 10));
    proof {
        if number >= 10 {
            assert(before + digit_text((number % 10) as nat) =~= old(text)@ + (decimal_text(
                (number / 10) as nat,
            ) + digit_text((number % 10) as nat)));
        }
    }
}

/// A number in decimal digits.
pub fn decimal(number: u128) -> (text: String)
    ensures
        text@ == decimal_text(number as nat),
{
    let mut text = String::new();
    append_decimal(&mut text, number);
    assert(Seq::<char>::empty() + decimal_text(number as nat) =~= decimal_text(number as nat));
    text
}

/// The time to reckon the rate with: at least one millisecond.
pub open spec fn rate_millis(elapsed: nat) -> nat {
    if elapsed == 0 {
        1
    } else {
        elapsed
    }
}

/// The commits per second, in tenths, of `commits` commits in `elapsed`
/// milliseconds.
pub open spec fn rate_in_tenths(commits: nat, elapsed: nat) -> nat {
    commits * 10000 / rate_millis(elapsed)
}

/// The summary of an analysis of `commits` commits that took `elapsed`
/// milliseconds with chunks of `chunk_size` commits and `tasks` parallel
/// tasks.
pub open spec fn summary_of_run(commits: nat, elapsed: nat, chunk_size: nat, tasks: nat) -> Seq<
    char,
> {
    "Processed "@ + decimal_text(commits) + " commits in "@ + decimal_text(elapsed / 1000) + "."@
        + two_digit_text((elapsed % 1000) / 10) + "s\nCommits/sec: "@ + decimal_text(
        rate_in_tenths(commits, elapsed) / 10,
    ) + "."@ + digit_text(rate_in_tenths(commits, elapsed) % 10) + "\nChunk size: "@
        + decimal_text(chunk_size) + "\nParallel tasks: "@ + decimal_text(tasks)
}

/// The summary of an analysis of `commits` commits that took `elapsed`
/// milliseconds.
pub fn processing_summary(commits: usize, elapsed: u64, chunk_size: usize, tasks: usize) -> (text:
    String)
    ensures
        text@ == summary_of_run(commits as nat, elapsed as nat, chunk_size as nat, tasks as nat),
{
    let millis: u128 = if elapsed == 0 {
        1
    } else {
        elapsed as u128
    };
    assert(commits * 10000 <= u128::MAX) by (nonlinear_arith)
        requires
            commits <= u64::MAX,
    ;
    let tenths: u128 = commits as u128 * 10000 / millis;
    let hundredths: u128 = ((elapsed % 1000) / 10) as u128;
    let mut text = String::new();
    text.append("Processed ");
    append_decimal(&mut text, commits as u128);
    text.append(" commits in ");
    append_decimal(&mut text, (elapsed / 1000) as u128);
    text.append(".");
    text.append(digit(hundredths / 10));
    text.append(digit(hundredths % 10));
    text.append("s\nCommits/sec: ");
    append_decimal(&mut text, tenths / 10);
    text.append(".");
    text.append(digit(tenths % 10));
    text.append("\nChunk size: ");
    append_decimal(&mut text, chunk_size as u128);
    text.append("\nParallel tasks: ");
    append_decimal(&mut text, tasks as u128);
    assert(text@ =~= summary_of_run(
        commits as nat,
        elapsed as nat,
        chunk_size as nat,
        tasks as nat,
    ));
    text
}

} // verus!
