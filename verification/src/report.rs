//! The report on the results, as text.

use crate::calculator::Results;
use vstd::prelude::*;
use vstd::string::StringExecFns;

verus! {

/// The character of a decimal digit.
pub open spec fn digit(d: nat) -> char {
    if d == 0 {
        '0'
    } else if d == 1 {
        '1'
    } else if d == 2 {
        '2'
    } else if d == 3 {
        '3'
    } else if d == 4 {
        '4'
    } else if d == 5 {
        '5'
    } else if d == 6 {
        '6'
    } else if d == 7 {
        '7'
    } else if d == 8 {
        '8'
    } else {
        '9'
    }
}

/// The decimal numeral of `n`: its digits from the highest to the lowest,
/// with no zero in front but for zero itself.
pub open spec fn decimal(n: nat) -> Seq<char>
    decreases n,
{
    if n < 10 {
        seq![digit(n)]
    } else {
        decimal(n / 10).push(digit(n % 10))
    }
}

/// The digit that a character stands for; zero for any other character.
pub open spec fn digit_value(c: char) -> nat {
    if c == '1' {
        1
    } else if c == '2' {
        2
    } else if c == '3' {
        3
    } else if c == '4' {
        4
    } else if c == '5' {
        5
    } else if c == '6' {
        6
    } else if c == '7' {
        7
    } else if c == '8' {
        8
    } else if c == '9' {
        9
    } else {
        0
    }
}

/// The number that a row of digits stands for, each place worth ten of the
/// next.
pub open spec fn numeral_value(digits: Seq<char>) -> nat
    decreases digits.len(),
{
    if digits.len() == 0 {
        0
    } else {
        10 * numeral_value(digits.drop_last()) + digit_value(digits.last())
    }
}

/// The decimal numeral of a number stands for that number, and begins with a
/// zero for zero alone.
pub proof fn lemma_decimal_stands_for_its_number(n: nat)
    ensures
        numeral_value(decimal(n)) == n,
        decimal(n).len() >= 1,
        decimal(n)[0] == '0' <==> n == 0,
    decreases n,
{
    if n < 10 {
        assert(decimal(n).drop_last() =~= Seq::<char>::empty());
        assert(numeral_value(decimal(n)) == n) by {
            reveal_with_fuel(numeral_value, 2);
        }
    } else {
        let front = decimal(n / 10);
        lemma_decimal_stands_for_its_number(n / 10);
        assert(decimal(n).drop_last() =~= front);
        assert(decimal(n)[0] == front[0]);
    }
}

/// The text of the report. Without a mean it is one line that says so.
/// With one it is three lines: the mean, in the text given for it, then the
/// count below and the count above. Every line ends in a line break.
pub open spec fn report_text(results: Results, mean_text: Seq<char>) -> Seq<char> {
    if results.mean.is_undefined() {
        "No measurements provided.\n"@
    } else {
        "Mean rainfall: "@ + mean_text + " cm\n"@ + "Below count:   "@ + decimal(
            results.below as nat,
        ) + "\n"@ + "Above count:   "@ + decimal(results.above as nat) + "\n"@
    }
}

fn digit_text(d: usize) -> (r: &'static str)
    requires
        d < 10,
    ensures
        r@ == seq![digit(d as nat)],
{
    proof {
        reveal_strlit("0");
        reveal_strlit("1");
        reveal_strlit("2");
        reveal_strlit("3");
        reveal_strlit("4");
        reveal_strlit("5");
        reveal_strlit("6");
        reveal_strlit("7");
        reveal_strlit("8");
        reveal_strlit("9");
    }
    let r = if d == 0 {
        "0"
    } else if d == 1 {
        "1"
    } else if d == 2 {
        "2"
    } else if d == 3 {
        "3"
    } else if d == 4 {
        "4"
    } else if d == 5 {
        "5"
    } else if d == 6 {
        "6"
    } else if d == 7 {
        "7"
    } else if d == 8 {
        "8"
    } else {
        "9"
    };
    assert(r@ =~= seq![digit(d as nat)]);
    r
}

/// Appends the decimal numeral of `n` to `out`.
pub fn write_decimal(out: &mut String, n: usize)
    ensures
        final(out)@ == old(out)@ + decimal(n as nat),
    decreases n,
{
    if n >= 10 {
        write_decimal(out, n / 10);
    }
    out.append(digit_text(n % 10));
    assert(out@ =~= old(out)@ + decimal(n as nat));
}

/// Appends the report on `results` to `out`. `mean_text` is the mean written
/// out as a decimal number; it is not looked at where there is no mean.
pub fn write_output(out: &mut String, results: &Results, mean_text: &str)
    ensures
        final(out)@ == old(out)@ + report_text(*results, mean_text@),
{
    if results.mean.is_undefined() {
        out.append("No measurements provided.\n");
    } else {
        out.append("Mean rainfall: ");
        out.append(mean_text);
        out.append(" cm\n");
        out.append("Below count:   ");
        write_decimal(out, results.below);
        out.append("\n");
        out.append("Above count:   ");
        write_decimal(out, results.above);
        out.append("\n");
        assert(out@ =~= old(out)@ + report_text(*results, mean_text@));
    }
}

} // verus!
