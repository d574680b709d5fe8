//! Readable labels for times.

use crate::stats_type::StatsType;
use vstd::prelude::*;
use vstd::string::*;

verus! {

/// The character that shows the digit `d`.
pub open spec fn digit(d: nat) -> char {
    if d == 0 {
        '0'
    } else if d == 1 {
        '1'
    } else if d == 2 {
        '2'
    } else if d == 3 {
        '3'
    } else if d == 4 {
        '4'
    } else if d == 5 {
        '5'
    } else if d == 6 {
        '6'
    } else if d == 7 {
        '7'
    } else if d == 8 {
        '8'
    } else {
        '9'
    }
}

/// The decimal digits of `n`, without leading zeros.
pub open spec fn decimal(n: nat) -> Seq<char>
    decreases n,
{
    if n < 10 {
        seq![digit(n)]
    } else {
        decimal(n / 10).push(digit(n % 10))
    }
}

/// The last two decimal digits of `n`.
pub open spec fn two_digits(n: nat) -> Seq<char> {
    seq![digit(n / 10 % 10), digit(n % 10)]
}

/// The last three decimal digits of `n`.
pub open spec fn three_digits(n: nat) -> Seq<char> {
    seq![digit(n / 100 % 10), digit(n / 10 % 10), digit(n % 10)]
}

/// A time in milliseconds as text: seconds with three decimals, and whole
/// minutes in front of them once there is at least one, as in `9.870` and
/// `1:02.345`.
pub open spec fn readable_text(ms: nat) -> Seq<char> {
    let minutes = ms / 60000;
    let seconds = ms / 1000 % 60;
    let millis = ms % 1000;
    if minutes > 0 {
        decimal(minutes) + seq![':'] + two_digits(seconds) + seq!['.'] + three_digits(millis)
    } else {
        decimal(seconds) + seq!['.'] + three_digits(millis)
    }
}

/// The short name of a kind of statistic: `single`, `mean`, `avg`, and for
/// a window its size after `ao`, or after `mo` when nothing is trimmed.
pub open spec fn kind_text(kind: StatsType) -> Seq<char> {
    match kind {
        StatsType::Single => "single"@,
        StatsType::AverageOfN(window, trim) => if trim == 0 {
            "mo"@ + decimal(window as nat)
        } else {
            "ao"@ + decimal(window as nat)
        },
        StatsType::CumulativeMean => "mean"@,
        StatsType::CumulativeAverage => "avg"@,
    }
}

fn push_digit(text: &mut String, d: u64)
    requires
        d < 10,
    ensures
        final(text)@ == old(text)@.push(digit(d as nat)),
{
    proof {
        reveal_strlit("0");
        reveal_strlit("1");
        reveal_strlit("2");
        reveal_strlit("3");
        reveal_strlit("4");
        reveal_strlit("5");
        reveal_strlit("6");
        reveal_strlit("7");
        reveal_strlit("8");
        reveal_strlit("9");
    }
    let shown = if d == 0 {
        "0"
    } else if d == 1 {
        "1"
    } else if d == 2 {
        "2"
    } else if d == 3 {
        "3"
    } else if d == 4 {
        "4"
    } else if d == 5 {
        "5"
    } else if d == 6 {
        "6"
    } else if d == 7 {
        "7"
    } else if d == 8 {
        "8"
    } else {
        "9"
    };
    assert(shown@ =~= seq![digit(d as nat)]);
    text.append(shown);
    assert(text@ =~= old(text)@.push(digit(d as nat)));
}

fn push_mark(text: &mut String, colon: bool)
    ensures
        final(text)@ == old(text)@.push(
            if colon {
                ':'
            } else {
                '.'
            },
        ),
{
    proof {
        reveal_strlit(":");
        reveal_strlit(".");
    }
    let shown = if colon {
        ":"
    } else {
        "."
    };
    assert(shown@ =~= seq![if colon {
        ':'
    } else {
        '.'
    }]);
    text.append(shown);
    assert(text@ =~= old(text)@.push(if colon {
        ':'
    } else {
        '.'
    }));
}

fn push_decimal(text: &mut String, n: u64)
    ensures
        final(text)@ == old(text)@ + decimal(n as nat),
    decreases n,
{
    if n >= 10 {
        push_decimal(text, n / 10);
    }
    push_digit(text, n % 10);
    assert(text@ =~= old(text)@ + decimal(n as nat));
}

/// Writes a time in milliseconds as text.
pub fn readable(ms: u64) -> (label: String)
    ensures
        label@ == readable_text(ms as nat),
{
    let minutes = ms / 60000;
    let seconds = ms / 1000 % 60;
    let millis = ms % 1000;
    let mut label = String::new();
    if minutes > 0 {
        push_decimal(&mut label, minutes);
        push_mark(&mut label, true);
        push_digit(&mut label, seconds / 10 % 10);
        push_digit(&mut label, seconds % 10);
    } else {
        push_decimal(&mut label, seconds);
    }
    push_mark(&mut label, false);
    push_digit(&mut label, millis / 100 % 10);
    push_digit(&mut label, millis / 10 % 10);
    push_digit(&mut label, millis % 10);
    assert(label@ =~= readable_text(ms as nat));
    label
}

/// Writes the short name of a kind of statistic.
pub fn kind_label(kind: &StatsType) -> (label: String)
    ensures
        label@ == kind_text(*kind),
{
    match kind {
        StatsType::Single => String::from_str("single"),
        StatsType::AverageOfN(window, trim) => {
            let mut label = if *trim == 0 {
                String::from_str("mo")
            } else {
                String::from_str("ao")
            };
            push_decimal(&mut label, *window as u64);
            label
        },
        StatsType::CumulativeMean => String::from_str("mean"),
        StatsType::CumulativeAverage => String::from_str("avg"),
    }
}

} // verus!
