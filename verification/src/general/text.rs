//! Decimal text of an integer, for the messages that the error values carry.
use crate::general::numbers::magnitude;
use crate::number_theory::divisibility::lemma_truncated_division;
use vstd::prelude::*;
use vstd::string::StringExecFns;

verus! {

/// The character of one decimal digit.
pub open spec fn digit_char(d: int) -> char {
    if d == 0 {
        '0'
    } else if d == 1 {
        '1'
    } else if d == 2 {
        '2'
    } else if d == 3 {
        '3'
    } else if d == 4 {
        '4'
    } else if d == 5 {
        '5'
    } else if d == 6 {
        '6'
    } else if d == 7 {
        '7'
    } else if d == 8 {
        '8'
    } else {
        '9'
    }
}

/// The decimal digits of a natural number, most significant first, without
/// leading zeros; zero is the single digit `0`.
pub open spec fn digits_of(n: int) -> Seq<char>
    decreases n,
{
    if n < 10 {
        seq![digit_char(n)]
    } else {
        digits_of(n / 10).push(digit_char(n % 10))
    }
}

/// The decimal text of an integer: its digits, after a minus sign when it is
/// negative.
pub open spec fn decimal(n: int) -> Seq<char> {
    if n < 0 {
        seq!['-'] + digits_of(-n)
    } else {
        digits_of(n)
    }
}

/// The text of one digit.
fn digit_text(d: i128) -> (t: &'static str)
    requires
        0 <= d <= 9,
    ensures
        t@ == seq![digit_char(d as int)],
{
    proof {
        reveal_strlit("0");
        reveal_strlit("1");
        reveal_strlit("2");
        reveal_strlit("3");
        reveal_strlit("4");
        reveal_strlit("5");
        reveal_strlit("6");
        reveal_strlit("7");
        reveal_strlit("8");
        reveal_strlit("9");
    }
    let t = if d == 0 {
        "0"
    } else if d == 1 {
        "1"
    } else if d == 2 {
        "2"
    } else if d == 3 {
        "3"
    } else if d == 4 {
        "4"
    } else if d == 5 {
        "5"
    } else if d == 6 {
        "6"
    } else if d == 7 {
        "7"
    } else if d == 8 {
        "8"
    } else {
        "9"
    };
    assert(t@ =~= seq![digit_char(d as int)]);
    t
}

/// Appends the digits of the magnitude of `v` to `text`.
fn append_digits(text: &mut String, v: i128)
    ensures
        final(text)@ == old(text)@ + digits_of(magnitude(v as int)),
    decreases magnitude(v as int),
{
    proof {
        lemma_truncated_division(v as int, 10);
    }
    let q = v / 10;
    let r = v % 10;
    if q != 0 {
        append_digits(text, q);
    }
    let d = if r < 0 {
        -r
    } else {
        r
    };
    let ghost before = text@;
    text.append(digit_text(d));
    proof {
        let m = magnitude(v as int);
        if q == 0 {
            assert(text@ =~= old(text)@ + digits_of(m));
        } else {
            assert(text@ =~= old(text)@ + digits_of(m / 10).push(digit_char(m % 10)));
        }
    }
}

/// Appends the decimal text of `v` to `text`.
pub fn append_decimal(text: &mut String, v: i128)
    ensures
        final(text)@ == old(text)@ + decimal(v as int),
{
    if v < 0 {
        proof {
            reveal_strlit("-");
        }
        text.append("-");
        assert(text@ =~= old(text)@ + seq!['-']);
    }
    append_digits(text, v);
    assert(text@ =~= old(text)@ + decimal(v as int));
}

} // verus!
