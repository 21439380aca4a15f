use vstd::prelude::*;

verus! {

/// The character for one decimal digit value.
pub open spec fn digit_char(d: int) -> char {
    if d == 0 {
        '0'
    } else if d == 1 {
        '1'
    } else if d == 2 {
        '2'
    } else if d == 3 {
        '3'
    } else if d == 4 {
        '4'
    } else if d == 5 {
        '5'
    } else if d == 6 {
        '6'
    } else if d == 7 {
        '7'
    } else if d == 8 {
        '8'
    } else {
        '9'
    }
}

/// Decimal digit characters of a non-negative number, most significant
/// first, with no leading zeros (a lone zero for 0).
pub open spec fn dec_chars(n: nat) -> Seq<char>
    decreases n,
{
    if n < 10 {
        seq![digit_char(n as int)]
    } else {
        dec_chars(n / 10) + seq![digit_char((n % 10) as int)]
    }
}

/// An amount of cents written with two decimals: the whole euros, a dot,
/// and exactly two fraction digits, with a leading minus for a negative
/// amount.
pub open spec fn amount_chars(c: int) -> Seq<char> {
    if c < 0 {
        seq!['-'] + magnitude_chars((-c) as nat)
    } else {
        magnitude_chars(c as nat)
    }
}

/// `dec_chars` of the euros, then `'.'`, then the two cent digits.
pub open spec fn magnitude_chars(n: nat) -> Seq<char> {
    dec_chars(n / 100) + seq!['.', digit_char(((n % 100) / 10) as int), digit_char(
        (n % 10) as int,
    )]
}

/// Append the character of one digit value.
fn append_digit(d: u128, out: &mut String)
    requires
        d < 10,
    ensures
        final(out)@ == old(out)@ + seq![digit_char(d as int)],
{
    let s: &str = if d == 0 {
        "0"
    } else if d == 1 {
        "1"
    } else if d == 2 {
        "2"
    } else if d == 3 {
        "3"
    } else if d == 4 {
        "4"
    } else if d == 5 {
        "5"
    } else if d == 6 {
        "6"
    } else if d == 7 {
        "7"
    } else if d == 8 {
        "8"
    } else {
        "9"
    };
    proof {
        reveal_strlit("0");
        reveal_strlit("1");
        reveal_strlit("2");
        reveal_strlit("3");
        reveal_strlit("4");
        reveal_strlit("5");
        reveal_strlit("6");
        reveal_strlit("7");
        reveal_strlit("8");
        reveal_strlit("9");
        assert(s@ =~= seq![digit_char(d as int)]);
    }
    out.append(s);
}

/// Append the decimal digits of a non-negative number.
fn append_dec(n: u128, out: &mut String)
    ensures
        final(out)@ == old(out)@ + dec_chars(n as nat),
    decreases n,
{
    if n >= 10 {
        append_dec(n / 10, out);
    }
    append_digit(n % 10, out);
    proof {
        if n < 10 {
            assert(old(out)@ + seq![digit_char((n % 10) as int)] =~= old(out)@ + dec_chars(
                n as nat,
            ));
        } else {
            assert(old(out)@ + dec_chars((n / 10) as nat) + seq![digit_char((n % 10) as int)]
                =~= old(out)@ + dec_chars(n as nat));
        }
    }
}

/// Write an amount of euro cents with two decimals, as the summary prints
/// it: `1550` becomes `15.50`, `-7` becomes `-0.07`.
pub fn format_amount(cents: i128) -> (s: String)
    ensures
        s@ == amount_chars(cents as int),
{
    let mut out = String::new();
    let mag: u128;
    if cents < 0 {
        proof {
            reveal_strlit("-");
            assert("-"@ =~= seq!['-']);
        }
        out.append("-");
        mag = ((-(cents + 1)) as u128) + 1;
        proof {
            assert(mag == (-(cents as int)) as nat);
        }
    } else {
        mag = cents as u128;
    }
    append_dec(mag / 100, &mut out);
    proof {
        reveal_strlit(".");
        assert("."@ =~= seq!['.']);
    }
    out.append(".");
    append_digit((mag % 100) / 10, &mut out);
    append_digit(mag % 10, &mut out);
    proof {
        if cents < 0 {
            assert(out@ =~= seq!['-'] + magnitude_chars((-(cents as int)) as nat));
        } else {
            assert(out@ =~= magnitude_chars(cents as nat));
        }
    }
    out
}

} // verus!
