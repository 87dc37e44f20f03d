use vstd::prelude::*;
use vstd::string::*;

verus! {

/// Relies on `str`'s `PartialEq`: two string slices compare equal exactly
/// when they consist of the same characters.
#[verifier::external_body]
pub(crate) fn str_eq(a: &str, b: &str) -> (r: bool)
    ensures
        r == (a@ == b@),
{
    a == b
}

/// The character for a single decimal digit.
pub open spec fn digit_char(d: int) -> char {
    if d == 0 {
        '0'
    } else if d == 1 {
        '1'
    } else if d == 2 {
        '2'
    } else if d == 3 {
        '3'
    } else if d == 4 {
        '4'
    } else if d == 5 {
        '5'
    } else if d == 6 {
        '6'
    } else if d == 7 {
        '7'
    } else if d == 8 {
        '8'
    } else {
        '9'
    }
}

/// The decimal rendering of a non-negative integer, without a sign.
pub open spec fn decimal_nat(n: int) -> Seq<char>
    decreases n,
{
    if n < 10 {
        seq![digit_char(n)]
    } else {
        decimal_nat(n / 10).push(digit_char(n % 10))
    }
}

/// The decimal rendering of an integer, with a leading `-` when negative.
pub open spec fn decimal_int(n: int) -> Seq<char> {
    if n < 0 {
        seq!['-'] + decimal_nat(-n)
    } else {
        decimal_nat(n)
    }
}

/// Appends the character for one decimal digit to a string.
fn append_digit(s: &mut String, d: u8)
    requires
        d < 10,
    ensures
        final(s)@ == old(s)@ + seq![digit_char(d as int)],
{
    if d == 0 {
        proof {
            reveal_strlit("0");
        }
        s.append("0");
    } else if d == 1 {
        proof {
            reveal_strlit("1");
        }
        s.append("1");
    } else if d == 2 {
        proof {
            reveal_strlit("2");
        }
        s.append("2");
    } else if d == 3 {
        proof {
            reveal_strlit("3");
        }
        s.append("3");
    } else if d == 4 {
        proof {
            reveal_strlit("4");
        }
        s.append("4");
    } else if d == 5 {
        proof {
            reveal_strlit("5");
        }
        s.append("5");
    } else if d == 6 {
        proof {
            reveal_strlit("6");
        }
        s.append("6");
    } else if d == 7 {
        proof {
            reveal_strlit("7");
        }
        s.append("7");
    } else if d == 8 {
        proof {
            reveal_strlit("8");
        }
        s.append("8");
    } else {
        proof {
            reveal_strlit("9");
        }
        s.append("9");
    }
    proof {
        assert(s@ =~= old(s)@ + seq![digit_char(d as int)]);
    }
}

/// Appends the decimal rendering of a magnitude below 1000.
fn append_magnitude(s: &mut String, m: u16)
    requires
        m < 1000,
    ensures
        final(s)@ == old(s)@ + decimal_nat(m as int),
{
    let h: u8 = (m / 100) as u8;
    let t: u8 = ((m / 10) % 10) as u8;
    let o: u8 = (m % 10) as u8;
    if m >= 100 {
        append_digit(s, h);
        append_digit(s, t);
        append_digit(s, o);
        proof {
            assert(decimal_nat(m as int) == decimal_nat(m as int / 10).push(
                digit_char(m as int % 10),
            ));
            assert(decimal_nat(m as int / 10) == decimal_nat(m as int / 10 / 10).push(
                digit_char(m as int / 10 % 10),
            ));
            assert(m as int / 10 / 10 == m as int / 100);
            assert(s@ =~= old(s)@ + decimal_nat(m as int));
        }
    } else if m >= 10 {
        append_digit(s, t);
        append_digit(s, o);
        proof {
            assert(decimal_nat(m as int) == decimal_nat(m as int / 10).push(
                digit_char(m as int % 10),
            ));
            assert(s@ =~= old(s)@ + decimal_nat(m as int));
        }
    } else {
        append_digit(s, o);
        proof {
            assert(s@ =~= old(s)@ + decimal_nat(m as int));
        }
    }
}

/// The decimal rendering of an `i8`, as a fresh string.
pub fn i8_to_string(n: i8) -> (s: String)
    ensures
        s@ == decimal_int(n as int),
{
    let mut s = String::new();
    append_i8(&mut s, n);
    proof {
        assert(s@ =~= decimal_int(n as int));
    }
    s
}

/// Appends the decimal rendering of an `i8` to a string.
pub fn append_i8(s: &mut String, n: i8)
    ensures
        final(s)@ == old(s)@ + decimal_int(n as int),
{
    if n < 0 {
        proof {
            reveal_strlit("-");
        }
        s.append("-");
        let m: u16 = (-(n as i16)) as u16;
        append_magnitude(s, m);
        proof {
            assert(s@ =~= old(s)@ + decimal_int(n as int));
        }
    } else {
        append_magnitude(s, n as u16);
        proof {
            assert(s@ =~= old(s)@ + decimal_int(n as int));
        }
    }
}

} // verus!
