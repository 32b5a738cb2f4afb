//! Verified rendering of numbers and dates as text.
//!
//! The booking engine shows flight references and seat numbers to callers as
//! strings; the functions here build those strings and are proved to match
//! the spec-level rendering functions that the engine's contracts use.

use vstd::prelude::*;

verus! {

/// The decimal digit character for `d`, `0 <= d <= 9`.
pub open spec fn spec_digit(d: int) -> char {
    if d == 0 {
        '0'
    } else if d == 1 {
        '1'
    } else if d == 2 {
        '2'
    } else if d == 3 {
        '3'
    } else if d == 4 {
        '4'
    } else if d == 5 {
        '5'
    } else if d == 6 {
        '6'
    } else if d == 7 {
        '7'
    } else if d == 8 {
        '8'
    } else {
        '9'
    }
}

/// Decimal rendering of a non-negative number, no leading zeros.
pub open spec fn spec_udec(n: nat) -> Seq<char>
    decreases n,
{
    if n < 10 {
        seq![spec_digit(n as int)]
    } else {
        spec_udec(n / 10) + seq![spec_digit((n % 10) as int)]
    }
}

/// Decimal rendering of a signed number.
pub open spec fn spec_idec(n: int) -> Seq<char> {
    if n < 0 {
        seq!['-'] + spec_udec((-n) as nat)
    } else {
        spec_udec(n as nat)
    }
}

/// Two-digit zero-padded rendering, as in the day field of a date.
pub open spec fn spec_pad2(n: nat) -> Seq<char> {
    if n < 10 {
        seq!['0'] + spec_udec(n)
    } else {
        spec_udec(n)
    }
}

/// A date rendered as `year-month-day` with two-digit month and day.
pub open spec fn spec_date_str(d: crate::dates::Date) -> Seq<char> {
    spec_idec(d.year as int) + seq!['-'] + spec_pad2(d.month as nat) + seq!['-'] + spec_pad2(
        d.day as nat,
    )
}

/// The one-character string for a single decimal digit.
fn digit_str(d: u32) -> (s: &'static str)
    requires
        d < 10,
    ensures
        s@ =~= seq![spec_digit(d as int)],
{
    match d {
        0 => {
            proof {
                reveal_strlit("0");
            }
            "0"
        },
        1 => {
            proof {
                reveal_strlit("1");
            }
            "1"
        },
        2 => {
            proof {
                reveal_strlit("2");
            }
            "2"
        },
        3 => {
            proof {
                reveal_strlit("3");
            }
            "3"
        },
        4 => {
            proof {
                reveal_strlit("4");
            }
            "4"
        },
        5 => {
            proof {
                reveal_strlit("5");
            }
            "5"
        },
        6 => {
            proof {
                reveal_strlit("6");
            }
            "6"
        },
        7 => {
            proof {
                reveal_strlit("7");
            }
            "7"
        },
        8 => {
            proof {
                reveal_strlit("8");
            }
            "8"
        },
        _ => {
            proof {
                reveal_strlit("9");
            }
            "9"
        },
    }
}

/// The digit characters of `ds` read back-to-front.
spec fn rev_digits(ds: Seq<u32>) -> Seq<char> {
    Seq::new(ds.len(), |i: int| spec_digit(ds[ds.len() - 1 - i] as int))
}

/// Renders `n` in decimal.
pub fn u32_string(n: u32) -> (s: String)
    ensures
        s@ == spec_udec(n as nat),
{
    let mut digits: Vec<u32> = Vec::new();
    let mut m: u32 = n;
    while m >= 10
        invariant
            spec_udec(n as nat) =~= spec_udec(m as nat) + rev_digits(digits@),
            forall|k: int| 0 <= k < digits@.len() ==> #[trigger] digits@[k] < 10,
        decreases m,
    {
        let d: u32 = m % 10;
        proof {
            assert(rev_digits(digits@.push(d)) =~= seq![spec_digit(d as int)] + rev_digits(
                digits@,
            ));
            assert(spec_udec((m / 10) as nat) + (seq![spec_digit(d as int)] + rev_digits(digits@))
                =~= (spec_udec((m / 10) as nat) + seq![spec_digit(d as int)]) + rev_digits(
                digits@,
            ));
        }
        digits.push(d);
        m = m / 10;
    }
    let mut out: String = String::new();
    out.append(digit_str(m));
    let ghost all: Seq<char> = spec_udec(m as nat) + rev_digits(digits@);
    let mut k: usize = 0;
    while k < digits.len()
        invariant
            k <= digits.len(),
            all == spec_udec(n as nat),
            all =~= spec_udec(m as nat) + rev_digits(digits@),
            m < 10,
            forall|j: int| 0 <= j < digits@.len() ==> #[trigger] digits@[j] < 10,
            out@ =~= all.subrange(0, 1 + k as int),
        decreases digits.len() - k,
    {
        let idx: usize = digits.len() - 1 - k;
        out.append(digit_str(digits[idx]));
        k = k + 1;
    }
    proof {
        assert(out@ =~= all);
    }
    out
}

/// Renders `n` in decimal, with a leading minus sign when negative.
pub fn i32_string(n: i32) -> (s: String)
    ensures
        s@ == spec_idec(n as int),
{
    if n >= 0 {
        u32_string(n as u32)
    } else {
        let mag: u32 = (-(n as i64)) as u32;
        proof {
            reveal_strlit("-");
        }
        let mut out: String = "-".to_owned();
        let tail: String = u32_string(mag);
        out.append(tail.as_str());
        proof {
            assert(out@ =~= seq!['-'] + spec_udec((-(n as int)) as nat));
        }
        out
    }
}

/// Renders `n` zero-padded to at least two digits.
pub fn pad2_string(n: u32) -> (s: String)
    ensures
        s@ == spec_pad2(n as nat),
{
    if n < 10 {
        proof {
            reveal_strlit("0");
        }
        let mut out: String = "0".to_owned();
        out.append(digit_str(n));
        proof {
            assert(out@ =~= seq!['0'] + spec_udec(n as nat));
        }
        out
    } else {
        u32_string(n)
    }
}

/// Renders a date as `year-month-day`.
pub fn date_string(d: &crate::dates::Date) -> (s: String)
    ensures
        s@ == spec_date_str(*d),
{
    proof {
        reveal_strlit("-");
    }
    let mut out: String = i32_string(d.year);
    out.append("-");
    let mm: String = pad2_string(d.month);
    out.append(mm.as_str());
    out.append("-");
    let dd: String = pad2_string(d.day);
    out.append(dd.as_str());
    proof {
        assert(out@ =~= spec_date_str(*d));
    }
    out
}

} // verus!
