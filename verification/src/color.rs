//! Textual form of packed `0xRRGGBBAA` color values.

use vstd::prelude::*;
use vstd::string::StringExecFns;

verus! {

/// The uppercase hexadecimal digit for `d`.
pub open spec fn hex_digit(d: u32) -> char {
    if d == 0 {
        '0'
    } else if d == 1 {
        '1'
    } else if d == 2 {
        '2'
    } else if d == 3 {
        '3'
    } else if d == 4 {
        '4'
    } else if d == 5 {
        '5'
    } else if d == 6 {
        '6'
    } else if d == 7 {
        '7'
    } else if d == 8 {
        '8'
    } else if d == 9 {
        '9'
    } else if d == 10 {
        'A'
    } else if d == 11 {
        'B'
    } else if d == 12 {
        'C'
    } else if d == 13 {
        'D'
    } else if d == 14 {
        'E'
    } else {
        'F'
    }
}

/// The uppercase hexadecimal digits of `x`, most significant first, without
/// leading zeros (zero itself is the single digit `0`).
pub open spec fn hex_digits(x: u32) -> Seq<char>
    decreases x,
{
    if x < 16 {
        seq![hex_digit(x)]
    } else {
        hex_digits(x / 16).push(hex_digit(x % 16))
    }
}

/// The text form of `x`: `0x` followed by its uppercase hexadecimal digits.
pub open spec fn hex_text(x: u32) -> Seq<char> {
    seq!['0', 'x'] + hex_digits(x)
}

/// The one-character string for the hexadecimal digit `d`.
fn hex_digit_str(d: u32) -> (s: &'static str)
    requires
        d < 16,
    ensures
        s@ == seq![hex_digit(d)],
{
    if d == 0 {
        proof {
            reveal_strlit("0");
            assert("0"@ =~= seq![hex_digit(d)]);
        }
        "0"
    } else if d == 1 {
        proof {
            reveal_strlit("1");
            assert("1"@ =~= seq![hex_digit(d)]);
        }
        "1"
    } else if d == 2 {
        proof {
            reveal_strlit("2");
            assert("2"@ =~= seq![hex_digit(d)]);
        }
        "2"
    } else if d == 3 {
        proof {
            reveal_strlit("3");
            assert("3"@ =~= seq![hex_digit(d)]);
        }
        "3"
    } else if d == 4 {
        proof {
            reveal_strlit("4");
            assert("4"@ =~= seq![hex_digit(d)]);
        }
        "4"
    } else if d == 5 {
        proof {
            reveal_strlit("5");
            assert("5"@ =~= seq![hex_digit(d)]);
        }
        "5"
    } else if d == 6 {
        proof {
            reveal_strlit("6");
            assert("6"@ =~= seq![hex_digit(d)]);
        }
        "6"
    } else if d == 7 {
        proof {
            reveal_strlit("7");
            assert("7"@ =~= seq![hex_digit(d)]);
        }
        "7"
    } else if d == 8 {
        proof {
            reveal_strlit("8");
            assert("8"@ =~= seq![hex_digit(d)]);
        }
        "8"
    } else if d == 9 {
        proof {
            reveal_strlit("9");
            assert("9"@ =~= seq![hex_digit(d)]);
        }
        "9"
    } else if d == 10 {
        proof {
            reveal_strlit("A");
            assert("A"@ =~= seq![hex_digit(d)]);
        }
        "A"
    } else if d == 11 {
        proof {
            reveal_strlit("B");
            assert("B"@ =~= seq![hex_digit(d)]);
        }
        "B"
    } else if d == 12 {
        proof {
            reveal_strlit("C");
            assert("C"@ =~= seq![hex_digit(d)]);
        }
        "C"
    } else if d == 13 {
        proof {
            reveal_strlit("D");
            assert("D"@ =~= seq![hex_digit(d)]);
        }
        "D"
    } else if d == 14 {
        proof {
            reveal_strlit("E");
            assert("E"@ =~= seq![hex_digit(d)]);
        }
        "E"
    } else {
        proof {
            reveal_strlit("F");
            assert("F"@ =~= seq![hex_digit(d)]);
        }
        "F"
    }
}

/// Appends the uppercase hexadecimal digits of `x` to `out`.
fn push_hex_digits(x: u32, out: &mut String)
    ensures
        final(out)@ == old(out)@ + hex_digits(x),
    decreases x,
{
    if x < 16 {
        out.append(hex_digit_str(x));
        proof {
            assert(old(out)@ + seq![hex_digit(x)] =~= old(out)@ + hex_digits(x));
        }
    } else {
        push_hex_digits(x / 16, out);
        out.append(hex_digit_str(x % 16));
        proof {
            assert((old(out)@ + hex_digits(x / 16)) + seq![hex_digit(x % 16)] =~= old(out)@
                + hex_digits(x));
        }
    }
}

/// Converts a packed hexadecimal color value to text, as `0x` followed by
/// its uppercase hexadecimal digits without leading zeros.
pub fn hex_to_string(hex: u32) -> (s: String)
    ensures
        s@ == hex_text(hex),
{
    let mut s = String::from_str("0x");
    proof {
        reveal_strlit("0x");
        assert(s@ =~= seq!['0', 'x']);
    }
    push_hex_digits(hex, &mut s);
    s
}

} // verus!
