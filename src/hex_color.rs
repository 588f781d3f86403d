//! Colours written as `#RRGGBB`, two hexadecimal digits per channel.
use vstd::prelude::*;

use crate::resp::ParseError;

verus! {

#[verifier::external_type_specification]
#[verifier::external_body]
pub struct ExParseIntError(std::num::ParseIntError);

#[derive(Debug, PartialEq, Eq)]
pub struct Color {
    pub red: u8,
    pub green: u8,
    pub blue: u8,
}

pub open spec fn is_hex_char(c: char) -> bool {
    ('0' <= c <= '9') || ('a' <= c <= 'f') || ('A' <= c <= 'F')
}

pub open spec fn all_hex(s: Seq<char>) -> bool {
    forall|i: int| 0 <= i < s.len() ==> is_hex_char(#[trigger] s[i])
}

pub open spec fn hex_char_value(c: char) -> nat {
    if '0' <= c <= '9' {
        (c as u32 - '0' as u32) as nat
    } else if 'a' <= c <= 'f' {
        (c as u32 - 'a' as u32 + 10) as nat
    } else {
        (c as u32 - 'A' as u32 + 10) as nat
    }
}

/// The value of a run of hexadecimal digits, most significant first.
pub open spec fn hex_value(s: Seq<char>) -> nat
    decreases s.len(),
{
    if s.len() == 0 {
        0
    } else {
        hex_value(s.drop_last()) * 16 + hex_char_value(s.last())
    }
}

/// Relies on `u8::from_str_radix` in base 16: a non-empty run of hexadecimal
/// digits whose value fits a `u8` reads as that value; an empty string, or a
/// value over 255, is an error.
#[verifier::external_body]
fn u8_from_hex(s: &str) -> (r: Result<u8, std::num::ParseIntError>)
    ensures
        s@.len() > 0 && all_hex(s@) && hex_value(s@) <= 255 ==> (r is Ok && r->Ok_0 == hex_value(s@)),
        s@.len() == 0 ==> (r is Err),
        all_hex(s@) && hex_value(s@) > 255 ==> (r is Err),
{
    u8::from_str_radix(s, 16)
}

/// Whether `c` is a hexadecimal digit, in either case.
pub fn is_hex_digit(c: char) -> (r: bool)
    ensures
        r == is_hex_char(c),
{
    ('0' <= c && c <= '9') || ('a' <= c && c <= 'f') || ('A' <= c && c <= 'F')
}

/// Reads a string of hexadecimal digits as a byte.
pub fn to_num(input: &str) -> (r: Result<u8, std::num::ParseIntError>)
    ensures
        input@.len() > 0 && all_hex(input@) && hex_value(input@) <= 255 ==> (r matches Ok(v) && v
            == hex_value(input@)),
        input@.len() == 0 ==> r is Err,
        all_hex(input@) && hex_value(input@) > 255 ==> r is Err,
{
    u8_from_hex(input)
}

/// Reads two hexadecimal digits at the start of `input` as a byte.
pub fn hex_primary(input: &str) -> (r: Result<(&str, u8), ParseError>)
    ensures
        input@.len() >= 2 && all_hex(input@.subrange(0, 2)) ==> (r matches Ok((rest, v))
            && rest@ == input@.subrange(2, input@.len() as int) && v == hex_value(input@.subrange(0, 2))),
        !(input@.len() >= 2 && all_hex(input@.subrange(0, 2))) ==> r is Err,
{
    let n = input.unicode_len();
    if n < 2 {
        return Err(ParseError::Unrecognized);
    }
    let a = input.get_char(0);
    let b = input.get_char(1);
    let ghost pair = input@.subrange(0, 2);
    assert(pair[0] == a && pair[1] == b);
    if !is_hex_digit(a) || !is_hex_digit(b) {
        return Err(ParseError::Unrecognized);
    }
    assert(all_hex(pair));
    assert(pair.drop_last().drop_last() =~= Seq::<char>::empty());
    assert(hex_value(pair) <= 255) by {
        assert(hex_char_value(a) <= 15 && hex_char_value(b) <= 15);
        assert(pair.drop_last().last() == a);
        assert(hex_value(pair.drop_last().drop_last()) == 0);
        assert(hex_value(pair.drop_last()) == hex_char_value(a));
    }
    match to_num(input.substring_char(0, 2)) {
        Ok(v) => Ok((input.substring_char(2, n), v)),
        Err(_) => Err(ParseError::Unrecognized),
    }
}

/// Reads a colour written as `#` and three pairs of hexadecimal digits.
pub fn hex_color(input: &str) -> (r: Result<(&str, Color), ParseError>)
    ensures
        input@.len() >= 7 && input@[0] == '#' && all_hex(input@.subrange(1, 7)) ==> (r matches Ok((rest, c))
            && rest@ == input@.subrange(7, input@.len() as int) && c.red == hex_value(input@.subrange(1, 3))
            && c.green == hex_value(input@.subrange(3, 5)) && c.blue == hex_value(input@.subrange(5, 7))),
        !(input@.len() >= 7 && input@[0] == '#' && all_hex(input@.subrange(1, 7))) ==> r is Err,
{
    let n = input.unicode_len();
    if n == 0 || input.get_char(0) != '#' {
        return Err(ParseError::Unrecognized);
    }
    let s1 = input.substring_char(1, n);
    let ghost t = input@;
    let r1 = hex_primary(s1);
    let (s2, red) = match r1 {
        Ok(p) => p,
        Err(e) => {
            proof {
                if t.len() >= 7 && all_hex(t.subrange(1, 7)) {
                    assert(s1@.subrange(0, 2) =~= t.subrange(1, 3));
                    assert(all_hex(s1@.subrange(0, 2))) by {
                        assert forall|i: int| 0 <= i < 2 implies is_hex_char(#[trigger] s1@.subrange(0, 2)[i]) by {
                            assert(t.subrange(1, 7)[i] == s1@.subrange(0, 2)[i]);
                        }
                    }
                }
            }
            return Err(e);
        },
    };
    let r2 = hex_primary(s2);
    let (s3, green) = match r2 {
        Ok(p) => p,
        Err(e) => {
            proof {
                if t.len() >= 7 && all_hex(t.subrange(1, 7)) {
                    assert(s2@.subrange(0, 2) =~= t.subrange(3, 5));
                    assert(all_hex(s2@.subrange(0, 2))) by {
                        assert forall|i: int| 0 <= i < 2 implies is_hex_char(#[trigger] s2@.subrange(0, 2)[i]) by {
                            assert(t.subrange(1, 7)[i + 2] == s2@.subrange(0, 2)[i]);
                        }
                    }
                }
            }
            return Err(e);
        },
    };
    let r3 = hex_primary(s3);
    let (s4, blue) = match r3 {
        Ok(p) => p,
        Err(e) => {
            proof {
                if t.len() >= 7 && all_hex(t.subrange(1, 7)) {
                    assert(s3@.subrange(0, 2) =~= t.subrange(5, 7));
                    assert(all_hex(s3@.subrange(0, 2))) by {
                        assert forall|i: int| 0 <= i < 2 implies is_hex_char(#[trigger] s3@.subrange(0, 2)[i]) by {
                            assert(t.subrange(1, 7)[i + 4] == s3@.subrange(0, 2)[i]);
                        }
                    }
                }
            }
            return Err(e);
        },
    };
    proof {
        assert(s1@.subrange(0, 2) =~= t.subrange(1, 3));
        assert(s2@.subrange(0, 2) =~= t.subrange(3, 5));
        assert(s3@.subrange(0, 2) =~= t.subrange(5, 7));
        assert(s4@ =~= t.subrange(7, t.len() as int));
        assert(t.len() >= 7);
        assert(all_hex(t.subrange(1, 7))) by {
            assert forall|i: int| 0 <= i < 6 implies is_hex_char(#[trigger] t.subrange(1, 7)[i]) by {
                if i < 2 {
                    assert(t.subrange(1, 7)[i] == s1@.subrange(0, 2)[i]);
                } else if i < 4 {
                    assert(t.subrange(1, 7)[i] == s2@.subrange(0, 2)[i - 2]);
                } else {
                    assert(t.subrange(1, 7)[i] == s3@.subrange(0, 2)[i - 4]);
                }
            }
        }
    }
    Ok((s4, Color { red, green, blue }))
}

} // verus!
