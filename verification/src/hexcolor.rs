//! Hex color parsing for the host-facing color setters. Accepts `rgb`,
//! `rrggbb` and `rrggbbaa` digit forms, case-insensitive, with any number
//! of leading `#` marks; anything else is rejected.

use vstd::prelude::*;

verus! {

/// A color as four 8-bit channels.
#[derive(Clone, Copy, PartialEq, Eq, Structural, Debug)]
pub struct Rgba {
    pub red: u8,
    pub green: u8,
    pub blue: u8,
    pub alpha: u8,
}

/// Value of one hex digit, or -1 when the byte is no hex digit.
pub open spec fn hex_digit_val(c: u8) -> int {
    if 48 <= c <= 57 {
        c - 48
    } else if 97 <= c <= 102 {
        c - 87
    } else if 65 <= c <= 70 {
        c - 55
    } else {
        -1
    }
}

/// The byte is a hex digit.
pub open spec fn is_hex_digit(c: u8) -> bool {
    hex_digit_val(c) >= 0
}

/// Value of a two-digit hex pair.
pub open spec fn hex_pair_val(h: u8, l: u8) -> int {
    hex_digit_val(h) * 16 + hex_digit_val(l)
}

/// The input with its leading `#` marks removed.
pub open spec fn strip_hashes(s: Seq<u8>) -> Seq<u8>
    decreases s.len(),
{
    if s.len() > 0 && s[0] == 35 {
        strip_hashes(s.subrange(1, s.len() as int))
    } else {
        s
    }
}

/// The parse of a hex color string, over the bytes after the `#` marks:
/// six digits are r, g, b pairs with full alpha; eight digits are
/// r, g, b, a pairs; three digits are single-digit channels widened by 17
/// (so `f` means `ff`) with full alpha; every other shape is rejected.
pub open spec fn spec_parse_hex_color(s: Seq<u8>) -> Option<Rgba> {
    let t = strip_hashes(s);
    if t.len() == 6 {
        if is_hex_digit(t[0]) && is_hex_digit(t[1]) && is_hex_digit(t[2]) && is_hex_digit(t[3])
            && is_hex_digit(t[4]) && is_hex_digit(t[5]) {
            Some(
                Rgba {
                    red: hex_pair_val(t[0], t[1]) as u8,
                    green: hex_pair_val(t[2], t[3]) as u8,
                    blue: hex_pair_val(t[4], t[5]) as u8,
                    alpha: 255,
                },
            )
        } else {
            None
        }
    } else if t.len() == 8 {
        if is_hex_digit(t[0]) && is_hex_digit(t[1]) && is_hex_digit(t[2]) && is_hex_digit(t[3])
            && is_hex_digit(t[4]) && is_hex_digit(t[5]) && is_hex_digit(t[6]) && is_hex_digit(
            t[7],
        ) {
            Some(
                Rgba {
                    red: hex_pair_val(t[0], t[1]) as u8,
                    green: hex_pair_val(t[2], t[3]) as u8,
                    blue: hex_pair_val(t[4], t[5]) as u8,
                    alpha: hex_pair_val(t[6], t[7]) as u8,
                },
            )
        } else {
            None
        }
    } else if t.len() == 3 {
        if is_hex_digit(t[0]) && is_hex_digit(t[1]) && is_hex_digit(t[2]) {
            Some(
                Rgba {
                    red: (hex_digit_val(t[0]) * 17) as u8,
                    green: (hex_digit_val(t[1]) * 17) as u8,
                    blue: (hex_digit_val(t[2]) * 17) as u8,
                    alpha: 255,
                },
            )
        } else {
            None
        }
    } else {
        None
    }
}

/// Value of one hex digit byte, when it is one.
fn hex_digit(c: u8) -> (r: Option<u8>)
    ensures
        r == (if is_hex_digit(c) {
            Some(hex_digit_val(c) as u8)
        } else {
            None
        }),
{
    if 48 <= c && c <= 57 {
        Some(c - 48)
    } else if 97 <= c && c <= 102 {
        Some(c - 87)
    } else if 65 <= c && c <= 70 {
        Some(c - 55)
    } else {
        None
    }
}

/// Value of a two-digit hex pair, when both bytes are digits.
fn hex_pair(h: u8, l: u8) -> (r: Option<u8>)
    ensures
        r == (if is_hex_digit(h) && is_hex_digit(l) {
            Some(hex_pair_val(h, l) as u8)
        } else {
            None
        }),
{
    match (hex_digit(h), hex_digit(l)) {
        (Some(a), Some(b)) => Some(a * 16 + b),
        _ => None,
    }
}

/// Parse a hex color. Leading `#` marks are skipped; the remaining digits
/// must form one of the three accepted shapes.
pub fn parse_hex_color(s: &[u8]) -> (r: Option<Rgba>)
    ensures
        r == spec_parse_hex_color(s@),
{
    let len: usize = s.len();
    let mut idx: usize = 0;
    proof {
        assert(s@.subrange(0, len as int) =~= s@);
    }
    while idx < len && s[idx] == 35
        invariant
            idx <= len,
            len == s@.len(),
            strip_hashes(s@) == strip_hashes(s@.subrange(idx as int, len as int)),
        decreases len - idx,
    {
        proof {
            let cur = s@.subrange(idx as int, len as int);
            assert(cur[0] == 35);
            assert(cur.subrange(1, cur.len() as int) =~= s@.subrange(idx as int + 1, len as int));
        }
        idx = idx + 1;
    }
    proof {
        let tail = s@.subrange(idx as int, len as int);
        if tail.len() > 0 {
            assert(tail[0] == s@[idx as int]);
        }
        assert(strip_hashes(tail) == tail);
    }
    let ghost t = strip_hashes(s@);
    let rem: usize = len - idx;
    if rem == 6 {
        proof {
            assert(t[0] == s@[idx as int] && t[1] == s@[idx as int + 1] && t[2] == s@[idx as int
                + 2] && t[3] == s@[idx as int + 3] && t[4] == s@[idx as int + 4] && t[5] == s@[
                idx as int + 5]);
        }
        match (
            hex_pair(s[idx], s[idx + 1]),
            hex_pair(s[idx + 2], s[idx + 3]),
            hex_pair(s[idx + 4], s[idx + 5]),
        ) {
            (Some(red), Some(green), Some(blue)) => Some(
                Rgba { red, green, blue, alpha: 255 },
            ),
            _ => None,
        }
    } else if rem == 8 {
        proof {
            assert(t[0] == s@[idx as int] && t[1] == s@[idx as int + 1] && t[2] == s@[idx as int
                + 2] && t[3] == s@[idx as int + 3] && t[4] == s@[idx as int + 4] && t[5] == s@[
                idx as int + 5] && t[6] == s@[idx as int + 6] && t[7] == s@[idx as int + 7]);
        }
        match (
            hex_pair(s[idx], s[idx + 1]),
            hex_pair(s[idx + 2], s[idx + 3]),
            hex_pair(s[idx + 4], s[idx + 5]),
            hex_pair(s[idx + 6], s[idx + 7]),
        ) {
            (Some(red), Some(green), Some(blue), Some(alpha)) => Some(
                Rgba { red, green, blue, alpha },
            ),
            _ => None,
        }
    } else if rem == 3 {
        proof {
            assert(t[0] == s@[idx as int] && t[1] == s@[idx as int + 1] && t[2] == s@[idx as int
                + 2]);
        }
        match (hex_digit(s[idx]), hex_digit(s[idx + 1]), hex_digit(s[idx + 2])) {
            (Some(rd), Some(gd), Some(bd)) => Some(
                Rgba { red: rd * 17, green: gd * 17, blue: bd * 17, alpha: 255 },
            ),
            _ => None,
        }
    } else {
        None
    }
}

} // verus!
