use vstd::prelude::*;

verus! {

/// A color token held a recognized length but a character that is not a
/// hexadecimal digit.
#[derive(Debug, Clone, Copy, PartialEq, Eq)]
pub struct ColorError;

/// Whether `c` is one of `0-9`, `a-f`, `A-F`.
pub open spec fn is_hex_digit(c: char) -> bool {
    ('0' <= c && c <= '9') || ('a' <= c && c <= 'f') || ('A' <= c && c <= 'F')
}

/// The value of a hexadecimal digit.
pub open spec fn hex_value(c: char) -> int {
    if '0' <= c && c <= '9' {
        c as int - '0' as int
    } else if 'a' <= c && c <= 'f' {
        c as int - 'a' as int + 10
    } else {
        c as int - 'A' as int + 10
    }
}

/// The byte written by the two digits of `s` that start at `i`.
pub open spec fn hex_pair(s: Seq<char>, i: int) -> u8 {
    (hex_value(s[i]) * 16 + hex_value(s[i + 1])) as u8
}

/// The number of bytes UTF-8 takes for one character.
pub open spec fn utf8_width(c: char) -> int {
    if (c as u32) < 0x80 {
        1
    } else if (c as u32) < 0x800 {
        2
    } else if (c as u32) < 0x10000 {
        3
    } else {
        4
    }
}

/// The length of a text in UTF-8 bytes.
pub open spec fn utf8_len(s: Seq<char>) -> int
    decreases s.len(),
{
    if s.len() == 0 {
        0
    } else {
        utf8_len(s.drop_last()) + utf8_width(s.last())
    }
}

/// Whether `s` has one of the two byte lengths that carry a color.
pub open spec fn has_color_length(s: Seq<char>) -> bool {
    utf8_len(s) == 6 || utf8_len(s) == 7
}

/// Where the six digits start: after the leading `#` of a seven-byte token.
pub open spec fn digits_start(s: Seq<char>) -> int {
    if utf8_len(s) == 7 { 1 } else { 0 }
}

/// A token decodes without error: it has no color length, or it is made of
/// one-byte characters and its six digit positions all hold hexadecimal
/// digits. A character of several bytes in a token of a color length puts
/// a byte that is no digit among the six.
pub open spec fn token_decodes(s: Seq<char>) -> bool {
    has_color_length(s) ==> (s.len() == utf8_len(s) && forall|k: int|
        digits_start(s) <= k < digits_start(s) + 6 ==> #[trigger] is_hex_digit(s[k]))
}

/// The gray used for tokens of any other length.
pub open spec fn fallback_gray() -> (u8, u8, u8) {
    (155u8, 155u8, 155u8)
}

/// The color a token stands for.
pub open spec fn token_color(s: Seq<char>) -> (u8, u8, u8) {
    if has_color_length(s) {
        let o = digits_start(s);
        (hex_pair(s, o), hex_pair(s, o + 2), hex_pair(s, o + 4))
    } else {
        fallback_gray()
    }
}

/// The value of one hexadecimal digit, or `None` for any other character.
pub fn hex_digit_value(c: char) -> (r: Option<u8>)
    ensures
        r.is_some() == is_hex_digit(c),
        r.is_some() ==> r.unwrap() as int == hex_value(c) && r.unwrap() < 16,
{
    if '0' <= c && c <= '9' {
        Some(((c as u32) - ('0' as u32)) as u8)
    } else if 'a' <= c && c <= 'f' {
        Some(((c as u32) - ('a' as u32) + 10) as u8)
    } else if 'A' <= c && c <= 'F' {
        Some(((c as u32) - ('A' as u32) + 10) as u8)
    } else {
        None
    }
}

fn parse_pair(s: &str, i: usize) -> (r: Result<u8, ColorError>)
    requires
        i + 1 < s@.len(),
        i < 8,
    ensures
        r.is_ok() == (is_hex_digit(s@[i as int]) && is_hex_digit(s@[i + 1])),
        r.is_ok() ==> r.unwrap() == hex_pair(s@, i as int),
{
    let hi = hex_digit_value(s.get_char(i));
    let lo = hex_digit_value(s.get_char(i + 1));
    match (hi, lo) {
        (Some(h), Some(l)) => Ok(h * 16 + l),
        _ => Err(ColorError),
    }
}

proof fn lemma_utf8_len_bounds(s: Seq<char>)
    ensures
        s.len() <= utf8_len(s),
    decreases s.len(),
{
    if s.len() > 0 {
        lemma_utf8_len_bounds(s.drop_last());
    }
}

/// The UTF-8 length of `s` when it is below 8, else 8 or more.
fn utf8_len_upto_eight(s: &str) -> (r: usize)
    ensures
        utf8_len(s@) < 8 ==> r == utf8_len(s@),
        utf8_len(s@) >= 8 ==> r >= 8,
{
    let n = s.unicode_len();
    if n >= 8 {
        proof {
            lemma_utf8_len_bounds(s@);
        }
        return 8;
    }
    let mut total: usize = 0;
    let mut i: usize = 0;
    while i < n
        invariant
            n == s@.len(),
            n < 8,
            0 <= i <= n,
            total == utf8_len(s@.subrange(0, i as int)),
            total <= 4 * i,
        decreases n - i,
    {
        let c = s.get_char(i);
        let w: usize = if (c as u32) < 0x80 {
            1
        } else if (c as u32) < 0x800 {
            2
        } else if (c as u32) < 0x10000 {
            3
        } else {
            4
        };
        assert(s@.subrange(0, i + 1).drop_last() =~= s@.subrange(0, i as int));
        total = total + w;
        i = i + 1;
    }
    assert(s@.subrange(0, n as int) =~= s@);
    total
}

/// Decodes a color token: `#RRGGBB` or `RRGGBB` (seven or six bytes) give
/// the three bytes that the digit pairs write, any other byte length gives
/// the fallback gray, and a token of a color length with a byte that is no
/// hexadecimal digit among its six digits is an error.
pub fn decode_color(token: &str) -> (r: Result<(u8, u8, u8), ColorError>)
    ensures
        r.is_ok() == token_decodes(token@),
        r.is_ok() ==> r.unwrap() == token_color(token@),
{
    let bytes = utf8_len_upto_eight(token);
    if bytes != 6 && bytes != 7 {
        return Ok((155, 155, 155));
    }
    let n = token.unicode_len();
    if n != bytes {
        return Err(ColorError);
    }
    let o: usize = if n == 7 { 1 } else { 0 };
    let red = parse_pair(token, o);
    let green = parse_pair(token, o + 2);
    let blue = parse_pair(token, o + 4);
    match (red, green, blue) {
        (Ok(rv), Ok(gv), Ok(bv)) => Ok((rv, gv, bv)),
        _ => {
            proof {
                let s = token@;
                if red.is_err() {
                    assert(!is_hex_digit(s[o as int]) || !is_hex_digit(s[o + 1]));
                } else if green.is_err() {
                    assert(!is_hex_digit(s[o + 2]) || !is_hex_digit(s[o + 3]));
                } else {
                    assert(!is_hex_digit(s[o + 4]) || !is_hex_digit(s[o + 5]));
                }
            }
            Err(ColorError)
        },
    }
}

} // verus!
