//! 8-bit sRGB colors and their `#rrggbb` text form.

use vstd::prelude::*;
use vstd::string::*;

verus! {

/// An 8-bit-per-channel sRGB color.
#[derive(Debug, Clone, Copy, PartialEq, Eq, Hash, Structural)]
pub struct Srgb8 {
    pub r: u8,
    pub g: u8,
    pub b: u8,
}

/// Why a text is not a color of the form `#RRGGBB`.
#[derive(Debug, Clone, Copy, PartialEq, Eq, Structural)]
pub enum HexColorError {
    /// After the optional leading `#`, the text is not six ASCII characters.
    InvalidForm,
    /// Six ASCII characters, but not all of them base-16 digits.
    InvalidDigit,
}

/// The value of a single base-16 digit (either case), if `c` is one.
pub open spec fn hex_digit_value(c: char) -> Option<int> {
    let v = c as u32;
    if '0' as u32 <= v <= '9' as u32 {
        Some(v - '0' as u32)
    } else if 'a' as u32 <= v <= 'f' as u32 {
        Some(v - 'a' as u32 + 10)
    } else if 'A' as u32 <= v <= 'F' as u32 {
        Some(v - 'A' as u32 + 10)
    } else {
        None
    }
}

/// The value of a two-character group: two base-16 digits, the first the
/// more significant.
pub open spec fn hex_pair_value(c1: char, c2: char) -> Option<int> {
    match (hex_digit_value(c1), hex_digit_value(c2)) {
        (Some(h), Some(l)) => Some(16 * h + l),
        _ => None,
    }
}

/// The text with one leading `#` removed, if it has one.
pub open spec fn strip_hash(s: Seq<char>) -> Seq<char> {
    if s.len() > 0 && s[0] == '#' {
        s.drop_first()
    } else {
        s
    }
}

/// Six characters, all ASCII.
pub open spec fn six_ascii(hex: Seq<char>) -> bool {
    hex.len() == 6 && forall|i: int| 0 <= i < 6 ==> (#[trigger] hex[i]) as u32 <= 0x7f
}

/// What reading `s` as a color gives.
pub open spec fn parse_hex_color(s: Seq<char>) -> Result<Srgb8, HexColorError> {
    let hex = strip_hash(s);
    if !six_ascii(hex) {
        Err(HexColorError::InvalidForm)
    } else {
        match (
            hex_pair_value(hex[0], hex[1]),
            hex_pair_value(hex[2], hex[3]),
            hex_pair_value(hex[4], hex[5]),
        ) {
            (Some(r), Some(g), Some(b)) => Ok(Srgb8 { r: r as u8, g: g as u8, b: b as u8 }),
            _ => Err(HexColorError::InvalidDigit),
        }
    }
}

/// The lower-case base-16 digit for `n` (`0 <= n < 16`).
pub open spec fn lower_hex_char(n: int) -> char {
    if n < 10 {
        ('0' as u32 + n) as char
    } else {
        ('a' as u32 + n - 10) as char
    }
}

/// The two lower-case digits of a byte.
pub open spec fn byte_hex(v: u8) -> Seq<char> {
    seq![lower_hex_char(v as int / 16), lower_hex_char(v as int % 16)]
}

/// The text `#rrggbb` of a color, in lower case.
pub open spec fn format_hex_color(c: Srgb8) -> Seq<char> {
    seq!['#'] + byte_hex(c.r) + byte_hex(c.g) + byte_hex(c.b)
}

/// Appends one character to a string.
#[verifier::external_body]
pub(crate) fn push_char(s: &mut String, c: char)
    ensures
        final(s)@ == old(s)@.push(c),
{
    s.push(c);
}

fn digit_value(c: char) -> (r: Option<u8>)
    ensures
        match r {
            Some(v) => hex_digit_value(c) == Some(v as int),
            None => hex_digit_value(c) is None,
        },
{
    let v = c as u32;
    if '0' as u32 <= v && v <= '9' as u32 {
        Some((v - '0' as u32) as u8)
    } else if 'a' as u32 <= v && v <= 'f' as u32 {
        Some((v - 'a' as u32 + 10) as u8)
    } else if 'A' as u32 <= v && v <= 'F' as u32 {
        Some((v - 'A' as u32 + 10) as u8)
    } else {
        None
    }
}

fn pair_value(c1: char, c2: char) -> (r: Option<u8>)
    ensures
        match r {
            Some(v) => hex_pair_value(c1, c2) == Some(v as int),
            None => hex_pair_value(c1, c2) is None,
        },
{
    match (digit_value(c1), digit_value(c2)) {
        (Some(h), Some(l)) => Some(16 * h + l),
        _ => None,
    }
}

fn lower_hex_digit(n: u8) -> (c: char)
    requires
        n < 16,
    ensures
        c == lower_hex_char(n as int),
{
    if n < 10 {
        ((48u8 + n) as char)
    } else {
        ((87u8 + n) as char)
    }
}

impl Srgb8 {
    /// Reads a color from `#RRGGBB` or `RRGGBB`, digits in either case.
    pub fn try_from(s: &str) -> (res: Result<Srgb8, HexColorError>)
        ensures
            res == parse_hex_color(s@),
    {
        let n = s.unicode_len();
        let start: usize = if n > 0 && s.get_char(0) == '#' { 1 } else { 0 };
        let ghost hex = strip_hash(s@);
        assert(hex =~= s@.subrange(start as int, n as int));
        if n - start != 6 {
            return Err(HexColorError::InvalidForm);
        }
        let mut i: usize = 0;
        while i < 6
            invariant
                n == s@.len(),
                start + 6 == n,
                hex =~= s@.subrange(start as int, n as int),
                0 <= i <= 6,
                forall|j: int| 0 <= j < i ==> (#[trigger] hex[j]) as u32 <= 0x7f,
            decreases 6 - i,
        {
            if s.get_char(start + i) as u32 > 0x7f {
                return Err(HexColorError::InvalidForm);
            }
            i = i + 1;
        }
        let r = pair_value(s.get_char(start), s.get_char(start + 1));
        let g = pair_value(s.get_char(start + 2), s.get_char(start + 3));
        let b = pair_value(s.get_char(start + 4), s.get_char(start + 5));
        match (r, g, b) {
            (Some(r), Some(g), Some(b)) => Ok(Srgb8 { r, g, b }),
            _ => Err(HexColorError::InvalidDigit),
        }
    }

    /// The color as `#rrggbb`, in lower case.
    pub fn to_string(&self) -> (s: String)
        ensures
            s@ == format_hex_color(*self),
    {
        let mut s = String::new();
        push_char(&mut s, '#');
        push_char(&mut s, lower_hex_digit(self.r / 16));
        push_char(&mut s, lower_hex_digit(self.r % 16));
        push_char(&mut s, lower_hex_digit(self.g / 16));
        push_char(&mut s, lower_hex_digit(self.g % 16));
        push_char(&mut s, lower_hex_digit(self.b / 16));
        push_char(&mut s, lower_hex_digit(self.b % 16));
        assert(s@ =~= format_hex_color(*self));
        s
    }
}

proof fn lemma_lower_hex_char(n: int)
    requires
        0 <= n < 16,
    ensures
        hex_digit_value(lower_hex_char(n)) == Some(n),
        lower_hex_char(n) != '+',
        lower_hex_char(n) as u32 <= 0x7f,
{
}

proof fn lemma_byte_hex(v: u8)
    ensures
        hex_pair_value(byte_hex(v)[0], byte_hex(v)[1]) == Some(v as int),
        byte_hex(v)[0] as u32 <= 0x7f,
        byte_hex(v)[1] as u32 <= 0x7f,
{
    lemma_lower_hex_char(v as int / 16);
    lemma_lower_hex_char(v as int % 16);
}

/// Reading back the text of a color gives the color.
pub proof fn lemma_format_then_parse(c: Srgb8)
    ensures
        parse_hex_color(format_hex_color(c)) == Ok::<Srgb8, HexColorError>(c),
{
    let t = format_hex_color(c);
    lemma_byte_hex(c.r);
    lemma_byte_hex(c.g);
    lemma_byte_hex(c.b);
    let hex = strip_hash(t);
    assert(hex =~= byte_hex(c.r) + byte_hex(c.g) + byte_hex(c.b));
    assert(six_ascii(hex));
}

} // verus!
