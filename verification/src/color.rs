//! RGB colors and their textual form: a name, or `#` and three or six
//! hexadecimal digits.

use vstd::prelude::*;
use crate::error::{Channel, ParseError};
use crate::text::{chars_of, spells};

verus! {

/// A color with red, green and blue components, one byte each.
///
/// In text a color is one of the names `white`, `black`, `red`, `green`,
/// `blue`, `cyan`, `yellow` and `magenta`, or the `#` character followed by a
/// hex color code of six digits (two for each component) or of three digits
/// (one for each component).
#[derive(Copy, Clone, Debug, PartialEq, Eq, Hash, Structural)]
pub struct Color {
    /// The red component
    pub r: u8,
    /// The green component
    pub g: u8,
    /// The blue component
    pub b: u8,
}

/// The character that starts a hex color code.
pub open spec fn hash() -> char {
    '#'
}

/// The value of a hexadecimal digit, in either case.
pub open spec fn hex_value(c: char) -> Option<u8> {
    let u: u32 = c as u32;
    if 0x30 <= u <= 0x39 {
        Some((u - 0x30) as u8)
    } else if 0x61 <= u <= 0x66 {
        Some((u - 0x61 + 10) as u8)
    } else if 0x41 <= u <= 0x46 {
        Some((u - 0x41 + 10) as u8)
    } else {
        None
    }
}

/// Every character of `s` is an ASCII character.
pub open spec fn all_ascii(s: Seq<char>) -> bool {
    forall|i: int| 0 <= i < s.len() ==> (#[trigger] s[i]) as u32 <= 0x7f
}

/// The component that one digit of a three-digit code stands for: the digit
/// taken twice.
pub open spec fn short_component(c: char) -> Option<u8> {
    match hex_value(c) {
        Some(d) => Some((d * 17) as u8),
        None => None,
    }
}

/// The component that two digits of a six-digit code stand for.
pub open spec fn long_component(high: char, low: char) -> Option<u8> {
    match (hex_value(high), hex_value(low)) {
        (Some(h), Some(l)) => Some((h * 16 + l) as u8),
        _ => None,
    }
}

/// The color of three components, where each of them could be read, or
/// the first of them that could not.
pub open spec fn color_of(r: Option<u8>, g: Option<u8>, b: Option<u8>) -> Result<Color, ParseError> {
    match (r, g, b) {
        (Some(r), Some(g), Some(b)) => Ok(Color { r, g, b }),
        (None, _, _) => Err(ParseError::BadHex(Channel::Red)),
        (_, None, _) => Err(ParseError::BadHex(Channel::Green)),
        _ => Err(ParseError::BadHex(Channel::Blue)),
    }
}

/// The lower-case hexadecimal digit of a value below sixteen.
pub open spec fn hex_char(d: int) -> char {
    if d == 0 {
        '0'
    } else if d == 1 {
        '1'
    } else if d == 2 {
        '2'
    } else if d == 3 {
        '3'
    } else if d == 4 {
        '4'
    } else if d == 5 {
        '5'
    } else if d == 6 {
        '6'
    } else if d == 7 {
        '7'
    } else if d == 8 {
        '8'
    } else if d == 9 {
        '9'
    } else if d == 10 {
        'a'
    } else if d == 11 {
        'b'
    } else if d == 12 {
        'c'
    } else if d == 13 {
        'd'
    } else if d == 14 {
        'e'
    } else {
        'f'
    }
}

/// A component in hexadecimal digits, as few as it takes: one below
/// sixteen, else two.
pub open spec fn hex_text(v: u8) -> Seq<char> {
    if v < 16 {
        seq![hex_char(v as int)]
    } else {
        seq![hex_char(v as int / 16), hex_char(v as int % 16)]
    }
}

/// The text of a color: `#` and its three components in hexadecimal
/// digits, none of them padded.
pub open spec fn color_text(c: Color) -> Seq<char> {
    seq![hash()] + hex_text(c.r) + hex_text(c.g) + hex_text(c.b)
}

/// A hexadecimal digit reads back as the value that it was written for.
pub proof fn digit_reads_back(d: int)
    requires
        0 <= d < 16,
    ensures
        hex_value(hex_char(d)) == Some(d as u8),
{
}

/// The text of a color whose components all take two digits reads back
/// as the color.
pub proof fn text_reads_back(c: Color)
    requires
        c.r >= 16,
        c.g >= 16,
        c.b >= 16,
    ensures
        parsed_color(color_text(c)) == Ok::<Color, ParseError>(c),
{
    let text = color_text(c);
    let digits = seq![
        hex_char(c.r as int / 16),
        hex_char(c.r as int % 16),
        hex_char(c.g as int / 16),
        hex_char(c.g as int % 16),
        hex_char(c.b as int / 16),
        hex_char(c.b as int % 16),
    ];
    assert(text =~= seq![hash()] + digits);
    digit_reads_back(c.r as int / 16);
    digit_reads_back(c.r as int % 16);
    digit_reads_back(c.g as int / 16);
    digit_reads_back(c.g as int % 16);
    digit_reads_back(c.b as int / 16);
    digit_reads_back(c.b as int % 16);
    assert forall|i: int| 0 <= i < text.len() implies (#[trigger] text[i]) as u32 <= 0x7f by {
        if i > 0 {
            assert(text[i] == digits[i - 1]);
        }
    }
}

/// The color that a name stands for.
pub open spec fn named_color(name: Seq<char>) -> Option<Color> {
    if name == "white"@ {
        Some(Color { r: 255, g: 255, b: 255 })
    } else if name == "black"@ {
        Some(Color { r: 0, g: 0, b: 0 })
    } else if name == "red"@ {
        Some(Color { r: 255, g: 0, b: 0 })
    } else if name == "green"@ {
        Some(Color { r: 0, g: 255, b: 255 })
    } else if name == "blue"@ {
        Some(Color { r: 0, g: 0, b: 255 })
    } else if name == "cyan"@ {
        Some(Color { r: 0, g: 255, b: 255 })
    } else if name == "yellow"@ {
        Some(Color { r: 255, g: 255, b: 0 })
    } else if name == "magenta"@ {
        Some(Color { r: 255, g: 255, b: 255 })
    } else {
        None
    }
}

/// The color that the text `s` stands for, or why it stands for none.
pub open spec fn parsed_color(s: Seq<char>) -> Result<Color, ParseError> {
    if s.len() > 0 && s[0] == hash() {
        if !all_ascii(s) {
            Err(ParseError::BadLength)
        } else if s.len() == 4 {
            color_of(short_component(s[1]), short_component(s[2]), short_component(s[3]))
        } else if s.len() == 7 {
            color_of(
                long_component(s[1], s[2]),
                long_component(s[3], s[4]),
                long_component(s[5], s[6]),
            )
        } else {
            Err(ParseError::BadLength)
        }
    } else {
        match named_color(s) {
            Some(color) => Ok(color),
            None => Err(ParseError::UnknownColor),
        }
    }
}

/// A three-digit code stands for the color of the six-digit code that holds
/// each of its digits twice.
pub proof fn short_code_doubles_digits(r: char, g: char, b: char)
    ensures
        parsed_color(seq![hash(), r, g, b]) == parsed_color(seq![hash(), r, r, g, g, b, b]),
{
    let short = seq![hash(), r, g, b];
    let long = seq![hash(), r, r, g, g, b, b];
    if all_ascii(short) {
        assert forall|i: int| 0 <= i < long.len() implies (#[trigger] long[i]) as u32 <= 0x7f by {
            assert(short[0] as u32 <= 0x7f);
            assert(short[1] as u32 <= 0x7f);
            assert(short[2] as u32 <= 0x7f);
            assert(short[3] as u32 <= 0x7f);
        }
    } else {
        let i = choose|i: int| 0 <= i < short.len() && !((#[trigger] short[i]) as u32 <= 0x7f);
        assert(short[i] == long[0] || short[i] == long[1] || short[i] == long[3] || short[i]
            == long[5]);
    }
}

/// Reads one hexadecimal digit.
fn hex_digit(c: char) -> (d: Option<u8>)
    ensures
        d == hex_value(c),
        d matches Some(v) ==> v < 16,
{
    let u: u32 = c as u32;
    if 0x30 <= u && u <= 0x39 {
        Some((u - 0x30) as u8)
    } else if 0x61 <= u && u <= 0x66 {
        Some((u - 0x61 + 10) as u8)
    } else if 0x41 <= u && u <= 0x46 {
        Some((u - 0x41 + 10) as u8)
    } else {
        None
    }
}

/// Reads a color component from one or two hexadecimal digits.
fn hex_str_to_color_component(chars: &Vec<char>, lo: usize, hi: usize) -> (c: Option<u8>)
    requires
        lo < hi <= chars.len(),
        hi - lo <= 2,
    ensures
        hi - lo == 1 ==> c == hex_value(chars@[lo as int]),
        hi - lo == 2 ==> c == long_component(chars@[lo as int], chars@[lo + 1]),
{
    match hex_digit(chars[lo]) {
        None => None,
        Some(high) => {
            if hi - lo == 1 {
                Some(high)
            } else {
                match hex_digit(chars[lo + 1]) {
                    None => None,
                    Some(low) => Some(high * 16 + low),
                }
            }
        },
    }
}

fn is_all_ascii(chars: &Vec<char>) -> (yes: bool)
    ensures
        yes == all_ascii(chars@),
{
    let mut i: usize = 0;
    while i < chars.len()
        invariant
            i <= chars.len(),
            forall|j: int| 0 <= j < i ==> (#[trigger] chars@[j]) as u32 <= 0x7f,
        decreases chars.len() - i,
    {
        if chars[i] as u32 > 0x7f {
            return false;
        }
        i += 1;
    }
    true
}

impl Color {
    /// White: every component full.
    pub fn white() -> (c: Color)
        ensures
            c == (Color { r: 255, g: 255, b: 255 }),
    {
        Color { r: 255, g: 255, b: 255 }
    }

    /// Black: every component empty.
    pub fn black() -> (c: Color)
        ensures
            c == (Color { r: 0, g: 0, b: 0 }),
    {
        Color { r: 0, g: 0, b: 0 }
    }

    /// Red.
    pub fn red() -> (c: Color)
        ensures
            c == (Color { r: 255, g: 0, b: 0 }),
    {
        Color { r: 255, g: 0, b: 0 }
    }

    /// The color named `green`: green and blue full, as `cyan` is.
    pub fn green() -> (c: Color)
        ensures
            c == (Color { r: 0, g: 255, b: 255 }),
    {
        Color { r: 0, g: 255, b: 255 }
    }

    /// Blue.
    pub fn blue() -> (c: Color)
        ensures
            c == (Color { r: 0, g: 0, b: 255 }),
    {
        Color { r: 0, g: 0, b: 255 }
    }

    /// Cyan: green and blue full.
    pub fn cyan() -> (c: Color)
        ensures
            c == (Color { r: 0, g: 255, b: 255 }),
    {
        Color { r: 0, g: 255, b: 255 }
    }

    /// Yellow: red and green full.
    pub fn yellow() -> (c: Color)
        ensures
            c == (Color { r: 255, g: 255, b: 0 }),
    {
        Color { r: 255, g: 255, b: 0 }
    }

    /// The color named `magenta`: every component full, as `white` is.
    pub fn magenta() -> (c: Color)
        ensures
            c == (Color { r: 255, g: 255, b: 255 }),
    {
        Color { r: 255, g: 255, b: 255 }
    }

    /// Reads a color from a name or from `#` and a hex color code.
    pub fn parse(value: &str) -> (r: Result<Color, ParseError>)
        ensures
            r == parsed_color(value@),
    {
        let chars = chars_of(value);
        let n: usize = chars.len();
        if n > 0 && chars[0] == '#' {
            if !is_all_ascii(&chars) {
                return Err(ParseError::BadLength);
            }
            if n == 4 {
                let r = hex_str_to_color_component(&chars, 1, 2);
                let g = hex_str_to_color_component(&chars, 2, 3);
                let b = hex_str_to_color_component(&chars, 3, 4);
                match (r, g, b) {
                    (Some(r), Some(g), Some(b)) => Ok(Color { r: r * 17, g: g * 17, b: b * 17 }),
                    (None, _, _) => Err(ParseError::BadHex(Channel::Red)),
                    (_, None, _) => Err(ParseError::BadHex(Channel::Green)),
                    _ => Err(ParseError::BadHex(Channel::Blue)),
                }
            } else if n == 7 {
                let r = hex_str_to_color_component(&chars, 1, 3);
                let g = hex_str_to_color_component(&chars, 3, 5);
                let b = hex_str_to_color_component(&chars, 5, 7);
                match (r, g, b) {
                    (Some(r), Some(g), Some(b)) => Ok(Color { r, g, b }),
                    (None, _, _) => Err(ParseError::BadHex(Channel::Red)),
                    (_, None, _) => Err(ParseError::BadHex(Channel::Green)),
                    _ => Err(ParseError::BadHex(Channel::Blue)),
                }
            } else {
                Err(ParseError::BadLength)
            }
        } else {
            assert(chars@.subrange(0, n as int) =~= value@);
            if spells(&chars, 0, n, "white") {
                Ok(Color::white())
            } else if spells(&chars, 0, n, "black") {
                Ok(Color::black())
            } else if spells(&chars, 0, n, "red") {
                Ok(Color::red())
            } else if spells(&chars, 0, n, "green") {
                Ok(Color::green())
            } else if spells(&chars, 0, n, "blue") {
                Ok(Color::blue())
            } else if spells(&chars, 0, n, "cyan") {
                Ok(Color::cyan())
            } else if spells(&chars, 0, n, "yellow") {
                Ok(Color::yellow())
            } else if spells(&chars, 0, n, "magenta") {
                Ok(Color::magenta())
            } else {
                Err(ParseError::UnknownColor)
            }
        }
    }
}

/// The lower-case hexadecimal digit of a value below sixteen.
fn digit_text(d: u8) -> (text: &'static str)
    requires
        d < 16,
    ensures
        text@ == seq![hex_char(d as int)],
{
    proof {
        reveal_strlit("0");
        reveal_strlit("1");
        reveal_strlit("2");
        reveal_strlit("3");
        reveal_strlit("4");
        reveal_strlit("5");
        reveal_strlit("6");
        reveal_strlit("7");
        reveal_strlit("8");
        reveal_strlit("9");
        reveal_strlit("a");
        reveal_strlit("b");
        reveal_strlit("c");
        reveal_strlit("d");
        reveal_strlit("e");
        reveal_strlit("f");
    }
    let text = if d == 0 {
        "0"
    } else if d == 1 {
        "1"
    } else if d == 2 {
        "2"
    } else if d == 3 {
        "3"
    } else if d == 4 {
        "4"
    } else if d == 5 {
        "5"
    } else if d == 6 {
        "6"
    } else if d == 7 {
        "7"
    } else if d == 8 {
        "8"
    } else if d == 9 {
        "9"
    } else if d == 10 {
        "a"
    } else if d == 11 {
        "b"
    } else if d == 12 {
        "c"
    } else if d == 13 {
        "d"
    } else if d == 14 {
        "e"
    } else {
        "f"
    };
    assert(text@ =~= seq![hex_char(d as int)]);
    text
}

/// Writes one component behind `text`.
fn write_component(text: &mut String, v: u8)
    ensures
        final(text)@ == old(text)@ + hex_text(v),
{
    if v < 16 {
        text.append(digit_text(v));
    } else {
        text.append(digit_text(v / 16));
        text.append(digit_text(v % 16));
        assert(text@ =~= old(text)@ + hex_text(v));
    }
}

impl Color {
    /// Writes the color as `#` and its three components in hexadecimal
    /// digits, a component below sixteen in one digit.
    pub fn to_text(&self) -> (text: String)
        ensures
            text@ == color_text(*self),
    {
        proof {
            reveal_strlit("#");
            assert("#"@ =~= seq![hash()]);
        }
        let mut text = String::from_str("#");
        write_component(&mut text, self.r);
        write_component(&mut text, self.g);
        write_component(&mut text, self.b);
        text
    }
}

impl Default for Color {
    fn default() -> (c: Color)
        ensures
            c == (Color { r: 255, g: 255, b: 255 }),
    {
        Color::white()
    }
}

} // verus!
