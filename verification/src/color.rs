//! Character records and the RGBA color carried on the wire and in storage.
//!
//! A color is stored as four 8-bit channels and travels through the character
//! service as a `#RRGGBBAA` hex string; parsing and formatting are exact
//! inverses of each other.

use vstd::prelude::*;

verus! {

/// An RGBA color with 8-bit channels.
#[derive(Clone, Copy, Debug, PartialEq, Eq, Structural)]
pub struct Color {
    pub red: u8,
    pub green: u8,
    pub blue: u8,
    pub alpha: u8,
}

/// A character record as the character service stores it.
#[derive(Clone, Debug)]
pub struct Character {
    pub id: Option<i32>,
    pub name: String,
    pub color: Color,
    pub owner: String,
    pub portrait: Option<String>,
}

/// Which characters a listing request asks for.
#[derive(Clone, Copy, Debug, PartialEq, Eq, Structural)]
pub enum CharacterFilter {
    All,
    Mine,
}

impl Default for CharacterFilter {
    fn default() -> (r: Self)
        ensures
            r == CharacterFilter::All,
    {
        CharacterFilter::All
    }
}

/// True for the sixteen hexadecimal digit characters, either case.
pub open spec fn is_hex_digit(c: char) -> bool {
    ||| ('0' as u32) <= (c as u32) <= ('9' as u32)
    ||| ('a' as u32) <= (c as u32) <= ('f' as u32)
    ||| ('A' as u32) <= (c as u32) <= ('F' as u32)
}

/// The numeric value of one hexadecimal digit character.
pub open spec fn hex_digit_value(c: char) -> u8 {
    if ('0' as u32) <= (c as u32) <= ('9' as u32) {
        ((c as u32) - ('0' as u32)) as u8
    } else if ('a' as u32) <= (c as u32) <= ('f' as u32) {
        ((c as u32) - ('a' as u32) + 10) as u8
    } else {
        ((c as u32) - ('A' as u32) + 10) as u8
    }
}

/// The uppercase hexadecimal digit character for a value below sixteen.
pub open spec fn hex_digit_char(v: u8) -> char {
    if v == 0 {
        '0'
    } else if v == 1 {
        '1'
    } else if v == 2 {
        '2'
    } else if v == 3 {
        '3'
    } else if v == 4 {
        '4'
    } else if v == 5 {
        '5'
    } else if v == 6 {
        '6'
    } else if v == 7 {
        '7'
    } else if v == 8 {
        '8'
    } else if v == 9 {
        '9'
    } else if v == 10 {
        'A'
    } else if v == 11 {
        'B'
    } else if v == 12 {
        'C'
    } else if v == 13 {
        'D'
    } else if v == 14 {
        'E'
    } else {
        'F'
    }
}

/// The two uppercase hexadecimal digits of one channel value.
pub open spec fn hex_byte_chars(v: u8) -> Seq<char> {
    seq![hex_digit_char(v / 16), hex_digit_char(v % 16)]
}

/// The `#RRGGBBAA` text of a color.
pub open spec fn color_text(c: Color) -> Seq<char> {
    seq!['#'] + hex_byte_chars(c.red) + hex_byte_chars(c.green) + hex_byte_chars(c.blue)
        + hex_byte_chars(c.alpha)
}

/// The input with every leading `#` removed.
pub open spec fn trim_hashes(s: Seq<char>) -> Seq<char>
    decreases s.len(),
{
    if s.len() > 0 && s[0] == '#' {
        trim_hashes(s.drop_first())
    } else {
        s
    }
}

/// Whether the trimmed input starts with eight hexadecimal digits, so that a
/// color can be read from it.
pub open spec fn parses_as_color(s: Seq<char>) -> bool {
    let t = trim_hashes(s);
    t.len() >= 8 && forall|i: int| 0 <= i < 8 ==> is_hex_digit(#[trigger] t[i])
}

/// The color read from the first eight hexadecimal digits of the trimmed input.
pub open spec fn color_of_text(s: Seq<char>) -> Color {
    let t = trim_hashes(s);
    Color {
        red: (hex_digit_value(t[0]) * 16 + hex_digit_value(t[1])) as u8,
        green: (hex_digit_value(t[2]) * 16 + hex_digit_value(t[3])) as u8,
        blue: (hex_digit_value(t[4]) * 16 + hex_digit_value(t[5])) as u8,
        alpha: (hex_digit_value(t[6]) * 16 + hex_digit_value(t[7])) as u8,
    }
}

/// The one-character string for a hexadecimal digit value.
fn hex_digit_str(v: u8) -> (r: &'static str)
    requires
        v < 16,
    ensures
        r@ =~= seq![hex_digit_char(v)],
{
    proof {
        reveal_strlit("0");
        reveal_strlit("1");
        reveal_strlit("2");
        reveal_strlit("3");
        reveal_strlit("4");
        reveal_strlit("5");
        reveal_strlit("6");
        reveal_strlit("7");
        reveal_strlit("8");
        reveal_strlit("9");
        reveal_strlit("A");
        reveal_strlit("B");
        reveal_strlit("C");
        reveal_strlit("D");
        reveal_strlit("E");
        reveal_strlit("F");
    }
    match v {
        0 => "0",
        1 => "1",
        2 => "2",
        3 => "3",
        4 => "4",
        5 => "5",
        6 => "6",
        7 => "7",
        8 => "8",
        9 => "9",
        10 => "A",
        11 => "B",
        12 => "C",
        13 => "D",
        14 => "E",
        _ => "F",
    }
}

/// Appends the two hexadecimal digits of one channel value.
fn append_hex_byte(s: &mut String, v: u8)
    ensures
        final(s)@ =~= old(s)@ + hex_byte_chars(v),
{
    let hi: u8 = v / 16;
    let lo: u8 = v % 16;
    s.append(hex_digit_str(hi));
    s.append(hex_digit_str(lo));
}

impl Color {
    /// Reads a color from `#RRGGBBAA` text, in either case, ignoring any
    /// leading `#` marks and anything after the eighth digit.
    pub fn from(value: String) -> (r: Color)
        requires
            parses_as_color(value@),
        ensures
            r == color_of_text(value@),
    {
        let s = value.as_str();
        let n = s.unicode_len();
        let mut start: usize = 0;
        proof {
            assert(s@.skip(0) =~= s@);
        }
        while start < n && s.get_char(start) == '#'
            invariant
                0 <= start <= n,
                n == s@.len(),
                s@ == value@,
                parses_as_color(value@),
                trim_hashes(value@) == trim_hashes(s@.skip(start as int)),
            decreases n - start,
        {
            proof {
                assert(s@.skip(start as int).drop_first() =~= s@.skip(start as int + 1));
            }
            start = start + 1;
        }
        proof {
            let rest = s@.skip(start as int);
            if start < n {
                assert(rest[0] == s@[start as int]);
            }
            assert(trim_hashes(rest) == rest);
            assert(trim_hashes(value@) == rest);
            assert(rest.len() >= 8);
            assert(is_hex_digit(trim_hashes(value@)[0]) && rest[0] == s@[start as int]);
            assert(is_hex_digit(trim_hashes(value@)[1]) && rest[1] == s@[start as int + 1]);
            assert(is_hex_digit(trim_hashes(value@)[2]) && rest[2] == s@[start as int + 2]);
            assert(is_hex_digit(trim_hashes(value@)[3]) && rest[3] == s@[start as int + 3]);
            assert(is_hex_digit(trim_hashes(value@)[4]) && rest[4] == s@[start as int + 4]);
            assert(is_hex_digit(trim_hashes(value@)[5]) && rest[5] == s@[start as int + 5]);
            assert(is_hex_digit(trim_hashes(value@)[6]) && rest[6] == s@[start as int + 6]);
            assert(is_hex_digit(trim_hashes(value@)[7]) && rest[7] == s@[start as int + 7]);
        }
        let d0 = hex_pair(s, start);
        let d1 = hex_pair(s, start + 2);
        let d2 = hex_pair(s, start + 4);
        let d3 = hex_pair(s, start + 6);
        Color { red: d0, green: d1, blue: d2, alpha: d3 }
    }

    /// The `#RRGGBBAA` text of this color, with uppercase digits.
    pub fn to_string(&self) -> (r: String)
        ensures
            r@ =~= color_text(*self),
    {
        proof {
            reveal_strlit("#");
        }
        let mut s = String::from_str("#");
        append_hex_byte(&mut s, self.red);
        append_hex_byte(&mut s, self.green);
        append_hex_byte(&mut s, self.blue);
        append_hex_byte(&mut s, self.alpha);
        s
    }
}

/// Reads one channel value from the two hexadecimal digits at `at`.
fn hex_pair(s: &str, at: usize) -> (r: u8)
    requires
        at + 2 <= s@.len(),
        at + 2 <= usize::MAX,
        is_hex_digit(s@[at as int]),
        is_hex_digit(s@[at as int + 1]),
    ensures
        r == hex_digit_value(s@[at as int]) * 16 + hex_digit_value(s@[at as int + 1]),
{
    let hi = hex_digit(s.get_char(at));
    let lo = hex_digit(s.get_char(at + 1));
    hi * 16 + lo
}

/// The numeric value of one hexadecimal digit character.
fn hex_digit(c: char) -> (r: u8)
    requires
        is_hex_digit(c),
    ensures
        r == hex_digit_value(c),
        r < 16,
{
    let u = c as u32;
    if u >= ('a' as u32) {
        (u - ('a' as u32) + 10) as u8
    } else if u >= ('A' as u32) {
        (u - ('A' as u32) + 10) as u8
    } else {
        (u - ('0' as u32)) as u8
    }
}

/// Formatting a color and reading the text back yields the same color: the
/// hex form loses nothing.
pub proof fn lemma_color_text_round_trip(c: Color)
    ensures
        parses_as_color(color_text(c)),
        color_of_text(color_text(c)) == c,
{
    let t = color_text(c);
    let e = seq![
        '#',
        hex_digit_char(c.red / 16),
        hex_digit_char(c.red % 16),
        hex_digit_char(c.green / 16),
        hex_digit_char(c.green % 16),
        hex_digit_char(c.blue / 16),
        hex_digit_char(c.blue % 16),
        hex_digit_char(c.alpha / 16),
        hex_digit_char(c.alpha % 16),
    ];
    assert(t =~= e);
    assert forall|v: u8| v < 16 implies is_hex_digit(hex_digit_char(v)) && hex_digit_value(
        hex_digit_char(v),
    ) == v by {}
    let d = t.drop_first();
    assert(d =~= e.drop_first());
    assert(trim_hashes(t) == trim_hashes(d));
    assert(trim_hashes(d) == d);
    assert(color_of_text(t) == c);
}

} // verus!
