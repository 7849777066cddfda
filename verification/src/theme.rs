//! Colors of the interface.

use crate::text::{
    append_chars, chars_of, copy_range, decimal, decimal_chars, lowercase_chars, lowercase_of, owned,
    spells, string_of,
};
use vstd::prelude::*;
use vstd::string::*;

verus! {

/// A terminal color.
#[derive(Debug, Clone, Copy, PartialEq, Eq, Structural)]
pub enum ThemeColor {
    Reset,
    Black,
    Red,
    Green,
    Yellow,
    Blue,
    Magenta,
    Cyan,
    Gray,
    DarkGray,
    LightRed,
    LightGreen,
    LightYellow,
    LightBlue,
    LightMagenta,
    LightCyan,
    White,
    /// One of the 256 indexed colors.
    Indexed(u8),
    /// Red, green and blue.
    Rgb(u8, u8, u8),
}

impl Default for ThemeColor {
    fn default() -> (c: Self)
        ensures
            c == ThemeColor::White,
    {
        ThemeColor::White
    }
}

/// The colors of every part of the interface.
#[derive(Debug, Clone, Copy, PartialEq, Eq, Structural)]
pub struct ColorScheme {
    pub tree_line: ThemeColor,
    pub tree_selected_bg: ThemeColor,
    pub tree_selected_fg: ThemeColor,
    pub tree_directory: ThemeColor,
    pub tree_file: ThemeColor,
    pub status_added: ThemeColor,
    pub status_removed: ThemeColor,
    pub status_modified: ThemeColor,
    pub border: ThemeColor,
    pub border_focused: ThemeColor,
    pub title: ThemeColor,
    pub status_bar_bg: ThemeColor,
    pub status_bar_fg: ThemeColor,
    pub text_primary: ThemeColor,
    pub text_secondary: ThemeColor,
    pub text_dim: ThemeColor,
    pub background: ThemeColor,
}

/// The colors of the dark theme.
pub open spec fn spec_dark_theme() -> ColorScheme {
    ColorScheme {
        tree_line: ThemeColor::DarkGray,
        tree_selected_bg: ThemeColor::Rgb(50, 50, 70),
        tree_selected_fg: ThemeColor::Yellow,
        tree_directory: ThemeColor::Blue,
        tree_file: ThemeColor::White,
        status_added: ThemeColor::Green,
        status_removed: ThemeColor::Red,
        status_modified: ThemeColor::Yellow,
        border: ThemeColor::DarkGray,
        border_focused: ThemeColor::Cyan,
        title: ThemeColor::Cyan,
        status_bar_bg: ThemeColor::DarkGray,
        status_bar_fg: ThemeColor::White,
        text_primary: ThemeColor::White,
        text_secondary: ThemeColor::Gray,
        text_dim: ThemeColor::DarkGray,
        background: ThemeColor::Black,
    }
}

impl ColorScheme {
    /// The dark theme, which is the default.
    pub fn dark_theme() -> (scheme: Self)
        ensures
            scheme == spec_dark_theme(),
    {
        ColorScheme {
            tree_line: ThemeColor::DarkGray,
            tree_selected_bg: ThemeColor::Rgb(50, 50, 70),
            tree_selected_fg: ThemeColor::Yellow,
            tree_directory: ThemeColor::Blue,
            tree_file: ThemeColor::White,
            status_added: ThemeColor::Green,
            status_removed: ThemeColor::Red,
            status_modified: ThemeColor::Yellow,
            border: ThemeColor::DarkGray,
            border_focused: ThemeColor::Cyan,
            title: ThemeColor::Cyan,
            status_bar_bg: ThemeColor::DarkGray,
            status_bar_fg: ThemeColor::White,
            text_primary: ThemeColor::White,
            text_secondary: ThemeColor::Gray,
            text_dim: ThemeColor::DarkGray,
            background: ThemeColor::Black,
        }
    }
}

impl Default for ColorScheme {
    fn default() -> (scheme: Self)
        ensures
            scheme == spec_dark_theme(),
    {
        ColorScheme::dark_theme()
    }
}

/// A named color scheme.
#[derive(Debug)]
pub struct Theme {
    pub name: String,
    pub colors: ColorScheme,
}

impl Clone for Theme {
    fn clone(&self) -> (out: Self)
        ensures
            out == *self,
    {
        Theme { name: self.name.clone(), colors: self.colors }
    }
}

impl Default for Theme {
    fn default() -> (theme: Self)
        ensures
            theme.name@ == "dark"@,
            theme.colors == spec_dark_theme(),
    {
        Theme { name: crate::text::owned("dark"), colors: ColorScheme::dark_theme() }
    }
}


// ---------------------------------------------------------------------
// Names of colors
// ---------------------------------------------------------------------

/// The value of a digit in the given radix, at most 16.
pub open spec fn digit_value(c: char, radix: nat) -> Option<nat> {
    let u = c as u32;
    let v: nat = if 0x30 <= u <= 0x39 {
        (u - 0x30) as nat
    } else if 0x61 <= u <= 0x66 {
        (u - 0x61 + 10) as nat
    } else if 0x41 <= u <= 0x46 {
        (u - 0x41 + 10) as nat
    } else {
        16
    };
    if v < radix {
        Some(v)
    } else {
        None
    }
}

/// The number that digits spell in the given radix, where all of them are
/// digits.
pub open spec fn digits_value(digits: Seq<char>, radix: nat) -> Option<nat>
    decreases digits.len(),
{
    if digits.len() == 0 {
        Some(0)
    } else {
        match (digits_value(digits.drop_last(), radix), digit_value(digits.last(), radix)) {
            (Some(v), Some(d)) => Some(v * radix + d),
            _ => None,
        }
    }
}

/// The byte that a text spells in the given radix: one digit at least,
/// after a `+` or without one, with a value below 256.
pub open spec fn byte_value(s: Seq<char>, radix: nat) -> Option<u8> {
    let digits = if s.len() > 0 && s[0] == '+' {
        s.skip(1)
    } else {
        s
    };
    if digits.len() == 0 {
        None
    } else {
        match digits_value(digits, radix) {
            Some(v) => if v <= 255 {
                Some(v as u8)
            } else {
                None
            },
            None => None,
        }
    }
}

/// The value of a digit.
fn digit_value_of(c: char, radix: u32) -> (r: Option<u32>)
    requires
        radix <= 16,
    ensures
        match r {
            Some(v) => digit_value(c, radix as nat) == Some(v as nat) && v < radix,
            None => digit_value(c, radix as nat) is None,
        },
{
    let u: u32 = c as u32;
    let v: u32 = if 0x30 <= u && u <= 0x39 {
        u - 0x30
    } else if 0x61 <= u && u <= 0x66 {
        u - 0x61 + 10
    } else if 0x41 <= u && u <= 0x46 {
        u - 0x41 + 10
    } else {
        16
    };
    if v < radix {
        Some(v)
    } else {
        None
    }
}

/// Once the digits read spell more than 255, so do all the digits.
proof fn lemma_digits_value_grows(digits: Seq<char>, radix: nat, k: int)
    requires
        1 <= radix,
        0 <= k <= digits.len(),
        digits_value(digits.take(k), radix) matches Some(v) && v > 255,
    ensures
        digits_value(digits, radix) matches Some(v) ==> v > 255,
    decreases digits.len() - k,
{
    if k < digits.len() {
        assert(digits.take(k + 1).drop_last() =~= digits.take(k));
        assert(digits.take(k + 1).last() == digits[k]);
        let v = digits_value(digits.take(k), radix)->0;
        match digit_value(digits[k], radix) {
            Some(d) => {
                assert(v * radix + d > 255) by (nonlinear_arith)
                    requires
                        v > 255,
                        radix >= 1,
                        d >= 0,
                ;
                lemma_digits_value_grows(digits, radix, k + 1);
            },
            None => {
                lemma_digits_value_none(digits, radix, k + 1);
            },
        }
    } else {
        assert(digits.take(k) =~= digits);
    }
}

/// Digits among which one is none spell no number.
proof fn lemma_digits_value_none(digits: Seq<char>, radix: nat, k: int)
    requires
        0 <= k <= digits.len(),
        digits_value(digits.take(k), radix) is None,
    ensures
        digits_value(digits, radix) is None,
    decreases digits.len() - k,
{
    if k < digits.len() {
        assert(digits.take(k + 1).drop_last() =~= digits.take(k));
        lemma_digits_value_none(digits, radix, k + 1);
    } else {
        assert(digits.take(k) =~= digits);
    }
}

/// Reads a byte in the given radix.
pub fn parse_byte(s: &[char], radix: u32) -> (r: Option<u8>)
    requires
        1 <= radix <= 16,
    ensures
        r == byte_value(s@, radix as nat),
{
    let start: usize = if s.len() > 0 && s[0] == '+' {
        1
    } else {
        0
    };
    if start == s.len() {
        return None;
    }
    let ghost digits = s@.skip(start as int);
    proof {
        assert(s@.skip(0) =~= s@);
    }
    let mut value: u32 = 0;
    let mut i: usize = start;
    proof {
        assert(digits.take(0) =~= Seq::<char>::empty());
    }
    while i < s.len()
        invariant
            start <= i <= s.len(),
            1 <= radix <= 16,
            digits == s@.skip(start as int),
            digits.len() > 0,
            digits == (if s@.len() > 0 && s@[0] == '+' {
                s@.skip(1)
            } else {
                s@
            }),
            value <= 255,
            digits_value(digits.take(i - start), radix as nat) == Some(value as nat),
        decreases s.len() - i,
    {
        proof {
            assert(digits.take(i - start + 1).drop_last() =~= digits.take(i - start));
            assert(digits.take(i - start + 1).last() == s@[i as int]);
        }
        match digit_value_of(s[i], radix) {
            Some(d) => {
                assert(value * radix <= 255 * 16) by (nonlinear_arith)
                    requires
                        value <= 255,
                        radix <= 16,
                ;
                let next = value * radix + d;
                if next > 255 {
                    proof {
                        assert(digits_value(digits.take(i - start + 1), radix as nat) == Some(
                            next as nat,
                        ));
                        lemma_digits_value_grows(digits, radix as nat, i - start + 1);
                    }
                    return None;
                }
                value = next;
            },
            None => {
                proof {
                    assert(digits_value(digits.take(i - start + 1), radix as nat) is None);
                    lemma_digits_value_none(digits, radix as nat, i - start + 1);
                }
                return None;
            },
        }
        i += 1;
    }
    proof {
        assert(digits.take(s@.len() - start) =~= digits);
    }
    Some(value as u8)
}

/// The color that a name in lower case stands for: one of the seventeen
/// names, some of them in two spellings; `color` and the number of an
/// indexed color; or `#` and three bytes in two hexadecimal digits each.
pub open spec fn color_of_name(name: Seq<char>) -> Option<ThemeColor> {
    if name == "reset"@ {
        Some(ThemeColor::Reset)
    } else if name == "black"@ {
        Some(ThemeColor::Black)
    } else if name == "red"@ {
        Some(ThemeColor::Red)
    } else if name == "green"@ {
        Some(ThemeColor::Green)
    } else if name == "yellow"@ {
        Some(ThemeColor::Yellow)
    } else if name == "blue"@ {
        Some(ThemeColor::Blue)
    } else if name == "magenta"@ {
        Some(ThemeColor::Magenta)
    } else if name == "cyan"@ {
        Some(ThemeColor::Cyan)
    } else if name == "gray"@ || name == "grey"@ {
        Some(ThemeColor::Gray)
    } else if name == "dark_gray"@ || name == "dark_grey"@ {
        Some(ThemeColor::DarkGray)
    } else if name == "light_red"@ {
        Some(ThemeColor::LightRed)
    } else if name == "light_green"@ {
        Some(ThemeColor::LightGreen)
    } else if name == "light_yellow"@ {
        Some(ThemeColor::LightYellow)
    } else if name == "light_blue"@ {
        Some(ThemeColor::LightBlue)
    } else if name == "light_magenta"@ {
        Some(ThemeColor::LightMagenta)
    } else if name == "light_cyan"@ {
        Some(ThemeColor::LightCyan)
    } else if name == "white"@ {
        Some(ThemeColor::White)
    } else if "color"@.is_prefix_of(name) {
        match byte_value(name.skip(5), 10) {
            Some(n) => Some(ThemeColor::Indexed(n)),
            None => None,
        }
    } else if name.len() == 7 && name[0] == '#' {
        match (
            byte_value(name.subrange(1, 3), 16),
            byte_value(name.subrange(3, 5), 16),
            byte_value(name.subrange(5, 7), 16),
        ) {
            (Some(r), Some(g), Some(b)) => Some(ThemeColor::Rgb(r, g, b)),
            _ => None,
        }
    } else {
        None
    }
}

/// The color that a name in lower case stands for.
pub fn color_for_name(name: &[char]) -> (r: Option<ThemeColor>)
    ensures
        r == color_of_name(name@),
{
    if spells(name, "reset") {
        Some(ThemeColor::Reset)
    } else if spells(name, "black") {
        Some(ThemeColor::Black)
    } else if spells(name, "red") {
        Some(ThemeColor::Red)
    } else if spells(name, "green") {
        Some(ThemeColor::Green)
    } else if spells(name, "yellow") {
        Some(ThemeColor::Yellow)
    } else if spells(name, "blue") {
        Some(ThemeColor::Blue)
    } else if spells(name, "magenta") {
        Some(ThemeColor::Magenta)
    } else if spells(name, "cyan") {
        Some(ThemeColor::Cyan)
    } else if spells(name, "gray") || spells(name, "grey") {
        Some(ThemeColor::Gray)
    } else if spells(name, "dark_gray") || spells(name, "dark_grey") {
        Some(ThemeColor::DarkGray)
    } else if spells(name, "light_red") {
        Some(ThemeColor::LightRed)
    } else if spells(name, "light_green") {
        Some(ThemeColor::LightGreen)
    } else if spells(name, "light_yellow") {
        Some(ThemeColor::LightYellow)
    } else if spells(name, "light_blue") {
        Some(ThemeColor::LightBlue)
    } else if spells(name, "light_magenta") {
        Some(ThemeColor::LightMagenta)
    } else if spells(name, "light_cyan") {
        Some(ThemeColor::LightCyan)
    } else if spells(name, "white") {
        Some(ThemeColor::White)
    } else {
        let prefix = chars_of("color");
        proof {
            reveal_strlit("color");
        }
        if crate::text::starts_with(name, prefix.as_slice()) {
            let number = copy_range(name, 5, name.len());
            proof {
                assert(name@.skip(5) =~= name@.subrange(5, name@.len() as int));
            }
            match parse_byte(number.as_slice(), 10) {
                Some(n) => Some(ThemeColor::Indexed(n)),
                None => None,
            }
        } else if name.len() == 7 && name[0] == '#' {
            let r = parse_byte(copy_range(name, 1, 3).as_slice(), 16);
            let g = parse_byte(copy_range(name, 3, 5).as_slice(), 16);
            let b = parse_byte(copy_range(name, 5, 7).as_slice(), 16);
            match (r, g, b) {
                (Some(r), Some(g), Some(b)) => Some(ThemeColor::Rgb(r, g, b)),
                _ => None,
            }
        } else {
            None
        }
    }
}

/// A hexadecimal digit, in lower case.
pub open spec fn hex_digit(d: int) -> char {
    if d < 10 {
        crate::text::digit_char(d)
    } else if d == 10 {
        'a'
    } else if d == 11 {
        'b'
    } else if d == 12 {
        'c'
    } else if d == 13 {
        'd'
    } else if d == 14 {
        'e'
    } else {
        'f'
    }
}

/// A byte in two hexadecimal digits.
pub open spec fn hex_byte(b: u8) -> Seq<char> {
    seq![hex_digit(b as int / 16), hex_digit(b as int % 16)]
}

/// The name of a color, as the configuration writes it.
pub open spec fn color_name(color: ThemeColor) -> Seq<char> {
    match color {
        ThemeColor::Reset => "reset"@,
        ThemeColor::Black => "black"@,
        ThemeColor::Red => "red"@,
        ThemeColor::Green => "green"@,
        ThemeColor::Yellow => "yellow"@,
        ThemeColor::Blue => "blue"@,
        ThemeColor::Magenta => "magenta"@,
        ThemeColor::Cyan => "cyan"@,
        ThemeColor::Gray => "gray"@,
        ThemeColor::DarkGray => "dark_gray"@,
        ThemeColor::LightRed => "light_red"@,
        ThemeColor::LightGreen => "light_green"@,
        ThemeColor::LightYellow => "light_yellow"@,
        ThemeColor::LightBlue => "light_blue"@,
        ThemeColor::LightMagenta => "light_magenta"@,
        ThemeColor::LightCyan => "light_cyan"@,
        ThemeColor::White => "white"@,
        ThemeColor::Indexed(n) => "color"@ + decimal(n as nat),
        ThemeColor::Rgb(r, g, b) => seq!['#'] + hex_byte(r) + hex_byte(g) + hex_byte(b),
    }
}

/// A hexadecimal digit.
fn hex_digit_of(d: u8) -> (c: char)
    requires
        d < 16,
    ensures
        c == hex_digit(d as int),
{
    if d == 0 {
        '0'
    } else if d == 1 {
        '1'
    } else if d == 2 {
        '2'
    } else if d == 3 {
        '3'
    } else if d == 4 {
        '4'
    } else if d == 5 {
        '5'
    } else if d == 6 {
        '6'
    } else if d == 7 {
        '7'
    } else if d == 8 {
        '8'
    } else if d == 9 {
        '9'
    } else if d == 10 {
        'a'
    } else if d == 11 {
        'b'
    } else if d == 12 {
        'c'
    } else if d == 13 {
        'd'
    } else if d == 14 {
        'e'
    } else {
        'f'
    }
}

impl ThemeColor {
    /// The name of the color, as the configuration writes it.
    pub fn name(&self) -> (name: String)
        ensures
            name@ == color_name(*self),
    {
        match self {
            ThemeColor::Reset => owned("reset"),
            ThemeColor::Black => owned("black"),
            ThemeColor::Red => owned("red"),
            ThemeColor::Green => owned("green"),
            ThemeColor::Yellow => owned("yellow"),
            ThemeColor::Blue => owned("blue"),
            ThemeColor::Magenta => owned("magenta"),
            ThemeColor::Cyan => owned("cyan"),
            ThemeColor::Gray => owned("gray"),
            ThemeColor::DarkGray => owned("dark_gray"),
            ThemeColor::LightRed => owned("light_red"),
            ThemeColor::LightGreen => owned("light_green"),
            ThemeColor::LightYellow => owned("light_yellow"),
            ThemeColor::LightBlue => owned("light_blue"),
            ThemeColor::LightMagenta => owned("light_magenta"),
            ThemeColor::LightCyan => owned("light_cyan"),
            ThemeColor::White => owned("white"),
            ThemeColor::Indexed(n) => {
                let mut chars = chars_of("color");
                append_chars(&mut chars, decimal_chars(*n as u64).as_slice());
                string_of(chars.as_slice())
            },
            ThemeColor::Rgb(r, g, b) => {
                let mut chars: Vec<char> = Vec::new();
                chars.push('#');
                chars.push(hex_digit_of(*r / 16));
                chars.push(hex_digit_of(*r % 16));
                chars.push(hex_digit_of(*g / 16));
                chars.push(hex_digit_of(*g % 16));
                chars.push(hex_digit_of(*b / 16));
                chars.push(hex_digit_of(*b % 16));
                proof {
                    assert(chars@ =~= seq!['#'] + hex_byte(*r) + hex_byte(*g) + hex_byte(*b));
                }
                string_of(chars.as_slice())
            },
        }
    }

    /// The color that a name stands for, without regard to case; none for
    /// a name that is not known.
    pub fn from_name(value: &str) -> (r: Option<ThemeColor>)
        ensures
            r == color_of_name(lowercase_of(value@)),
    {
        let lower = lowercase_chars(value);
        color_for_name(lower.as_slice())
    }
}

} // verus!
