//! Terminal colors: names, palette numbers and the escape sequences that
//! switch them on and off.

use vstd::prelude::*;
use crate::text::{extend_chars, string_of};

verus! {

#[derive(Debug)]
pub enum ColorError {
    InvalidColor(String),
}

#[derive(PartialEq, Eq, Structural, Clone, Copy, Debug)]
pub enum Color {
    Red,
    Green,
    Orange,
    Blue,
    Purple,
    BlueGreen,
    White,
    Gray,
    DarkRed,
    BrightGreen,
    Pink,
}

pub open spec fn color_number(c: Color) -> u8 {
    match c {
        Color::Red => 1,
        Color::Green => 2,
        Color::Orange => 3,
        Color::Blue => 4,
        Color::Purple => 5,
        Color::BlueGreen => 6,
        Color::White => 7,
        Color::Gray => 8,
        Color::DarkRed => 9,
        Color::BrightGreen => 34,
        Color::Pink => 200,
    }
}

pub open spec fn color_named(s: Seq<char>) -> Option<Color> {
    if s == "red"@ {
        Some(Color::Red)
    } else if s == "green"@ {
        Some(Color::Green)
    } else if s == "orange"@ {
        Some(Color::Orange)
    } else if s == "blue"@ {
        Some(Color::Blue)
    } else if s == "purple"@ {
        Some(Color::Purple)
    } else if s == "bluegreen"@ {
        Some(Color::BlueGreen)
    } else if s == "white"@ {
        Some(Color::White)
    } else if s == "gray"@ {
        Some(Color::Gray)
    } else if s == "darkred"@ {
        Some(Color::DarkRed)
    } else if s == "brightgreen"@ {
        Some(Color::BrightGreen)
    } else if s == "pink"@ {
        Some(Color::Pink)
    } else {
        None
    }
}

fn named(t: &String, name: &str) -> (r: bool)
    ensures
        r == (t@ == name@),
{
    *t == name.to_owned()
}

impl Color {
    /// The color's number in the 256-color palette.
    pub fn to_number(&self) -> (r: u8)
        ensures
            r == color_number(*self),
    {
        match self {
            Color::Red => 1,
            Color::Green => 2,
            Color::Orange => 3,
            Color::Blue => 4,
            Color::Purple => 5,
            Color::BlueGreen => 6,
            Color::White => 7,
            Color::Gray => 8,
            Color::DarkRed => 9,
            Color::BrightGreen => 34,
            Color::Pink => 200,
        }
    }

    /// The color of a lower-case name; any other text is an invalid color.
    pub fn from_string(str: &str) -> (r: Result<Color, ColorError>)
        ensures
            match color_named(str@) {
                Some(c) => r is Ok && r->Ok_0 == c,
                None => r is Err && r->Err_0->InvalidColor_0@ == str@,
            },
    {
        let t = str.to_owned();
        if named(&t, "red") {
            Ok(Color::Red)
        } else if named(&t, "green") {
            Ok(Color::Green)
        } else if named(&t, "orange") {
            Ok(Color::Orange)
        } else if named(&t, "blue") {
            Ok(Color::Blue)
        } else if named(&t, "purple") {
            Ok(Color::Purple)
        } else if named(&t, "bluegreen") {
            Ok(Color::BlueGreen)
        } else if named(&t, "white") {
            Ok(Color::White)
        } else if named(&t, "gray") {
            Ok(Color::Gray)
        } else if named(&t, "darkred") {
            Ok(Color::DarkRed)
        } else if named(&t, "brightgreen") {
            Ok(Color::BrightGreen)
        } else if named(&t, "pink") {
            Ok(Color::Pink)
        } else {
            Err(ColorError::InvalidColor(t))
        }
    }
}

pub open spec fn digit(d: nat) -> char {
    if d == 0 {
        '0'
    } else if d == 1 {
        '1'
    } else if d == 2 {
        '2'
    } else if d == 3 {
        '3'
    } else if d == 4 {
        '4'
    } else if d == 5 {
        '5'
    } else if d == 6 {
        '6'
    } else if d == 7 {
        '7'
    } else if d == 8 {
        '8'
    } else {
        '9'
    }
}

/// The decimal digits of `n`, without leading zeros.
pub open spec fn decimal(n: nat) -> Seq<char>
    decreases n,
{
    if n < 10 {
        seq![digit(n)]
    } else {
        decimal(n / 10).push(digit(n % 10))
    }
}

fn digit_char(d: u8) -> (r: char)
    requires
        d < 10,
    ensures
        r == digit(d as nat),
{
    if d == 0 {
        '0'
    } else if d == 1 {
        '1'
    } else if d == 2 {
        '2'
    } else if d == 3 {
        '3'
    } else if d == 4 {
        '4'
    } else if d == 5 {
        '5'
    } else if d == 6 {
        '6'
    } else if d == 7 {
        '7'
    } else if d == 8 {
        '8'
    } else {
        '9'
    }
}

fn decimal_of(n: u8) -> (r: Vec<char>)
    ensures
        r@ == decimal(n as nat),
{
    let mut r: Vec<char> = Vec::new();
    if n >= 100 {
        r.push(digit_char(n / 100));
    }
    if n >= 10 {
        r.push(digit_char(n / 10 % 10));
    }
    r.push(digit_char(n % 10));
    proof {
        let m = n as nat;
        if m >= 100 {
            assert(decimal(m) == decimal(m / 10).push(digit(m % 10)));
            assert(decimal(m / 10) == decimal(m / 10 / 10).push(digit(m / 10 % 10)));
            assert(m / 10 / 10 == m / 100);
            assert(decimal(m / 100) == seq![digit(m / 100)]);
            assert(r@ =~= decimal(m));
        } else if m >= 10 {
            assert(decimal(m) == decimal(m / 10).push(digit(m % 10)));
            assert(decimal(m / 10) == seq![digit(m / 10)]);
            assert(m / 10 % 10 == m / 10);
            assert(r@ =~= decimal(m));
        } else {
            assert(r@ =~= decimal(m));
        }
    }
    r
}

/// The escape sequence that selects palette color `code` for the text
/// (`is_fg`) or its background.
pub open spec fn color_code_text(code: u8, is_fg: bool) -> Seq<char> {
    seq!['\x1b', '[', if is_fg {
        '3'
    } else {
        '4'
    }, '8', ';', '5', ';'] + decimal(code as nat) + seq!['m']
}

fn escape_of(code: u8, is_fg: bool) -> (r: String)
    ensures
        r@ == color_code_text(code, is_fg),
{
    let mut v = vec!['\x1b', '[', if is_fg {
        '3'
    } else {
        '4'
    }, '8', ';', '5', ';'];
    let d = decimal_of(code);
    extend_chars(&mut v, &d);
    v.push('m');
    assert(v@ =~= color_code_text(code, is_fg));
    string_of(&v)
}

/// Sets the coming text's color to palette number `color_code`.
pub fn fg_color_code(color_code: u8) -> (r: String)
    ensures
        r@ == color_code_text(color_code, true),
{
    escape_of(color_code, true)
}

/// Sets the coming text's color.
pub fn fg_color(color: Color) -> (r: String)
    ensures
        r@ == color_code_text(color_number(color), true),
{
    fg_color_code(color.to_number())
}

/// Sets the coming background's color to palette number `color_code`.
pub fn bg_color_code(color_code: u8) -> (r: String)
    ensures
        r@ == color_code_text(color_code, false),
{
    escape_of(color_code, false)
}

/// Sets the coming background's color.
pub fn bg_color(color: Color) -> (r: String)
    ensures
        r@ == color_code_text(color_number(color), false),
{
    bg_color_code(color.to_number())
}

/// Resets text and background colors.
pub fn reset_color() -> (r: String)
    ensures
        r@ == seq!['\x1b', '[', '0', 'm'],
{
    let v = vec!['\x1b', '[', '0', 'm'];
    string_of(&v)
}

} // verus!
