use vstd::prelude::*;
use vstd::string::StringExecFns;

verus! {

/// The character for a single decimal digit.
pub open spec fn digit_char(d: int) -> char {
    if d == 0 {
        '0'
    } else if d == 1 {
        '1'
    } else if d == 2 {
        '2'
    } else if d == 3 {
        '3'
    } else if d == 4 {
        '4'
    } else if d == 5 {
        '5'
    } else if d == 6 {
        '6'
    } else if d == 7 {
        '7'
    } else if d == 8 {
        '8'
    } else {
        '9'
    }
}

/// The decimal rendering of a non-negative number, most significant
/// digit first, with no leading zeros.
pub open spec fn dec_of(n: int) -> Seq<char>
    decreases n,
{
    if n < 10 {
        seq![digit_char(n)]
    } else {
        dec_of(n / 10).push(digit_char(n % 10))
    }
}

fn digit_str(d: u16) -> (r: &'static str)
    requires
        d < 10,
    ensures
        r@ == seq![digit_char(d as int)],
{
    proof {
        reveal_strlit("0");
        reveal_strlit("1");
        reveal_strlit("2");
        reveal_strlit("3");
        reveal_strlit("4");
        reveal_strlit("5");
        reveal_strlit("6");
        reveal_strlit("7");
        reveal_strlit("8");
        reveal_strlit("9");
    }
    let r: &'static str = match d {
        0 => "0",
        1 => "1",
        2 => "2",
        3 => "3",
        4 => "4",
        5 => "5",
        6 => "6",
        7 => "7",
        8 => "8",
        _ => "9",
    };
    proof {
        assert(r@ =~= seq![digit_char(d as int)]);
    }
    r
}

/// Renders a number in decimal, exactly as `dec_of` describes.
pub fn dec_string(n: u16) -> (r: String)
    ensures
        r@ == dec_of(n as int),
    decreases n,
{
    if n < 10 {
        let r = digit_str(n).to_owned();
        r
    } else {
        let mut s = dec_string(n / 10);
        s.append(digit_str(n % 10));
        proof {
            assert(s@ =~= dec_of((n / 10) as int).push(digit_char((n % 10) as int)));
            assert(s@ == dec_of(n as int));
        }
        s
    }
}

/// Relies on `termion::cursor::Goto`: `String::from(Goto(x, y))` is
/// `"\x1B[" + y + ";" + x + "H"` with both coordinates in decimal
/// (row first), rendered by `numtoa` with no leading zeros.
#[verifier::external_body]
pub(crate) fn goto_escape(x: u16, y: u16) -> (r: String)
    requires
        x >= 1,
        y >= 1,
    ensures
        r@ == "\u{1b}["@ + dec_of(y as int) + ";"@ + dec_of(x as int) + "H"@,
{
    String::from(termion::cursor::Goto(x, y))
}

/// Relies on `termion::scroll::Up`: its `Display` writes
/// `"\x1B[" + n + "S"` with `n` in decimal.
#[verifier::external_body]
pub(crate) fn scroll_up_escape(n: u16) -> (r: String)
    ensures
        r@ == "\u{1b}["@ + dec_of(n as int) + "S"@,
{
    termion::scroll::Up(n).to_string()
}

/// Relies on `termion::clear::CurrentLine`: its `AsRef<str>` is the
/// constant `"\x1B[2K"`.
#[verifier::external_body]
pub(crate) fn clear_line_escape() -> (r: String)
    ensures
        r@ == "\u{1b}[2K"@,
{
    AsRef::<str>::as_ref(&termion::clear::CurrentLine).to_string()
}

/// Relies on `termion::clear::All`: its `AsRef<str>` is the constant
/// `"\x1B[2J"`.
#[verifier::external_body]
pub(crate) fn clear_all_escape() -> (r: String)
    ensures
        r@ == "\u{1b}[2J"@,
{
    AsRef::<str>::as_ref(&termion::clear::All).to_string()
}

/// Relies on `termion::color::Green::fg_str`: the constant
/// `"\x1B[38;5;2m"`.
#[verifier::external_body]
pub(crate) fn fg_green() -> (r: String)
    ensures
        r@ == "\u{1b}[38;5;2m"@,
{
    termion::color::Green.fg_str().to_string()
}

/// Relies on `termion::color::Red::fg_str`: the constant
/// `"\x1B[38;5;1m"`.
#[verifier::external_body]
pub(crate) fn fg_red() -> (r: String)
    ensures
        r@ == "\u{1b}[38;5;1m"@,
{
    termion::color::Red.fg_str().to_string()
}

/// Relies on `termion::color::LightYellow::fg_str`: the constant
/// `"\x1B[38;5;11m"`.
#[verifier::external_body]
pub(crate) fn fg_light_yellow() -> (r: String)
    ensures
        r@ == "\u{1b}[38;5;11m"@,
{
    termion::color::LightYellow.fg_str().to_string()
}

/// Relies on `termion::color::Reset::fg_str`: the constant
/// `"\x1B[39m"`, which restores the default foreground color.
#[verifier::external_body]
pub(crate) fn fg_reset() -> (r: String)
    ensures
        r@ == "\u{1b}[39m"@,
{
    termion::color::Reset.fg_str().to_string()
}

} // verus!
