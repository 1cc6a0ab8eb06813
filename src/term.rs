//! Terminal primitives: cursor directives, decimal text and display widths.
use vstd::prelude::*;
use unicode_width::UnicodeWidthStr;

verus! {

/// The character of a decimal digit.
pub open spec fn digit_char(d: nat) -> char {
    seq!['0', '1', '2', '3', '4', '5', '6', '7', '8', '9'][d as int]
}

/// The decimal representation of `n`, without sign or leading zeros.
pub open spec fn decimal(n: nat) -> Seq<char>
    decreases n,
{
    if n < 10 {
        seq![digit_char(n)]
    } else {
        decimal(n / 10).push(digit_char(n % 10))
    }
}

/// Number of bytes that a character takes in UTF-8.
pub open spec fn utf8_char_len(c: char) -> nat {
    let v = c as u32;
    if v < 0x80 {
        1
    } else if v < 0x800 {
        2
    } else if v < 0x10000 {
        3
    } else {
        4
    }
}

/// Number of bytes that a text takes in UTF-8.
pub open spec fn utf8_len(s: Seq<char>) -> nat
    decreases s.len(),
{
    if s.len() == 0 {
        0
    } else {
        utf8_len(s.drop_last()) + utf8_char_len(s.last())
    }
}

/// The escape sequence that saves the cursor position.
pub open spec fn save_seq() -> Seq<char> {
    seq!['\x1b', '[', 's']
}

/// The escape sequence that restores the saved cursor position.
pub open spec fn restore_seq() -> Seq<char> {
    seq!['\x1b', '[', 'u']
}

/// The escape sequence that moves the cursor `n` columns right.
pub open spec fn right_seq(n: nat) -> Seq<char> {
    seq!['\x1b', '['] + decimal(n) + seq!['C']
}

/// The escape sequence that moves the cursor to column `x`, row `y` (one-based).
pub open spec fn goto_seq(x: nat, y: nat) -> Seq<char> {
    seq!['\x1b', '['] + decimal(y) + seq![';'] + decimal(x) + seq!['H']
}

/// Display width of a text in columns, East Asian ambiguous characters counting two.
pub uninterp spec fn cjk_width(s: Seq<char>) -> nat;

/// Relies on termion::cursor::Save, whose display is `ESC [ s`.
#[verifier::external_body]
pub(crate) fn cursor_save() -> (r: String)
    ensures
        r@ == save_seq(),
{
    termion::cursor::Save.to_string()
}

/// Relies on termion::cursor::Restore, whose display is `ESC [ u`.
#[verifier::external_body]
pub(crate) fn cursor_restore() -> (r: String)
    ensures
        r@ == restore_seq(),
{
    termion::cursor::Restore.to_string()
}

/// Relies on termion::cursor::Right, whose display is `ESC [ n C`.
#[verifier::external_body]
pub(crate) fn cursor_right(n: u16) -> (r: String)
    ensures
        r@ == right_seq(n as nat),
{
    termion::cursor::Right(n).to_string()
}

/// Relies on termion::cursor::Goto, whose display is `ESC [ y ; x H`; it asserts
/// that the position is not (0, 0).
#[verifier::external_body]
pub(crate) fn cursor_goto(x: u16, y: u16) -> (r: String)
    requires
        x != 0 || y != 0,
    ensures
        r@ == goto_seq(x as nat, y as nat),
{
    termion::cursor::Goto(x, y).to_string()
}

/// Relies on the `Display` of `u64`: its decimal digits.
#[verifier::external_body]
pub(crate) fn decimal_string(n: u64) -> (r: String)
    ensures
        r@ == decimal(n as nat),
{
    n.to_string()
}

/// Relies on unicode_width's `UnicodeWidthStr::width_cjk`: a width that depends
/// on the characters alone, and is zero for the empty text.
#[verifier::external_body]
pub(crate) fn width_cjk(s: &str) -> (r: usize)
    ensures
        r as nat == cjk_width(s@),
        s@.len() == 0 ==> r == 0,
{
    s.width_cjk()
}

} // verus!
