//! Text wrapped in the escape sequences that colour it on a terminal.

use vstd::prelude::*;
use owo_colors::OwoColorize;
use crate::color_scheme::Rgb;

verus! {

/// The digit character of a number below ten.
pub open spec fn digit(n: nat) -> char {
    if n == 0 {
        '0'
    } else if n == 1 {
        '1'
    } else if n == 2 {
        '2'
    } else if n == 3 {
        '3'
    } else if n == 4 {
        '4'
    } else if n == 5 {
        '5'
    } else if n == 6 {
        '6'
    } else if n == 7 {
        '7'
    } else if n == 8 {
        '8'
    } else {
        '9'
    }
}

/// A number written in decimal, without leading zeros.
pub open spec fn decimal(n: nat) -> Seq<char>
    decreases n,
{
    if n < 10 {
        seq![digit(n)]
    } else {
        decimal(n / 10).push(digit(n % 10))
    }
}

/// The escape character followed by `[`, which opens every sequence.
pub open spec fn csi() -> Seq<char> {
    seq!['\u{1b}', '[']
}

/// The three parts of a colour as written inside an escape sequence:
/// `r;g;b`.
pub open spec fn rgb_text(c: Rgb) -> Seq<char> {
    decimal(c.r as nat) + seq![';'] + decimal(c.g as nat) + seq![';'] + decimal(c.b as nat)
}

/// `text` in the foreground colour `c`: the sequence that sets the colour,
/// the text, and the sequence that sets the default foreground again.
pub open spec fn foreground(text: Seq<char>, c: Rgb) -> Seq<char> {
    csi() + seq!['3', '8', ';', '2', ';'] + rgb_text(c) + seq!['m'] + text + csi() + seq![
        '3',
        '9',
        'm',
    ]
}

/// `text` on the background colour `c`: the sequence that sets the colour,
/// the text, and the sequence that sets the default background again.
pub open spec fn background(text: Seq<char>, c: Rgb) -> Seq<char> {
    csi() + seq!['4', '8', ';', '2', ';'] + rgb_text(c) + seq!['m'] + text + csi() + seq![
        '4',
        '9',
        'm',
    ]
}

/// `text` in bold: the sequence that sets bold, the text, and the sequence
/// that resets all attributes.
pub open spec fn bold(text: Seq<char>) -> Seq<char> {
    csi() + seq!['1', 'm'] + text + csi() + seq!['0', 'm']
}

/// `text` in black: the sequence that sets black, the text, and the
/// sequence that sets the default foreground again.
pub open spec fn black(text: Seq<char>) -> Seq<char> {
    csi() + seq!['3', '0', 'm'] + text + csi() + seq!['3', '9', 'm']
}

/// `text` on white: the sequence that sets a white background, the text,
/// and the sequence that sets the default background again.
pub open spec fn on_white(text: Seq<char>) -> Seq<char> {
    csi() + seq!['4', '7', 'm'] + text + csi() + seq!['4', '9', 'm']
}

/// `text` in black on white.
pub open spec fn black_on_white(text: Seq<char>) -> Seq<char> {
    on_white(black(text))
}

/// `OwoColorize::truecolor` of owo-colors, formatted: the text between the
/// sequence `ESC[38;2;r;g;bm` and the sequence `ESC[39m`.
#[verifier::external_body]
pub(crate) fn paint(text: &str, c: Rgb) -> (r: String)
    ensures
        r@ == foreground(text@, c),
{
    text.truecolor(c.r, c.g, c.b).to_string()
}

/// `OwoColorize::bold` of owo-colors, formatted: the text between `ESC[1m`
/// and `ESC[0m`.
#[verifier::external_body]
pub(crate) fn embolden(text: &str) -> (r: String)
    ensures
        r@ == bold(text@),
{
    text.bold().to_string()
}

/// `OwoColorize::on_truecolor` of owo-colors, formatted: the text between
/// the sequence `ESC[48;2;r;g;bm` and the sequence `ESC[49m`.
#[verifier::external_body]
pub(crate) fn paint_on(text: &str, c: Rgb) -> (r: String)
    ensures
        r@ == background(text@, c),
{
    text.on_truecolor(c.r, c.g, c.b).to_string()
}

/// `OwoColorize::black` of owo-colors, formatted: the text between
/// `ESC[30m` and `ESC[39m`.
#[verifier::external_body]
pub(crate) fn paint_black(text: &str) -> (r: String)
    ensures
        r@ == black(text@),
{
    text.black().to_string()
}

/// `OwoColorize::on_white` of owo-colors, formatted: the text between
/// `ESC[47m` and `ESC[49m`.
#[verifier::external_body]
pub(crate) fn paint_on_white(text: &str) -> (r: String)
    ensures
        r@ == on_white(text@),
{
    text.on_white().to_string()
}

/// `terminal_size::terminal_size` of terminal_size: the number of columns
/// of the terminal that the process writes to, where there is one. Nothing
/// is known of the number.
#[verifier::external_body]
pub(crate) fn terminal_columns() -> (r: Option<u16>) {
    match terminal_size::terminal_size() {
        Some((terminal_size::Width(w), _)) => Some(w),
        None => None,
    }
}

} // verus!
