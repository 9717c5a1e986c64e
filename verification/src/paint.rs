//! Terminal colours, through the `colored` crate.
//!
//! Whether `colored` writes escape codes depends on the environment at the
//! moment of the call (the variables `NO_COLOR`, `CLICOLOR` and
//! `CLICOLOR_FORCE`, whether standard output is a terminal, and an override
//! that a program may set). A shown text is therefore the text as it is, or
//! the text between the code that starts its style and the code that resets
//! it. `colored` asks three times while it writes one text, so a program
//! that changes the override from another thread at that moment may get a
//! torn text, with the reset code but without one or both of the other
//! parts.

use vstd::prelude::*;
use colored::Colorize;

verus! {

/// The escape code that resets every style.
pub open spec fn reset_code() -> Seq<char> {
    seq!['\u{1b}', '[', '0', 'm']
}

/// The escape code that starts the style with the parameters `style`.
pub open spec fn start_code(style: Seq<char>) -> Seq<char> {
    seq!['\u{1b}', '['] + style + seq!['m']
}

/// `text` with `start` put behind each reset code in it, so that a style
/// goes on behind a reset that the text brings along.
pub open spec fn reinstated(text: Seq<char>, start: Seq<char>) -> Seq<char>
    decreases text.len(),
{
    if text.len() == 0 {
        text
    } else if text.len() >= 4 && text.take(4) == reset_code() {
        reset_code() + start + reinstated(text.skip(4), start)
    } else {
        seq![text[0]] + reinstated(text.skip(1), start)
    }
}

/// `text` in the style with the parameters `style`, as escape codes.
pub open spec fn painted(style: Seq<char>, text: Seq<char>) -> Seq<char> {
    start_code(style) + reinstated(text, start_code(style)) + reset_code()
}

/// `out` is a torn showing of `text`: colours were on when the writing
/// began and went off before the start code was written, before the style
/// was put behind the resets in the text, or both.
pub open spec fn is_torn(style: Seq<char>, text: Seq<char>, out: Seq<char>) -> bool {
    ||| out == text + reset_code()
    ||| out == start_code(style) + text + reset_code()
    ||| out == reinstated(text, start_code(style)) + reset_code()
}

/// `out` shows `text` in the style `style`: with the escape codes, or
/// without any where colours are off; or torn, where colours were switched
/// while the text was written.
pub open spec fn shows(style: Seq<char>, text: Seq<char>, out: Seq<char>) -> bool {
    ||| out == text
    ||| out == painted(style, text)
    ||| is_torn(style, text, out)
}

/// The parameters of yellow text.
pub open spec fn yellow_style() -> Seq<char> {
    seq!['3', '3']
}

/// The parameters of cyan text.
pub open spec fn cyan_style() -> Seq<char> {
    seq!['3', '6']
}

/// The parameters of blue text.
pub open spec fn blue_style() -> Seq<char> {
    seq!['3', '4']
}

/// The parameters of bold, bright green text.
pub open spec fn title_style() -> Seq<char> {
    seq!['1', ';', '9', '2']
}

/// The parameters of bold, bright cyan text.
pub open spec fn banner_style() -> Seq<char> {
    seq!['1', ';', '9', '6']
}

/// `Colorize::yellow` of `colored`, written out with `to_string`: the text
/// itself where colours are off, else the text between the codes `ESC[33m`
/// and `ESC[0m`, the first repeated behind every reset code inside the text;
/// torn where colours go off during the call.
#[verifier::external_body]
pub(crate) fn yellow(text: &str) -> (out: String)
    ensures
        shows(yellow_style(), text@, out@),
{
    text.yellow().to_string()
}

/// `Colorize::cyan` of `colored`, written out with `to_string`: as `yellow`,
/// with the code `ESC[36m`.
#[verifier::external_body]
pub(crate) fn cyan(text: &str) -> (out: String)
    ensures
        shows(cyan_style(), text@, out@),
{
    text.cyan().to_string()
}

/// `Colorize::blue` of `colored`, written out with `to_string`: as `yellow`,
/// with the code `ESC[34m`.
#[verifier::external_body]
pub(crate) fn blue(text: &str) -> (out: String)
    ensures
        shows(blue_style(), text@, out@),
{
    text.blue().to_string()
}

/// `Colorize::bright_green` and then `Colorize::bold` of `colored`, written
/// out with `to_string`: as `yellow`, with the code `ESC[1;92m`.
#[verifier::external_body]
pub(crate) fn bright_green_bold(text: &str) -> (out: String)
    ensures
        shows(title_style(), text@, out@),
{
    text.bright_green().bold().to_string()
}

/// `Colorize::bright_cyan` and then `Colorize::bold` of `colored`, written
/// out with `to_string`: as `yellow`, with the code `ESC[1;96m`.
#[verifier::external_body]
pub(crate) fn bright_cyan_bold(text: &str) -> (out: String)
    ensures
        shows(banner_style(), text@, out@),
{
    text.bright_cyan().bold().to_string()
}

} // verus!
