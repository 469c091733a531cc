//! Coloured text for the terminal. The colouring itself is the work of the
//! `colored` crate; this module says what comes back from it.

use colored::Colorize;
use vstd::prelude::*;

verus! {

/// The sequence that ends every style: escape, `[0m`.
pub open spec fn reset_code() -> Seq<char> {
    seq!['\u{1b}', '[', '0', 'm']
}

/// The sequence that begins a style with the given parameters.
pub open spec fn style_code(params: Seq<char>) -> Seq<char> {
    seq!['\u{1b}', '['] + params + seq!['m']
}

/// Bold, blue foreground.
pub open spec fn bold_blue() -> Seq<char> {
    seq!['1', ';', '3', '4']
}

/// Bold, magenta foreground.
pub open spec fn bold_magenta() -> Seq<char> {
    seq!['1', ';', '3', '5']
}

/// Red foreground.
pub open spec fn red() -> Seq<char> {
    seq!['3', '1']
}

/// Green foreground.
pub open spec fn green() -> Seq<char> {
    seq!['3', '2']
}

/// Yellow foreground.
pub open spec fn yellow() -> Seq<char> {
    seq!['3', '3']
}

/// `text` with the style `code` begun again behind every reset sequence that
/// `text` itself holds, so that a style inside the text does not end the one
/// around it.
pub open spec fn style_resumed(text: Seq<char>, code: Seq<char>) -> Seq<char>
    decreases text.len(),
{
    if text.len() == 0 {
        text
    } else if reset_code().is_prefix_of(text) {
        reset_code() + code + style_resumed(text.skip(reset_code().len() as int), code)
    } else {
        seq![text[0]] + style_resumed(text.drop_first(), code)
    }
}

/// `text` in the style with the given parameters, as a terminal wants it.
pub open spec fn painted(text: Seq<char>, params: Seq<char>) -> Seq<char> {
    style_code(params) + style_resumed(text, style_code(params)) + reset_code()
}

/// `text` painted, or left plain where colouring is switched off.
pub open spec fn paint_as(text: Seq<char>, params: Seq<char>, on: bool) -> Seq<char> {
    if on {
        painted(text, params)
    } else {
        text
    }
}

/// `cell` is `text`, painted or plain.
pub open spec fn is_painting_of(cell: Seq<char>, text: Seq<char>, params: Seq<char>) -> bool {
    cell == text || cell == painted(text, params)
}

/// Calls `blue` and `bold` of `colored::Colorize` on `text` and writes the
/// result out with `to_string`. `colored` decides by itself, from the
/// terminal, from variables of the process or from an override set by the
/// program, whether it colours at all: the result is the text as it is, or
/// the text in bold blue. Not proved; it holds as long as colouring is not
/// switched during the call.
#[verifier::external_body]
pub(crate) fn paint_bold_blue(text: &str) -> (cell: String)
    ensures
        is_painting_of(cell@, text@, bold_blue()),
{
    text.blue().bold().to_string()
}

/// Calls `magenta` and `bold` of `colored::Colorize` on `text` and writes the
/// result out with `to_string`: the text as it is, or the text in bold
/// magenta. Not proved; it holds as long as colouring is not switched during
/// the call.
#[verifier::external_body]
pub(crate) fn paint_bold_magenta(text: &str) -> (cell: String)
    ensures
        is_painting_of(cell@, text@, bold_magenta()),
{
    text.magenta().bold().to_string()
}

/// Calls `red` of `colored::Colorize` on `text` and writes the result out
/// with `to_string`: the text as it is, or the text in red. Not proved; it
/// holds as long as colouring is not switched during the call.
#[verifier::external_body]
pub(crate) fn paint_red(text: &str) -> (cell: String)
    ensures
        is_painting_of(cell@, text@, red()),
{
    text.red().to_string()
}

/// Calls `green` of `colored::Colorize` on `text` and writes the result out
/// with `to_string`: the text as it is, or the text in green. Not proved; it
/// holds as long as colouring is not switched during the call.
#[verifier::external_body]
pub(crate) fn paint_green(text: &str) -> (cell: String)
    ensures
        is_painting_of(cell@, text@, green()),
{
    text.green().to_string()
}

/// Calls `yellow` of `colored::Colorize` on `text` and writes the result out
/// with `to_string`: the text as it is, or the text in yellow. Not proved; it
/// holds as long as colouring is not switched during the call.
#[verifier::external_body]
pub(crate) fn paint_yellow(text: &str) -> (cell: String)
    ensures
        is_painting_of(cell@, text@, yellow()),
{
    text.yellow().to_string()
}

} // verus!
