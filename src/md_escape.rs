//! MarkdownV2 helpers: user text is escaped before a style is applied.

use vstd::prelude::*;

verus! {

/// The characters that MarkdownV2 treats as markup outside code.
pub open spec fn is_markup_char(c: char) -> bool {
    c == '_' || c == '*' || c == '[' || c == ']' || c == '(' || c == ')' || c == '~' || c == '`'
        || c == '>' || c == '#' || c == '+' || c == '-' || c == '=' || c == '|' || c == '{'
        || c == '}' || c == '.' || c == '!'
}

/// `s` with a backslash put before each markup character.
pub open spec fn escaped(s: Seq<char>) -> Seq<char>
    decreases s.len(),
{
    if s.len() == 0 {
        s
    } else {
        let c = s.last();
        escaped(s.drop_last()) + if is_markup_char(c) {
            seq!['\\', c]
        } else {
            seq![c]
        }
    }
}

/// `s` with a backslash put before each backslash and backtick.
pub open spec fn code_escaped(s: Seq<char>) -> Seq<char>
    decreases s.len(),
{
    if s.len() == 0 {
        s
    } else {
        let c = s.last();
        code_escaped(s.drop_last()) + if c == '\\' || c == '`' {
            seq!['\\', c]
        } else {
            seq![c]
        }
    }
}

pub open spec fn bolded(s: Seq<char>) -> Seq<char> {
    seq!['*'] + s + seq!['*']
}

/// Italic markup; a text that itself starts and ends with `__` loses its
/// last character and is closed with a backslash, `r` and `__`.
pub open spec fn italicized(s: Seq<char>) -> Seq<char> {
    if s.len() >= 2 && s.take(2) == seq!['_', '_'] && s.skip(s.len() - 2) == seq!['_', '_'] {
        seq!['_'] + s.drop_last() + seq!['\\', 'r', '_', '_']
    } else {
        seq!['_'] + s + seq!['_']
    }
}

/// Underline markup; a text that starts and ends with `_` is closed with a
/// backslash, `r` and `__`.
pub open spec fn underlined(s: Seq<char>) -> Seq<char> {
    if s.len() >= 1 && s[0] == '_' && s.last() == '_' {
        seq!['_', '_'] + s + seq!['\\', 'r', '_', '_']
    } else {
        seq!['_', '_'] + s + seq!['_', '_']
    }
}

pub open spec fn code_blocked(s: Seq<char>) -> Seq<char> {
    seq!['`', '`', '`', '\n'] + code_escaped(s) + seq!['\n', '`', '`', '`']
}

/// Relies on teloxide's `markdown::escape`: one `replace` per markup
/// character, each putting a backslash before it.
#[verifier::external_body]
pub(crate) fn escape_markup(s: &str) -> (r: String)
    ensures
        r@ == escaped(s@),
{
    teloxide::utils::markdown::escape(s)
}

/// Relies on teloxide's `markdown::bold`: `*` on both sides.
#[verifier::external_body]
pub(crate) fn bold_markup(s: &str) -> (r: String)
    ensures
        r@ == bolded(s@),
{
    teloxide::utils::markdown::bold(s)
}

/// Relies on teloxide's `markdown::italic`: `_` on both sides, with the
/// backslash-`r`-`__` ending for a text wrapped in `__`.
#[verifier::external_body]
pub(crate) fn italic_markup(s: &str) -> (r: String)
    ensures
        r@ == italicized(s@),
{
    teloxide::utils::markdown::italic(s)
}

/// Relies on teloxide's `markdown::underline`: `__` on both sides, with the
/// backslash-`r`-`__` ending for a text wrapped in `_`.
#[verifier::external_body]
pub(crate) fn underline_markup(s: &str) -> (r: String)
    ensures
        r@ == underlined(s@),
{
    teloxide::utils::markdown::underline(s)
}

/// Relies on teloxide's `markdown::code_block`: the text with backslashes
/// and backticks escaped, between fence lines.
#[verifier::external_body]
pub(crate) fn code_block_markup(s: &str) -> (r: String)
    ensures
        r@ == code_blocked(s@),
{
    teloxide::utils::markdown::code_block(s)
}

/// The text, escaped, in bold.
pub fn bold(text: &str) -> (r: String)
    ensures
        r@ == bolded(escaped(text@)),
{
    let e = escape_markup(text);
    bold_markup(e.as_str())
}

/// The text, escaped, in italics.
pub fn italic(text: &str) -> (r: String)
    ensures
        r@ == italicized(escaped(text@)),
{
    let e = escape_markup(text);
    italic_markup(e.as_str())
}

/// The text, escaped, underlined.
pub fn underline(text: &str) -> (r: String)
    ensures
        r@ == underlined(escaped(text@)),
{
    let e = escape_markup(text);
    underline_markup(e.as_str())
}

} // verus!
