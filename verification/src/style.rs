//! Terminal styling, by way of `owo_colors`.
use crate::text;
use owo_colors::OwoColorize;
use vstd::prelude::*;

verus! {

/// A text between a control sequence that starts a style and one that ends it.
pub open spec fn styled(start: Seq<char>, s: Seq<char>, end: Seq<char>) -> Seq<char> {
    start + s + end
}

pub open spec fn yellow_text(s: Seq<char>) -> Seq<char> {
    styled("\u{1b}[33m"@, s, "\u{1b}[39m"@)
}

pub open spec fn green_text(s: Seq<char>) -> Seq<char> {
    styled("\u{1b}[32m"@, s, "\u{1b}[39m"@)
}

pub open spec fn magenta_text(s: Seq<char>) -> Seq<char> {
    styled("\u{1b}[35m"@, s, "\u{1b}[39m"@)
}

pub open spec fn cyan_text(s: Seq<char>) -> Seq<char> {
    styled("\u{1b}[36m"@, s, "\u{1b}[39m"@)
}

pub open spec fn bold_text(s: Seq<char>) -> Seq<char> {
    styled("\u{1b}[1m"@, s, "\u{1b}[0m"@)
}

pub open spec fn dimmed_text(s: Seq<char>) -> Seq<char> {
    styled("\u{1b}[2m"@, s, "\u{1b}[0m"@)
}

/// `OwoColorize::yellow`, rendered: the text between the sequences for a yellow and for
/// the default foreground.
#[verifier::external_body]
pub(crate) fn yellow(s: &str) -> (r: String)
    ensures
        r@ == yellow_text(s@),
{
    s.yellow().to_string()
}

/// `OwoColorize::green`, rendered: the text between the sequences for a green and for
/// the default foreground.
#[verifier::external_body]
pub(crate) fn green(s: &str) -> (r: String)
    ensures
        r@ == green_text(s@),
{
    s.green().to_string()
}

/// `OwoColorize::magenta`, rendered: the text between the sequences for a magenta and
/// for the default foreground.
#[verifier::external_body]
pub(crate) fn magenta(s: &str) -> (r: String)
    ensures
        r@ == magenta_text(s@),
{
    s.magenta().to_string()
}

/// `OwoColorize::cyan`, rendered: the text between the sequences for a cyan and for the
/// default foreground.
#[verifier::external_body]
pub(crate) fn cyan(s: &str) -> (r: String)
    ensures
        r@ == cyan_text(s@),
{
    s.cyan().to_string()
}

/// `OwoColorize::bold`, rendered: the text between the sequences for bold and for a
/// reset of every style.
#[verifier::external_body]
pub(crate) fn bold(s: &str) -> (r: String)
    ensures
        r@ == bold_text(s@),
{
    s.bold().to_string()
}

/// `OwoColorize::dimmed`, rendered: the text between the sequences for dimmed and for a
/// reset of every style.
#[verifier::external_body]
pub(crate) fn dimmed(s: &str) -> (r: String)
    ensures
        r@ == dimmed_text(s@),
{
    s.dimmed().to_string()
}

/// What is styled is shown.
pub proof fn lemma_yellow_shows(s: Seq<char>)
    ensures
        text::contains_text(yellow_text(s), s),
{
    text::lemma_contains_middle("\u{1b}[33m"@, s, "\u{1b}[39m"@);
}

/// What is styled is shown.
pub proof fn lemma_green_shows(s: Seq<char>)
    ensures
        text::contains_text(green_text(s), s),
{
    text::lemma_contains_middle("\u{1b}[32m"@, s, "\u{1b}[39m"@);
}

/// What is styled is shown.
pub proof fn lemma_magenta_shows(s: Seq<char>)
    ensures
        text::contains_text(magenta_text(s), s),
{
    text::lemma_contains_middle("\u{1b}[35m"@, s, "\u{1b}[39m"@);
}

/// What is styled is shown.
pub proof fn lemma_cyan_shows(s: Seq<char>)
    ensures
        text::contains_text(cyan_text(s), s),
{
    text::lemma_contains_middle("\u{1b}[36m"@, s, "\u{1b}[39m"@);
}

/// What is styled is shown.
pub proof fn lemma_bold_shows(s: Seq<char>)
    ensures
        text::contains_text(bold_text(s), s),
{
    text::lemma_contains_middle("\u{1b}[1m"@, s, "\u{1b}[0m"@);
}

/// What is styled is shown.
pub proof fn lemma_dimmed_shows(s: Seq<char>)
    ensures
        text::contains_text(dimmed_text(s), s),
{
    text::lemma_contains_middle("\u{1b}[2m"@, s, "\u{1b}[0m"@);
}

} // verus!
