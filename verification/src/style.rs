use vstd::prelude::*;
use vstd::string::StringExecFns;
use colored::Colorize;
use crate::status::Status;

verus! {

/// The ANSI reset sequence that ends a colored span.
pub open spec fn reset_seq() -> Seq<char> {
    "\u{1b}[0m"@
}

/// Text wrapped in an ANSI color escape: `ESC [ <code> m <text> ESC [ 0 m`.
pub open spec fn ansi_wrap(code: Seq<char>, t: Seq<char>) -> Seq<char> {
    "\u{1b}["@ + code + "m"@ + t + reset_seq()
}

pub open spec fn green_code() -> Seq<char> {
    "32"@
}

pub open spec fn red_code() -> Seq<char> {
    "31"@
}

pub open spec fn yellow_code() -> Seq<char> {
    "33"@
}

/// Whether the text itself contains an ANSI reset sequence.  The color
/// library re-styles around inner resets, so only texts free of them
/// have the simple wrapped form.
pub open spec fn has_reset(t: Seq<char>) -> bool {
    exists|i: int| 0 <= i && i + 4 <= t.len() && #[trigger] t.subrange(i, i + 4) == reset_seq()
}

/// What a coloring call may return: the text unchanged (coloring is
/// switched off for the process) or the text wrapped in the escape
/// sequence for `code`.  Texts that already hold a reset sequence are
/// left unconstrained.
pub open spec fn styled_as(r: Seq<char>, t: Seq<char>, code: Seq<char>) -> bool {
    has_reset(t) || r == t || r == ansi_wrap(code, t)
}

/// Relies on `colored::Colorize::green` and `ColoredString`'s `Display`
/// impl: with coloring enabled the text is wrapped in `ESC[32m`/`ESC[0m`,
/// otherwise it is written unchanged.
#[verifier::external_body]
fn paint_green(s: &str) -> (r: String)
    ensures
        styled_as(r@, s@, green_code()),
{
    s.green().to_string()
}

/// Relies on `colored::Colorize::red` and `ColoredString`'s `Display`
/// impl: with coloring enabled the text is wrapped in `ESC[31m`/`ESC[0m`,
/// otherwise it is written unchanged.
#[verifier::external_body]
fn paint_red(s: &str) -> (r: String)
    ensures
        styled_as(r@, s@, red_code()),
{
    s.red().to_string()
}

/// Relies on `colored::Colorize::yellow` and `ColoredString`'s `Display`
/// impl: with coloring enabled the text is wrapped in `ESC[33m`/`ESC[0m`,
/// otherwise it is written unchanged.
#[verifier::external_body]
fn paint_yellow(s: &str) -> (r: String)
    ensures
        styled_as(r@, s@, yellow_code()),
{
    s.yellow().to_string()
}

/// A piece of display text that is styled according to a status when
/// rendered.
#[derive(Debug, Clone, PartialEq, Eq)]
pub struct Label(pub String);

/// How a label must come out for a given status: green for success, red
/// for failure, yellow while running, a literal ` [manual]` suffix for
/// manual jobs, and verbatim for anything else.
pub open spec fn label_rendered(r: Seq<char>, t: Seq<char>, st: Status) -> bool {
    match st {
        Status::Success => styled_as(r, t, green_code()),
        Status::Failed => styled_as(r, t, red_code()),
        Status::Running => styled_as(r, t, yellow_code()),
        Status::Manual => r == t + " [manual]"@,
        Status::Unknown => r == t,
        Status::Other(_) => r == t,
    }
}

impl Label {
    /// The label's raw text.
    pub open spec fn text(self) -> Seq<char> {
        self.0@
    }

    /// Styles the label for the given status.
    pub fn to_string(&self, status: &Status) -> (r: String)
        ensures
            label_rendered(r@, self.0@, *status),
    {
        match status {
            Status::Success => paint_green(self.0.as_str()),
            Status::Failed => paint_red(self.0.as_str()),
            Status::Running => paint_yellow(self.0.as_str()),
            Status::Manual => self.0.clone().concat(" [manual]"),
            Status::Unknown => self.0.clone(),
            Status::Other(_) => self.0.clone(),
        }
    }
}

} // verus!
