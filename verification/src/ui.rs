use vstd::prelude::*;

use unicode_width::UnicodeWidthStr;

use crate::app::{prompt_of, step_of, App, DisplayRow, RowTone, RowView};
use crate::text::decimal;

verus! {

/// The number of terminal columns that unicode-width gives a string with the characters
/// `s`.
pub uninterp spec fn display_width(s: Seq<char>) -> usize;

/// `UnicodeWidthStr::width`; the result is the named width of the characters of `s`.
#[verifier::external_body]
fn width_of(s: &str) -> (r: usize)
    ensures
        r == display_width(s@),
{
    UnicodeWidthStr::width(s)
}

/// The column of the text cursor on the prompt line that starts at column `x` and ends
/// before column `right`, behind the two-column prompt sign and a query `width` columns
/// wide: never past the last column of the line, counted up to `u16::MAX`.
pub open spec fn cursor_column_of(x: u16, right: u16, width: usize) -> u16 {
    let offset: int = if width + 2 > u16::MAX { u16::MAX as int } else { width + 2 };
    let moved: int = if x + offset > u16::MAX { u16::MAX as int } else { x + offset };
    let last: int = if right == 0 { 0 } else { right - 1 };
    (if moved < last { moved } else { last }) as u16
}

/// The cursor column for a query `width` columns wide.
pub fn column_after(x: u16, right: u16, width: usize) -> (r: u16)
    ensures
        r == cursor_column_of(x, right, width),
{
    let offset: u16 = if width <= 65533 { (width + 2) as u16 } else { 65535 };
    let moved: u16 = x.saturating_add(offset);
    let last: u16 = right.saturating_sub(1);
    if moved < last { moved } else { last }
}

/// The cursor column behind the query `query` on the prompt line from `x` to `right`.
pub fn cursor_column(x: u16, right: u16, query: &str) -> (r: u16)
    ensures
        r == cursor_column_of(x, right, display_width(query@)),
{
    column_after(x, right, width_of(query))
}

/// The sign in front of a row.
#[derive(Clone, Copy, Debug, PartialEq, Eq, Structural)]
pub enum Marker {
    Checked,
    Blank,
    Current,
    Create,
}

/// A checked row shows a check mark; otherwise its tone decides.
pub open spec fn marker_of(row: RowView) -> Marker {
    if row.checked {
        Marker::Checked
    } else {
        match row.tone {
            RowTone::Normal => Marker::Blank,
            RowTone::Current => Marker::Current,
            RowTone::Create => Marker::Create,
        }
    }
}

pub open spec fn symbol_of(m: Marker) -> Seq<char> {
    match m {
        Marker::Checked => "✓ "@,
        Marker::Blank => "  "@,
        Marker::Current => "● "@,
        Marker::Create => "＋ "@,
    }
}

impl Marker {
    /// The two columns drawn for the sign.
    pub fn symbol(self) -> (r: &'static str)
        ensures
            r@ == symbol_of(self),
    {
        match self {
            Marker::Checked => "✓ ",
            Marker::Blank => "  ",
            Marker::Current => "● ",
            Marker::Create => "＋ ",
        }
    }
}

/// The sign in front of `row`.
pub fn row_marker(row: &DisplayRow) -> (r: Marker)
    ensures
        r == marker_of(row@),
{
    if row.checked {
        Marker::Checked
    } else {
        match row.tone {
            RowTone::Normal => Marker::Blank,
            RowTone::Current => Marker::Current,
            RowTone::Create => Marker::Create,
        }
    }
}

/// The line below the list: a failure, a progress note, or nothing.
#[derive(Debug, PartialEq, Eq)]
pub enum StatusLine {
    Failed(String),
    Working(String),
    Clear,
}

pub open spec fn failed_text(failure: Seq<char>) -> Seq<char> {
    "Move failed: "@ + failure
}

/// What the status line of `app` says: a failure first, else a progress note.
pub fn status_line(app: &App) -> (r: StatusLine)
    ensures
        match app@.failure {
            Some(f) => r matches StatusLine::Failed(t) && t@ == failed_text(f),
            None => match app@.working {
                Some(w) => r matches StatusLine::Working(t) && t@ == w,
                None => r == StatusLine::Clear,
            },
        },
{
    match app.failure() {
        Some(f) => StatusLine::Failed(crate::text::concat("Move failed: ", f)),
        None => match app.working() {
            Some(w) => StatusLine::Working(w.to_owned()),
            None => StatusLine::Clear,
        },
    }
}

/// The text of the prompt line and whether it is the dimmed hint: the query once one is
/// typed, else the screen's prompt.
pub fn prompt_line(app: &App) -> (r: (String, bool))
    ensures
        app@.query.len() == 0 ==> r.0@ == prompt_of(app@.stage) && r.1,
        app@.query.len() > 0 ==> r.0@ == app@.query && !r.1,
{
    let query = app.query();
    if query.is_empty() {
        (app.prompt().to_owned(), true)
    } else {
        (query.to_owned(), false)
    }
}

/// The badge beside the title: the step, out of three.
pub fn step_badge(app: &App) -> (r: String)
    ensures
        r@ == decimal(step_of(app@.stage) as nat) + "/3 "@,
{
    let mut s = crate::text::decimal_text(app.step());
    s.append("/3 ");
    s
}

} // verus!
