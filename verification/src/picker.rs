use vstd::prelude::*;

use crate::app::{plural, InputOutcome, OutcomeView};
use crate::text::decimal;

verus! {

/// The progress note the picker shows while it carries out what an input asked for; none
/// when the input asks for no move.
pub open spec fn progress_note_of(outcome: OutcomeView) -> Option<Seq<char>> {
    match outcome {
        OutcomeView::MovePane(r) => Some(
            "Moving "@ + decimal(r.sources.len()) + " "@ + plural("pane"@, r.sources.len() as int) + "…"@,
        ),
        OutcomeView::MoveTab(r) => Some(
            "Moving "@ + decimal(r.tab_ids.len()) + " "@ + (if r.tab_ids.len() == 1 {
                "tab with its"@
            } else {
                "tabs with their"@
            }) + " live panes…"@,
        ),
        OutcomeView::MergeWorkspace(_) => Some("Appending every source tab to the destination…"@),
        _ => None,
    }
}

/// The progress note for `outcome`.
pub fn progress_note(outcome: &InputOutcome) -> (r: Option<String>)
    ensures
        match progress_note_of(outcome@) {
            Some(n) => r matches Some(s) && s@ == n,
            None => r is None,
        },
{
    match outcome {
        InputOutcome::MovePane(r) => {
            let n = r.sources.len();
            let mut s = "Moving ".to_owned();
            s.append(crate::text::decimal_text(n).as_str());
            s.append(" ");
            s.append(if n == 1 { "pane" } else { "panes" });
            s.append("…");
            proof {
                reveal_strlit("pane");
                reveal_strlit("s");
                reveal_strlit("panes");
                assert(n != 1 ==> "panes"@ =~= "pane"@ + "s"@);
            }
            Some(s)
        },
        InputOutcome::MoveTab(r) => {
            let n = r.tab_ids.len();
            let mut s = "Moving ".to_owned();
            s.append(crate::text::decimal_text(n).as_str());
            s.append(" ");
            s.append(if n == 1 { "tab with its" } else { "tabs with their" });
            s.append(" live panes…");
            Some(s)
        },
        InputOutcome::MergeWorkspace(_) => Some("Appending every source tab to the destination…".to_owned()),
        _ => None,
    }
}

} // verus!
