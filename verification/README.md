# Herdr Ferry

Ferry moves live panes and whole tabs between Herdr workspaces from a small popup.
Its picker, its fuzzy filter, the rebuilding of a tab's split tree from the rectangles
Herdr reports, and the step-by-step plans that move panes and tabs are written in
Verus and proved against their contracts.

## Layout

- `src/` — the verified library.
  - `app.rs` — the picker: screens, candidates, filtering, key handling, and the laws
    it keeps (Ctrl-C always closes, Escape steps back one screen, checked sources stay
    distinct, creation rows stay last, the current pane/tab/workspace is offered first).
  - `fuzzy.rs` — the fuzzy score, and the proof that a query scores exactly when its
    characters occur in order.
  - `layout.rs` — split trees rebuilt from reported rectangles.
  - `move_ops.rs` — pane and tab moves as state machines: each step names the next
    Herdr call, and the answer decides the step after it; their laws cover checking
    before moving, replay order, counts reported on success and on failure, both step by
    step and over whole runs of answers.
  - `merge.rs` — merging a workspace into another: the tab move of its tabs, in
    Herdr's order, into the destination, reported under the merge's own message.
  - `herdr.rs` — Herdr's data, the command lines of each call, and how answers are read.
  - `labels.rs`, `sort.rs`, `text.rs` — display names, stable sorting, text helpers.
  - `ui.rs`, `picker.rs` — what each part of the popup shows, and the progress notes.
- `app/` — the `herdr-ferry` command: runs `herdr`, decodes its JSON, drives the
  move plans, and draws the popup with ratatui.
- `tests/` — tests of the library, including scripted Herdr sessions for the moves.
