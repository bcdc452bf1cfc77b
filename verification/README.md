# Memo Pill

A floating "dynamic island" for the desktop: a pill at the top of the screen
with a quick task list on its left side and coding-plan usage monitors
(Kimi, GLM, DeepSeek, MiniMax) on its right side.

## Layout

- `src/` — the `memo_pill` library, verified with Verus:
  - `memo`, `tasks`, `panel`: tasks, their urgency order, the list / edit /
    input state machines (add, complete, delete with undo, edit, due-soon
    alerts) and what the tasks panel shows.
  - `island`, `windowing`: the island's state machine (panels, hover, drag
    guard, idle face, wheel carousels) and window placement decisions.
  - `balance`: provider responses turned into quota windows, the quota
    history, the local Kimi / ZCode usage reports and the scan cache.
  - `fetch`, `coding`: one fetch round folded into the coding panel's maps,
    the card order and the card texts.
  - `storage`: what each data file holds and how a read is interpreted.
  - `clock`, `text`, `keyed`: the calendar, character helpers, and sorted
    association lists.
- `tests/` — tests of the library.
- `app/` — the desktop program around the library: the Dioxus views, file,
  network and database access, and the Windows window handling.
