# scribobulate

The find-and-replace core of the Scribobulate Markdown editor, and the small state
machines its find bar, status bar and toolbar run on — written in Verus, with the
functions in `src/` proved against their contracts. Three small wrappers around the
standard library (`char::to_lowercase`, `char::is_alphanumeric`, `String::push`, in
`src/unicode.rs`) are trusted: their contracts restate the library's documentation and
are not proved.

- `src/` — the verified library: the preview's literal matcher and the filtering of a
  regex engine's matches (`matcher`), the map from a match in the preview's searchable text
  back to buffer offsets (`bodytext`), the document-ordered hit list and stepping through it
  (`hits`), its cache (`cache`), search-in-selection (`scope`), the counter's readout
  (`readout`), per-field histories (`history`), the match options (`options`), find-bar
  decisions and the split arrangement (`findbar`), the word-count job queue, selection
  counting, hover links and the export close gate (`status`), the live-preview debounce
  decisions (`livepreview`), lost backing files
  (`backing`), info notices (`toast`) and the toolbar's wrapping layout (`wrapbox`).
- `app/` — what needs crates the library cannot hold: the session file's serde shapes of the
  persisted find state, and the GLib regular-expression engine.
- `tests/` — unit tests of the library.
