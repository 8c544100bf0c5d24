# grocery_list

A terminal grocery list: a catalog of shop sections (YAML), a working list
(JSON), and a small screen-based interface to browse and edit both.

- `src/` is the verified library (Verus):
  - `text.rs` – prefix tests, ASCII case-insensitive equality, trimming,
    lower-casing and concatenation of texts;
  - `sorting.rs` – the stable sort by lower-case form that the catalog and the
    grouped list use, with proofs that its result is unique and that sorting
    twice changes nothing;
  - `search.rs` – finding the first matching text of a list;
  - `suggest.rs` – completion candidates for the typed line;
  - `catalog.rs` – sections, validation (an empty report exactly for a valid
    catalog), formatting and the catalog's text;
  - `list.rs` – the working list;
  - `app.rs` – the interface's state machine. Operations that need the files
    return an `Effect`; the caller performs it and hands the outcome back.
    `App::handle_key` decides what each key press does.
- `app/` is the program: it turns terminal keys into `Key`s, draws with
  ratatui, and reads and writes the files with serde.
