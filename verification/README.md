# hoi4ms

A library for editing Hearts of Iron IV mods: it reads Clausewitz scripts,
localisation and map data, and rewrites single values in place so comments
and layout survive a save. The functions in `src/` are verified with Verus
against their `requires` / `ensures` contracts, except the small
`#[verifier::external_body]` wrappers around calls into `std`, `image`,
`base64` and `uuid`: their contracts are trusted, and each says in its doc
comment what it claims of the call.

## Layout

- `src/paradox/` — the script lexer, parser and span-based block editor.
- `src/focus.rs`, `events.rs`, `characters.rs`, `ideologies.rs`,
  `technologies.rs`, `state.rs`, `country_history.rs` — reading and editing
  the game's script files, each as text in, text out.
- `src/ideology_saving.rs`, `technology_saving.rs`, `event_saving.rs`,
  `character_saving.rs`, `focus_saving.rs`, `state_saving.rs`,
  `country_history_saving.rs` — proofs that saving an entry exactly as it was
  read leaves its file byte for byte as it was, where the entry is written
  the way the editor writes one.
- `src/localisation.rs`, `text_file.rs` — localisation files and the byte
  order mark and legacy encoding of text files.
- `src/map.rs`, `sprites.rs`, `assets.rs`, `picture.rs` — the province map,
  sprite lookup and pictures framed as data URLs.
- `src/project.rs`, `settings.rs`, `console.rs`, `mcp.rs` — mod descriptors,
  settings, the in-app log and the path rules of the assistant interface.
- `app/` — the file and folder work around the library, in plain Rust:
  reading and writing files, walking folders and the settings file.
- `tests/` — tests of the library on concrete inputs.
