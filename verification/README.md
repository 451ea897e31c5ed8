# cosmic_pick

A clipboard-history applet for the COSMIC desktop: a popup with the
clipboard history (pinned entries first), an emoji picker and a color
picker. The history keeps distinct entries up to a size cap, pinned
entries survive the cap and Clear History, sensitive-looking text is
never written to disk, and the primary selection follows the regular
clipboard.

## Layout

- `src/` is the library, verified with Verus: the history and its laws
  (`history.rs`, `history_laws.rs`), the applet's state machine
  (`applet.rs`: each message gives a new state and a list of effects),
  the clipboard watcher and capture rules (`capture.rs`), text cleanup
  and the secret heuristics (`cleanup.rs`), URI labels (`uris.rs`),
  color parsing (`colors.rs`, `recent_colors.rs`), search
  (`search.rs`), the recent lists (`mru.rs`, `emoji_recents.rs`),
  paths and blob names (`paths.rs`, `clip_paths.rs`), the keyboard
  shortcuts, the settings form and the autostart entry.
- `tests/` runs the library on concrete values.
- `app/` is the program around it: the libcosmic UI, `wl-paste` and
  `wl-copy`, files on disk, the config store, and the floating-point
  parts (entropy of a token, human-readable sizes, text color on a
  swatch). It carries out the effects that the library's state machine
  asks for.

Calls into outside crates that the library makes (BLAKE3 hashing,
Unicode lowercasing, the emoji table) sit behind small trusted
wrappers whose contracts are stated in `src/`.
