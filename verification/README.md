# resona

The core of the Resona music player, written in Verus and verified.

`src/` is the library:

- `library::folders` — which tracks belong to a folder (the folder itself
  and the paths under it, compared exactly), the
  `file_path = ? OR file_path LIKE ? ESCAPE '^'` query that narrows them
  down, with a proof that it loses none of them, and the exact selection
  among what it returns;
- `library::deletion` — the ids and parameterised statements that delete
  tracks together with their CUE children;
- `library::favorites`, `library::genres`, `library::lyrics` — toggling a
  favorite, genre ids and ordered genre links, lyrics rows;
- `library::scan` — audio file extensions, CUE track ids, vanished tracks
  and the scan report;
- `library::watcher` — decoding directory-change records, pairing a
  rename's two records into one event, and collecting changes until a quiet
  period triggers a rescan;
- `search` — when a query runs and how exact and broader matches combine;
- `audio` — the loudness cache (keyed by the path's components) and
  normalization mode, the stereo channel split of the equalizer, and the
  WAV container with its round trip;
- `artwork` — the square PNG thumbnail of an image file and whether an
  audio file carries an embedded picture, made by the `image` and `lofty`
  crates behind stated wrappers;
- `paths` — paths compared by their components, as the platform's `Path`
  compares them;
- `gpu`, `windows::taskbar` — artwork effects and taskbar/jump-list calls.

`app/` runs the rest: the SQLite database (sqlx), the tantivy index, audio
decoding and loudness measurement, floating-point filters, reading files,
and the program's start-up. `tests/` exercises the library.
