# comic_viewer

The logic of a desktop viewer for a local comic library, verified with Verus.

- `src/` is the verified library:
  - `text`, `decimal`: white space, trimming, splitting, substring search,
    ASCII case folding, and reading and writing decimal `i64`s.
  - `info`: the gallery metadata record and the `info.txt` format.
  - `query`: splitting a search query into terms and compiling the terms into
    one parameterised SQL statement.
  - `import`: the database work of storing a gallery, as a session that
    answers each database result with the next action.
  - `suggest`: the per-kind suggestion lists, their map, and keyword
    completion.
  - `image`: which files of a gallery are images.
- `app/` holds the Tauri commands, the SQLite store (rusqlite) that carries
  out what the library asks, and the directory walk.
- `tests/` runs the library on concrete inputs.
