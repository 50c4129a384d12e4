# minigrep

The verified core of a small file-change watcher and installer helper.

- `src/mysql/mycnf.rs` reads, edits and writes MySQL option files (`my.cnf`):
  leading lines, then `[block]`s of lines; looking a key up, setting it
  and commenting it out. The model is `CnfView`; the laws proved over it are
  that a file written and read back is unchanged, that a key reads back as it
  was set (its value trimmed), that a commented-out key reads back as absent,
  that setting a key leaves exactly one line assigning it, that setting twice
  is setting once to the second value, that commenting out twice changes
  nothing more, and that setting a commented-out key revives its line in
  place.
- `src/mysql.rs` is the first, simpler reader of the same files.
- `src/text.rs` holds the character-level primitives (Unicode whitespace
  trimming, character search, substring containment) with their lemmas.
- `src/lib.rs` holds the line search (`search`) and its command line (`Config`).
- `src/models/fs_change_log_model.rs` builds the log record of a file-system
  event; `src/db.rs` the record of a logging request.
- `src/payload.rs` caps the size of an HTTP request body read in chunks.
- `src/borg/` and `src/common_util.rs` hold the backup tool's configuration and
  the small rules of the watcher program.

`app/` is the program around the library: the HTTP server, the database
actor, the directory watcher, file reading and writing, and the serde copies
of the configuration types.
