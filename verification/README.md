# ogedit

The logic of the OGEdit terminal text editor, verified with Verus: the
configuration file and its reader, the debug log's messages and file names,
the open documents, the file watcher's decisions, and the dialogs that
close or reload a document.

## Layout

- `src/` is the verified library.
  - `config.rs`, `config_parse.rs`, `config_write.rs`, `json_string.rs`,
    `folders.rs`, `recent.rs`: `~/.ogedit/state.json`, its values, the
    per-project save folders and the recent files.
  - `escaped.rs`, `section_laws.rs`, `config_laws.rs`, `file_laws.rs`: the
    proof that a written configuration reads back as itself
    (`file_laws::lemma_config_roundtrip`).
  - `logging.rs`, `content.rs`, `utf8_len.rs`: the text of each log message.
  - `log_file.rs`, `calendar.rs`, `clock.rs`: the log file's name, and the
    date and time of its lines, with the calendar laws of the date.
  - `documents.rs`, `goto.rs`, `dialogs.rs`, `editor_state.rs`: the open
    documents, positions typed by the user, the close, reload and
    encoding dialogs, and the editor's per-frame bookkeeping.
  - `watch.rs`, `inotify.rs`, `dir_watch.rs`, `tables.rs`: polling files
    for changes, and the bookkeeping of the Linux and Windows watchers.
  - `picker.rs`, `statusbar.rs`: the encoding picker's search results and
    the status bar's texts and timing.
  - `paths.rs`: when two texts name the same path, compared part by part
    as `std::path::Path` compares them.
  - `text.rs`: characters, digits and strings shared by the others.
- `tests/` runs the library on concrete values.
- `app/` is the program around it: reading and writing files, the log
  file, the watcher thread and the operating system's notifications.
