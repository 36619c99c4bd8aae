# obsidian_watch

Watches the directories named in a TOML configuration and runs each one's
shell command, with `{FILE}`, `{PATH}`, `{OLD_FILE}`, `{OLD_PATH}`, `{EVENT}`
and `{TIMESTAMP}` expanded, for every file created, modified, renamed or
deleted under it.

- `src/` is the verified library: `path` (path components, base names, which
  configured directory holds a path), `template` (expanding the tokens in one
  pass from left to right), `executor` (event classification, the commands an
  event calls for), `clock` (the time stamp), `text` (character helpers) and
  `config` (the configuration's shape).
- `app/` is the program around it: command line, reading the configuration,
  the file-system watcher, and spawning the commands.
- `tests/` runs the library, including comparisons of its path reading with
  `std::path`.
