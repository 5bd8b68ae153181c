# portlens

Lists open TCP and UDP sockets with the process, project, app and uptime
behind each port, as an aligned terminal table or as JSON.

- `src/` is the verified library:
  - `types` — the port entry model and the text of its fields (protocol,
    state, uptime);
  - `collector` — building entries from socket and process snapshots and
    the stable ordering by port and protocol;
  - `display` — columns, rows, width measurement, bordered and compact
    tables, the tips box; `display::render` holds the cell, border and
    width primitives, `display::terminal` the terminal-width rules;
  - `text` — character-sequence building blocks.
- `app/` is the operating-system side: socket and process enumeration,
  terminal probing, JSON output and writes to stdout and stderr.
- `tests/` exercises the library on concrete values.
