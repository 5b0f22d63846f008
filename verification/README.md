# homepanel

A home server control panel: an HTTP daemon (`homepaneld`) with PTY-backed
terminals, a file browser restricted to allowlisted roots, systemd service
controls, server cards with start/stop scripts, and a dashboard overview.

## Layout

- `src/` — the verified library (Verus). Every parser, validator and
  decision of the panel lives here with a contract:
  - `text`, `paths`, `ordering`: character-level helpers, Unix path
    components, and a verified stable sort.
  - `scrollback`: the bounded terminal output buffer.
  - `terminal`, `terminal_table`, `protocol`, `process`: a terminal's record
    through its life, the records of all terminals kept by id, the WebSocket
    messages and frames, restart back-off.
  - `files`: allowlisting, entry names, previews, listings.
  - `services`, `servers`, `overview`: `systemctl`/`journalctl` output,
    server cards, dashboard figures.
  - `auth`, `password`, `state`: cookies, session tokens, stored passwords.
  - `error`, `config`, `types`: errors and their HTTP statuses, the
    configuration and its defaults, shared records.
- `app/` — the daemon around the library: HTTP routing (axum), the SQLite
  store (sqlx), PTY processes (portable-pty), file-system and process I/O,
  and the serialized forms of the library's types.
- `tests/` — tests of the library on concrete values.

## Stored passwords

The stored form of a password (`src/password.rs`) is this library's own
scheme: `sha256$<salt>$<digest>`, where the salt is a random UUID and the
digest is one SHA-256 of the salt followed by the password, in lower-case
hexadecimal. A single salted SHA-256 is a fast hash, and so a weak way to
store passwords against an attacker who obtains the database; a slow,
memory-hard password hash would be stronger.
