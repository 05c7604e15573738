# dbi_backend

A desktop backend that serves Nintendo Switch game files (NSP, NSZ, XCI,
XCZ) over USB to the DBI installer. The logic is a Verus-verified library;
the application around it is plain Rust.

- `src/` — the verified library:
  - `text.rs`: decimal text and human-readable byte sizes;
  - `stats.rs`: transfer totals and the closing summary;
  - `paths.rs`: file name and extension of a path, under Unix or Windows rules;
  - `files.rs`: which paths are installable, and the served file list;
  - `listing.rs`: the file list ordered by name for display;
  - `protocol.rs`: DBI headers, file-range requests, the list reply, chunking;
  - `session.rs`: a serving session as a state machine, with its laws;
  - `control.rs`: when the server may start or stop.
- `app/` — Tauri commands, USB I/O with `nusb`, file I/O and events; it runs
  the session's requests and feeds their outcomes back.
- `tests/` — tests of the library on concrete values.
