# duskterm

The core of a desktop terminal client (SSH, SFTP, serial, telnet and local shells),
written in Verus: the decisions and data handling of the client are executable Rust
whose behaviour is stated in `requires` / `ensures` contracts and proved.

## Layout

- `src/` — the verified library, one module per concern:
  - `zmodem`, `terminal_transfer`: recognising ZMODEM headers in a terminal stream and
    routing bytes between the terminal and a file transfer;
  - `telnet`, `telnet_login`: option negotiation, window size reports, automatic login;
  - `serial`: serial port settings, line endings, encodings, login scripts;
  - `negotiation`, `auth`, `host_keys`, `ssh_config`: SSH algorithm profiles and
    retries, authentication choice, known-host decisions, jump hosts;
  - `sftp_files`, `range_download`, `replace`, `remote_checks`, `editable_text`:
    directory listings, pipelined downloads, safe replacement of remote files, read-back
    checks, and round-tripping text files in their original encoding;
  - `session_state`, `keyed`, `local_terminal`, `clock`: session life cycles, shell channels,
    cancellation, output batching, progress pacing;
  - `storage`, `secrets`, `command_history`, `accounts`: saved sessions, tunnels and
    command knowledge, sealing of credentials, command history rules, user and group
    names;
  - `file_names`, `fileio`, `background`, `native_drag`, `remote_monitor`: file name
    safety, saved files, background images, drag and drop of remote files, and parsing
    of remote system statistics;
  - `text`, `bytes`: string and byte helpers with exact contracts.
- `tests/` — executable tests of the library.
- `app/` — the unverified shell around the library: file system access, JSON storage,
  serde records, floating-point progress, and the other parts that talk to the operating
  system.

Calls into outside crates (base64, sha2, aes-gcm, encoding_rs, uuid) and into a few std
functions (clocks, Unicode case mapping, lossy UTF-8 decoding) go through small trusted
wrappers whose contracts say what their documentation promises; every other function in
`src/` is verified.
