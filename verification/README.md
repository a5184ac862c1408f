# spd — verified core of the small project defender

Host-monitoring tools: a file fingerprinting scanner, a listening-port
detector, SSH login detectors, the connection that forwards their reports
encrypted to a server, and the server's listener.

`src/` is the verified library (Verus):

- `text` — decimal and hexadecimal rendering, whitespace and line
  splitting, substring search, UTF-8 decoding.
- `table` — `StringMap`, an insertion-ordered string map.
- `digest` — file fingerprints (SHA-256, lowercase hex).
- `glob_match` — exception patterns (`glob`).
- `scanning` — `FileTree` snapshots and the directory scan, with its laws.
- `schedule` — the random pause between two looks.
- `report` — the reports that detectors send.
- `defender`, `defender_rs` — the first defender versions.
- `client` — configuration, fingerprint rounds, port and SSH detectors,
  AES-SIV encryption, and the connection's messages and decisions.
- `server` — configuration and the listener's messages.

`app/` holds the programs: reading configuration files, walking the file
system, running `ss` and `journalctl`, watching the log with inotify,
threads, sockets and the tokio listener.
