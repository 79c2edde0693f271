# hbmon

A harness-independent build monitor: `hbmon watch -- make` runs a build
under a small daemon that tracks its process tree, notices stalls, OOM kills,
missing dependencies and timeouts, writes a JSONL event log and answers
`status` / `wait` / `kill` / `log_tail` / `shutdown` requests on a Unix
socket.

## Layout

- `src/` — the verified library. Every decision the monitor and its client
  commands make is here, with its contract proved by Verus:
  - `health` — build states and exit codes, the missing-dependency pattern
    table, kernel-log OOM reports, the timeout watchdog;
  - `daemon` — the monitor loop's state machine (`Monitor`), how a request
    is routed or refused, and when a `wait` request wakes;
  - `cli` — socket resolution, `cleanup`'s sweep rule, `list` filters, the
    `events` stream position, `exec` and `wait` exit codes;
  - `eventlog` — reading back the newest log lines through a growing window;
  - `metrics`, `proc` — parsing cgroup and `/proc` text, CPU samples, the
    breadth-first descendant walk;
  - `platform` — artifact paths, signals, Windows command-line quoting;
  - `util` — UTC timestamps (with the proof that a day count names its
    date) and uuids;
  - `text` — character-level splitting, trimming and number parsing.
- `app/` — the `hbmon` program around the library: argument parsing, the
  daemon's I/O loop, the socket transport, the log file and `/proc` reads.
- `tests/` — tests of the library.
