# port

A terminal tool for Linux that lists the TCP ports that processes listen on
(from `/proc/net/tcp`, `/proc/net/tcp6`, `ss -tlnpe` and `docker ps`) and
kills the process, or stops the container, behind a chosen port.

Layout:

- `src/` — the verified library, written in Verus:
  - `text.rs`: the string operations the parsers need (search, splitting,
    trimming, lines, number formatting and parsing), specified over
    `Seq<char>`;
  - `ports.rs`: the listener records, the parsers for the kernel tables, `ss`
    and `docker ps`, and the merge into one row per port;
  - `filter.rs`: which ports and processes count as system services, and
    the removal of those from a freshly read list;
  - `process.rs`: kill targets, error messages, lookup by port;
  - `app.rs`: the state of the list and its transitions, with the status
    message's deadline kept in nanoseconds of the monotonic clock;
  - `events.rs`: what each key does in each mode;
  - `ui.rs`: the texts shown on screen and which dialog is drawn;
  - `laws.rs`: properties that relate several operations.
- `app/` — the program: command line, terminal loop, drawing with ratatui,
  reading `/proc`, running commands and sending signals.
- `tests/` — tests of the library.
