# diagnostic_logs

A verified diagnostic log. It records what a proxy did for each request (its steps, with redacted
headers, bodies and payloads) and the messages of the program, bounds what it keeps, and answers
queries about it.

- `src/` is the library, verified with Verus. It decides what is redacted, queued, written, kept,
  listed and shown. The tables of the log are a `LogStore`; an operation works on the rows that it
  is given and says what becomes of them.
- `app/` is what surrounds it: the SQLite database in which the rows live, the writer thread, the
  global service and the serialised forms of the records.
- `tests/` run the library with the crates that it calls.

The library calls other crates through a few trusted functions, each with a contract and a comment
that says what is taken for granted: `regex` (replacing matches), `serde_json` (values and their
text), `sha2`, `zstd`, `http` (visiting header fields), `chrono` (the clock) and `uuid`
(identifiers).
