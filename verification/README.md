# mock_io

A mock I/O handle for testing networking code: a `Builder` describes a script
of reads, writes and waits, and the `Mock` it builds answers reads and writes
as the script says. Reads and writes each follow their own part of the
script: a write may come while scripted reads are still in progress, and is
then matched against the write scripted right after them. Blocking mocks
sleep through the script's waits; in async mode (explicitly, or when called
from a futures task) they return `WouldBlock` and wake the task once the
script moves on.

The library under `src/` is verified with Verus:

- `script.rs` — the script's state machine (`ScriptState` and its spec
  functions) and the executable `Inner` that follows it.
- `builder.rs` — `Builder`, including replaying a recording (`from_packets`).
- `mock.rs` — `Mock`: blocking and non-blocking reads and writes, with the
  clock and the tokio-timer wheel behind the waits.
- `laws.rs` — what holds of every script (reads hand out the scripted bytes
  in order, writes consume the expected ones, waits hold the script back,
  a finished script answers reads with nothing and writes with a broken pipe).
- `outside.rs` — the std, tokio-timer and futures items that are trusted.

`app/` implements `std::io::Read + Write` and tokio-io's `AsyncRead +
AsyncWrite` on a wrapper, turning departures from the script into panics.
