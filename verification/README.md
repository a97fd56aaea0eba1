# ultra_trade

The core of a trading system as a verified library: an event alphabet and its
durable log, a trading loop, a simulated venue, feeds that replay a recording or
follow a live market, session configs, and the tools that read recordings back.

- `src/` is the library. Its functions state what they do in contracts that Verus
  proves. Five small items stand on the standard library and are believed:
  `String::push`, the `{:?}` of a string, `Vec::capacity`, and reading UTF-8
  strictly and lossily. Whether a buffer would have to grow
  (`MemoryLog::would_grow`, `Engine::would_allocate`) rests on what the allocator
  gave, so little is said of it.
- `tests/` runs it, sessions from end to end included.
- `app/` is the program around it: files, threads, clocks, the console, and the
  books, orders, positions, risk checks and strategies that an engine asks for.

## Where to look

| Module | What it holds |
|---|---|
| `event` | Inputs, decisions, the in-memory log, the 80-byte record format, recordings on disk, chains of segments, the ring behind a background writer |
| `engine` | The loop, as a machine that asks its owner for one thing at a time |
| `replay` | What holds of whole sessions, replayed, recovered or neither |
| `sim` | A venue that fills against the book it is shown |
| `historical`, `live`, `record`, `timer` | Where inputs come from |
| `config`, `config_layout`, `harness` | What a session trades, what does not matter about how that is written, and how a run over a recording is set up |
| `journal`, `sweep`, `backtest`, `report`, `json` | What the tools read and write |
| `text`, `words`, `value` | Characters, words and fixed-point values |

## What is promised of the whole

- A replay reproduces the session it was recorded from, record for record,
  refused inputs included, as long as the log took every record
  (`replay::replay_reproduces_the_session`), and a session re-derived after a
  crash arrives where it was (`replay::recovery_rebuilds_the_state`).
- What was written to a log reads back, and damage is never read as something
  else (`event::file`, `event::codec`). A session that is resumed goes on where it
  ended, in a file of its own (`event::segments`).
- An input is recorded before anything acts on it, every decision names a
  recorded input that caused it (`replay::every_decision_has_a_recorded_cause`),
  and no order leaves unless the risk gate approved that very order (`engine`).
- A strategy pulls its own orders and no others
  (`engine::only_the_owner_pulls_an_order`).
- A kill works from every state (`engine`), and is final for the session
  (`replay::a_killed_session_stays_killed`). A session re-derived after a crash
  starts halted, whatever state it was in.
- The ring behind a background writer gives back what it took, in order
  (`event::background::ring_gives_back_what_it_took`), and text quoted for JSON
  reads back as it was (`json::quoted_reads_back`).
