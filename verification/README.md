# Herdr Flow

Event-sourced workflow runs. Stages and pipelines change only by events; every accepted event is
committed to its run's journal together with the snapshot that it leads to, and a snapshot is
believed only where replaying the journal gives the same state.

## Layout

`src/` is the verified library.

| modules | what they hold |
| --- | --- |
| `numeral`, `identifier`, `digest` | identifiers and SHA-256 digests, and their text |
| `stage`, `pipeline` | the state machines: commands, events, replay |
| `canonical_json` | the committed record of an event and its canonical JSON |
| `rows`, `journal`, `recovery` | database rows, reading journals back, verifying runs |
| `append`, `registration`, `durability` | what a transaction that has read its rows decides |
| `select`, `model`, `query`, `store` | a store row by row, and each operation on it |
| `contiguity`, `effects`, `guarantees`, `integrity`, `consequences`, `history` | what holds of every store |

`app/` is the SQLite database and the command line around it: it reads rows, asks the library,
and writes what the library decides, in one transaction.
