# pgcopy

The server side of PostgreSQL's `COPY ... FROM STDIN`, verified with Verus.

- `src/sql`: reads a `COPY` command into a statement.
- `src/pgproto`: accepts the statement, takes the messages of the client in, cuts the stream into
  records and the records into fields, and collects encoded rows into batches.
- `src/storage`: encodes rows for a table, sorts them by where they go, and decides how they are
  written.
- `src/text.rs`, `src/buffer.rs`, `src/ascii.rs`, `src/tuples.rs`, `src/errors.rs`: what the others
  share.
- `app`: metrics, and what talks to the client, the planner and the database.

What holds of the whole stands in functions whose names begin with `law_`: what is written as rows
comes out as those rows, however the stream is cut into messages (`pgproto/session_laws.rs`,
`pgproto/message_laws.rs`, `pgproto/stream.rs`, `pgproto/row_laws.rs`); every statement can be
written as a command that reads as it (`sql/written.rs`, `sql/laws.rs`); rows wait in order and
apart by destination (`storage/pending.rs`).
