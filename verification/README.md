# pg_gateway

A SQL gateway over a key-value store, for PostgreSQL and MySQL clients. What the gateway decides is
a verified library: each function states what it returns or changes, and Verus proves it.

- `src/` is the library. `catalog/` keeps databases, schemas, tables, indexes and views in a store;
  `codec.rs` gives cells and keys their bytes; `response.rs` builds answers; `server/` plans
  statements, executes plans, keeps sessions, transactions and locks, and reads copied rows.
  Functions whose names start with `law_` state what holds of several functions together.
- `tests/` runs the library on concrete values.
- `app/` serves clients: it speaks the wire protocol, hands the library what storage and SQL
  expressions say, and does what the library decides. The stored form of rows, SQL text and
  expressions, and analytical queries come in through the traits of `app/engine.rs`.

The library trusts a few functions of `std`, `serde_json` and `sqlparser`; each is declared once, with
the contract that is taken for granted.
