# edge-revenue-mcp

Offline-first edge payments, exposed over the Model Context Protocol and verified
with Verus.

Built to run on a Raspberry Pi at a venue where the network is flaky or absent.
Sales are recorded fully offline into a local, append-only ledger, and pushed to
Square through an outbox when connectivity returns. Taking money never depends on
being online.

## Layout

| Where | What |
|-------|------|
| `src/store.rs` | The ledger and its outbox: recording, lookup, sync, status, tallies, reconciling. |
| `src/report.rs` | The answers of the six tools, as text. |
| `src/config.rs` | What the environment says: the ledger's path, the Square token. |
| `src/error.rs`, `src/clock.rs`, `src/receipt.rs`, `src/text.rs` | Errors, time, receipt ids and strings. |
| `src/model.rs` | The mathematical ledger: a sequence of rows, and what is read off it. |
| `src/laws.rs` | What holds of every ledger, proved. |
| `src/lemmas.rs` | What those proofs rest on. |
| `app/` | The MCP server and the libsql database around the library. |

## What is proved

- A recorded sale is queued, and is found under its receipt id ever after.
- The ledger is append-only: nothing of a row changes but that it turns synced,
  once, with Square's id and the time of the push.
- A pass over the outbox pushes every queued sale and empties it; a second pass
  changes nothing. Without a token it changes nothing.
- The next sale to be pushed is always the oldest in the outbox. A sale whose push
  fails stays queued and is the first to be retried.
- A ledger in order stays in order, and holds no row that would be refused when it
  is read.
- Tallies by currency and by method leave out no sale and count none twice.
- A reconcile flags every anomaly and nothing else.

What the library takes on trust, of the standard library and `uuid`, stands in the doc comments above the items marked `external_body` and
`assume_specification`.
