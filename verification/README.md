# memos_worker

The logic of a lightweight Memos server that runs on Cloudflare Workers (D1 for
rows, R2 for files), written in Verus and proved against its contracts.

## Layout

- `src/` is the verified library. It holds what the server decides: routing of
  requests, access rules, the JSON documents it answers with, the SQL statements
  and values it runs, session tokens and password hashes, cookies and headers,
  server-sent events, backups and their encryption envelopes, imports and
  migrations from an upstream Memos server, tag and keyword extraction, relation
  rebuilding, the ranking order of related memos and AI suggestion selection.
  URLs are held as `RequestUrl`, seen as their serialization. Calls into `base64`, `sha2`, `hmac`,
  `pbkdf2`, `hex` and `url` stand behind small trusted wrappers whose contracts
  name their results.
- `src/json.rs` models JSON documents (objects keep sorted, unique keys) and
  writes them; laws there relate reading and writing fields.
- `app/` is the Workers side: bindings and secrets, D1 and R2 access, the
  JavaScript crypto, clock and random sources, serde conversions of the library's
  types, handlers that carry out the library's decisions, and the fractional
  scores and confidences that need floating point.
- `tests/` runs the library on concrete requests and documents.
