# mezon_store

The state and decision logic of the Mezon desktop client's stores, written in Verus and
proved against its contracts: channel lists and categories, message timelines (paging,
jumps, optimistic sends, grouping), drafts, topics, reactions, presence, permissions,
notification settings, the connection manager and the media-stream session.

- `src/` is the verified library. Each store is modelled as a plain state type whose
  operations take the state and an event and return the next state and what to do.
  Outside crates (url, chrono, anyhow, serde_json) are reached through small trusted
  wrappers whose contracts name what they return.
- `tests/` runs the library on concrete values.
- `app/` holds what cannot be verified: file and clock access, serde types and floating
  point formatting.
