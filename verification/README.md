# livekit_monitor

A self-hosted dashboard for LiveKit: overview metrics, rooms and their
participants, a webhook-backed session history, egress and ingress jobs.

- `src/` is the library, with machine-checked contracts and proofs. Its centre is `SessionStore`
  (`session_store.rs`): sessions built from webhook events, room history
  reconciled with the live rooms, egress jobs, and the last known room and
  participant descriptions, with the listings and their filters. Every change
  is handed back as a list of row writes; `laws.rs` proves, among other
  properties, that replaying the stored rows rebuilds the store.
- `app/` is the server around it: configuration from the environment, the
  SQLite copy of the tables, the LiveKit API clients, and the warp routes. The
  frontend is read from `FRONTEND_DIR` (default `frontend/dist`) at start-up.
- `tests/` exercises the library on concrete values.

Environment: `LIVEKIT_URL`, `LIVEKIT_API_KEY`, `LIVEKIT_API_SECRET` (required),
`PORT` (default 3000), `SQLITE_PATH` (default `./data/monitor.db`), `BASE_PATH`
(default empty).
