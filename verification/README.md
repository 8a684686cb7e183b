# electronic_server

A chat and file-sharing server for schools: accounts and roles, friends and friend
requests, private, LAN and group conversations with unread counts, uploaded and
chunked files, files held for offline receivers, an organisation tree with broadcasts
along it, administrative accounts with expiring credentials, request statistics and
account synchronisation between a primary and secondary servers.

## Layout

- `src/` is the library, written in Verus. The operations the server performs on its
  data are functions with `requires`/`ensures` contracts proved by Verus: the handlers
  in `src/handlers/` take the records the server stores (accounts, messages, groups,
  file lists, the organisation tree, credentials, broadcasts) and give back the answer
  and the new records. `src/laws.rs` states and proves properties that span several
  operations, such as that a registered account can log in, that a conversation file is
  found again from either participant, or that listings come out in order.
- The set of users online is shared by requests that run at the same time, so the
  contracts of the operations on it (login, logout, presence reports, the online
  listings) do not state what it holds; they state the rest of what those operations do.
- The calls into other crates (`chrono`, `md-5`, `regex`, `dashmap`, `num_cpus`) and the
  few standard-library calls without a Verus specification sit behind small trusted
  wrappers whose contracts say only what those crates document.
- `app/` is the executable: the `axum` routes, reading and writing the JSON files, the
  WebSocket endpoint, the statistics middleware, the floating-point status figures and
  the synchronisation loop. It hands the library plain values and stores what comes back.
- `tests/` exercise the library on concrete values.
