# reTaskable core

reTaskable is a task client for a paper tablet. It keeps a local cache of CalDAV
to-dos, queues what the user changes, and brings both together with the server
when a network is there. This crate is its core, written in Rust and verified with
Verus.

- `src/` is the library. It works on plain values: the tables (`store`), the queue
  (`db`, `pending`, `queue`), iCalendar texts (`ical`, `nesting`, `plain`, `task`), server answers
  (`xml`, `multistatus`, `http`), and what the screen asks for (`handlers`,
  `screen`, `dispatch`). Exchanges with the server are functions from the replies
  so far to the next request or the result (`exchange`, `sync`, `conflict`,
  `session`). Every function has a contract that Verus proves.
- `text_laws`, `rewrite_laws`, `task_laws`, `plain_laws`, `queue_laws`, `write_laws`,
  `intent_laws`, `list_laws` and `intake` state what holds of the library as a whole.
- `tests/` runs the library on concrete values.
- `app/` is the program: the database, the network, the files and the screen.

What the library takes on trust are its calls into `chrono`, `uuid`, `serde_json`,
`icalendar`, `url` and `roxmltree`; each stands behind a small function whose
comment says what is claimed of the call.
