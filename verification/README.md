# Pigeon mobile core

Everything of the Pigeon mobile client that is not user interface. The native
apps call it through UniFFI bindings; it keeps rooms and timelines on the device,
follows the homeserver, sends and receives messages, and stays usable offline.

`src/` is the core proper, verified with Verus. It does no input or output of its
own. It builds requests and reads the answers, holds the tables of the local
store, and runs the flows (logging in, syncing, sending, inviting, decrypting) as
machines that are told what has happened and say what is to be done next.

- `text`, `order`, `json`, `codec`: text, sorting, JSON values, and the edge to
  the JSON parser and to base64
- `event`, `table`, `store`: events, the rows of the database, and the operations
  on them; `store/laws`, `store/settled`, `store/echoes`, `store/faithful`,
  `store/pages` and `store/paging` state what holds of them together
- `api`, `reply`, `error`: requests, answers, errors
- `session`, `e2ee`, `keys`, `media`, `rooms`: sessions and the key store, the
  edge of the encryption engine, the key directory, media, and what a timeline
  shows
- `sync`, `send`, `inbound`, `invite`, `image`, `client`: the flows, each with what
  a whole run of it comes to
- `log`: log records

`app/` is the crate that the native apps link: the UniFFI surface, HTTP, SQLite
and the encryption device. `tests/` runs the library on concrete values, with a
scripted server and a stand-in for the encryption engine.
