# Asterism

A clipboard, screenshot and history program for several devices of one person,
which keep in step over the local network, through a hub of one's own, or
through a WebDAV folder.

The library under `src/` holds the rules of the program. Each function states
what it does in `requires` and `ensures` clauses, which Verus proves.

| module     | what it is about                                                    |
|------------|---------------------------------------------------------------------|
| `content`  | items, their kinds, marks and identities                            |
| `storage`  | the history, the queue of events, blobs, cache eviction             |
| `sync`     | archives, packages, frames, routes, peers, the hub, WebDAV          |
| `platform` | paths, identity, trust, the network, atomic files, autostart        |
| `plugin`   | actions, permissions and grants                                     |
| `desktop`  | settings, shortcuts, recording, the clipboard, the sync engine      |
| `text`, `bytes`, `order`, `path`, `table`, `digest`, `hexcodec`, `base64codec`, `clock` | what the others are built on |

Public proof functions state what holds of several functions together, such as
that unpacking gives back what was packed, or that a revoked device is no longer
trusted.

`app/` is the program around the library: files, the database, sockets and the
event loop. `tests/` runs the library on concrete values.
