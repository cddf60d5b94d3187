# Lanecho

LAN clipboard sync: devices find each other on the local network, pair, and keep
their clipboards and a clipboard history in step.

- `src/` is the library: the protocol, discovery, pairing, the sync engine, the
  history, settings, ignore rules and what the desktop shell decides. Verus
  verifies all of it. The state machines in `session`, `sync`, `discovery`,
  `watcher`, `bridge` and `history` take events and give back actions; they do no
  I/O themselves.
- `app/` is the program around it: the command line, sockets, TLS, files, the
  system clipboard and the shell's front end. It performs the actions and hands
  the events back.
- `tests/` runs the library.

Contracts speak of the views of the types (`PumpView`, `HistoryView`, ...). What
holds of several functions together is stated by the public proof functions whose
names begin with `law_`. The calls into `png`, `fast_image_resize`, `blake3`,
`regex`, `rcgen`, `serde_json` and `uuid` stand behind small wrappers in `images`,
`digest`, `ignore`, `identity`, `settings` and `ids`; their doc comments say what
is taken on trust.
