# crawlds

The verified core of the CrawlDS desktop services: the parsers, state
machines and decisions of the daemon's domains (clipboard, scheduler,
notifications, power and idle, network and Wi-Fi, display, greeter), the
decisions of a client connection to the daemon's JSON-RPC socket, and the
`crawlds` command line, each stated in `requires`/`ensures` contracts and
proved with Verus.

- `src/` — the library. Text is modelled as `Seq<char>` (`src/text.rs`),
  bytes as `Seq<u8>`. Public functions state their results over these
  models; where a result rests on an outside call (the database, the clock,
  a random delay), the contract states what holds of every outcome. The
  laws that relate several functions stand as public proof functions beside
  them. For the clipboard store these are: a stored record survives its
  store and reads back by its id, and it is the only record with its
  content's hash — when the store keeps at least one record and its ids are
  fresh (every stored id lies below the ids the database may still
  generate: so it is for a store over an empty database, and every store
  operation keeps it); and a store leaves at most `history_limit` id-keyed
  records.
- `tests/` — tests run against the compiled library.
- `app/` — the `crawlds` command line: argument parsing, the JSON-RPC client
  over the daemon's socket, process and file handling. The decisions it
  acts on come from the library. The daemon's domain services (the D-Bus,
  Wayland and system backends behind its commands) are not part of this
  crate.

The clipboard store's contracts speak of what its sled database holds;
they hold only while the `Storage` holds the only handle to that database.

Calls into outside crates (`fnv`, `fastrand`, `sled`, `nix`) and into the
parts of `std` that Verus does not model go through small trusted wrappers
whose contracts say what the outside code does.
