# bt-sniffer

The logic of a BitTorrent DHT sniffer, verified with Verus, and the program around it.

`src/` is the library. Every function in it is verified; what it takes from other crates stands behind
a few declarations whose contracts say what is relied on.

- `bencode`, `metainfo`: reading an info dictionary, its files, layout, identities and the rules that
  make it valid.
- `catalog`: what is stored and searched of an info dictionary, and the pages that are shown of it.
- `jobs`: the life of a fetch job: admission, backfill, scheduling, claims, retries, completion and the
  addresses that were announced for it.
- `collector`, `ingest`, `selector`, `backpressure`: the decisions of the collection.
- `diagnostics`: counters, histograms and the history of connections.
- `session`, `bootstrap`, `config`, `sockets`, `logging`, `clock`, `acceptance`: the decisions of the
  service around it.

`tests/` runs the library. `app/` is the program: the command line, the log, the SQLite store, the
sockets and the loops that call the library. The DHT transport and the peer connections are not part
of it; `app/net.rs` says what the program needs of them.
