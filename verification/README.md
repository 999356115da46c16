# bluefrog

A BitTorrent tracker whose logic is verified with Verus.

- `src/`: the library. Every function states what it returns or changes, and Verus proves it.
  - `store`, `peers`, `bytemap`: the sharded in-memory store of torrents and compact peers.
  - `udp`, `udp_handler`: the BEP-15 codec and request handler; `connid`: connection ids.
  - `http`, `bencode`: the HTTP tracker and its response bodies.
  - `l7`: behavioural abuse detection with bounded memory and escalating bans; `l7::laws` and
    `l7::history` state what holds over one event more and over whole histories.
  - `metrics`: counters and the text exposition.
  - `config`, `addr`, `nft`: the configuration format, addresses, ban sets.
  - `service`: what the daemon decides between its sockets and the handlers.
  - `wire`, `text`, `chars`, `decimal`, `version`: small readings and writings.
- `app/`: the daemon around it: sockets, timers, locks, netlink.
  `BLUEFROG_DESCRIBED`, set to `git describe --tags --always --dirty` when it is built, is what
  `--version` shows of an untagged tree.
- `tests/`: tests of the library.

A few calls into other crates are taken on trust; each stands behind a small function whose doc
comment says what is claimed: `blake3::keyed_hash` (`connid`), `itoa` (`decimal`), `fastrand`
(`service`), and three functions of the standard library (`udp`, `chars`, `config`).
