# sanctum

Sanctum is a Windows adult-content filter built as honest friction: a
LocalSystem service runs a DNS sinkhole on the loopback address, keeps a
small HOSTS-file floor for when the resolver is down, and lets the user lock
themselves into a session during which protection can only grow and the
timer can only be extended.

This crate is the verified core of it, written in Verus:

- `src/` is the library. Every function carries a contract that Verus
  proves: domain normalization and suffix matching, the block, keyword and
  SafeSearch lists, the byte-exact HOSTS section editor, the resolver's
  per-packet decision and its own replies on the wire, the lock rules and the authorization
  of every UI command, partner-approved unblocking, the block-moment
  debounce, the enforcement lifecycle (which never points DNS at a resolver
  that is not answering), the `netsh` commands for adapters and firewall
  rules and the order in which a batch of them runs, the browser-policy
  journal and what applying the policies over the registry records and
  writes, the accountability requests, and the IPC framing.
  The laws that span functions (the lock only extends, weakening commands
  are refused while locked, removing an inserted HOSTS section gives the
  file back followed only by the line breaks the insert added, a second
  HOSTS upsert changes nothing, a first browser-policy apply leaves the
  registry settled and re-applying then records nothing new, two
  block-moment triggers are a cooldown apart and each had enough hits in
  its window, a batch stops at its first failure, normalization is
  idempotent, framing round-trips, and more) are public proof functions
  next to the code they speak of.
- `tests/` runs the library on concrete values.
- `app/` is the program around it: the Windows service host, the watchdog,
  the recovery tool, SQLite storage, the named-pipe transport, the DNS
  sockets (relaying upstream, chasing SafeSearch targets), the registry
  reads and writes, and everything else that talks to the machine.

What the library takes from outside code sits behind small trusted items
whose contracts are stated in their doc comments: Argon2 hashing and
verification, the OS random source, the monotonic clock, DNS message
decoding and encoding (`hickory_proto`), and from std `str::to_lowercase`,
`String::push` and `slice::sort`.
