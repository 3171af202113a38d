# mini_p2p

A BitTorrent-like peer-to-peer file sharing node, with its core written in
Verus and proved against its contracts.

- `src/` is the verified library: content-addressed chunking and file
  records, the chunk store, the peer protocol messages and the answers a node
  owes to each request, the readers of the answers it gets back, peer and
  connection bookkeeping with their limits, the download rounds, the chunk
  request scheduler, swarms, local discovery messages, message framing, STUN
  requests and responses, and the Kademlia-style DHT (node identifiers, XOR
  distance, k-buckets, closest-contact search, store and lookup).
- `app/` is the program around it: the command line, TCP and UDP sockets,
  UPnP, files on disk, JSON encoding, timers and tasks, and the token-bucket
  rate limiter.
- `tests/` runs the library on concrete values.

Hashing goes through `sha2`, hex through `hex`, randomness through `rand` and
`uuid`; each such call is a small trusted wrapper whose contract says what the
library relies on.
