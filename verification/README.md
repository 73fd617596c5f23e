# tsink_cluster

The rules by which the nodes of a time series database form a cluster: who belongs to it, who
leads, which node owns which shard, how reads are spread over replicas, how writes wait for a peer
that is away, and who may do what.

`src/` is the library, written in Verus. Every executable function has a contract that is proved;
what the library asks of `ring`, `base64`, `serde_json`, `rustls` and std stands behind a few
functions marked `external_body` or `assume_specification`, each with what is believed of it.
The files ending in `_laws.rs` state what holds of several functions together.

- `control*`: the state that all nodes agree on, the commands that change it, and its file.
- `consensus*`: the replicated log that those commands go through.
- `rpc_*`: messages between nodes, their HTTP form, and who may send them.
- `outbox*`: writes that wait for their peer.
- `query*`, `read_cache*`: reads over replicas, and what a query remembers of them.
- `hotspot*`: where the load lies.
- `rbac*`: roles, tokens, service accounts and signed tokens.
- `membership`, `ring`, `shard_map`, `text_map`, `lists`, `text`, `parsing`, `json`, `crypto`,
  `clock`, `env`: what the others are built on.

`app/` is ordinary Rust around it: files, sockets, TLS, clocks, environment variables and JSON.
`tests/` runs the library.
