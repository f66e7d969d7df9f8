# elastic_stream

The decision logic of the elastic stream storage, written in Verus and proved against its
contracts.

- `src/` is the verified library: `codec` (frames of the wire protocol), `model` (streams,
  ranges and data nodes), `node` (the append window, idle detection, worker and core layout
  of a data node), `replication` (confirm offsets, sealing, merging fetches with object
  storage), `store` (fetch assembly, the decisions of the I/O loop, log segments), `client`
  (sessions to the placement manager), `tiered` (cache accounting before offload) and
  `metrics` (which metrics a simplified dump keeps).
- `tests/` exercises the library on concrete values.
- `app/` is the unverified glue around it: thread-local stream ids, channels, the process
  metrics registry, the CPU topology and the file system.
