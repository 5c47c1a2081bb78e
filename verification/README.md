# flashblocks

Tracking of flashblocks: the partial blocks that an OP Stack sequencer publishes while a block is
still being built. The library collects them into sequences, keeps the last complete sequences,
picks the one to build on the local chain tip, and decides what the engine is told about a complete
one.

- `src/` is the library, verified with [Verus](https://github.com/verus-lang/verus). What holds of
  it as a whole is stated and proved in `src/laws.rs`.
- `tests/` runs the library on concrete flashblocks.
- `app/` runs the library in a node: streams, channels, metrics, build tasks and the engine.

Calls into outside crates stand behind small functions marked `#[verifier::external_body]`, each
with a comment that says which function it calls and what is believed of it: broadcast channels of
`tokio` in `src/broadcast.rs`, the ring buffer of `ringbuffer` in `src/ring.rs`, decoding and signer
recovery in `src/transactions.rs`, and payloads in `src/consensus.rs`.
