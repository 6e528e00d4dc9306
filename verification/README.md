# crosschain

The logic of two Solana programs that carry messages between chains, verified
with Verus:

- **oracle**: an admin keeps a chain whitelist, a sender whitelist and a set of
  oracle nodes; whitelisted senders file requests (identified by a SHA-256
  digest in hex); a report signed by two thirds of the nodes completes its
  message exactly once.
- **ramp**: the same whitelists and node set, with events for each change;
  requests are identified by a Keccak-256 digest, and a report is accepted
  once more than half of the nodes signed it.

Layout:

- `src/` — the verified library. `oracle.rs` and `ramp.rs` hold the
  instruction logic; `frame.rs` the byte frame of a report; `wire.rs` the wire
  form of report contexts and token-transfer metadata; `quorum.rs` the
  counting of distinct signers; `whitelist.rs` the slot rules; `sigverify.rs`
  the search for a native secp256k1 verification in the instructions sysvar;
  `crypto.rs` and `sysvar.rs` the trusted calls into `sha2`, `hex` and
  `solana-program`.
- `tests/` — tests run against the compiled library, including reports signed
  with real secp256k1 keys.
- `app/` — the Anchor glue: account layouts, instruction contexts, events,
  and handlers that read accounts and the clock and call the library.
