# xnft

Cross-chain transfer of NFT collections over XCM (version 3), with the transfer
rules, the messages they build, their SCALE encoding and the collection-location
registry stated and proved in Verus.

## Layout

- `src/bytes.rs`, `src/location.rs`, `src/asset.rs`, `src/message.rs`,
  `src/weights.rs`: the XCM values the pallet works with, the order of assets and
  the sorted, merging asset list, weights and the benchmarked baseline weights.
- `src/codec.rs`: the SCALE encoding of locations, assets and messages as spec
  functions, executable encoders proved against them, and a location decoder that
  gives back exactly what was encoded.
- `src/external.rs`: the calls into `staging-xcm` (reanchoring) and `sp-io`
  (blake2-256), with the contracts that the rest of the library relies on.
- `src/config.rs`: what a runtime supplies (the `Config` trait) and a table-driven
  configuration.
- `src/transfer.rs`: the transfer rules: checks, reserves, fee split, the three
  kinds of reserve transfer and their messages, each message ready to execute with
  the hash of its encoding.
- `src/pallet.rs`: the pallet's calls, events and storage maps.
- `src/laws.rs`: properties that span several functions.
- `tests/`: concrete scenarios, and comparisons with `staging-xcm` itself.
- `app/`: the runtime side: conversions to and from XCM's own types and the loop
  that hands prepared messages to the runtime's XCM executor.
