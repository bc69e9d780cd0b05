# mayo_scheme

MAYO post-quantum signatures (through the `pq-mayo` crate) behind a
namespaced signing interface, and an attributable certificate scheme for a
committee of MAYO keys. The library is written in Verus and its functions are
proved against their contracts.

Layout of `src/`:

- `params.rs`: the four MAYO parameter sets and what the crate uses of each.
- `backend.rs`: the calls into `pq-mayo`, `rand`, `zeroize`, `String` and `Hash`, each behind a
  contract that states what the called code does; nothing else is trusted.
- `bytes.rs`, `hex.rs`, `varint.rs`, `codec.rs`: byte strings, hexadecimal
  text, variable-length integers, decoding errors, and the framing of a
  message under a namespace (`union_unique`).
- `scheme.rs`: private keys, public keys and signatures: signing, verifying,
  encoding and decoding.
- `participants.rs`: participant indices, fault models and the ordered
  committee of public keys.
- `signers.rs`: the bitmap of a certificate's signers and its encoding.
- `certificate.rs`: certificates and their encoding.
- `generic.rs`: the certificate scheme: signing and checking attestations,
  assembling and checking certificates.

The tests under `tests/` run against the compiled library with `pq-mayo`
linked.
