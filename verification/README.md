# pq_noise

Noise handshakes and transport framing for peer-to-peer connections, written in
Verus: post-quantum (`Noise_pqXX_MLKEM768_ChaChaPoly_SHA256`, negotiated as
`/noise/pqxx/1.0.0`) and classic (`Noise_XX_25519_ChaChaPoly_SHA256`, negotiated
as `/noise`). Identities are Ed25519 or FN-DSA-512 keys.

Experimental: the post-quantum parts rest on the unaudited `clatter` and `fn-dsa`
crates.

## Layout

- `src/` is the verified library. It performs no input or output.
  - `config`: configurations, and the choice between the two protocols.
  - `handshake_pq`, `handshake`: the two handshakes, step by step.
  - `framed_pq`, `framed`: length-prefixed framing and the codecs.
  - `output`, `output_io`: the byte stream over an established session.
  - `payload`, `varint`: the protocol buffer that carries identities.
  - `protocol_pq`, `protocol`, `identity`, `fndsa`, `secret`: keys.
  - `certhash`: WebTransport certificate hashes.
  - `pq_session`, `classic_session`, `session`, `buf`: the outside crates, behind
    the contracts that the rest relies on.
- `tests/` runs the library with the outside crates linked.
- `app/` makes connection upgrades of `libp2p_core` out of it.

## What is relied on without proof

The contracts of the functions marked `external_body` and of the
`assume_specification` items. Each names the outside function it speaks of.
Nothing is claimed of what rests on chance: that two sides of a post-quantum
handshake derive the same keys, or that a forged message or signature is refused.

Signing asks for an FN-DSA-512 key pair that was generated, here or elsewhere.
Bytes that merely decode as a secret key are not enough.
