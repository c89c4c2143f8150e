# lantern_crypto

Cryptography as an operating-system service: key custody, signing, encryption,
message authentication and sealed capabilities. Applications get badges for
operations, never raw keys.

The library under `src/` is verified with Verus. Its contracts are stated over
`model::KeystoreView`, which says what a keystore is and what it decides. The
primitives themselves are `chacha20poly1305`, `ed25519-dalek` and `blake3`;
`subtle` compares MACs and `zeroize` wipes keys. What is believed of those crates
rather than proved stands in the doc comments of the functions marked
`#[verifier::external_body]`, in `aead`, `hash`, `signing` and `secret`.

`laws` and `wire::laws` state what holds over several calls: that revocation is
final, that names of keys are never reused, that what was encrypted decrypts, that
attenuating a token only narrows it, and more.

`app/` joins the library to the kernel's capability broker, which mints the
badges.
