# jitterentropy_rustrngd

The verified core of an RNG daemon that feeds jitterentropy output into the Linux
entropy pool and authenticates its own executable with HMAC-SHA3-256.

- `src/` — the library, verified with Verus: ELF program-header scanning, the byte
  ranges covered by the integrity HMAC, HMAC-SHA3-256 (hash from the `sha3` crate),
  diagnostics, entropy crediting, capability selection and the daemon's step decisions.
- `app/` — the daemon itself: FFI to jitterentropy, syslog, `/dev/random`, `capset`,
  reading `/proc/self/exe`.
- `tests/` — tests of the library on concrete images and values.

The hash behind HMAC-SHA3-256 comes from RustCrypto's `sha3` crate (with its `zeroize`
feature, so the Keccak state is wiped when a hasher is dropped). The daemon's original
C library computes SHA3 internally, but its sources are not part of this crate and cannot
be called from verified code, so the library relies on `sha3` for the digest.
