# markx

A Verus-verified implementation of MARK-X (Migration-Aware Authenticated
Re-Key exchange), Mode A, Variant A1: a server and a client that share a
classical secret migrate to an ML-KEM-768 key under ECDSA-P256 authentication,
a trusted local policy, and a persistent monotonic state.

* `src/` is the library.  Every function is verified against its contract;
  the calls into `pqcrypto-mlkem`, `p256`/`ecdsa`, `sha2`, `hmac` and `hkdf`
  sit in small trusted functions whose contracts are documented beside them.
  Wire formats are proved injective and canonical, the policy hash is proved
  independent of the order of the allow-lists, state commits are proved
  strictly monotonic, and the drivers' contracts give the outcome of each
  step, every rejection branch included: exactly where the step is
  deterministic, and otherwise as relations (a fresh ML-KEM key pair whose
  secret key embeds its public key; a ciphertext and shared secret that are
  an encapsulation to the announced key).
* `app/` reads and writes the state image to a file, atomically, around the
  drivers, and gives errors a `Display`.
* `tests/` runs the library with the real cryptography.
