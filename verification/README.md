# zmanager_core

The core of an archive manager, verified with Verus: archive format
detection, the adapter registry and the stateful archive handle, job
progress projection and coalescing, multi-volume and split-ZIP discovery,
the native AR, MSI, LZOP, LHA and MTREE logic, `.gitignore` rules, and the
local identity catalog with its P-256 signing keys and secret references.

Layout:

- `src/` — the verified library. Every function carries a `requires` /
  `ensures` contract that Verus proves; the calls into outside crates
  (hashing, checksums, LZO, base64, P-256 ECDSA, X.509 encoding, MSI
  tables and streams, cabinet files, random numbers) stand behind small trusted wrappers whose contracts say what the
  crates' documentation and source promise.
- `tests/` — ordinary Rust tests that run the library with the real
  outside crates linked.
- `app/` — the file-system side: reading archives and packages from
  disk, writing extracted files, the file-backed identity catalog with its
  JSON records and lock file, the engine's read adapters, and the
  operating-system random source for the RustCrypto signers.
