# zenth_utils

Registration and file-handling utilities, with their rules proved in Verus.

- `src/utils/security/securitypassword.rs`: the password, user-name and key rules.
- `src/utils/sanitizer/parser.rs`: file-type detection by extension and by magic bytes,
  and the choice of the type by which a file is sanitized.
- `src/utils/security/cipher_key.rs`: checks, nonce and framing (`nonce || ciphertext || tag`)
  of an encrypted key.
- `src/utils/security/generate_var.rs`: combination of digests, the key permutation and the
  database name.
- `src/utils/security/secure_delete.rs`: the overwriting passes and their chunks.
- `app/`: the sanitizers, AES-GCM and hashing of the `zenth_*` crates, and file I/O.
