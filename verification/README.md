# firmware_formats

Readers and decryptors for TV firmware containers, verified with Verus:

- `formats::dwcp` — DWCP update packages (AES-128-CBC key table, AES-128-GCM body
  blocks with 16-byte nonces).
- `formats::msd` — MSD/OUITH salted AES-CBC items and tree header checks.
- `formats::mstar_secure_new` — newer MStar secure images (AES-256-CBC segments
  chained by IV).
- `formats::utv` — UTV update files (raw RSA key header, AES-128-CBC modules,
  component directory).
- `crypto` — CBC mode and PKCS#7 over the AES block cipher, big-endian numbers,
  the number theory behind raw RSA (Euclid, binomial theorem, Fermat),
  and the trusted calls into `aes`, `aes-gcm`, `md5`, `sha2` and `rsa`.
- `bytes` — integer and array reads from byte buffers.

The library works on byte buffers only. `app/` holds the file-level extractors
that read the input, call the library and write the results.
