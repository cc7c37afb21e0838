# griffon

A symmetric cipher suite for learners: every step a cipher takes is recorded
so that its state, key schedule and sub-steps can be traced.

Layout:

- `src/` — the library, with its contracts and proofs.
  - `blockcipher/feistel.rs` — a Feistel network built from user-supplied
    closures (f-function steps, key schedule, half combination); each run
    records every round.
  - `des/` — a DES assembled from the Feistel network, with a trace entry
    per stage; `des/nist_des.rs` holds the standard tables and parts and
    proves that a cipher built from them computes standard DES.
  - `bitvector.rs` — multi-word bit vectors with shifts across word
    boundaries, proved against their value as a number.
  - `md5/` — MD5 message padding and helper functions.
  - `display.rs`, `hex.rs` — rendering of values and traces as text, and
    reading hexadecimal input.
- `tests/` — tests run against the compiled library.
- `app/` — the `griffon-cli` command line program: argument parsing,
  printing and JSON export around the library.

Example: `griffon-cli 0x0123456789ABCDEF 0x133457799BBCDFF1` prints the DES
trace of that block (ciphertext `0x85e813540f0ab405`).
