# proton_drive_rs

The logic of a Proton Drive client, verified with Verus: names and paths, listings,
caches, keys, transfers, moves, sharing, public links, photos, devices and events.

- `src/` is the library. Contracts are over mathematical models (sequences, texts,
  entries in order of use). The few executable functions without one tell what the clock
  shows. What holds of several functions together is stated as a public proof function
  whose name starts with `law_`.
- `tests/` run the library on concrete values.
- `app/` is the client around it: requests, keys, tasks and storage. It performs what
  the library decides and hands back what came of it. Sessions, PGP and SRP are traits
  that the program supplies.

Work that alternates with requests is a small state machine: `next` says what to do,
and a method such as `answered`, `looked` or `absorb` takes in what came of it. A walk
to a folder's key, a draft that meets a conflict, a batch of blocks or a search for a
free name each have one.

What the proofs rest on beyond Verus is marked `#[verifier::external_body]`,
`assume_specification` or `uninterp`, next to a sentence that names the outside
function: base64, hex, SHA-1, SHA-256 and HMAC (`digest.rs`), the bounded map
(`cache.rs`), random bytes (`public_urls.rs`), the clock (`time.rs`), lower case
(`addresses.rs`), lossy UTF-8 (`shares.rs`) and pushing a character (`text.rs`).
