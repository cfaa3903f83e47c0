# evfs

An encrypted virtual file system: a folder is packed into one vault file,
each file compressed where that helps and encrypted under its own key, and the
vault can be browsed and its files opened again with the password.

The library in `src/` is written in Verus; its contracts state what each
function computes and its proofs are checked by the verifier.

- `chunk`, `crypto`: chunked AES-256-GCM streams, Argon2id and HKDF key
  derivation (ring and argon2 behind small trusted wrappers).
- `format`: the byte layout of the vault header and index, with exact
  decoders.
- `deflate`, `vault`: sealing files and the index, laying out a new vault, and
  opening one; `lemma_vault_reads_back` and `lemma_vault_reopens` state that a
  vault reads back what was written into it and opens again with its password.
- `paths`, `sorted`, `ui`: path handling, the listing of a vault directory and
  the decisions of each screen of the client.
- `gif_player`: decoding the title animation (with the image crate) and
  stepping through its frames.
- `gui`, `handler`, `worker`: the client's state, how every event changes it,
  and what the vault worker answers.

`app/` is the desktop client around the library: the egui window, file
dialogs, file I/O and the worker thread.

## Limits

- Renaming and deleting a file change the index of the open vault in memory
  only; the vault file itself is not rewritten, so the change is gone once the
  vault is reopened.
- A file opened from the vault is decrypted into a temporary file; changes
  made to that file are not sealed back into the vault.
- Garbage collection only measures the bytes of the data region that no entry
  uses and reports whether they pass a tenth of it; it never rewrites the
  vault.
- Files are read whole into memory to be sealed, and a file's stored bytes are
  read whole to be opened; nothing is streamed from disk.
- The title on the home screen is drawn as plain text, without a bloom effect.
