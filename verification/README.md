# pqfs

A hybrid post-quantum FUSE filesystem whose logic is verified with Verus.

`pqfs` mounts a filesystem on top of an encrypted backend directory. Contents,
file names and the directory index are sealed with XChaCha20Poly1305 under a
random master key. The master key is stored only in wrapped form, in one key
slot per credential: a password (Argon2id) or an ML-KEM-768 identity.

This is a research prototype. It has not been audited.

## Layout

| Path | What it holds |
| --- | --- |
| `src/primitives.rs` | the calls into the cryptographic crates, with the contracts that are believed of them |
| `src/codec.rs` | the calls into `bincode`, likewise |
| `src/crypto/` | keys, sealed blobs, names, identities, key slots; the headers of volumes with slots, of hybrid volumes and of bare ones |
| `src/fs/` | blocks, entries, the directory index, the requests of a filesystem; the simpler index of bare volumes |
| `src/commands.rs` | creating identities, listing, sharing, revoking, changing the password, rekeying |
| `src/rekey.rs` | how a rekeyed header and index replace the old ones together |
| `src/cli.rs` | what a command line asks for |
| `tests/` | tests that run the library with the real crates |
| `app/` | the program: argument parsing, files, prompts, FUSE |

The library does no input or output. It takes the bytes that were read and
returns the bytes to be written; `app/` does the rest.

## What is proved

Each function states what it returns or changes, for every input. The functions
whose names begin with `law_` relate several of them. Among other things:

- what was sealed is opened to the same bytes, and blocks at different indexes are
  bound to different associated data;
- a read of a stored file gives back what was written, a write changes only the
  records of the blocks that it concerns, and a resize cuts off or fills up with
  zeros;
- every request keeps the lookup tables of the directory index fitting its entries,
  a saved index is loaded as it was, and no sequence of renames puts a directory
  below itself;
- a volume opens with the credentials that its slots were made for, keeps doing
  so when others are added, revoked or rekeyed, and never loses its last slot;
- a rekey that stops anywhere is completed or undone, never left half done;
- rekeying leaves stored contents readable as they are.

Not proved are properties that rest on the strength of the ciphers, that ML-KEM
decapsulates what it encapsulated (it fails with a tiny probability, and the laws
that need it say so), and that the machine has the memory which Argon2 asks for.

## On disk

- `pqfs.header`: volume id, key slots and MAC
- `pqfs.index`: the sealed directory index
- `pqfs.rekey`, `pqfs.header.new`, `pqfs.index.new`: present only while a rekey
  is committed
- `data/`: one file per inode, in independently sealed blocks of 64 KiB
