# freebck

A backup tool that stores snapshots of a directory in a content-addressed
store. This crate is its verified core, written in Verus; `app/` holds the
command-line program around it (file system, storage backend, async runtime,
configuration parsing and logging).

Layout of `src/`:

- `storage/util.rs`: hex encoding, base16 encoding and decoding of text, and
  the one-byte XOR checksum `xor_byte_hash`, with
  the round-trip laws of base16.
- `storage/file.rs`: where the file storage keeps collections and items
  (`<collection>/<key[0..2]>/<key[2..]>`), how listed files give back the
  keys they were stored under, and temporary file names.
- `cmd/common.rs`: command errors, their causes, and the conversions and
  keep-going decision of the commands; snapshot keys.
- `cmd/backup.rs`: snapshot numbering (parsing stored snapshot names, the
  highest number, the laws that a new snapshot becomes the highest), sorting
  entries by name, assembling directory entries, and the reuse decisions for
  unchanged files.
- `cmd/restore.rs`: which snapshot a restore reads (`latest` included) and
  the decisions for existing restore targets.
- `data/`: the stored records and the configuration.
- `util/`: text helpers (UTF-8, decimal numbers, byte order), content hashes
  (SHA-256 in hex, in one piece or fed as content is read), I/O errors, and
  Unix timestamps and back.
