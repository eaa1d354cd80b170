# mkfs-xfs

An XFS (v5) formatter whose logic is verified with Verus: the geometry
`mkfs.xfs` 6.15 computes, every on-disk structure it writes, the list of
writes that lay a filesystem down, and a reader that turns a filesystem
back into named fields and compares two of them.

## Layout

- `src/` — the verified library.
  - `geometry` — parameters to geometry: sector and block sizes, AG count
    and size, log size and placement; every refusal, with the inputs that
    cause it.
  - `structs` — superblock, AGF, AGI, AGFL, btree blocks, inodes and the log
    record, each encoded byte for byte against a specification of its
    layout.
  - `format` — the per-AG plan (free extents, free list, reverse mappings,
    the root inode chunk), the AG headers, and `format`, which returns the
    writes in the order they must reach the device; `apply` replays them on
    any `BlockDevice`.
  - `device` — the `BlockDevice` trait and a sparse, optionally
    sector-strict in-memory device.
  - `inspect` — reads every superblock, AG header, btree block, inode of an
    allocated chunk and the log into named, classed fields.
  - `compare` — the differences between two dumps, in key order.
  - `cli` — the command line's option syntax, and the report printed after
    a format.
  - `crc`, `bytes`, `text` — CRC32C, big-endian fields, decimal and hex text.
- `tests/` — tests on concrete values, run against the compiled library.
- `app/` — the `mkfs-xfs` program: argument parsing, the file or block
  device (positional I/O, hole punching, sizes and sectors from ioctls), and
  printing.
