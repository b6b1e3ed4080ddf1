# loaf

An overlay filesystem served over NFSv3: commands work in a mount whose writes
land in an upper layer while the real directory underneath stays untouched.
Afterwards the changes can be listed, written into the real directory, or
thrown away.

The library (`src/`) is verified with Verus:

- `db` — the upper layer: a table of paths with their attributes, contents
  and symlink targets, plus whiteouts that hide deleted base entries.
- `base` — what the base directory holds at the paths an operation touches.
- `overlay` — the overlay itself: lookups, reads, copy-up on write, removal
  with whiteouts, renames, listings and inode numbering.
- `nfs` — each NFS procedure as one step on the overlay, with NFS attributes
  and status codes.
- `changes` — the sorted list of changes and the steps that apply them.
- `cli`, `sandbox`, `clock`, `text` — answers to prompts, the mount table,
  the sandbox profile, timestamps and path text.
- `laws` — properties that span operations, each proved.

`app/` is the program around it: the command line, the SQLite file that keeps
the upper layer, the NFS server and mounting, the base directory's metadata,
and the macOS sandbox.
