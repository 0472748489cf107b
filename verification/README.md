# rum

The verified core of `rum`, a fast replacement for the common uses of `rm`
(`-r`/`-R`, `-f`, `-v`).

- `src/` is the library, verified with Verus. `machine.rs` holds the removal
  of a list of paths as a state machine: it asks a driver for one file-system
  operation at a time (inspect a path, remove a file, open, list, close or
  remove a directory, unlink a batch of files, remove a batch of
  subdirectories, each by a machine of its own) and is told how each went.
  `outcome.rs`, `error.rs` and `names.rs` hold the single-step decisions and
  the messages; `errno.rs` classifies error numbers through rustix.
  The machine settles every answer itself: each file of a batch by its own
  result, each subdirectory by the errors of its own machine (which must
  have run with the same options), an entry whose
  kind the listing leaves open by looking at it, and, with `-f`, a path,
  entry or directory that is gone by the time it is reached (even between
  opening a directory and listing it) as no error.
  `laws.rs` and `tree.rs` state and prove what holds of every run, among them
  that every run ends, whatever the file system answers; that removing
  several paths is removing each alone, one after another; that every error
  names the directory or entry it is about; that with `-f` no error is about
  a missing path, and with `-r` none says "is a directory"; that the order
  in which the files and subdirectories of a directory are taken does not
  change whether it is removed; that a listing hands out each entry once;
  and that removing a directory
  tree where every operation succeeds performs exactly the expected
  operations, level by level, everything in a directory before the
  directory itself.
- `app/` is the `rum` command: argument parsing with clap and a driver that
  performs the operations with `std::fs` and rustix, unlinking the files of a
  directory and removing sibling subdirectories in parallel with rayon.
- `tests/` drives the machine against an in-memory file system.
