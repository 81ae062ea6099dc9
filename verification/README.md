# rgitui_git

The repository layer of a Git client, as a library whose behaviour is stated
in contracts and proved with Verus.

- `src/` is the verified library: the snapshot types (`types`), the parsers
  for what `git` prints (`logparse`, `grep`, `graph`, `coauthor`, `conflict`,
  `ops`), the ordering of lists (`order`), the working-tree status lists
  (`status`), the project state and the rules that update it (`project`,
  `watcher`), pulling and pushing (`remote`), interactive rebase (`rebase`),
  what resolving a conflicted file decides (`resolve`), reflog and submodule
  listings (`reflog`, `submodule`), and applying or reverting part of a diff
  in the working tree (`rewrite`, `patch`, with the round-trip laws in
  `roundtrip`).
- `app/` is the unverified edge around it: opening repositories with
  libgit2, running `git`, reading and writing files, and running operations
  against a `ProjectHandle`, which queues the events a window reads.
- `tests/` exercises the library on concrete values.
