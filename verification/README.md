# shared-target-core

Seed a new Cargo target directory from an existing one, and find what runs that
did not finish have left behind. The library is written in Verus: every function
of it carries a contract, and every contract is proved but those of the ten
wrappers in `outside`, which call `serde_json` and the standard library and are
taken on trust.

A second checkout starts with an empty `target/`. This builds the new directory
out of the old one's storage: a block clone where the file system offers it, and
where it does not, a hard link for the large artifacts under `deps/` and a copy
of everything else. The tree is built under a staging name, with a marker in it
that says what it is, and renamed into place once it is whole.

## How it is laid out

Nothing in `src/` touches a file. A run is a value: `request` says what it wants
done next, `step` takes in what came of it, and what a step may become is a
relation, `next`. Whoever holds the run does as it is asked; `app/` does so with
the operating system, and the tests with a file system in memory.

- `protocol` holds what can be asked and answered, `path` and `text` the paths
  and numbers, `error` what can go wrong and how it is put.
- `seed` is a seeding. It is made of `nesting` (where a path leads that need not
  exist), `probe` (whether blocks clone), `lock` (Cargo's build locks),
  `staging` (the marker and its lock) and `fill` (building the tree).
- `prune` finds and removes staged trees. It is made of `search`, `weigh` and
  `staging`.
- `metadata` asks Cargo where its target directory is, `command` says what a
  command line asks for, and `describe` what a reader is told.
- `outside` holds what is taken on trust of `serde_json` and the standard
  library.

What every run keeps to, whatever the file system answers, is stated and proved
in `fill_laws`, `totals`, `seed_laws` and `prune_laws`, and at the end of the
modules that runs are made of: that nothing is written before it is known to be
outside the source, that a tree is marked before it is filled and renamed only
when it is whole, that every entry arrives and is counted once, that only a tree
whose lock is held is removed, that one that has arrived loses its marker and
nothing else, and that a run that has ended holds no lock that it took.

`world` is a file system that answers truthfully. What runs find and leave in it
is stated and proved in `world_search`, `world_prune` and `world_seed`: that a
search finds all there is to find, that a finished seeding leaves nothing to
find, that a tree an unfinished one left is found, and that a second pruning
finds what the first left.
