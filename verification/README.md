# a2ml-estate-normalizer

Normalizes the layout of A2ML metadata files across the git repositories of
an estate: core files in `.machine_readable/6a2/`, anchor files in
`.machine_readable/6a2/anchor/`, one version of each core file, and a README
and AI manifest in each directory.

The decisions are a library verified with Verus (`src/`); the command-line
program in `app/` walks and changes the file system as the library directs.

- `text`: string equality, order, replacement and splitting.
- `paths`: paths as component lists, their order, repository discovery,
  the repository filter and the default estate root.
- `mode`: modes of operation and the steps each runs.
- `names`: the managed file names.
- `relocate`: plans for converting `.scm` files and moving core files.
- `clock`: dates from `chrono`.
- `transpile`: the `.a2ml` form of a `.scm` file.
- `anchor`: gathering and placing anchor files, dated or not (`regex`), and
  dated names that never overwrite another version.
- `documents`: missing READMEs and manifests.
- `cleanup`: old directories left empty, such as `anchors/` and `6scm/6a2/`.
- `run`: per-repository plan, fix sums and run totals.
