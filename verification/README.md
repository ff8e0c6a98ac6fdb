# jabba-shim

A shim for the [jabba](https://github.com/Jabba-Team/jabba) Java version manager that keeps a
global `current` alias instead of editing `PATH`/`JAVA_HOME` per shell, written in Verus.

- `src/` — the verified library:
  - `text` — whitespace, trimming, ASCII case and matching on `Seq<char>` views;
  - `select` — which installed version `use` (or `alias current`) picks;
  - `shim` — the command line, `-V` handling and the `jabba-noshim` invocation for each command;
  - `noshim` — the jabba home, when to unpack the bundled `jabba`, reading its output;
  - `download` — which release and asset to fetch and the SHA-256 check of the download.
- `app/` — the programs: the shim, and `jabba-download` when the binary runs under that name.
  It parses arguments with clap, runs processes and HTTP through `pistonite-cu` and `reqwest`,
  and leaves every decision to the library. The bundled `jabba` and its version are read from
  `bin/` next to the executable.
- `tests/` — tests of the library on concrete values.
