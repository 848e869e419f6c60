# buckpkgs_store

The verified core of a package store: content checks, sealing, and the atomic placement of
immutable objects below `/pkgs/store`.

- `src/` holds the library. Every function in it is verified with Verus against the contract that
  it states; the modules whose names end in `_laws` state what holds across functions.
- `tests/` runs the library against a file system in memory.
- `app/` connects the library to a real file system, to Starlark rules, and to the build system
  around it.

The library does no input or output. What was read of a disk comes in as plain values, and work on
the file system goes out as a sequence of requests, each answered before the next one is asked.

Calls into other crates stand behind functions with a stated contract: `sha2` hashes archives
(`src/digest.rs`), `serde_json` parses manifests (`src/json.rs`), and the standard library converts
bytes to text (`src/archive.rs`).
