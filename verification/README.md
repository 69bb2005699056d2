# rock_core

The front end of the Rock language toolchain as a verified library: lexing, parsing
into a lossless syntax tree, the typed view over that tree, source formatting, package
manifests and versions, dependency selection, the package graph and module session, the
editor position conversions of the language server, the per-procedure state of code
generation, and the reader of the compiler's test files.

- `src/` is the library; every function carries its contract and is proved.
- `tests/` exercises the library on concrete inputs.
- `app/` holds what the library leaves out: file system and process access, and the
  serialization of manifests.
