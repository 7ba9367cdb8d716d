# bap_core

The core of BAP Store, a software store for Linux that searches several
package sources at once: the rules, parsers and plans, each function with a
contract that Verus proves.

- `src/` is the verified library. `model` holds the shared records;
  `text` the character-level helpers every parser builds on; `settings`,
  `alpmdb`, `snap`, `appstream` (with its `parser` and `reader`), `version`,
  `release` and `launch` read what other programs write; `plan`, `allow`,
  `remedy` and `selfupdate` decide what to run and what to say; `store`,
  `updates`, `commands` and `drivers` put the sources together; `web` holds
  what the HTTP client decides by itself.
- Calls into `quick-xml`, `flate2`, `tar` and `ruzstd` stand in `src/`
  behind small functions whose contracts say what the library relies on.
- `app/` is the program around the library: files, sockets, processes, the
  network, JSON, and the grouping of packages into apps.
- `tests/` exercises the library from outside.

Run Verus on `src/lib.rs` to check every proof.
