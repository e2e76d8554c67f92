# sandblaster

A processor fuzzer's logic as a verified library: candidate generation,
execution records, the `SB1` packet line, the legacy binary record and text
logs, the injector's and frontend's command lines, the frontend's statistics
and reports, and the condensed summary. Every function under `src/` carries a
contract; Verus proves each, but for the few functions that call std or
iced-x86, whose contracts are trusted as their documentation states them.

Layout:

- `src/` — the library. `text.rs` and `instruction.rs` model strings and
  instruction bytes as sequences; `search/` holds the candidate generators;
  `injector/` the configuration, policies, packets, the engine step and the
  supervisor's decisions; `sifter/` the frontend's command line, statistics
  and reports; `legacy_format.rs` the text logs; `summary.rs` the grouping of
  findings; `mobile.rs` the decisions of the iOS agent.
- Laws that relate several functions are public proof functions: the hex,
  packet-line, artifact-line, tick and whole-log round trips
  (`instruction.rs`, `injector/packet.rs`, `legacy_format.rs`,
  `legacy_laws.rs`), the byte-order round trip of the binary record, and the
  progress and termination facts of the search strategies (`search/`).
- `app/` — the programs: the injector and sifter command lines, the Linux,
  Android and iOS execution backends (memory mapping, signals, `fork`), the
  iOS C entry points and host detection.
- `tests/` — the tests, run against the compiled library.
