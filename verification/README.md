# shr_daw

The decision logic of SHR-DAW, a compact music workstation, as a Verus
library: every function in `src/` carries a contract that Verus proves.

## Layout

- `src/` — the verified library, one module per subject:
  - `generative`: the offline Pattern generators (Euclidean, Accumulator,
    Mutation, Fill, Arpeggio, Chord, Harmonizer), specified cell by cell;
    drafts keep protected cells, stay well-formed, and Euclidean and Fill
    offer exactly their number of hits.
  - `external_sync`: the MIDI byte parser and the external clock follower.
  - `controller_clock`: the decisions of the controller clock worker.
  - `live_performance`: Live Pattern browsing, queueing, capture and lane shaping.
  - `effects`: ownership of published effect controls and their dirty-bit protocol.
  - `loop_player`, `final_bus`, `master_strip`: the integer rules of the
    loop mixer, the performance bus and the mastering strip.
  - `harmony`, `scale`, `tempo`, `sequencer`: the musical data the others use.
  - `midi_endpoint`, `installer_contract`, `procfs`, `doctor`, `fsutil`,
    `geometry`, `text`: parsing and matching helpers.
- `tests/` — ordinary Rust tests of the library's public functions.
- `app/` — the `shr` command line: file and device I/O, threads, and the
  floating-point audio arithmetic that stays outside the library.
