# tune

Microtonal tuning primitives, verified with Verus: keys and notes, MIDI channel messages and the
MIDI tuning standard, rank-2 temperaments and their note names, moment-of-symmetry scales and
isomorphic keyboard layouts, keyboard mappings in Scala's KBM format, and channel allocation for
synthesizers with limited tuning support.

## Layout

- `src/` — the library. Every function carries a contract that Verus proves; public proof
  functions state the laws that hold across calls (round trips, invariants of the channel pools,
  the periodicity of keyboard mappings, the KBM export/import round trip, ...).
  - `key`, `note`, `midi`, `mts`: keys, notes, raw MIDI messages, tuning messages.
  - `math`, `comma`, `parse`, `text`: integer helpers, commas, balanced splitting, formatting.
  - `pergen`, `generators`, `temperament`, `layout`: periods and generators, MOS scales, equal
    temperaments, isomorphic layouts.
  - `scala`: keyboard mappings and scales in Scala's KBM and SCL formats, their import and export,
    and scales of harmonic series segments.
  - `tuner`, `pool`: just-in-time channel allocation, the JIT tuner, MIDI synthesizers.
  - `routing`: channel ranges and tuning methods of the command line, and the dispatch of
    incoming MIDI messages to the JIT tuner.
- `tests/` — tests run against the compiled library.
- `app/` — the command line program: argument handling, printing, and the floating-point pitch
  arithmetic (logarithms, rounding of cents and frequencies) that feeds integer values into the
  library.

Pitches enter the library already quantized: detunings of the MIDI synthesizers are given in
steps of 1/16384 semitone, and the reference pitch of a keyboard mapping is a value of a type
parameter that the mapping logic carries without inspecting it.
