# null-or-die

A library that tells the synchronisation of dance simfiles: whether the charts of a
song are timed to the sound itself ("null") or 9 ms behind it ("+9ms"). It takes a
fingerprint of the audio round every beat, runs a kernel over it, and reads the bias
from the peak that stands out.

Numbers are held as the bit patterns of double-precision floats (`number::Real`). They
are compared and ordered in verified code. What is computed with them is handed in as a
few functions (`numeric::Numerics`, `heat::Painter`), and every contract says which of
them are applied to what.

- `src/` is the library. All of it is verified by Verus.
- `tests/` runs it, with real arithmetic and real transforms.
- `app/` is the program `nod` round it: arguments, files, decoders, transforms.

The modules of the library:

- `text`, `naming`, `paths`, `sorting`, `number`, `numeric`: strings, file names, orders
  and numbers.
- `matrix`: places in matrices.
- `beats`, `spectrum`, `fingerprint`, `kernel`, `peaks`, `stats`, `estimate`, `trace`:
  from samples and the times of beats to an estimate, and what a trace tells of it.
- `compat`, `model`, `cli`, `song`, `audio`, `analyze`, `trace_ctl`: which charts of a
  song are estimated, from which audio, and what is reported of them.
- `raster`, `heat`, `plot`: pictures of estimates.
- `fs_scan`, `codec`, `harness`, `parity`, `bench`: finding simfiles, making baselines,
  holding estimates against the rows of baselines, and timing the analysis.

Where files are written, the library says what is to be done next as a value, and takes
what came of it; `app/` does it. So it is proved of every run what is asked for, and that
nothing else is.
