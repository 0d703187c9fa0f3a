# dimetric

The core of the Dimetric engine tooling, as a verified library: exact
16.16 fixed point and its decimal text, binary angles and table trigonometry,
vectors and rectangles, the dimetric projection, the PCG32 generator and its
named streams, state hashing, identifiers, diagnostics with stable `DIM####`
codes, the asset pipeline (catalogue, `.meta` sidecars, PNG and Aseprite
import, font baking, atlas packing, LDtk levels), the audio voice pool, and
the tool server's view of the command line.

- `src/` — the library. Every function carries a contract, and the laws the
  library promises (text round trips, packing that never overlaps, voice
  stealing that respects priority, and so on) are proof functions beside the
  code they are about.
- `tests/` — the library's tests, run against the compiled crate.
- `app/` — the `dim` program: argument parsing, files, the JSON-RPC loop, and
  the floating-point audio mixer. It hands the library plain values and takes
  plain values back.
