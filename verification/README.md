# complife

Computational Life: populations of random byte-string programs that run
against each other. Two programs are concatenated into one tape, executed by
an instruction-set interpreter, and the tape is split back into their two
slots. Over many epochs, self-replicators can emerge and drive down the
entropy of the population.

The library is written in Verus: each interpreter, the soups (well-mixed,
2D grid and surface), the pairing of an epoch, the metrics, the mesh
topology and the argument parsers carry `requires`/`ensures` contracts that
Verus proves.

## Layout

- `src/` — the verified library.
  - `substrate.rs`, `stepper.rs`: the instruction-set trait and the step/run
    model every interpreter is specified by.
  - `bff.rs`, `forth.rs`, `subleq.rs`, `qop.rs`, `skim.rs`, `rig.rs`,
    `bits.rs`, `echo.rs`, `z3.rs`, `edsac.rs`, `edvac.rs`, `ias.rs`,
    `pdp1.rs`, `ssem.rs`: the interpreters, each with its `spec` semantics,
    battle mode and disassembler; `word.rs`, `text.rs` and `listing.rs` hold
    shared helpers.
  - `uxn.rs`, `mos6502.rs`: disassemblers for the Uxn and 6502 instruction
    sets.
  - `soup.rs`, `soup2d.rs`, `surface.rs`, `epoch.rs`, `grid.rs`: the
    populations, one epoch of pairing and parallel execution, neighbor
    tables, and the reading of `--surface`.
  - `mesh.rs`: the faces of tori, tunnels, grids and icospheres (edge
    splitting), and face adjacency.
  - `obj.rs`: the Wavefront OBJ text of a surface.
  - `metrics.rs`: unique programs, zero bytes, byte histogram, compressed
    size for the high-order entropy.
  - `live.rs`: the per-cell colors and the control loop of the live view.
  - `random.rs`: the random-number calls the soups make.
  - `grid_arg.rs`: the reading of `--grid` sizes.
- `app/` — the command-line program: argument handling, output, surface
  geometry (vertex positions, geodesic neighbors, reading OBJ files), the
  floating-point mutation of surfaces, and the machine emulators driven
  through their own crates.
- `tests/` — tests of the library.
