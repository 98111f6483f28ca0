use crate::epoch::{disjoint_pairs, has_neighbors, pairs_interacted, EpochScratch};
use crate::grid::{is_neighbor, law_neighbor_count, lists_neighbors, neighbor_count, NeighborTable};
use crate::metrics::contents;
use crate::random::seeded_rng;
use crate::soup::{
    all_hit, fits_tape, flatten_into, mutate_programs, mutated, none_hit, one_bit_each, one_bit_flips,
    random_population, uniform,
    MutationRate,
};
use crate::substrate::Substrate;
use rand::rngs::SmallRng;
use vstd::prelude::*;

verus! {

/// Configuration for a 2D spatial simulation.
#[derive(Clone, Copy, Debug, PartialEq, Eq, Structural)]
pub struct Soup2dConfig {
    /// Grid width.
    pub width: usize,
    /// Grid height.
    pub height: usize,
    /// Number of bytes per program.
    pub program_size: usize,
    /// Maximum steps per program execution.
    pub step_limit: usize,
    /// Per-byte mutation probability per epoch (a zero numerator disables it).
    pub mutation_rate: MutationRate,
}

impl Soup2dConfig {
    /// The grid's cells and their neighbor table fit in memory.
    pub open spec fn grid_fits(self) -> bool {
        self.width * self.height * 192 <= isize::MAX
    }

    /// The bytes of the whole population fit in memory.
    pub open spec fn population_fits(self) -> bool {
        self.width * self.height * self.program_size <= isize::MAX
    }

    /// The number of cells, one program each.
    pub open spec fn cells(self) -> nat {
        (self.width * self.height) as nat
    }
}

/// Every pair joins two neighbors of a `w` by `h` grid.
pub open spec fn neighbor_pairs(w: nat, h: nat, pairs: Seq<(usize, usize)>) -> bool {
    forall|k: int|
        0 <= k < pairs.len() ==> is_neighbor(w, h, (#[trigger] pairs[k]).0 as int, pairs[k].1 as int)
}


/// A 2D spatial primordial soup: programs arranged on a grid, interacting
/// only with Chebyshev-distance-2 neighbors.
pub struct Soup2d {
    /// The population, indexed by `y * width + x`.
    pub programs: Vec<Vec<u8>>,
    pub config: Soup2dConfig,
    pub rng: SmallRng,
    /// The pre-computed neighbors of every cell.
    pub neighbor_table: NeighborTable,
    /// Reusable buffers of an epoch.
    pub scratch: EpochScratch,
    /// Whether each byte was hit by the last mutation.
    pub hits: Ghost<Seq<Seq<bool>>>,
    /// The bit drawn for each byte by the last mutation (0 where not hit).
    pub bits: Ghost<Seq<Seq<u32>>>,
}

impl Soup2d {
    /// The contents of the programs.
    pub open spec fn population(&self) -> Seq<Seq<u8>> {
        contents(self.programs@)
    }

    /// The neighbor table and the buffers match the grid, and every program
    /// has the configured size.
    pub open spec fn well_formed(&self) -> bool {
        &&& self.config.grid_fits()
        &&& self.programs@.len() == self.config.cells()
        &&& uniform(self.population(), self.config.program_size as nat)
        &&& self.neighbor_table.of_grid(self.config.width as nat, self.config.height as nat)
        &&& self.scratch.sized_for(self.config.cells())
    }

    /// Create a new 2D soup with randomly initialized programs.
    pub fn new(config: Soup2dConfig, seed: u64) -> (soup: Self)
        requires
            config.grid_fits(),
        ensures
            soup.config == config,
            soup.programs@.len() == config.cells(),
            soup.well_formed(),
    {
        let mut rng = seeded_rng(seed);
        let w = config.width;
        let h = config.height;
        let total = w * h;
        let programs = random_population(&mut rng, total, config.program_size);
        let neighbor_table = NeighborTable::new(w, h);
        let scratch = EpochScratch::new(total);
        Soup2d { programs, config, rng, neighbor_table, scratch, hits: Ghost(Seq::empty()), bits: Ghost(Seq::empty()) }
    }

    /// The pre-computed neighbors of the cell at column `cx`, row `cy`: every
    /// other cell within Chebyshev distance 2, each once, in row-major order.
    pub fn neighbors(&self, cx: usize, cy: usize) -> (n: &[usize])
        requires
            self.well_formed(),
            cx < self.config.width,
            cy < self.config.height,
        ensures
            lists_neighbors(
                self.config.width as nat,
                self.config.height as nat,
                cy * self.config.width + cx,
                n@,
            ),
            n@.len() == neighbor_count(
                self.config.width as nat,
                self.config.height as nat,
                cy * self.config.width + cx,
            ),
    {
        let w = self.config.width;
        let h = self.config.height;
        assert(cy * w + cx < w * h) by (nonlinear_arith)
            requires
                cx < w,
                cy < h,
        ;
        let cell = cy * w + cx;
        proof {
            self.neighbor_table.lemma_grid_table(w as nat, h as nat);
        }
        let n = self.neighbor_table.neighbors_of(cell);
        proof {
            assert(w * h <= usize::MAX) by (nonlinear_arith)
                requires
                    w * h * 192 <= isize::MAX,
            ;
            law_neighbor_count(w as nat, h as nat, cell as int, n@);
        }
        n
    }

    /// Run one 2D epoch: go through the programs in a shuffled order and pair
    /// each with a random Chebyshev-distance-2 neighbor, if neither is taken
    /// yet; then execute the tapes of all pairs in parallel and write them
    /// back.
    pub fn run_epoch<S: Substrate + Sync>(&mut self)
        requires
            old(self).well_formed(),
            old(self).config.population_fits(),
            0 < old(self).config.program_size,
            fits_tape(old(self).config.program_size as nat),
        ensures
            final(self).config == old(self).config,
            final(self).well_formed(),
            disjoint_pairs(final(self).scratch.pairs_made()),
            neighbor_pairs(
                old(self).config.width as nat,
                old(self).config.height as nat,
                final(self).scratch.pairs_made(),
            ),
            pairs_interacted::<S>(
                old(self).population(),
                final(self).population(),
                final(self).scratch.pairs_made(),
                old(self).config.program_size as nat,
                old(self).config.step_limit as nat,
            ),
            final(self).scratch.greedy_pairing(old(self).neighbor_table),
            has_neighbors(old(self).neighbor_table) ==> final(self).scratch.pairs_made().len() >= 1,
    {
        let w = self.config.width;
        let h = self.config.height;
        let ps = self.config.program_size;
        let step_limit = self.config.step_limit;

        proof {
            self.neighbor_table.lemma_grid_table(w as nat, h as nat);
        }
        self.scratch.run_epoch::<S>(&mut self.programs, &mut self.rng, &self.neighbor_table, ps, step_limit);
        proof {
            let pairs = self.scratch.pairs_made();
            assert forall|k: int| 0 <= k < pairs.len() implies is_neighbor(
                w as nat,
                h as nat,
                (#[trigger] pairs[k]).0 as int,
                pairs[k].1 as int,
            ) by {
                let (a, b) = pairs[k];
                let ea = self.neighbor_table.entries(a as int);
                let eb = self.neighbor_table.entries(b as int);
                if ea.contains(b) {
                    let i = choose|i: int| 0 <= i < ea.len() && ea[i] == b;
                    assert(lists_neighbors(w as nat, h as nat, a as int, ea));
                    assert(is_neighbor(w as nat, h as nat, a as int, ea[i] as int));
                } else {
                    let i = choose|i: int| 0 <= i < eb.len() && eb[i] == a;
                    assert(lists_neighbors(w as nat, h as nat, b as int, eb));
                    assert(is_neighbor(w as nat, h as nat, b as int, eb[i] as int));
                }
            }
        }
    }

    /// Apply background mutation to all programs: each byte, with the
    /// configured probability, gets one random bit flipped.
    pub fn mutate(&mut self)
        requires
            old(self).config.mutation_rate.valid(),
        ensures
            final(self).config == old(self).config,
            old(self).config.mutation_rate.disabled() ==> final(self).programs@ == old(
                self,
            ).programs@,
            mutated(
                old(self).population(),
                final(self).population(),
                final(self).hits@,
                final(self).bits@,
            ),
            old(self).config.mutation_rate.disabled() ==> none_hit(final(self).hits@),
            0 < old(self).config.mutation_rate.numerator == old(
                self,
            ).config.mutation_rate.denominator ==> all_hit(final(self).hits@),
            one_bit_flips(old(self).population(), final(self).population()),
            0 < old(self).config.mutation_rate.numerator == old(
                self,
            ).config.mutation_rate.denominator ==> one_bit_each(
                old(self).population(),
                final(self).population(),
            ),
            old(self).well_formed() ==> final(self).well_formed(),
    {
        let draws = mutate_programs(&mut self.programs, &mut self.rng, self.config.mutation_rate);
        self.hits = Ghost(draws@.0);
        self.bits = Ghost(draws@.1);
    }

    /// Fill `buf` with the entire population as a flat byte sequence.
    pub fn population_bytes_into(&self, buf: &mut Vec<u8>)
        ensures
            final(buf)@ == self.population().flatten(),
    {
        flatten_into(&self.programs, buf);
    }

    /// The entire population as a flat byte sequence.
    pub fn population_bytes(&self) -> (bytes: Vec<u8>)
        ensures
            bytes@ == self.population().flatten(),
    {
        let mut buf: Vec<u8> = Vec::new();
        self.population_bytes_into(&mut buf);
        buf
    }
}

} // verus!
