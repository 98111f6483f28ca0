use crate::epoch::{disjoint_pairs, has_neighbors, listed_pairs, pairs_interacted, EpochScratch};
use crate::grid::NeighborTable;
use crate::grid_arg::{
    grid_dims, grid_dims_of, grid_error_text, int_error_str, int_error_text, parse_usize,
    parse_usize_str, GridError, IntErrorKind,
};
use crate::metrics::contents;
use crate::random::seeded_rng;
use crate::soup::{fits_tape, flatten_into, random_population, uniform, MutationRate};
use crate::substrate::Substrate;
use rand::rngs::SmallRng;
use vstd::prelude::*;
use vstd::string::StrSliceExecFns;
use vstd::utf8::encode_utf8;

verus! {

/// Configuration for a surface simulation.
#[derive(Clone, Copy, Debug, PartialEq, Eq, Structural)]
pub struct SoupSurfaceConfig {
    /// Bytes per program.
    pub program_size: usize,
    /// Maximum steps per program execution.
    pub step_limit: usize,
    /// Per-byte mutation probability per epoch.
    pub mutation_rate: MutationRate,
}

/// A primordial soup simulation running on a surface: one program per cell
/// (a face of a triangle mesh), interacting with the cells that the
/// neighbor table lists for it.
pub struct SoupSurface {
    pub programs: Vec<Vec<u8>>,
    pub config: SoupSurfaceConfig,
    /// The neighbors of every cell (its geodesic neighbors on the mesh).
    pub neighbors: NeighborTable,
    pub rng: SmallRng,
    /// Reusable buffers of an epoch.
    pub scratch: EpochScratch,
}

impl SoupSurface {
    /// The contents of the programs.
    pub open spec fn population(&self) -> Seq<Seq<u8>> {
        contents(self.programs@)
    }

    /// One program of the configured size per cell of a valid neighbor
    /// table, and buffers sized for the cells.
    pub open spec fn well_formed(&self) -> bool {
        &&& self.neighbors.valid()
        &&& self.programs@.len() == self.neighbors.cells()
        &&& uniform(self.population(), self.config.program_size as nat)
        &&& self.scratch.sized_for(self.neighbors.cells())
    }

    /// Create a new surface soup with randomly initialized programs, one per
    /// cell of the neighbor table.
    pub fn new(neighbors: NeighborTable, config: SoupSurfaceConfig, seed: u64) -> (soup: Self)
        requires
            neighbors.valid(),
        ensures
            soup.config == config,
            soup.neighbors == neighbors,
            soup.programs@.len() == neighbors.cells(),
            soup.well_formed(),
    {
        let mut rng = seeded_rng(seed);
        let total = neighbors.num_cells();
        let programs = random_population(&mut rng, total, config.program_size);
        let scratch = EpochScratch::new(total);
        SoupSurface { programs, config, neighbors, rng, scratch }
    }

    /// Number of simulation cells.
    pub fn num_cells(&self) -> (n: usize)
        ensures
            n == self.neighbors.cells(),
    {
        self.neighbors.num_cells()
    }

    /// Run one epoch: pair each cell with a random neighbor, execute in
    /// parallel.
    pub fn run_epoch<S: Substrate + Sync>(&mut self)
        requires
            old(self).well_formed(),
            old(self).neighbors.cells() * old(self).config.program_size <= isize::MAX,
            0 < old(self).config.program_size,
            fits_tape(old(self).config.program_size as nat),
        ensures
            final(self).config == old(self).config,
            final(self).neighbors == old(self).neighbors,
            final(self).well_formed(),
            disjoint_pairs(final(self).scratch.pairs_made()),
            listed_pairs(old(self).neighbors, final(self).scratch.pairs_made()),
            pairs_interacted::<S>(
                old(self).population(),
                final(self).population(),
                final(self).scratch.pairs_made(),
                old(self).config.program_size as nat,
                old(self).config.step_limit as nat,
            ),
            final(self).scratch.greedy_pairing(old(self).neighbors),
            has_neighbors(old(self).neighbors) ==> final(self).scratch.pairs_made().len() >= 1,
    {
        let ps = self.config.program_size;
        let step_limit = self.config.step_limit;
        self.scratch.run_epoch::<S>(&mut self.programs, &mut self.rng, &self.neighbors, ps, step_limit);
    }

    /// Flip bit `bit` (0 is the lowest) of byte `pos` of the population,
    /// its bytes counted program after program.
    pub fn flip_bit(&mut self, pos: usize, bit: u32)
        requires
            old(self).well_formed(),
            pos < old(self).neighbors.cells() * old(self).config.program_size,
            bit < 8,
        ensures
            final(self).config == old(self).config,
            final(self).neighbors == old(self).neighbors,
            final(self).well_formed(),
            final(self).population() == flip_in(
                old(self).population(),
                pos as int / old(self).config.program_size as int,
                pos as int % old(self).config.program_size as int,
                bit,
            ),
    {
        let ps = self.config.program_size;
        let ghost before = self.population();
        proof {
            assert(pos / ps < self.neighbors.cells()) by (nonlinear_arith)
                requires
                    pos < self.neighbors.cells() * ps,
            ;
            assert(pos % ps < ps) by (nonlinear_arith)
                requires
                    pos < self.neighbors.cells() * ps,
            ;
        }
        let i = pos / ps;
        let j = pos % ps;
        let mut prog: Vec<u8> = Vec::new();
        self.programs.set_and_swap(i, &mut prog);
        assert(prog@ == before[i as int]);
        let b = prog[j] ^ (1u8 << bit);
        prog.set(j, b);
        self.programs.set(i, prog);
        proof {
            assert(self.population() =~= flip_in(before, i as int, j as int, bit));
        }
    }

    /// Fill `buf` with the entire population as a flat byte sequence.
    pub fn population_bytes_into(&self, buf: &mut Vec<u8>)
        ensures
            final(buf)@ == self.population().flatten(),
    {
        flatten_into(&self.programs, buf);
    }
}

/// The programs `ps` with bit `bit` of byte `j` of program `i` flipped.
pub open spec fn flip_in(ps: Seq<Seq<u8>>, i: int, j: int, bit: u32) -> Seq<Seq<u8>> {
    ps.update(i, ps[i].update(j, ps[i][j] ^ (1u8 << bit)))
}

/// Flipping the same bit twice gives the programs back.
pub proof fn law_flip_twice_restores(ps: Seq<Seq<u8>>, i: int, j: int, bit: u32)
    requires
        0 <= i < ps.len(),
        0 <= j < ps[i].len(),
        bit < 8,
    ensures
        flip_in(flip_in(ps, i, j, bit), i, j, bit) == ps,
{
    let x = ps[i][j];
    assert((x ^ (1u8 << bit)) ^ (1u8 << bit) == x) by (bit_vector)
        requires
            bit < 8,
    ;
    assert(flip_in(flip_in(ps, i, j, bit), i, j, bit)[i] =~= ps[i]);
    assert(flip_in(flip_in(ps, i, j, bit), i, j, bit) =~= ps);
}

/// Specification for generating a surface mesh.
#[derive(Clone, Debug, PartialEq)]
pub enum SurfaceSpec {
    Sphere { subdivisions: usize },
    Torus { major: usize, minor: usize },
    FlatGrid { width: usize, height: usize },
    HamsterTunnel { num_spheres: usize, segments: usize, seed: u64 },
    ObjFile { path: String },
}

impl SurfaceSpec {
    /// Human-readable label.
    pub fn label(&self) -> (s: &'static str)
        ensures
            s@ == match *self {
                SurfaceSpec::Sphere { .. } => "Sphere"@,
                SurfaceSpec::Torus { .. } => "Torus"@,
                SurfaceSpec::FlatGrid { .. } => "Flat Grid"@,
                SurfaceSpec::HamsterTunnel { .. } => "Hamster Tunnel"@,
                SurfaceSpec::ObjFile { .. } => "OBJ File"@,
            },
    {
        match self {
            SurfaceSpec::Sphere { .. } => "Sphere",
            SurfaceSpec::Torus { .. } => "Torus",
            SurfaceSpec::FlatGrid { .. } => "Flat Grid",
            SurfaceSpec::HamsterTunnel { .. } => "Hamster Tunnel",
            SurfaceSpec::ObjFile { .. } => "OBJ File",
        }
    }
}

/// The kinds of surface that a `--surface` argument names before its colon.
#[derive(Clone, Copy, Debug, PartialEq, Eq, Structural)]
pub enum SurfaceKind {
    Flat,
    Sphere,
    Torus,
    Obj,
    Unknown,
}

/// Why a `--surface` argument was refused.
#[derive(Clone, Copy, Debug, PartialEq, Eq, Structural)]
pub enum SurfaceArgError {
    /// No `kind:` prefix that names a known surface.
    UnknownKind,
    /// The size of a flat grid or of a torus is no "AxB" pair.
    Size(GridError),
    /// The subdivision count of a sphere is no `usize`.
    Count(IntErrorKind),
}

/// The position of the first `:` in `s`, if any.
pub open spec fn colon_at(s: Seq<char>) -> Option<int>
    decreases s.len(),
{
    if s.len() == 0 {
        None
    } else {
        match colon_at(s.drop_last()) {
            Some(i) => Some(i),
            None => if s.last() == ':' {
                Some(s.len() - 1)
            } else {
                None
            },
        }
    }
}

/// The kind a `--surface` argument names: the text before its first colon.
pub open spec fn surface_kind(s: Seq<char>) -> SurfaceKind {
    match colon_at(s) {
        None => SurfaceKind::Unknown,
        Some(i) => {
            let k = s.subrange(0, i);
            if k == "flat"@ {
                SurfaceKind::Flat
            } else if k == "sphere"@ {
                SurfaceKind::Sphere
            } else if k == "torus"@ {
                SurfaceKind::Torus
            } else if k == "obj"@ {
                SurfaceKind::Obj
            } else {
                SurfaceKind::Unknown
            }
        },
    }
}

/// The text after the first colon of a `--surface` argument.
pub open spec fn surface_arg(s: Seq<char>) -> Seq<char> {
    match colon_at(s) {
        None => Seq::empty(),
        Some(i) => s.subrange(i + 1, s.len() as int),
    }
}

/// The message for a refused `--surface` argument `s`.
pub open spec fn surface_error_text(e: SurfaceArgError, s: Seq<char>) -> Seq<char> {
    match e {
        SurfaceArgError::UnknownKind => "Invalid surface '"@ + s
            + "', expected flat:WxH, sphere:N, torus:MxN or obj:PATH"@,
        SurfaceArgError::Size(g) => grid_error_text(g, surface_arg(s)),
        SurfaceArgError::Count(k) => "Invalid sphere subdivisions: "@ + int_error_text(k),
    }
}

proof fn lemma_colon_at_prefix(s: Seq<char>, n: int)
    requires
        0 <= n <= s.len(),
        forall|j: int| 0 <= j < n ==> s[j] != ':',
    ensures
        colon_at(s.take(n)) is None,
    decreases n,
{
    if n > 0 {
        assert(s.take(n).drop_last() =~= s.take(n - 1));
        lemma_colon_at_prefix(s, n - 1);
    }
}

proof fn lemma_colon_at_found(s: Seq<char>, n: int, i: int)
    requires
        0 <= i < n <= s.len(),
        colon_at(s.take(i + 1)) == Some(i),
    ensures
        colon_at(s.take(n)) == Some(i),
    decreases n - i,
{
    if n > i + 1 {
        assert(s.take(n).drop_last() =~= s.take(n - 1));
        lemma_colon_at_found(s, n - 1, i);
    }
}

/// The position of the first `:` in `s`, counted in characters.
fn find_colon(s: &str) -> (r: Option<usize>)
    ensures
        r is None <==> colon_at(s@) is None,
        r matches Some(p) ==> p < s@.len() && colon_at(s@) == Some(p as int),
{
    let n = s.unicode_len();
    let mut i: usize = 0;
    while i < n
        invariant
            n == s@.len(),
            i <= n,
            forall|j: int| 0 <= j < i ==> s@[j] != ':',
        decreases n - i,
    {
        if s.get_char(i) == ':' {
            proof {
                lemma_colon_at_prefix(s@, i as int);
                assert(s@.take(i + 1).drop_last() =~= s@.take(i as int));
                lemma_colon_at_found(s@, n as int, i as int);
                assert(s@.take(n as int) =~= s@);
            }
            return Some(i);
        }
        i = i + 1;
    }
    proof {
        lemma_colon_at_prefix(s@, n as int);
        assert(s@.take(n as int) =~= s@);
    }
    None
}

/// Whether `a` and `b` hold the same characters.
fn same_text(a: &str, b: &str) -> (r: bool)
    ensures
        r == (a@ == b@),
{
    let n = a.unicode_len();
    if n != b.unicode_len() {
        return false;
    }
    let mut i: usize = 0;
    while i < n
        invariant
            n == a@.len() == b@.len(),
            i <= n,
            forall|j: int| 0 <= j < i ==> a@[j] == b@[j],
        decreases n - i,
    {
        if a.get_char(i) != b.get_char(i) {
            return false;
        }
        i = i + 1;
    }
    assert(a@ =~= b@);
    true
}

/// Read the kind of surface that `k` names.
fn kind_of(k: &str) -> (r: SurfaceKind)
    ensures
        r == (if k@ == "flat"@ {
            SurfaceKind::Flat
        } else if k@ == "sphere"@ {
            SurfaceKind::Sphere
        } else if k@ == "torus"@ {
            SurfaceKind::Torus
        } else if k@ == "obj"@ {
            SurfaceKind::Obj
        } else {
            SurfaceKind::Unknown
        }),
{
    if same_text(k, "flat") {
        SurfaceKind::Flat
    } else if same_text(k, "sphere") {
        SurfaceKind::Sphere
    } else if same_text(k, "torus") {
        SurfaceKind::Torus
    } else if same_text(k, "obj") {
        SurfaceKind::Obj
    } else {
        SurfaceKind::Unknown
    }
}

/// Read a `--surface` argument: `flat:WxH`, `sphere:N`, `torus:MxN` or
/// `obj:PATH`.
pub fn surface_spec(s: &str) -> (r: Result<SurfaceSpec, SurfaceArgError>)
    ensures
        match surface_kind(s@) {
            SurfaceKind::Unknown => r == Err::<SurfaceSpec, SurfaceArgError>(
                SurfaceArgError::UnknownKind,
            ),
            SurfaceKind::Flat => match grid_dims_of(encode_utf8(surface_arg(s@))) {
                Ok((w, h)) => r matches Ok(SurfaceSpec::FlatGrid { width, height }) && width == w
                    && height == h,
                Err(e) => r == Err::<SurfaceSpec, SurfaceArgError>(SurfaceArgError::Size(e)),
            },
            SurfaceKind::Torus => match grid_dims_of(encode_utf8(surface_arg(s@))) {
                Ok((a, b)) => r matches Ok(SurfaceSpec::Torus { major, minor }) && major == a
                    && minor == b,
                Err(e) => r == Err::<SurfaceSpec, SurfaceArgError>(SurfaceArgError::Size(e)),
            },
            SurfaceKind::Sphere => match parse_usize(encode_utf8(surface_arg(s@))) {
                Ok(n) => r matches Ok(SurfaceSpec::Sphere { subdivisions }) && subdivisions == n,
                Err(e) => r == Err::<SurfaceSpec, SurfaceArgError>(SurfaceArgError::Count(e)),
            },
            SurfaceKind::Obj => r matches Ok(SurfaceSpec::ObjFile { path }) && path@ == surface_arg(
                s@,
            ),
        },
{
    let n = s.unicode_len();
    let pos = match find_colon(s) {
        None => {
            return Err(SurfaceArgError::UnknownKind);
        },
        Some(pos) => pos,
    };
    let k = s.substring_char(0, pos);
    let kind = kind_of(k);
    let arg = s.substring_char(pos + 1, n);
    match kind {
        SurfaceKind::Unknown => Err(SurfaceArgError::UnknownKind),
        SurfaceKind::Flat => match grid_dims(arg) {
            Ok((width, height)) => Ok(SurfaceSpec::FlatGrid { width, height }),
            Err(e) => Err(SurfaceArgError::Size(e)),
        },
        SurfaceKind::Torus => match grid_dims(arg) {
            Ok((major, minor)) => Ok(SurfaceSpec::Torus { major, minor }),
            Err(e) => Err(SurfaceArgError::Size(e)),
        },
        SurfaceKind::Sphere => match parse_usize_str(arg) {
            Ok(subdivisions) => Ok(SurfaceSpec::Sphere { subdivisions }),
            Err(e) => Err(SurfaceArgError::Count(e)),
        },
        SurfaceKind::Obj => Ok(SurfaceSpec::ObjFile { path: arg.to_owned() }),
    }
}

/// Read a `--surface` argument, with a message when it is refused.
pub fn parse_surface(s: &str) -> (r: Result<SurfaceSpec, String>)
    ensures
        match surface_error_of(s@) {
            None => r matches Ok(spec) && surface_parsed(spec, s@),
            Some(e) => r matches Err(m) && m@ == surface_error_text(e, s@),
        },
{
    match surface_spec(s) {
        Ok(spec) => Ok(spec),
        Err(e) => {
            let n = s.unicode_len();
            let mut m = String::new();
            match e {
                SurfaceArgError::UnknownKind => {
                    m.append("Invalid surface '");
                    m.append(s);
                    m.append("', expected flat:WxH, sphere:N, torus:MxN or obj:PATH");
                },
                SurfaceArgError::Size(g) => {
                    let arg = match find_colon(s) {
                        Some(pos) => s.substring_char(pos + 1, n),
                        None => "",
                    };
                    m = g.message(arg);
                },
                SurfaceArgError::Count(k) => {
                    m.append("Invalid sphere subdivisions: ");
                    m.append(int_error_str(k));
                },
            }
            assert(m@ =~= surface_error_text(e, s@));
            Err(m)
        },
    }
}

/// Why the `--surface` argument `s` names no surface, if it names none.
pub open spec fn surface_error_of(s: Seq<char>) -> Option<SurfaceArgError> {
    match surface_kind(s) {
        SurfaceKind::Unknown => Some(SurfaceArgError::UnknownKind),
        SurfaceKind::Flat | SurfaceKind::Torus => match grid_dims_of(encode_utf8(surface_arg(s))) {
            Ok(_) => None,
            Err(e) => Some(SurfaceArgError::Size(e)),
        },
        SurfaceKind::Sphere => match parse_usize(encode_utf8(surface_arg(s))) {
            Ok(_) => None,
            Err(e) => Some(SurfaceArgError::Count(e)),
        },
        SurfaceKind::Obj => None,
    }
}

/// `spec` is the surface that the `--surface` argument `s` names.
pub open spec fn surface_parsed(spec: SurfaceSpec, s: Seq<char>) -> bool {
    match surface_kind(s) {
        SurfaceKind::Flat => grid_dims_of(encode_utf8(surface_arg(s))) matches Ok((w, h))
            && spec matches SurfaceSpec::FlatGrid { width, height } && width == w && height == h,
        SurfaceKind::Torus => grid_dims_of(encode_utf8(surface_arg(s))) matches Ok((a, b))
            && spec matches SurfaceSpec::Torus { major, minor } && major == a && minor == b,
        SurfaceKind::Sphere => parse_usize(encode_utf8(surface_arg(s))) matches Ok(n)
            && spec matches SurfaceSpec::Sphere { subdivisions } && subdivisions == n,
        SurfaceKind::Obj => spec matches SurfaceSpec::ObjFile { path } && path@ == surface_arg(s),
        SurfaceKind::Unknown => false,
    }
}

} // verus!
