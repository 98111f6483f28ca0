use crate::grid::NeighborTable;
use crate::metrics::{contents, count_byte};
use crate::substrate::Substrate;
use crate::surface::SurfaceSpec;
use vstd::prelude::*;

verus! {

/// The instruction sets that the live view can run on a surface.
#[derive(Clone, Copy, Debug, PartialEq, Eq, Structural)]
pub enum SubstrateKind {
    Bff,
    Forth,
    Subleq,
    Rsubleq4,
    Qop,
    Skim,
    Rig,
    Bits,
    Echo,
}

impl SubstrateKind {
    /// Every kind, in menu order.
    pub fn all() -> (r: [SubstrateKind; 9])
        ensures
            r@ == seq![
                SubstrateKind::Bff,
                SubstrateKind::Forth,
                SubstrateKind::Subleq,
                SubstrateKind::Rsubleq4,
                SubstrateKind::Qop,
                SubstrateKind::Skim,
                SubstrateKind::Rig,
                SubstrateKind::Bits,
                SubstrateKind::Echo,
            ],
    {
        let r = [
            SubstrateKind::Bff,
            SubstrateKind::Forth,
            SubstrateKind::Subleq,
            SubstrateKind::Rsubleq4,
            SubstrateKind::Qop,
            SubstrateKind::Skim,
            SubstrateKind::Rig,
            SubstrateKind::Bits,
            SubstrateKind::Echo,
        ];
        assert(r@ =~= seq![
            SubstrateKind::Bff,
            SubstrateKind::Forth,
            SubstrateKind::Subleq,
            SubstrateKind::Rsubleq4,
            SubstrateKind::Qop,
            SubstrateKind::Skim,
            SubstrateKind::Rig,
            SubstrateKind::Bits,
            SubstrateKind::Echo,
        ]);
        r
    }

    /// The name shown for the kind.
    pub fn label(self) -> (s: &'static str)
        ensures
            s@ == match self {
                SubstrateKind::Bff => "BFF"@,
                SubstrateKind::Forth => "Forth"@,
                SubstrateKind::Subleq => "SUBLEQ"@,
                SubstrateKind::Rsubleq4 => "RSUBLEQ4"@,
                SubstrateKind::Qop => "Qop"@,
                SubstrateKind::Skim => "Skim"@,
                SubstrateKind::Rig => "Rig"@,
                SubstrateKind::Bits => "Bits"@,
                SubstrateKind::Echo => "Echo"@,
            },
    {
        match self {
            SubstrateKind::Bff => "BFF",
            SubstrateKind::Forth => "Forth",
            SubstrateKind::Subleq => "SUBLEQ",
            SubstrateKind::Rsubleq4 => "RSUBLEQ4",
            SubstrateKind::Qop => "Qop",
            SubstrateKind::Skim => "Skim",
            SubstrateKind::Rig => "Rig",
            SubstrateKind::Bits => "Bits",
            SubstrateKind::Echo => "Echo",
        }
    }
}

/// Available color modes for surface visualization.
#[derive(Clone, Copy, Debug, PartialEq, Eq, Structural)]
pub enum ColorMode {
    Hash,
    Entropy,
    Zeros,
    NeighborSimilarity,
    InstructionDensity,
    UniqueBytes,
    TerritorialDominance,
}

impl ColorMode {
    /// Every color mode, in menu order.
    pub fn all() -> (r: [ColorMode; 7])
        ensures
            r@ == seq![
                ColorMode::Hash,
                ColorMode::Entropy,
                ColorMode::Zeros,
                ColorMode::NeighborSimilarity,
                ColorMode::InstructionDensity,
                ColorMode::UniqueBytes,
                ColorMode::TerritorialDominance,
            ],
    {
        let r = [
            ColorMode::Hash,
            ColorMode::Entropy,
            ColorMode::Zeros,
            ColorMode::NeighborSimilarity,
            ColorMode::InstructionDensity,
            ColorMode::UniqueBytes,
            ColorMode::TerritorialDominance,
        ];
        assert(r@ =~= seq![
            ColorMode::Hash,
            ColorMode::Entropy,
            ColorMode::Zeros,
            ColorMode::NeighborSimilarity,
            ColorMode::InstructionDensity,
            ColorMode::UniqueBytes,
            ColorMode::TerritorialDominance,
        ]);
        r
    }

    /// The name shown for the color mode.
    pub fn label(self) -> (s: &'static str)
        ensures
            s@ == match self {
                ColorMode::Hash => "Hash"@,
                ColorMode::Entropy => "Byte Entropy"@,
                ColorMode::Zeros => "Zero Fraction"@,
                ColorMode::NeighborSimilarity => "Neighbor Similarity"@,
                ColorMode::InstructionDensity => "Instruction Density"@,
                ColorMode::UniqueBytes => "Unique Bytes"@,
                ColorMode::TerritorialDominance => "Territorial Dominance"@,
            },
    {
        match self {
            ColorMode::Hash => "Hash",
            ColorMode::Entropy => "Byte Entropy",
            ColorMode::Zeros => "Zero Fraction",
            ColorMode::NeighborSimilarity => "Neighbor Similarity",
            ColorMode::InstructionDensity => "Instruction Density",
            ColorMode::UniqueBytes => "Unique Bytes",
            ColorMode::TerritorialDominance => "Territorial Dominance",
        }
    }
}

/// Which surface shape is selected and its per-shape parameters (the seed
/// of a hamster tunnel is kept apart from its shape).
#[derive(Clone, Debug, PartialEq)]
pub enum SurfaceShape {
    Sphere { subdivisions: usize },
    Torus { major: usize, minor: usize },
    FlatGrid { width: usize, height: usize },
    HamsterTunnel { num_spheres: usize, segments: usize },
    ObjFile { path: String },
}

impl Default for SurfaceShape {
    fn default() -> (s: Self)
        ensures
            s == (SurfaceShape::Sphere { subdivisions: 4 }),
    {
        SurfaceShape::Sphere { subdivisions: 4 }
    }
}

/// `shape` is the shape of `spec`, and `spec` the surface of `shape` built
/// with `seed`.
pub open spec fn shape_matches(shape: SurfaceShape, spec: SurfaceSpec, seed: u64) -> bool {
    match (shape, spec) {
        (SurfaceShape::Sphere { subdivisions: a }, SurfaceSpec::Sphere { subdivisions: b }) => a
            == b,
        (SurfaceShape::Torus { major: a, minor: b }, SurfaceSpec::Torus { major: c, minor: d }) => a
            == c && b == d,
        (
            SurfaceShape::FlatGrid { width: a, height: b },
            SurfaceSpec::FlatGrid { width: c, height: d },
        ) => a == c && b == d,
        (
            SurfaceShape::HamsterTunnel { num_spheres: a, segments: b },
            SurfaceSpec::HamsterTunnel { num_spheres: c, segments: d, seed: s },
        ) => a == c && b == d && s == seed,
        (SurfaceShape::ObjFile { path: a }, SurfaceSpec::ObjFile { path: b }) => a@ == b@,
        _ => false,
    }
}

impl SurfaceShape {
    /// The shape of a surface specification.
    pub fn from_spec(spec: &SurfaceSpec) -> (shape: Self)
        ensures
            match *spec {
                SurfaceSpec::HamsterTunnel { seed, .. } => shape_matches(shape, *spec, seed),
                _ => shape_matches(shape, *spec, 0),
            },
    {
        match spec {
            SurfaceSpec::Sphere { subdivisions } => SurfaceShape::Sphere {
                subdivisions: *subdivisions,
            },
            SurfaceSpec::Torus { major, minor } => SurfaceShape::Torus {
                major: *major,
                minor: *minor,
            },
            SurfaceSpec::FlatGrid { width, height } => SurfaceShape::FlatGrid {
                width: *width,
                height: *height,
            },
            SurfaceSpec::HamsterTunnel { num_spheres, segments, .. } => {
                SurfaceShape::HamsterTunnel { num_spheres: *num_spheres, segments: *segments }
            },
            SurfaceSpec::ObjFile { path } => SurfaceShape::ObjFile { path: path.clone() },
        }
    }

    /// The surface specification of this shape, a hamster tunnel laid out
    /// with `seed`.
    pub fn to_spec(&self, seed: u64) -> (spec: SurfaceSpec)
        ensures
            shape_matches(*self, spec, seed),
    {
        match self {
            SurfaceShape::Sphere { subdivisions } => SurfaceSpec::Sphere {
                subdivisions: *subdivisions,
            },
            SurfaceShape::Torus { major, minor } => SurfaceSpec::Torus {
                major: *major,
                minor: *minor,
            },
            SurfaceShape::FlatGrid { width, height } => SurfaceSpec::FlatGrid {
                width: *width,
                height: *height,
            },
            SurfaceShape::HamsterTunnel { num_spheres, segments } => SurfaceSpec::HamsterTunnel {
                num_spheres: *num_spheres,
                segments: *segments,
                seed,
            },
            SurfaceShape::ObjFile { path } => SurfaceSpec::ObjFile { path: path.clone() },
        }
    }
}

/// The FNV-1a offset basis.
pub const FNV_OFFSET: u32 = 2166136261;

/// The FNV-1a prime.
pub const FNV_PRIME: u32 = 16777619;

/// One FNV-1a step: mix byte `b` into hash `h`.
pub open spec fn fnv_step(h: u32, b: u8) -> u32 {
    (((h ^ (b as u32)) as nat * FNV_PRIME as nat) % 0x1_0000_0000) as u32
}

/// The 32-bit FNV-1a hash of `p`.
pub open spec fn fnv_hash(p: Seq<u8>) -> u32
    decreases p.len(),
{
    if p.len() == 0 {
        FNV_OFFSET
    } else {
        fnv_step(fnv_hash(p.drop_last()), p.last())
    }
}

/// The color of a program: the low three bytes of its hash, red first.
pub open spec fn hash_color(p: Seq<u8>) -> Seq<u8> {
    let h = fnv_hash(p);
    seq![(h & 0xFF) as u8, ((h >> 8) & 0xFF) as u8, ((h >> 16) & 0xFF) as u8]
}

/// The opaque RGBA pixel of an RGB color.
pub open spec fn rgba(c: Seq<u8>) -> Seq<u8> {
    seq![c[0], c[1], c[2], 255u8]
}

/// The RGBA pixels of the programs `ps`, one per program, each colored by
/// its hash.
pub open spec fn hash_colors(ps: Seq<Seq<u8>>) -> Seq<u8>
    decreases ps.len(),
{
    if ps.len() == 0 {
        Seq::empty()
    } else {
        hash_colors(ps.drop_last()) + rgba(hash_color(ps.last()))
    }
}

/// Derive a stable RGB color from a program's bytes (FNV-1a hash).
pub fn program_to_color(program: &[u8]) -> (c: [u8; 3])
    ensures
        c@ == hash_color(program@),
{
    let mut hash: u32 = FNV_OFFSET;
    let mut i: usize = 0;
    while i < program.len()
        invariant
            i <= program@.len(),
            hash == fnv_hash(program@.take(i as int)),
        decreases program@.len() - i,
    {
        assert(program@.take(i + 1).drop_last() =~= program@.take(i as int));
        hash ^= program[i] as u32;
        hash = hash.wrapping_mul(FNV_PRIME);
        i += 1;
    }
    assert(program@.take(i as int) =~= program@);
    let c = [(hash & 0xFF) as u8, ((hash >> 8) & 0xFF) as u8, ((hash >> 16) & 0xFF) as u8];
    assert(c@ =~= hash_color(program@));
    c
}

/// Fill `colors` with one RGBA pixel per program, colored by its hash.
pub fn fill_colors_hash(programs: &[Vec<u8>], colors: &mut Vec<u8>)
    ensures
        final(colors)@ == hash_colors(contents(programs@)),
{
    let ghost ps = contents(programs@);
    colors.clear();
    let mut i: usize = 0;
    while i < programs.len()
        invariant
            i <= programs@.len(),
            ps == contents(programs@),
            colors@ == hash_colors(ps.take(i as int)),
        decreases programs@.len() - i,
    {
        assert(ps.take(i + 1).drop_last() =~= ps.take(i as int));
        let c = program_to_color(programs[i].as_slice());
        colors.push(c[0]);
        colors.push(c[1]);
        colors.push(c[2]);
        colors.push(255);
        assert(colors@ =~= hash_colors(ps.take(i + 1)));
        i += 1;
    }
    assert(ps.take(i as int) =~= ps);
}

/// How many bytes of `p` are instructions of `S`.
pub open spec fn instructions_in<S: Substrate>(p: Seq<u8>) -> nat
    decreases p.len(),
{
    if p.len() == 0 {
        0
    } else {
        instructions_in::<S>(p.drop_last()) + if S::spec_is_instruction(p.last()) {
            1nat
        } else {
            0nat
        }
    }
}

/// How many of the byte values below `k` occur in `p`.
pub open spec fn values_present(p: Seq<u8>, k: int) -> nat
    decreases k,
{
    if k <= 0 {
        0
    } else {
        values_present(p, k - 1) + if p.contains((k - 1) as u8) {
            1nat
        } else {
            0nat
        }
    }
}

/// The number of set bits of `b`.
pub open spec fn ones(b: u8) -> nat
    decreases b,
{
    if b == 0 {
        0
    } else {
        ones(b / 2) + (b % 2) as nat
    }
}

/// The number of differing bits between the first `k` bytes of `a` and `b`.
pub open spec fn distance_upto(a: Seq<u8>, b: Seq<u8>, k: int) -> nat
    decreases k,
{
    if k <= 0 {
        0
    } else {
        distance_upto(a, b, k - 1) + ones(a[k - 1] ^ b[k - 1])
    }
}

/// The Hamming distance in bits between `a` and `b`, over the length of the
/// shorter of the two.
pub open spec fn bit_distance(a: Seq<u8>, b: Seq<u8>) -> nat {
    distance_upto(a, b, if a.len() <= b.len() { a.len() as int } else { b.len() as int })
}

/// The sum of the bit distances from `p` to the programs `ps[n]` of the
/// neighbors `ns`.
pub open spec fn neighbor_distance(ps: Seq<Seq<u8>>, p: Seq<u8>, ns: Seq<usize>) -> nat
    decreases ns.len(),
{
    if ns.len() == 0 {
        0
    } else {
        neighbor_distance(ps, p, ns.drop_last()) + bit_distance(p, ps[ns.last() as int])
    }
}

/// How many of the neighbors `ns` hold a program equal to `p`.
pub open spec fn identical_count(ps: Seq<Seq<u8>>, p: Seq<u8>, ns: Seq<usize>) -> nat
    decreases ns.len(),
{
    if ns.len() == 0 {
        0
    } else {
        identical_count(ps, p, ns.drop_last()) + if ps[ns.last() as int] == p {
            1nat
        } else {
            0nat
        }
    }
}

/// Count the zero bytes of a program.
pub fn zero_count(program: &[u8]) -> (n: usize)
    ensures
        n == count_byte(program@, 0),
{
    let mut n: usize = 0;
    let mut j: usize = 0;
    while j < program.len()
        invariant
            j <= program@.len(),
            n == count_byte(program@.take(j as int), 0),
            n <= j,
        decreases program@.len() - j,
    {
        assert(program@.take(j + 1).drop_last() =~= program@.take(j as int));
        if program[j] == 0 {
            n += 1;
        }
        j += 1;
    }
    assert(program@.take(j as int) =~= program@);
    n
}

/// Count the bytes of a program that are instructions of `S`.
pub fn instruction_count<S: Substrate>(program: &[u8]) -> (n: usize)
    ensures
        n == instructions_in::<S>(program@),
{
    let mut n: usize = 0;
    let mut j: usize = 0;
    while j < program.len()
        invariant
            j <= program@.len(),
            n == instructions_in::<S>(program@.take(j as int)),
            n <= j,
        decreases program@.len() - j,
    {
        assert(program@.take(j + 1).drop_last() =~= program@.take(j as int));
        if S::is_instruction(program[j]) {
            n += 1;
        }
        j += 1;
    }
    assert(program@.take(j as int) =~= program@);
    n
}

proof fn lemma_values_present_le(p: Seq<u8>, k: int)
    requires
        0 <= k,
    ensures
        values_present(p, k) <= k,
    decreases k,
{
    if k > 0 {
        lemma_values_present_le(p, k - 1);
    }
}

/// Count the distinct byte values that occur in a program.
pub fn distinct_bytes(program: &[u8]) -> (n: usize)
    ensures
        n == values_present(program@, 256),
{
    let mut seen = [false; 256];
    let mut j: usize = 0;
    while j < program.len()
        invariant
            j <= program@.len(),
            forall|v: u8| #[trigger] seen@[v as int] == program@.take(j as int).contains(v),
        decreases program@.len() - j,
    {
        let b = program[j];
        proof {
            assert forall|v: u8| #[trigger] program@.take(j + 1).contains(v) == (program@.take(
                j as int,
            ).contains(v) || v == b) by {
                if program@.take(j + 1).contains(v) {
                    let i = choose|i: int| 0 <= i < j + 1 && #[trigger] program@.take(j + 1)[i] == v;
                    if i < j {
                        assert(program@.take(j as int)[i] == v);
                    }
                }
                if program@.take(j as int).contains(v) {
                    let i = choose|i: int| 0 <= i < j && #[trigger] program@.take(j as int)[i] == v;
                    assert(program@.take(j + 1)[i] == v);
                }
                if v == b {
                    assert(program@.take(j + 1)[j as int] == v);
                }
            }
        }
        seen[b as usize] = true;
        j += 1;
    }
    assert(program@.take(j as int) =~= program@);
    let mut n: usize = 0;
    let mut v: usize = 0;
    while v < 256
        invariant
            v <= 256,
            forall|x: u8| #[trigger] seen@[x as int] == program@.contains(x),
            n == values_present(program@, v as int),
            n <= v,
        decreases 256 - v,
    {
        proof {
            lemma_values_present_le(program@, v as int);
        }
        if seen[v] {
            assert(seen@[(v as u8) as int] == program@.contains(v as u8));
            n += 1;
        } else {
            assert(seen@[(v as u8) as int] == program@.contains(v as u8));
        }
        v += 1;
    }
    n
}

/// The powers of two.
spec fn two_pow(k: nat) -> nat
    decreases k,
{
    if k == 0 {
        1
    } else {
        2 * two_pow((k - 1) as nat)
    }
}

proof fn lemma_ones_le(b: u8, k: nat)
    requires
        (b as nat) < two_pow(k),
    ensures
        ones(b) <= k,
    decreases k,
{
    if b != 0 {
        lemma_ones_le(b / 2, (k - 1) as nat);
    }
}

proof fn lemma_ones_byte(b: u8)
    ensures
        ones(b) <= 8,
{
    assert(two_pow(8) == 256) by {
        reveal_with_fuel(two_pow, 9);
    }
    lemma_ones_le(b, 8);
}

/// The number of set bits of a byte.
fn count_ones(b: u8) -> (n: u32)
    ensures
        n == ones(b),
        n <= 8,
{
    proof {
        lemma_ones_byte(b);
    }
    let mut x = b;
    let mut n: u32 = 0;
    while x > 0
        invariant
            n + ones(x) == ones(b),
            ones(b) <= 8,
        decreases x,
    {
        n += (x % 2) as u32;
        x = x / 2;
    }
    n
}

proof fn lemma_distance_upto_le(a: Seq<u8>, b: Seq<u8>, k: int)
    requires
        0 <= k,
    ensures
        distance_upto(a, b, k) <= 8 * k,
    decreases k,
{
    if k > 0 {
        lemma_distance_upto_le(a, b, k - 1);
        lemma_ones_byte(a[k - 1] ^ b[k - 1]);
    }
}

/// The Hamming distance in bits between two programs, over the length of the
/// shorter one.
pub fn program_bit_distance(a: &[u8], b: &[u8]) -> (d: u32)
    requires
        8 * a@.len() <= u32::MAX || 8 * b@.len() <= u32::MAX,
    ensures
        d == bit_distance(a@, b@),
        d <= 8 * a@.len(),
{
    let n = if a.len() <= b.len() {
        a.len()
    } else {
        b.len()
    };
    let mut d: u32 = 0;
    let mut i: usize = 0;
    while i < n
        invariant
            n <= a@.len(),
            n <= b@.len(),
            n == a@.len() || n == b@.len(),
            8 * n <= u32::MAX,
            i <= n,
            d == distance_upto(a@, b@, i as int),
            d <= 8 * i,
        decreases n - i,
    {
        let c = count_ones(a[i] ^ b[i]);
        d = d + c;
        i += 1;
    }
    d
}

proof fn lemma_neighbor_distance_le(ps: Seq<Seq<u8>>, p: Seq<u8>, ns: Seq<usize>)
    ensures
        neighbor_distance(ps, p, ns) <= ns.len() * (8 * p.len()),
    decreases ns.len(),
{
    if ns.len() > 0 {
        let q = ps[ns.last() as int];
        lemma_neighbor_distance_le(ps, p, ns.drop_last());
        lemma_distance_upto_le(p, q, if p.len() <= q.len() { p.len() as int } else { q.len() as int });
        let m = ns.len();
        let c = 8 * p.len();
        assert((m - 1) * c + c == m * c) by (nonlinear_arith);
    }
}

/// The sum of the bit distances from the program of `cell` to the programs
/// of its neighbors.
pub fn neighbor_bit_distance(programs: &[Vec<u8>], table: &NeighborTable, cell: usize) -> (d: u32)
    requires
        table.valid(),
        cell < table.cells(),
        programs@.len() == table.cells(),
        table.entries(cell as int).len() * (8 * programs@[cell as int]@.len()) <= u32::MAX,
    ensures
        d == neighbor_distance(contents(programs@), programs@[cell as int]@, table.entries(cell as int)),
{
    let ghost ps = contents(programs@);
    let ns = table.neighbors_of(cell);
    let p = programs[cell].as_slice();
    let ghost c = 8 * p@.len();
    let mut d: u32 = 0;
    let mut i: usize = 0;
    while i < ns.len()
        invariant
            ps == contents(programs@),
            programs@.len() == table.cells(),
            ns@ == table.entries(cell as int),
            forall|k: int| 0 <= k < ns@.len() ==> #[trigger] ns@[k] < table.cells(),
            p@ == programs@[cell as int]@,
            c == 8 * p@.len(),
            ns@.len() * c <= u32::MAX,
            i <= ns@.len(),
            d == neighbor_distance(ps, p@, ns@.take(i as int)),
        decreases ns@.len() - i,
    {
        assert(ns@.take(i + 1).drop_last() =~= ns@.take(i as int));
        proof {
            lemma_neighbor_distance_le(ps, p@, ns@.take(i + 1));
            assert((i + 1) * c <= ns@.len() * c && c <= ns@.len() * c) by (nonlinear_arith)
                requires
                    i + 1 <= ns@.len(),
                    0 <= c,
            ;
        }
        let q = programs[ns[i]].as_slice();
        let e = program_bit_distance(p, q);
        d = d + e;
        i += 1;
    }
    assert(ns@.take(i as int) =~= ns@);
    d
}

/// Whether two programs hold the same bytes.
fn same_bytes(a: &[u8], b: &[u8]) -> (r: bool)
    ensures
        r == (a@ == b@),
{
    if a.len() != b.len() {
        return false;
    }
    let mut j: usize = 0;
    while j < a.len()
        invariant
            a@.len() == b@.len(),
            j <= a@.len(),
            forall|k: int| 0 <= k < j ==> a@[k] == b@[k],
        decreases a@.len() - j,
    {
        if a[j] != b[j] {
            return false;
        }
        j += 1;
    }
    assert(a@ =~= b@);
    true
}

/// How many neighbors of `cell` hold a program identical to its own.
pub fn identical_neighbors(programs: &[Vec<u8>], table: &NeighborTable, cell: usize) -> (n: usize)
    requires
        table.valid(),
        cell < table.cells(),
        programs@.len() == table.cells(),
    ensures
        n == identical_count(contents(programs@), programs@[cell as int]@, table.entries(cell as int)),
        n <= table.entries(cell as int).len(),
{
    let ghost ps = contents(programs@);
    let ns = table.neighbors_of(cell);
    let p = programs[cell].as_slice();
    let mut n: usize = 0;
    let mut i: usize = 0;
    while i < ns.len()
        invariant
            ps == contents(programs@),
            programs@.len() == table.cells(),
            forall|k: int| 0 <= k < ns@.len() ==> #[trigger] ns@[k] < table.cells(),
            p@ == programs@[cell as int]@,
            i <= ns@.len(),
            n <= i,
            n == identical_count(ps, p@, ns@.take(i as int)),
        decreases ns@.len() - i,
    {
        assert(ns@.take(i + 1).drop_last() =~= ns@.take(i as int));
        if same_bytes(p, programs[ns[i]].as_slice()) {
            n += 1;
        }
        i += 1;
    }
    assert(ns@.take(i as int) =~= ns@);
    n
}

/// A command to the simulation loop of the live view. (The loop keeps the
/// blur strength itself, and builds the surface of a reset.)
#[derive(Clone, Copy, Debug, PartialEq, Eq, Structural)]
pub enum ControlCommand {
    Play,
    Pause,
    SetColorMode(ColorMode),
    /// Ask for the program of a cell and its disassembly.
    RequestProgram(usize),
    /// Start over on a new surface.
    Reset,
}

/// What the simulation loop does after a command.
#[derive(Clone, Copy, Debug, PartialEq, Eq, Structural)]
pub enum ControlAction {
    Nothing,
    /// Send the program of this cell and its disassembly.
    SendProgram(usize),
    /// Build the new soup, then send its metrics and colors at epoch 0.
    Restart,
}

/// What is due after an epoch.
#[derive(Clone, Copy, Debug, PartialEq, Eq, Structural)]
pub struct EpochReport {
    /// Metrics are sent every `metrics_interval` epochs and after the last.
    pub metrics_due: bool,
    /// The epoch was the last one: colors are sent whatever the time.
    pub last_epoch: bool,
}

/// The state of the simulation loop of the live view.
#[derive(Clone, Copy, Debug, PartialEq, Eq, Structural)]
pub struct SimControl {
    pub paused: bool,
    /// Epochs run since the start or the last reset.
    pub epoch: usize,
    pub max_epochs: usize,
    pub metrics_interval: usize,
    pub color_mode: ColorMode,
}

impl SimControl {
    /// Metrics come at a positive interval, and the epoch count never passes
    /// the maximum.
    pub open spec fn well_formed(&self) -> bool {
        &&& self.metrics_interval > 0
        &&& self.epoch <= self.max_epochs
    }

    /// A loop that starts running at epoch 0, colored by hash.
    pub fn new(max_epochs: usize, metrics_interval: usize) -> (c: Self)
        requires
            metrics_interval > 0,
        ensures
            c == (SimControl {
                paused: false,
                epoch: 0,
                max_epochs,
                metrics_interval,
                color_mode: ColorMode::Hash,
            }),
            c.well_formed(),
    {
        SimControl { paused: false, epoch: 0, max_epochs, metrics_interval, color_mode: ColorMode::Hash }
    }

    /// Apply a command; `num_cells` is the number of cells of the surface.
    pub fn handle(&mut self, cmd: ControlCommand, num_cells: usize) -> (a: ControlAction)
        ensures
            (*final(self), a) == next_control(*old(self), cmd, num_cells as nat),
            old(self).well_formed() ==> final(self).well_formed(),
    {
        match cmd {
            ControlCommand::Play => {
                self.paused = false;
                ControlAction::Nothing
            },
            ControlCommand::Pause => {
                self.paused = true;
                ControlAction::Nothing
            },
            ControlCommand::SetColorMode(m) => {
                self.color_mode = m;
                ControlAction::Nothing
            },
            ControlCommand::RequestProgram(cell) => {
                if cell < num_cells {
                    ControlAction::SendProgram(cell)
                } else {
                    ControlAction::Nothing
                }
            },
            ControlCommand::Reset => {
                self.epoch = 0;
                ControlAction::Restart
            },
        }
    }

    /// Whether the loop runs an epoch now (else it waits a moment).
    pub fn should_run(&self) -> (r: bool)
        ensures
            r == runs(*self),
    {
        !self.paused && self.epoch < self.max_epochs
    }

    /// Count an epoch that has run, and say what is due.
    pub fn finish_epoch(&mut self) -> (r: EpochReport)
        requires
            old(self).well_formed(),
            old(self).epoch < old(self).max_epochs,
        ensures
            (*final(self), r) == finish(*old(self)),
            final(self).well_formed(),
    {
        self.epoch = self.epoch + 1;
        let last_epoch = self.epoch == self.max_epochs;
        EpochReport { metrics_due: self.epoch % self.metrics_interval == 0 || last_epoch, last_epoch }
    }
}

/// The state after an epoch that ran from `c`, and what is then due:
/// metrics every `metrics_interval` epochs and after the last epoch, colors
/// after the last epoch whatever the time.
pub open spec fn finish(c: SimControl) -> (SimControl, EpochReport) {
    let e = c.epoch + 1;
    (
        SimControl { epoch: e as usize, ..c },
        EpochReport {
            metrics_due: e % (c.metrics_interval as int) == 0 || e == c.max_epochs,
            last_epoch: e == c.max_epochs,
        },
    )
}

/// The state after `k` epochs run from `c` with no command in between.
pub open spec fn after_epochs(c: SimControl, k: nat) -> SimControl
    decreases k,
{
    if k == 0 {
        c
    } else {
        finish(after_epochs(c, (k - 1) as nat)).0
    }
}

proof fn lemma_after_epochs(c: SimControl, k: nat)
    requires
        c.epoch + k <= c.max_epochs,
    ensures
        after_epochs(c, k) == (SimControl { epoch: (c.epoch + k) as usize, ..c }),
    decreases k,
{
    if k > 0 {
        lemma_after_epochs(c, (k - 1) as nat);
    }
}

/// Over a whole run from a fresh, unpaused start, with no command in
/// between: the loop runs exactly `max_epochs` epochs; the `k`-th of them
/// sends metrics exactly when `k` is a multiple of the metrics interval or
/// the last epoch, and sends colors regardless of the time exactly when it
/// is the last.
pub proof fn law_metrics_schedule(c: SimControl, k: nat)
    requires
        c.well_formed(),
        !c.paused,
        c.epoch == 0,
        1 <= k <= c.max_epochs,
    ensures
        runs(after_epochs(c, (k - 1) as nat)),
        after_epochs(c, k).epoch == k,
        finish(after_epochs(c, (k - 1) as nat)).1.metrics_due == (k as int % (c.metrics_interval as int)
            == 0 || k == c.max_epochs),
        finish(after_epochs(c, (k - 1) as nat)).1.last_epoch == (k == c.max_epochs),
        !runs(after_epochs(c, c.max_epochs as nat)),
{
    lemma_after_epochs(c, (k - 1) as nat);
    lemma_after_epochs(c, k);
    lemma_after_epochs(c, c.max_epochs as nat);
}

/// The loop runs an epoch: it is not paused and has epochs left.
pub open spec fn runs(c: SimControl) -> bool {
    !c.paused && c.epoch < c.max_epochs
}

/// The state after command `cmd` on a surface of `n` cells, and what the
/// loop then does.
pub open spec fn next_control(c: SimControl, cmd: ControlCommand, n: nat) -> (
    SimControl,
    ControlAction,
) {
    match cmd {
        ControlCommand::Play => (SimControl { paused: false, ..c }, ControlAction::Nothing),
        ControlCommand::Pause => (SimControl { paused: true, ..c }, ControlAction::Nothing),
        ControlCommand::SetColorMode(m) => (SimControl { color_mode: m, ..c }, ControlAction::Nothing),
        ControlCommand::RequestProgram(cell) => (
            c,
            if cell < n {
                ControlAction::SendProgram(cell)
            } else {
                ControlAction::Nothing
            },
        ),
        ControlCommand::Reset => (SimControl { epoch: 0, ..c }, ControlAction::Restart),
    }
}

/// A loop that has run its last epoch runs no more until it is reset,
/// whatever else it is told.
pub proof fn law_stops_after_last_epoch(c: SimControl, cmd: ControlCommand, n: nat)
    requires
        c.well_formed(),
        c.epoch == c.max_epochs,
        cmd != ControlCommand::Reset,
    ensures
        !runs(c),
        !runs(next_control(c, cmd, n).0),
{
}

/// A reset starts the count over: the loop runs again unless it is paused
/// or has no epochs at all.
pub proof fn law_reset_runs_again(c: SimControl, n: nat)
    requires
        c.well_formed(),
    ensures
        next_control(c, ControlCommand::Reset, n).0.epoch == 0,
        runs(next_control(c, ControlCommand::Reset, n).0) == (!c.paused && c.max_epochs > 0),
{
}

} // verus!
