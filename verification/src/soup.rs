use crate::random::{below_u32, below_usize, coin, fill_random, gen_ratio, seeded_rng};
use crate::metrics::contents;
use crate::substrate::Substrate;
use rand::rngs::SmallRng;
use vstd::prelude::*;

verus! {

/// A per-byte mutation probability, `numerator / denominator`.
///
/// A zero numerator disables mutation.
#[derive(Clone, Copy, Debug, PartialEq, Eq, Structural)]
pub struct MutationRate {
    pub numerator: u32,
    pub denominator: u32,
}

impl MutationRate {
    /// Mutation is off.
    pub open spec fn disabled(self) -> bool {
        self.numerator == 0
    }

    /// A probability: off, or a fraction no greater than one.
    pub open spec fn valid(self) -> bool {
        self.disabled() || (0 < self.denominator && self.numerator <= self.denominator)
    }
}

/// Configuration for a primordial soup simulation.
#[derive(Clone, Copy, Debug, PartialEq, Eq, Structural)]
pub struct SoupConfig {
    /// Number of programs in the population.
    pub population_size: usize,
    /// Number of bytes per program.
    pub program_size: usize,
    /// Maximum steps per program execution.
    pub step_limit: usize,
    /// Per-byte mutation probability per epoch (a zero numerator disables it).
    pub mutation_rate: MutationRate,
}

impl Default for SoupConfig {
    /// 131072 programs of 64 bytes, 8192 steps, mutation rate 0.00024.
    fn default() -> (c: Self)
        ensures
            c.population_size == 131072,
            c.program_size == 64,
            c.step_limit == 8192,
            c.mutation_rate == (MutationRate { numerator: 3, denominator: 12500 }),
    {
        SoupConfig {
            population_size: 131072,
            program_size: 64,
            step_limit: 8192,
            mutation_rate: MutationRate { numerator: 3, denominator: 12500 },
        }
    }
}

/// Every program has `program_size` bytes.
pub open spec fn uniform(programs: Seq<Seq<u8>>, program_size: nat) -> bool {
    forall|i: int| 0 <= i < programs.len() ==> (#[trigger] programs[i]).len() == program_size
}

/// Two programs of `program_size` bytes fit on one tape.
pub open spec fn fits_tape(program_size: nat) -> bool {
    2 * program_size <= isize::MAX
}

/// What one interaction does to a population: programs `first` and
/// `second` are concatenated in that order, the tape is executed, and its
/// two halves are written back; every other program is left alone.
pub open spec fn interacted<S: Substrate>(
    before: Seq<Seq<u8>>,
    after: Seq<Seq<u8>>,
    first: int,
    second: int,
    program_size: nat,
    step_limit: nat,
) -> bool {
    let out = S::spec_execute(before[first] + before[second], step_limit).0;
    &&& after.len() == before.len()
    &&& after[first] == out.subrange(0, program_size as int)
    &&& after[second] == out.subrange(program_size as int, 2 * program_size as int)
    &&& forall|k: int|
        0 <= k < before.len() && k != first && k != second ==> #[trigger] after[k] == before[k]
}

/// Each byte of `after` is the byte of `before` at the same place, or that
/// byte with exactly one of its eight bits flipped.
pub open spec fn one_bit_flips(before: Seq<Seq<u8>>, after: Seq<Seq<u8>>) -> bool {
    &&& after.len() == before.len()
    &&& forall|i: int| 0 <= i < before.len() ==> (#[trigger] after[i]).len() == before[i].len()
    &&& forall|i: int, j: int|
        0 <= i < before.len() && 0 <= j < before[i].len() ==> flipped_one_or_none(
            before[i][j],
            #[trigger] after[i][j],
        )
}

/// `b` is `a`, or `a` with one bit flipped.
pub open spec fn flipped_one_or_none(a: u8, b: u8) -> bool {
    b == a || exists|m: u8| #[trigger] single_bit(m) && b == a ^ m
}

/// Each byte of `after` is the byte of `before` at the same place with
/// exactly one of its eight bits flipped.
pub open spec fn one_bit_each(before: Seq<Seq<u8>>, after: Seq<Seq<u8>>) -> bool {
    &&& after.len() == before.len()
    &&& forall|i: int| 0 <= i < before.len() ==> (#[trigger] after[i]).len() == before[i].len()
    &&& forall|i: int, j: int|
        0 <= i < before.len() && 0 <= j < before[i].len() ==> flipped_one(
            before[i][j],
            #[trigger] after[i][j],
        )
}

/// `b` is `a` with exactly one bit flipped.
pub open spec fn flipped_one(a: u8, b: u8) -> bool {
    exists|m: u8| #[trigger] single_bit(m) && b == a ^ m
}

/// `m` has exactly one bit set.
pub open spec fn single_bit(m: u8) -> bool {
    m == 1 || m == 2 || m == 4 || m == 8 || m == 16 || m == 32 || m == 64 || m == 128
}

/// Fill a new program of `size` random bytes.
fn random_program(rng: &mut SmallRng, size: usize) -> (prog: Vec<u8>)
    ensures
        prog@.len() == size,
{
    let mut prog: Vec<u8> = vec![0u8; size];
    fill_random(rng, prog.as_mut_slice());
    prog
}

/// `count` random programs of `size` bytes each.
pub(crate) fn random_population(rng: &mut SmallRng, count: usize, size: usize) -> (programs: Vec<
    Vec<u8>,
>)
    ensures
        programs@.len() == count,
        forall|i: int| 0 <= i < count ==> (#[trigger] programs@[i])@.len() == size,
{
    let mut programs: Vec<Vec<u8>> = Vec::new();
    let mut i: usize = 0;
    while i < count
        invariant
            i <= count,
            programs@.len() == i,
            forall|k: int| 0 <= k < i ==> (#[trigger] programs@[k])@.len() == size,
        decreases count - i,
    {
        let prog = random_program(rng, size);
        programs.push(prog);
        i = i + 1;
    }
    programs
}


/// `a` followed by `b`, as a new tape.
pub(crate) fn concat(a: &[u8], b: &[u8]) -> (tape: Vec<u8>)
    ensures
        tape@ == a@ + b@,
{
    let mut tape: Vec<u8> = Vec::new();
    let mut i: usize = 0;
    while i < a.len()
        invariant
            i <= a@.len(),
            tape@ == a@.subrange(0, i as int),
        decreases a@.len() - i,
    {
        tape.push(a[i]);
        i = i + 1;
    }
    let mut j: usize = 0;
    while j < b.len()
        invariant
            j <= b@.len(),
            tape@ == a@ + b@.subrange(0, j as int),
        decreases b@.len() - j,
    {
        tape.push(b[j]);
        j = j + 1;
    }
    proof {
        assert(a@.subrange(0, a@.len() as int) =~= a@);
        assert(b@.subrange(0, b@.len() as int) =~= b@);
    }
    tape
}

/// Two distinct indices below `n`, picked uniformly, in a random order: the
/// pair that some draws `i < n`, `j < n - 1` and coin `c` give.
fn pick_pair(rng: &mut SmallRng, n: usize) -> (pair: (usize, usize))
    requires
        2 <= n,
    ensures
        pair.0 < n,
        pair.1 < n,
        pair.0 != pair.1,
        exists|i: usize, j: usize, c: bool|
            i < n && j < n - 1 && #[trigger] pair_of_draws(i, j, c) == pair,
{
    let i = below_usize(rng, n);
    let j = below_usize(rng, n - 1);
    let c = coin(rng);
    let pair = ordered_pair(i, j, c);
    assert(pair_of_draws(i, j, c) == pair);
    pair
}

/// The pair that the draws `i < n`, `j < n - 1` and coin `c` give: the
/// second index is `j` when below `i`, else `j + 1` (so it differs from
/// `i`), and the coin puts `i` first when it comes up true.
pub open spec fn pair_of_draws(i: usize, j: usize, c: bool) -> (usize, usize) {
    let k: usize = if j >= i {
        (j + 1) as usize
    } else {
        j
    };
    if c {
        (i, k)
    } else {
        (k, i)
    }
}

/// Compute `pair_of_draws(i, j, c)`.
pub fn ordered_pair(i: usize, j: usize, c: bool) -> (pair: (usize, usize))
    requires
        j < usize::MAX,
    ensures
        pair == pair_of_draws(i, j, c),
{
    let k = if j >= i {
        j + 1
    } else {
        j
    };
    if c {
        (i, k)
    } else {
        (k, i)
    }
}

/// Concatenate programs `first` and `second`, execute the tape, and write
/// its two halves back.
pub(crate) fn interact<S: Substrate>(
    programs: &mut Vec<Vec<u8>>,
    first: usize,
    second: usize,
    program_size: usize,
    step_limit: usize,
)
    requires
        first < old(programs)@.len(),
        second < old(programs)@.len(),
        first != second,
        uniform(contents(old(programs)@), program_size as nat),
        fits_tape(program_size as nat),
    ensures
        uniform(contents(final(programs)@), program_size as nat),
        interacted::<S>(
            contents(old(programs)@),
            contents(final(programs)@),
            first as int,
            second as int,
            program_size as nat,
            step_limit as nat,
        ),
{
    let ghost before = contents(programs@);
    assert(before[first as int] == programs@[first as int]@);
    assert(before[second as int] == programs@[second as int]@);
    let mut tape = concat(programs[first].as_slice(), programs[second].as_slice());
    let ghost t0 = tape@;
    S::execute(tape.as_mut_slice(), step_limit);
    let ghost out = tape@;
    let back = tape.split_off(program_size);
    programs.set(first, tape);
    programs.set(second, back);
    proof {
        let after = contents(programs@);
        assert(t0 == before[first as int] + before[second as int]);
        assert(out == S::spec_execute(t0, step_limit as nat).0);
        assert(after[first as int] == out.subrange(0, program_size as int));
        assert(after[second as int] == out.subrange(program_size as int, 2 * program_size as int));
        assert forall|k: int|
            0 <= k < before.len() && k != first && k != second implies #[trigger] after[k] == before[k] by {}
        assert forall|i: int| 0 <= i < after.len() implies (#[trigger] after[i]).len() == program_size by {
            if i != first && i != second {
                assert(after[i] == before[i]);
            }
        }
    }
}

/// Byte `b` after a mutation draw: with `hit`, bit `bit` (0 is the lowest)
/// flipped, else unchanged.
pub open spec fn flip(b: u8, hit: bool, bit: u32) -> u8 {
    if hit {
        b ^ (1u8 << bit)
    } else {
        b
    }
}

/// Apply one mutation draw to a byte: flip bit `bit` when `hit`.
pub fn flip_byte(b: u8, hit: bool, bit: u32) -> (r: u8)
    requires
        bit < 8,
    ensures
        r == flip(b, hit, bit),
{
    if hit {
        b ^ (1u8 << bit)
    } else {
        b
    }
}

/// `after` is `before` with the mutation draws `hits` and `bits` applied:
/// one draw per byte, and byte `j` of program `i` flipped at bit
/// `bits[i][j]` exactly when `hits[i][j]`.
pub open spec fn mutated(
    before: Seq<Seq<u8>>,
    after: Seq<Seq<u8>>,
    hits: Seq<Seq<bool>>,
    bits: Seq<Seq<u32>>,
) -> bool {
    &&& after.len() == before.len()
    &&& hits.len() == before.len()
    &&& bits.len() == before.len()
    &&& forall|i: int|
        0 <= i < before.len() ==> {
            &&& (#[trigger] after[i]).len() == before[i].len()
            &&& hits[i].len() == before[i].len()
            &&& bits[i].len() == before[i].len()
        }
    &&& forall|i: int, j: int|
        0 <= i < before.len() && 0 <= j < before[i].len() ==> #[trigger] bits[i][j] < 8
    &&& forall|i: int, j: int|
        #![trigger after[i][j]]
        0 <= i < before.len() && 0 <= j < before[i].len() ==> after[i][j] == flip(
            before[i][j],
            hits[i][j],
            bits[i][j],
        )
}

/// Every draw of `hits` is a hit.
pub open spec fn all_hit(hits: Seq<Seq<bool>>) -> bool {
    forall|i: int, j: int| 0 <= i < hits.len() && 0 <= j < hits[i].len() ==> #[trigger] hits[i][j]
}

/// No draw of `hits` is a hit.
pub open spec fn none_hit(hits: Seq<Seq<bool>>) -> bool {
    forall|i: int, j: int| 0 <= i < hits.len() && 0 <= j < hits[i].len() ==> !#[trigger] hits[i][j]
}

proof fn lemma_flip_one(b: u8, bit: u32)
    requires
        bit < 8,
    ensures
        flipped_one(b, flip(b, true, bit)),
        flipped_one_or_none(b, flip(b, true, bit)),
{
    let mask = 1u8 << bit;
    assert(single_bit(mask)) by (bit_vector)
        requires
            bit < 8,
            mask == 1u8 << bit,
    ;
}

/// The mutation draws give one-bit flips, and at most one bit per byte.
proof fn lemma_mutated_flips(
    before: Seq<Seq<u8>>,
    after: Seq<Seq<u8>>,
    hits: Seq<Seq<bool>>,
    bits: Seq<Seq<u32>>,
)
    requires
        mutated(before, after, hits, bits),
    ensures
        one_bit_flips(before, after),
        all_hit(hits) ==> one_bit_each(before, after),
        none_hit(hits) ==> after == before,
{
    assert forall|i: int, j: int|
        0 <= i < before.len() && 0 <= j < before[i].len() implies flipped_one_or_none(
        before[i][j],
        #[trigger] after[i][j],
    ) && (hits[i][j] ==> flipped_one(before[i][j], after[i][j])) by {
        assert(bits[i][j] < 8 && after[i][j] == flip(before[i][j], hits[i][j], bits[i][j]));
        if hits[i][j] {
            lemma_flip_one(before[i][j], bits[i][j]);
        }
    }
    if none_hit(hits) {
        assert forall|i: int| 0 <= i < before.len() implies #[trigger] after[i] == before[i] by {
            assert(after[i] =~= before[i]);
        }
        assert(after =~= before);
    }
}

/// Flip bits of every program at the given rate: each byte, with
/// probability `rate`, gets one random bit of its eight flipped. Returns the
/// draws made: for each byte whether it was hit and the bit drawn for it (0
/// where it was not hit).
pub(crate) fn mutate_programs(programs: &mut Vec<Vec<u8>>, rng: &mut SmallRng, rate: MutationRate) -> (draws: Ghost<(Seq<Seq<bool>>, Seq<Seq<u32>>)>)
    requires
        rate.valid(),
    ensures
        mutated(contents(old(programs)@), contents(final(programs)@), draws@.0, draws@.1),
        rate.disabled() ==> none_hit(draws@.0),
        0 < rate.numerator == rate.denominator ==> all_hit(draws@.0),
        rate.disabled() ==> final(programs)@ == old(programs)@,
        one_bit_flips(contents(old(programs)@), contents(final(programs)@)),
        0 < rate.numerator == rate.denominator ==> one_bit_each(
            contents(old(programs)@),
            contents(final(programs)@),
        ),
{
    let ghost before = contents(programs@);
    if rate.numerator == 0 {
        let ghost no_hits = Seq::new(before.len(), |i: int| Seq::new(before[i].len(), |j: int| false));
        let ghost no_bits = Seq::new(before.len(), |i: int| Seq::new(before[i].len(), |j: int| 0u32));
        proof {
            assert forall|i: int, j: int|
                0 <= i < before.len() && 0 <= j < before[i].len() implies #[trigger] no_bits[i][j] < 8 by {}
            assert forall|i: int, j: int|
                #![trigger contents(programs@)[i][j]]
                0 <= i < before.len() && 0 <= j < before[i].len() implies contents(programs@)[i][j]
                    == flip(before[i][j], no_hits[i][j], no_bits[i][j]) by {}
            lemma_mutated_flips(before, contents(programs@), no_hits, no_bits);
        }
        return Ghost((no_hits, no_bits));
    }
    let ghost mut hits: Seq<Seq<bool>> = Seq::empty();
    let ghost mut bits: Seq<Seq<u32>> = Seq::empty();
    let mut i: usize = 0;
    while i < programs.len()
        invariant
            rate.valid(),
            0 < rate.numerator,
            i <= programs@.len(),
            before.len() == programs@.len(),
            hits.len() == i,
            bits.len() == i,
            forall|k: int|
                0 <= k < before.len() ==> (#[trigger] contents(programs@)[k]).len() == before[k].len(),
            forall|k: int| i <= k < before.len() ==> #[trigger] contents(programs@)[k] == before[k],
            forall|k: int|
                0 <= k < i ==> (#[trigger] hits[k]).len() == before[k].len() && bits[k].len()
                    == before[k].len(),
            forall|k: int, j: int| 0 <= k < i && 0 <= j < before[k].len() ==> #[trigger] bits[k][j] < 8,
            forall|k: int, j: int|
                #![trigger contents(programs@)[k][j]]
                0 <= k < i && 0 <= j < before[k].len() ==> contents(programs@)[k][j] == flip(
                    before[k][j],
                    hits[k][j],
                    bits[k][j],
                ),
            rate.disabled() ==> none_hit(hits),
            0 < rate.numerator == rate.denominator ==> all_hit(hits),
        decreases programs@.len() - i,
    {
        let ghost row = programs@;
        assert(contents(row)[i as int] == row[i as int]@);
        let mut prog: Vec<u8> = Vec::new();
        programs.set_and_swap(i, &mut prog);
        let ghost p0 = prog@;
        assert(p0 == before[i as int]);
        let ghost mut rh: Seq<bool> = Seq::empty();
        let ghost mut rb: Seq<u32> = Seq::empty();
        let mut j: usize = 0;
        while j < prog.len()
            invariant
                rate.valid(),
                0 < rate.numerator,
                j <= prog@.len(),
                prog@.len() == p0.len(),
                rh.len() == j,
                rb.len() == j,
                forall|m: int| j <= m < p0.len() ==> #[trigger] prog@[m] == p0[m],
                forall|m: int| 0 <= m < j ==> #[trigger] rb[m] < 8,
                forall|m: int|
                    #![trigger prog@[m]]
                    0 <= m < j ==> prog@[m] == flip(p0[m], rh[m], rb[m]),
                rate.disabled() ==> forall|m: int| 0 <= m < j ==> !#[trigger] rh[m],
                0 < rate.numerator == rate.denominator ==> forall|m: int|
                    0 <= m < j ==> #[trigger] rh[m],
            decreases prog@.len() - j,
        {
            let hit = gen_ratio(rng, rate.numerator, rate.denominator);
            let bit: u32 = if hit {
                below_u32(rng, 8)
            } else {
                0
            };
            let ghost prev = prog@;
            let b = flip_byte(prog[j], hit, bit);
            prog.set(j, b);
            proof {
                let rh0 = rh;
                let rb0 = rb;
                rh = rh.push(hit);
                rb = rb.push(bit);
                assert(rb[j as int] == bit);
                assert forall|m: int| 0 <= m < j + 1 implies #[trigger] rb[m] < 8 by {
                    if m < j {
                        assert(rb[m] == rb0[m]);
                    }
                }
                assert forall|m: int| #![trigger prog@[m]] 0 <= m < j + 1 implies prog@[m]
                    == flip(p0[m], rh[m], rb[m]) by {
                    if m < j {
                        assert(prog@[m] == prev[m]);
                        assert(rh[m] == rh0[m] && rb[m] == rb0[m]);
                    }
                }
            }
            j = j + 1;
        }
        programs.set(i, prog);
        proof {
            assert(contents(programs@)[i as int] == prog@);
            assert forall|k: int|
                0 <= k < before.len() && k != i implies #[trigger] contents(programs@)[k]
                    == contents(row)[k] by {}
            let hits0 = hits;
            let bits0 = bits;
            hits = hits.push(rh);
            bits = bits.push(rb);
            assert forall|k: int, j: int| 0 <= k < i + 1 && 0 <= j < before[k].len() implies #[trigger] bits[k][j]
                < 8 by {
                if k == i {
                    assert(bits[k] == rb);
                } else {
                    assert(bits[k] == bits0[k]);
                }
            }
            assert forall|k: int, j: int|
                #![trigger contents(programs@)[k][j]]
                0 <= k < i + 1 && 0 <= j < before[k].len() implies contents(programs@)[k][j] == flip(
                    before[k][j],
                    hits[k][j],
                    bits[k][j],
                ) by {
                if k == i {
                    assert(contents(programs@)[k][j] == prog@[j]);
                    assert(hits[k] == rh && bits[k] == rb);
                    assert(prog@[j] == flip(p0[j], rh[j], rb[j]));
                } else {
                    assert(hits[k] == hits0[k] && bits[k] == bits0[k]);
                    assert(contents(programs@)[k] == contents(row)[k]);
                    assert(contents(row)[k][j] == flip(before[k][j], hits0[k][j], bits0[k][j]));
                }
            }
        }
        i = i + 1;
    }
    proof {
        assert(contents(programs@).len() == before.len());
        lemma_mutated_flips(before, contents(programs@), hits, bits);
    }
    Ghost((hits, bits))
}

/// One interaction on a population: with fewer than two programs nothing
/// happens; otherwise two distinct programs interact.
pub open spec fn one_interaction<S: Substrate>(
    before: Seq<Seq<u8>>,
    after: Seq<Seq<u8>>,
    program_size: nat,
    step_limit: nat,
) -> bool {
    if before.len() < 2 {
        after == before
    } else {
        exists|first: int, second: int|
            0 <= first < before.len() && 0 <= second < before.len() && first != second
                && #[trigger] interacted::<S>(before, after, first, second, program_size, step_limit)
    }
}

/// `count` interactions, one after the other, lead from `before` to `after`.
pub open spec fn interactions<S: Substrate>(
    before: Seq<Seq<u8>>,
    after: Seq<Seq<u8>>,
    count: nat,
    program_size: nat,
    step_limit: nat,
) -> bool
    decreases count,
{
    if count == 0 {
        after == before
    } else {
        exists|mid: Seq<Seq<u8>>|
            interactions::<S>(before, mid, (count - 1) as nat, program_size, step_limit)
                && #[trigger] one_interaction::<S>(mid, after, program_size, step_limit)
    }
}

proof fn lemma_interactions_extend<S: Substrate>(
    before: Seq<Seq<u8>>,
    mid: Seq<Seq<u8>>,
    after: Seq<Seq<u8>>,
    count: nat,
    program_size: nat,
    step_limit: nat,
)
    requires
        interactions::<S>(before, mid, count, program_size, step_limit),
        one_interaction::<S>(mid, after, program_size, step_limit),
    ensures
        interactions::<S>(before, after, count + 1, program_size, step_limit),
{
    assert(((count + 1) - 1) as nat == count);
}

/// All programs, one after the other, into `buf` (which is cleared first).
pub(crate) fn flatten_into(programs: &Vec<Vec<u8>>, buf: &mut Vec<u8>)
    ensures
        final(buf)@ == contents(programs@).flatten(),
{
    buf.clear();
    let mut i: usize = 0;
    while i < programs.len()
        invariant
            i <= programs@.len(),
            buf@ == contents(programs@).take(i as int).flatten(),
        decreases programs@.len() - i,
    {
        let prog = &programs[i];
        let mut j: usize = 0;
        let ghost start = buf@;
        while j < prog.len()
            invariant
                j <= prog@.len(),
                buf@ == start + prog@.subrange(0, j as int),
            decreases prog@.len() - j,
        {
            buf.push(prog[j]);
            proof {
                assert(prog@.subrange(0, j + 1) =~= prog@.subrange(0, j as int).push(prog@[j as int]));
            }
            j = j + 1;
        }
        proof {
            let c = contents(programs@);
            assert(prog@.subrange(0, prog@.len() as int) =~= prog@);
            assert(c.take(i + 1) =~= c.take(i as int).push(c[i as int]));
            c.take(i as int).lemma_flatten_push(c[i as int]);
        }
        i = i + 1;
    }
    proof {
        assert(contents(programs@).take(programs@.len() as int) =~= contents(programs@));
    }
}

/// The primordial soup: a population of programs that interact.
pub struct Soup {
    /// The population: one vector of `program_size` bytes per program.
    pub programs: Vec<Vec<u8>>,
    pub config: SoupConfig,
    pub rng: SmallRng,
    /// Whether each byte was hit by the last mutation.
    pub hits: Ghost<Seq<Seq<bool>>>,
    /// The bit drawn for each byte by the last mutation (0 where not hit).
    pub bits: Ghost<Seq<Seq<u32>>>,
}

impl Soup {
    /// The contents of the programs.
    pub open spec fn population(&self) -> Seq<Seq<u8>> {
        contents(self.programs@)
    }

    /// Every program has the configured size.
    pub open spec fn well_formed(&self) -> bool {
        uniform(self.population(), self.config.program_size as nat)
    }

    /// Create a new soup with randomly initialized programs.
    pub fn new(config: SoupConfig, seed: u64) -> (soup: Self)
        ensures
            soup.config == config,
            soup.programs@.len() == config.population_size,
            soup.well_formed(),
    {
        let mut rng = seeded_rng(seed);
        let programs = random_population(&mut rng, config.population_size, config.program_size);
        Soup { programs, config, rng, hits: Ghost(Seq::empty()), bits: Ghost(Seq::empty()) }
    }

    /// Run a single interaction step: pick two programs, concatenate in
    /// random order, execute, split result back.
    pub fn interaction_step<S: Substrate>(&mut self)
        requires
            old(self).well_formed(),
            fits_tape(old(self).config.program_size as nat),
        ensures
            final(self).config == old(self).config,
            final(self).well_formed(),
            one_interaction::<S>(
                old(self).population(),
                final(self).population(),
                old(self).config.program_size as nat,
                old(self).config.step_limit as nat,
            ),
    {
        let n = self.programs.len();
        if n < 2 {
            return;
        }
        let (first, second) = pick_pair(&mut self.rng, n);
        interact::<S>(
            &mut self.programs,
            first,
            second,
            self.config.program_size,
            self.config.step_limit,
        );
        assert(interacted::<S>(
            old(self).population(),
            self.population(),
            first as int,
            second as int,
            self.config.program_size as nat,
            self.config.step_limit as nat,
        ));
    }

    /// Run one epoch: `population_size` interaction steps.
    pub fn run_epoch<S: Substrate>(&mut self)
        requires
            old(self).well_formed(),
            fits_tape(old(self).config.program_size as nat),
        ensures
            final(self).config == old(self).config,
            final(self).well_formed(),
            interactions::<S>(
                old(self).population(),
                final(self).population(),
                old(self).config.population_size as nat,
                old(self).config.program_size as nat,
                old(self).config.step_limit as nat,
            ),
    {
        let ghost start = self.population();
        let n = self.config.population_size;
        let mut k: usize = 0;
        while k < n
            invariant
                k <= n,
                n == self.config.population_size,
                self.config == old(self).config,
                start == old(self).population(),
                self.well_formed(),
                fits_tape(self.config.program_size as nat),
                interactions::<S>(
                    start,
                    self.population(),
                    k as nat,
                    self.config.program_size as nat,
                    self.config.step_limit as nat,
                ),
            decreases n - k,
        {
            let ghost mid = self.population();
            self.interaction_step::<S>();
            proof {
                let ps = self.config.program_size as nat;
                let sl = self.config.step_limit as nat;
                assert(interactions::<S>(start, mid, k as nat, ps, sl));
                lemma_interactions_extend::<S>(start, mid, self.population(), k as nat, ps, sl);
            }
            k = k + 1;
        }
    }

    /// Apply background mutation: each byte, with the configured
    /// probability, gets one random bit flipped.
    pub fn mutate(&mut self)
        requires
            old(self).config.mutation_rate.valid(),
        ensures
            final(self).config == old(self).config,
            old(self).config.mutation_rate.disabled() ==> final(self).programs@ == old(
                self,
            ).programs@,
            mutated(
                old(self).population(),
                final(self).population(),
                final(self).hits@,
                final(self).bits@,
            ),
            old(self).config.mutation_rate.disabled() ==> none_hit(final(self).hits@),
            0 < old(self).config.mutation_rate.numerator == old(
                self,
            ).config.mutation_rate.denominator ==> all_hit(final(self).hits@),
            one_bit_flips(old(self).population(), final(self).population()),
            0 < old(self).config.mutation_rate.numerator == old(
                self,
            ).config.mutation_rate.denominator ==> one_bit_each(
                old(self).population(),
                final(self).population(),
            ),
    {
        let draws = mutate_programs(&mut self.programs, &mut self.rng, self.config.mutation_rate);
        self.hits = Ghost(draws@.0);
        self.bits = Ghost(draws@.1);
    }

    /// Fill `buf` with the entire population as a flat byte sequence.
    pub fn population_bytes_into(&self, buf: &mut Vec<u8>)
        ensures
            final(buf)@ == self.population().flatten(),
    {
        flatten_into(&self.programs, buf);
    }

    /// The entire population as a flat byte sequence.
    pub fn population_bytes(&self) -> (bytes: Vec<u8>)
        ensures
            bytes@ == self.population().flatten(),
    {
        let mut buf: Vec<u8> = Vec::new();
        self.population_bytes_into(&mut buf);
        buf
    }
}

} // verus!
