use crate::grid::NeighborTable;
use crate::metrics::contents;
use crate::random::{below_usize, coin, shuffle};
use crate::soup::{fits_tape, uniform};
use crate::substrate::Substrate;
use rand::rngs::SmallRng;
use rayon::iter::ParallelIterator;
use rayon::slice::ParallelSliceMut;
use vstd::arithmetic::div_mod::lemma_fundamental_div_mod_converse;
use vstd::prelude::*;

verus! {

/// Pairs of distinct cells in which no cell occurs twice.
pub open spec fn disjoint_pairs(pairs: Seq<(usize, usize)>) -> bool {
    &&& forall|k: int| 0 <= k < pairs.len() ==> (#[trigger] pairs[k]).0 != pairs[k].1
    &&& forall|k: int, l: int|
        0 <= k < l < pairs.len() ==> {
            &&& (#[trigger] pairs[k]).0 != (#[trigger] pairs[l]).0
            &&& pairs[k].0 != pairs[l].1
            &&& pairs[k].1 != pairs[l].0
            &&& pairs[k].1 != pairs[l].1
        }
}

/// Cell `c` belongs to one of the pairs.
pub open spec fn paired(pairs: Seq<(usize, usize)>, c: int) -> bool {
    exists|k: int| 0 <= k < pairs.len() && ((#[trigger] pairs[k]).0 == c || pairs[k].1 == c)
}

/// Every pair joins a cell and one of the neighbors the table lists for it.
pub open spec fn listed_pairs(table: NeighborTable, pairs: Seq<(usize, usize)>) -> bool {
    forall|k: int|
        0 <= k < pairs.len() ==> table.entries((#[trigger] pairs[k]).0 as int).contains(pairs[k].1)
            || table.entries(pairs[k].1 as int).contains(pairs[k].0)
}

/// How many of the flags are set.
pub open spec fn trues(s: Seq<bool>) -> nat
    decreases s.len(),
{
    if s.len() == 0 {
        0
    } else {
        trues(s.drop_last()) + if s.last() {
            1nat
        } else {
            0nat
        }
    }
}

proof fn lemma_trues_le(s: Seq<bool>)
    ensures
        trues(s) <= s.len(),
    decreases s.len(),
{
    if s.len() > 0 {
        lemma_trues_le(s.drop_last());
    }
}

proof fn lemma_trues_none(s: Seq<bool>)
    requires
        forall|k: int| 0 <= k < s.len() ==> !(#[trigger] s[k]),
    ensures
        trues(s) == 0,
    decreases s.len(),
{
    if s.len() > 0 {
        lemma_trues_none(s.drop_last());
    }
}

proof fn lemma_trues_set(s: Seq<bool>, i: int)
    requires
        0 <= i < s.len(),
        !s[i],
    ensures
        trues(s.update(i, true)) == trues(s) + 1,
    decreases s.len(),
{
    let t = s.update(i, true);
    if i == s.len() - 1 {
        assert(t.drop_last() =~= s.drop_last());
    } else {
        assert(t.drop_last() =~= s.drop_last().update(i, true));
        lemma_trues_set(s.drop_last(), i);
    }
}

/// `order` lists each of the cells `0..cells` once.
pub open spec fn is_order(order: Seq<usize>, cells: nat) -> bool {
    order.to_multiset() == Seq::new(cells, |k: int| k as usize).to_multiset()
}

/// Each neighbor draw `picks[i]` is an index into the neighbor list of the
/// cell at position `i` of `order`, where that list is not empty.
pub open spec fn picks_fit(table: NeighborTable, order: Seq<usize>, picks: Seq<usize>) -> bool {
    &&& picks.len() == order.len()
    &&& forall|i: int|
        0 <= i < order.len() && table.entries(order[i] as int).len() > 0 ==> #[trigger] picks[i]
            < table.entries(order[i] as int).len()
}

/// The taken flags and the pairs after the first `i` positions of the
/// greedy pairing: the cell at each position, if it is free and has
/// neighbors, is paired with the neighbor `picks` draws for it, if that one
/// is free too, in the order `coins` flips.
pub open spec fn greedy(
    table: NeighborTable,
    order: Seq<usize>,
    picks: Seq<usize>,
    coins: Seq<bool>,
    i: nat,
) -> (Seq<bool>, Seq<(usize, usize)>)
    decreases i,
{
    if i == 0 {
        (Seq::new(table.cells(), |c: int| false), Seq::empty())
    } else {
        let (taken, pairs) = greedy(table, order, picks, coins, (i - 1) as nat);
        let p = order[i - 1];
        let ns = table.entries(p as int);
        if taken[p as int] || ns.len() == 0 {
            (taken, pairs)
        } else {
            let n = ns[picks[i - 1] as int];
            if taken[n as int] {
                (taken, pairs)
            } else {
                (
                    taken.update(p as int, true).update(n as int, true),
                    pairs.push(
                        if coins[i - 1] {
                            (p, n)
                        } else {
                            (n, p)
                        },
                    ),
                )
            }
        }
    }
}

/// The pairs of the greedy pairing over the whole `order`.
pub open spec fn greedy_pairs(
    table: NeighborTable,
    order: Seq<usize>,
    picks: Seq<usize>,
    coins: Seq<bool>,
) -> Seq<(usize, usize)> {
    greedy(table, order, picks, coins, order.len()).1
}

proof fn lemma_greedy_prefix(
    table: NeighborTable,
    order: Seq<usize>,
    p1: Seq<usize>,
    c1: Seq<bool>,
    p2: Seq<usize>,
    c2: Seq<bool>,
    i: nat,
)
    requires
        i <= p1.len(),
        i <= p2.len(),
        i <= c1.len(),
        i <= c2.len(),
        p1.take(i as int) == p2.take(i as int),
        c1.take(i as int) == c2.take(i as int),
    ensures
        greedy(table, order, p1, c1, i) == greedy(table, order, p2, c2, i),
    decreases i,
{
    if i > 0 {
        assert(p1.take(i - 1) =~= p1.take(i as int).take(i - 1));
        assert(p2.take(i - 1) =~= p2.take(i as int).take(i - 1));
        assert(c1.take(i - 1) =~= c1.take(i as int).take(i - 1));
        assert(c2.take(i - 1) =~= c2.take(i as int).take(i - 1));
        assert(p1[i - 1] == p1.take(i as int)[i - 1]);
        assert(p2[i - 1] == p2.take(i as int)[i - 1]);
        assert(c1[i - 1] == c1.take(i as int)[i - 1]);
        assert(c2[i - 1] == c2.take(i as int)[i - 1]);
        lemma_greedy_prefix(table, order, p1, c1, p2, c2, (i - 1) as nat);
    }
}

/// While the greedy pairing has made no pair, no cell is taken and every
/// cell it went through had no neighbor.
proof fn lemma_greedy_none(
    table: NeighborTable,
    order: Seq<usize>,
    picks: Seq<usize>,
    coins: Seq<bool>,
    i: nat,
)
    requires
        table.valid(),
        i <= order.len(),
        forall|k: int| 0 <= k < order.len() ==> #[trigger] order[k] < table.cells(),
        picks_fit(table, order, picks),
        greedy(table, order, picks, coins, i).1.len() == 0,
    ensures
        greedy(table, order, picks, coins, i).0 == Seq::new(table.cells(), |c: int| false),
        forall|k: int| 0 <= k < i ==> table.entries(#[trigger] order[k] as int).len() == 0,
    decreases i,
{
    if i > 0 {
        let (taken, pairs) = greedy(table, order, picks, coins, (i - 1) as nat);
        let p = order[i - 1];
        let ns = table.entries(p as int);
        if taken[p as int] || ns.len() == 0 {
            lemma_greedy_none(table, order, picks, coins, (i - 1) as nat);
        } else {
            lemma_greedy_none(table, order, picks, coins, (i - 1) as nat);
            table.lemma_entries_in_range(p as int);
            let n = ns[picks[i - 1] as int];
            assert(n < table.cells());
            assert(!taken[n as int]);
            assert(greedy(table, order, picks, coins, i).1.len() == 1);
        }
    }
}

/// Some cell of the table has a neighbor.
pub open spec fn has_neighbors(table: NeighborTable) -> bool {
    exists|c: usize| c < table.cells() && #[trigger] table.entries(c as int).len() > 0
}

/// An epoch pairs at least two cells whenever some cell has a neighbor: the
/// first cell in the shuffled order that has neighbors is free, and so is
/// the neighbor drawn for it.
pub proof fn law_epoch_pairs_when_neighbors(
    table: NeighborTable,
    order: Seq<usize>,
    picks: Seq<usize>,
    coins: Seq<bool>,
    c: usize,
)
    requires
        table.valid(),
        is_order(order, table.cells()),
        picks_fit(table, order, picks),
        c < table.cells(),
        table.entries(c as int).len() > 0,
    ensures
        greedy_pairs(table, order, picks, coins).len() >= 1,
{
    lemma_order_in_range(order, table.cells());
    let ident = Seq::new(table.cells(), |k: int| k as usize);
    assert(ident[c as int] == c);
    ident.to_multiset_ensures();
    order.to_multiset_ensures();
    assert(ident.contains(c));
    assert(order.to_multiset().count(c) > 0);
    assert(order.contains(c));
    let k = choose|k: int| 0 <= k < order.len() && order[k] == c;
    if greedy_pairs(table, order, picks, coins).len() == 0 {
        lemma_greedy_none(table, order, picks, coins, order.len());
        assert(table.entries(order[k] as int).len() == 0);
    }
}

/// The cells of an order are cells of the table.
proof fn lemma_order_in_range(order: Seq<usize>, cells: nat)
    requires
        is_order(order, cells),
    ensures
        forall|k: int| 0 <= k < order.len() ==> #[trigger] order[k] < cells,
        order.len() == cells,
{
    let ident = Seq::new(cells, |k: int| k as usize);
    order.to_multiset_ensures();
    ident.to_multiset_ensures();
    assert forall|k: int| 0 <= k < order.len() implies #[trigger] order[k] < cells by {
        assert(order.contains(order[k]));
        assert(order.to_multiset().count(order[k]) > 0);
        assert(ident.contains(order[k]));
        let j = choose|j: int| 0 <= j < ident.len() && ident[j] == order[k];
    }
}

/// The greedy pairing of the cells of `table` for the given shuffled order,
/// neighbor draws and coin flips: what the first phase of an epoch makes of
/// those random results.
pub fn greedy_pairing_of(
    table: &NeighborTable,
    order: &[usize],
    picks: &[usize],
    coins: &[bool],
) -> (pairs: Vec<(usize, usize)>)
    requires
        table.valid(),
        is_order(order@, table.cells()),
        picks_fit(*table, order@, picks@),
        coins@.len() == order@.len(),
    ensures
        pairs@ == greedy_pairs(*table, order@, picks@, coins@),
{
    proof {
        lemma_order_in_range(order@, table.cells());
    }
    let total = table.num_cells();
    let mut taken: Vec<bool> = vec![false; total];
    let mut pairs: Vec<(usize, usize)> = Vec::new();
    assert(taken@ =~= greedy(*table, order@, picks@, coins@, 0).0);
    let mut i: usize = 0;
    while i < total
        invariant
            table.valid(),
            total == table.cells() == order@.len(),
            forall|k: int| 0 <= k < order@.len() ==> #[trigger] order@[k] < total,
            picks_fit(*table, order@, picks@),
            coins@.len() == order@.len(),
            i <= total,
            taken@ == greedy(*table, order@, picks@, coins@, i as nat).0,
            pairs@ == greedy(*table, order@, picks@, coins@, i as nat).1,
            taken@.len() == total,
        decreases total - i,
    {
        let p = order[i];
        if !taken[p] {
            let ns = table.neighbors_of(p);
            if ns.len() > 0 {
                let n = ns[picks[i]];
                if !taken[n] {
                    taken.set(p, true);
                    taken.set(n, true);
                    if coins[i] {
                        pairs.push((p, n));
                    } else {
                        pairs.push((n, p));
                    }
                }
            }
        }
        i = i + 1;
    }
    pairs
}

/// Reusable buffers of an epoch.
pub struct EpochScratch {
    /// Shuffled iteration order.
    order: Vec<usize>,
    /// Taken flags.
    taken: Vec<bool>,
    /// Interaction pairs (first, second).
    pairs: Vec<(usize, usize)>,
    /// Flat tape buffer for parallel execution.
    tape_pool: Vec<u8>,
    /// The neighbor drawn at each position of the last pairing's order.
    picks: Ghost<Seq<usize>>,
    /// The coin flipped at each position of the last pairing's order.
    coins: Ghost<Seq<bool>>,
}

impl EpochScratch {
    /// The buffers are sized for a grid of `cells` cells.
    pub closed spec fn sized_for(&self, cells: nat) -> bool {
        &&& self.order@.len() == cells
        &&& self.taken@.len() == cells
    }

    /// Buffers for a grid of `cells` cells.
    pub fn new(cells: usize) -> (scratch: Self)
        ensures
            scratch.sized_for(cells as nat),
    {
        let mut order: Vec<usize> = Vec::with_capacity(cells);
        let mut i: usize = 0;
        while i < cells
            invariant
                i <= cells,
                order@.len() == i,
            decreases cells - i,
        {
            order.push(i);
            i = i + 1;
        }
        let taken: Vec<bool> = vec![false; cells];
        let pairs: Vec<(usize, usize)> = Vec::with_capacity(cells / 2);
        let tape_pool: Vec<u8> = Vec::new();
        EpochScratch {
            order,
            taken,
            pairs,
            tape_pool,
            picks: Ghost(Seq::empty()),
            coins: Ghost(Seq::empty()),
        }
    }
}

impl EpochScratch {
    /// The pairs made by the last pairing.
    pub closed spec fn pairs_made(&self) -> Seq<(usize, usize)> {
        self.pairs@
    }

    /// The shuffled order of the last pairing.
    pub closed spec fn order_made(&self) -> Seq<usize> {
        self.order@
    }

    /// The neighbor drawn at each position of the last pairing's order.
    pub closed spec fn picks_made(&self) -> Seq<usize> {
        self.picks@
    }

    /// The coin flipped at each position of the last pairing's order.
    pub closed spec fn coins_made(&self) -> Seq<bool> {
        self.coins@
    }

    /// The last pairing went greedily through a shuffled order of the cells
    /// of `table`, with the neighbor draws and coin flips it recorded.
    pub open spec fn greedy_pairing(&self, table: NeighborTable) -> bool {
        &&& is_order(self.order_made(), table.cells())
        &&& picks_fit(table, self.order_made(), self.picks_made())
        &&& self.coins_made().len() == self.order_made().len()
        &&& self.pairs_made() == greedy_pairs(
            table,
            self.order_made(),
            self.picks_made(),
            self.coins_made(),
        )
    }

    /// Phase one of an epoch: go through the cells in a shuffled order and
    /// pair each free cell with a random neighbor, if that neighbor is free
    /// too; the pair's order is random.
    fn pair_up(&mut self, rng: &mut SmallRng, table: &NeighborTable)
        requires
            old(self).sized_for(table.cells()),
            table.valid(),
        ensures
            final(self).sized_for(table.cells()),
            disjoint_pairs(final(self).pairs_made()),
            listed_pairs(*table, final(self).pairs_made()),
            forall|k: int|
                0 <= k < final(self).pairs_made().len() ==> (#[trigger] final(self).pairs_made()[k]).0
                    < table.cells() && final(self).pairs_made()[k].1 < table.cells(),
            2 * final(self).pairs_made().len() <= table.cells(),
            final(self).greedy_pairing(*table),
    {
        let total = table.num_cells();
        let mut i: usize = 0;
        while i < total
            invariant
                total == table.cells(),
                i <= total,
                self.order@.len() == total,
                self.taken@.len() == total,
                forall|k: int| 0 <= k < i ==> #[trigger] self.order@[k] == k,
            decreases total - i,
        {
            self.order.set(i, i);
            i = i + 1;
        }
        let ghost unshuffled = self.order@;
        assert(unshuffled =~= Seq::new(total as nat, |k: int| k as usize));
        shuffle(rng, &mut self.order);
        let ghost shuffled = self.order@;
        assert(is_order(shuffled, total as nat));
        proof {
            let o = self.order@;
            o.to_multiset_ensures();
            unshuffled.to_multiset_ensures();
            assert forall|k: int| 0 <= k < total implies #[trigger] o[k] < total by {
                assert(o.contains(o[k]));
                assert(o.to_multiset().count(o[k]) > 0);
                assert(unshuffled.to_multiset().count(o[k]) > 0);
                assert(unshuffled.contains(o[k]));
                let j = choose|j: int| 0 <= j < unshuffled.len() && unshuffled[j] == o[k];
                assert(unshuffled[j] == j);
            }
        }
        let mut i: usize = 0;
        while i < total
            invariant
                total == table.cells(),
                i <= total,
                self.taken@.len() == total,
                self.order@.len() == total,
                forall|k: int| 0 <= k < total ==> #[trigger] self.order@[k] < total,
                forall|k: int| 0 <= k < i ==> !(#[trigger] self.taken@[k]),
                self.order@ == shuffled,
                is_order(shuffled, total as nat),
            decreases total - i,
        {
            self.taken.set(i, false);
            i = i + 1;
        }
        self.pairs.clear();
        proof {
            lemma_trues_none(self.taken@);
        }
        let ghost order = self.order@;
        let ghost mut picks: Seq<usize> = Seq::empty();
        let ghost mut coins: Seq<bool> = Seq::empty();
        assert(self.taken@ =~= greedy(*table, order, picks, coins, 0).0);
        assert(self.pairs@ =~= greedy(*table, order, picks, coins, 0).1);
        let mut i: usize = 0;
        while i < total
            invariant
                total == table.cells(),
                table.valid(),
                i <= total,
                order == self.order@,
                is_order(order, total as nat),
                picks.len() == i,
                coins.len() == i,
                forall|k: int|
                    0 <= k < i && table.entries(order[k] as int).len() > 0 ==> #[trigger] picks[k]
                        < table.entries(order[k] as int).len(),
                self.taken@ == greedy(*table, order, picks, coins, i as nat).0,
                self.pairs@ == greedy(*table, order, picks, coins, i as nat).1,
                self.order@.len() == total,
                self.taken@.len() == total,
                forall|k: int| 0 <= k < total ==> #[trigger] self.order@[k] < total,
                disjoint_pairs(self.pairs@),
                listed_pairs(*table, self.pairs@),
                forall|k: int|
                    0 <= k < self.pairs@.len() ==> (#[trigger] self.pairs@[k]).0 < total
                        && self.pairs@[k].1 < total,
                forall|c: int| 0 <= c < total ==> (#[trigger] self.taken@[c] <==> paired(self.pairs@, c)),
                trues(self.taken@) == 2 * self.pairs@.len(),
            decreases total - i,
        {
            let p = self.order[i];
            let ghost pk: usize = 0;
            let ghost cn: bool = false;
            let ghost taken0 = self.taken@;
            let ghost pairs0 = self.pairs@;
            if !self.taken[p] {
                let ns = table.neighbors_of(p);
                if ns.len() > 0 {
                    let pick = below_usize(rng, ns.len());
                    proof {
                        pk = pick;
                    }
                    let n = ns[pick];
                    assert(ns@[pick as int] == n);
                    assert(table.entries(p as int).contains(n));
                    if !self.taken[n] {
                        let ghost before = self.pairs@;
                        proof {
                            lemma_trues_set(self.taken@, p as int);
                            lemma_trues_set(self.taken@.update(p as int, true), n as int);
                        }
                        self.taken.set(p, true);
                        self.taken.set(n, true);
                        let c = coin(rng);
                        proof {
                            cn = c;
                        }
                        let pair = if c {
                            (p, n)
                        } else {
                            (n, p)
                        };
                        self.pairs.push(pair);
                        proof {
                            let after = self.pairs@;
                            assert(!paired(before, p as int));
                            assert(!paired(before, n as int));
                            assert(after[before.len() as int] == pair);
                            assert forall|k: int, l: int| 0 <= k < l < after.len() implies {
                                &&& (#[trigger] after[k]).0 != (#[trigger] after[l]).0
                                &&& after[k].0 != after[l].1
                                &&& after[k].1 != after[l].0
                                &&& after[k].1 != after[l].1
                            } by {
                                if l < before.len() {
                                    assert(after[k] == before[k]);
                                    assert(after[l] == before[l]);
                                } else {
                                    assert(after[k] == before[k]);
                                    if before[k].0 == p || before[k].1 == p {
                                        assert(paired(before, p as int));
                                    }
                                    if before[k].0 == n || before[k].1 == n {
                                        assert(paired(before, n as int));
                                    }
                                }
                            }
                            assert forall|k: int|
                                0 <= k < after.len() implies (#[trigger] after[k]).0 != after[k].1 by {
                                if k < before.len() {
                                    assert(after[k] == before[k]);
                                }
                            }
                            assert forall|k: int| 0 <= k < after.len() implies table.entries(
                                (#[trigger] after[k]).0 as int,
                            ).contains(after[k].1) || table.entries(after[k].1 as int).contains(
                                after[k].0,
                            ) by {
                                if k < before.len() {
                                    assert(after[k] == before[k]);
                                }
                            }
                            assert forall|k: int| 0 <= k < after.len() implies (#[trigger] after[k]).0
                                < total && after[k].1 < total by {
                                if k < before.len() {
                                    assert(after[k] == before[k]);
                                }
                            }
                            assert forall|c: int| 0 <= c < total implies (#[trigger] self.taken@[c]
                                <==> paired(after, c)) by {
                                if paired(before, c) {
                                    let k = choose|k: int|
                                        0 <= k < before.len() && ((#[trigger] before[k]).0 == c
                                            || before[k].1 == c);
                                    assert(after[k] == before[k]);
                                }
                                if c == p || c == n {
                                    assert(after[before.len() as int] == pair);
                                }
                                if paired(after, c) {
                                    let k = choose|k: int|
                                        0 <= k < after.len() && ((#[trigger] after[k]).0 == c
                                            || after[k].1 == c);
                                    if k < before.len() {
                                        assert(after[k] == before[k]);
                                    }
                                }
                            }
                        }
                    }
                }
            }
            proof {
                let picks1 = picks.push(pk);
                let coins1 = coins.push(cn);
                assert(picks1.take(i as int) =~= picks.take(i as int));
                assert(coins1.take(i as int) =~= coins.take(i as int));
                assert(picks.take(i as int) =~= picks);
                assert(coins.take(i as int) =~= coins);
                lemma_greedy_prefix(*table, order, picks1, coins1, picks, coins, i as nat);
                assert(picks1[i as int] == pk);
                assert(coins1[i as int] == cn);
                assert(taken0 == greedy(*table, order, picks1, coins1, i as nat).0);
                assert(pairs0 == greedy(*table, order, picks1, coins1, i as nat).1);
                picks = picks1;
                coins = coins1;
            }
            i = i + 1;
        }
        proof {
            lemma_trues_le(self.taken@);
            assert(order.len() == total);
        }
        self.picks = Ghost(picks);
        self.coins = Ghost(coins);
    }
}

/// The tape of a pair: its first program followed by its second.
pub open spec fn pair_tape(population: Seq<Seq<u8>>, pair: (usize, usize)) -> Seq<u8> {
    population[pair.0 as int] + population[pair.1 as int]
}

/// Chunk `k` of a pool of tapes of `size` bytes each.
pub open spec fn chunk(pool: Seq<u8>, k: int, size: nat) -> Seq<u8> {
    pool.subrange(k * size, (k + 1) * size)
}

/// What the second phase of an epoch does to a population: the tape of each
/// pair is executed and its two halves are written back to the pair's cells;
/// cells outside the pairs keep their programs.
pub open spec fn pairs_interacted<S: Substrate>(
    before: Seq<Seq<u8>>,
    after: Seq<Seq<u8>>,
    pairs: Seq<(usize, usize)>,
    program_size: nat,
    step_limit: nat,
) -> bool {
    &&& after.len() == before.len()
    &&& forall|k: int|
        0 <= k < pairs.len() ==> {
            let out = S::spec_execute(pair_tape(before, #[trigger] pairs[k]), step_limit).0;
            &&& after[pairs[k].0 as int] == out.subrange(0, program_size as int)
            &&& after[pairs[k].1 as int] == out.subrange(program_size as int, 2 * program_size as int)
        }
    &&& forall|c: int| 0 <= c < before.len() && !paired(pairs, c) ==> #[trigger] after[c] == before[c]
}

proof fn lemma_chunk_bounds(k: int, n: int, size: int)
    requires
        0 <= k < n,
        0 <= size,
    ensures
        0 <= k * size,
        (k + 1) * size <= n * size,
        (k + 1) * size == k * size + size,
{
    assert(0 <= k * size) by (nonlinear_arith)
        requires
            0 <= k,
            0 <= size,
    ;
    assert((k + 1) * size <= n * size) by (nonlinear_arith)
        requires
            k + 1 <= n,
            0 <= size,
    ;
    assert((k + 1) * size == k * size + size) by (nonlinear_arith);
}

/// Append all of `src` to `dst`.
fn push_all(dst: &mut Vec<u8>, src: &[u8])
    ensures
        final(dst)@ == old(dst)@ + src@,
{
    let ghost start = dst@;
    let mut j: usize = 0;
    while j < src.len()
        invariant
            j <= src@.len(),
            dst@ == start + src@.subrange(0, j as int),
        decreases src@.len() - j,
    {
        dst.push(src[j]);
        proof {
            assert(src@.subrange(0, j + 1) =~= src@.subrange(0, j as int).push(src@[j as int]));
        }
        j = j + 1;
    }
    proof {
        assert(src@.subrange(0, src@.len() as int) =~= src@);
    }
}

/// The bytes of `src` from `start` to `end`, as a new vector.
fn copy_range(src: &[u8], start: usize, end: usize) -> (v: Vec<u8>)
    requires
        start <= end <= src@.len(),
    ensures
        v@ == src@.subrange(start as int, end as int),
{
    let mut v: Vec<u8> = Vec::new();
    let mut j: usize = start;
    while j < end
        invariant
            start <= j <= end <= src@.len(),
            v@ == src@.subrange(start as int, j as int),
        decreases end - j,
    {
        v.push(src[j]);
        proof {
            assert(src@.subrange(start as int, j + 1) =~= src@.subrange(start as int, j as int).push(
                src@[j as int],
            ));
        }
        j = j + 1;
    }
    v
}

/// Copy the tape of every pair into one flat pool, the tape of pair `k` at
/// chunk `k`.
fn fill_pool(
    pool: &mut Vec<u8>,
    programs: &Vec<Vec<u8>>,
    pairs: &Vec<(usize, usize)>,
    program_size: usize,
)
    requires
        forall|k: int|
            0 <= k < pairs@.len() ==> (#[trigger] pairs@[k]).0 < programs@.len() && pairs@[k].1
                < programs@.len(),
        uniform(contents(programs@), program_size as nat),
        pairs@.len() * (2 * program_size) <= isize::MAX,
    ensures
        final(pool)@.len() == pairs@.len() * (2 * program_size),
        forall|k: int|
            0 <= k < pairs@.len() ==> chunk(final(pool)@, k, (2 * program_size) as nat) == pair_tape(
                contents(programs@),
                #[trigger] pairs@[k],
            ),
{
    let ghost ts = 2 * program_size;
    let ghost pop = contents(programs@);
    pool.clear();
    let mut k: usize = 0;
    while k < pairs.len()
        invariant
            ts == 2 * program_size,
            pop == contents(programs@),
            k <= pairs@.len(),
            forall|i: int|
                0 <= i < pairs@.len() ==> (#[trigger] pairs@[i]).0 < programs@.len() && pairs@[i].1
                    < programs@.len(),
            uniform(pop, program_size as nat),
            pairs@.len() * ts <= isize::MAX,
            pool@.len() == k * ts,
            forall|i: int| 0 <= i < k ==> chunk(pool@, i, ts as nat) == pair_tape(pop, #[trigger] pairs@[i]),
        decreases pairs@.len() - k,
    {
        let (first, second) = pairs[k];
        let ghost before = pool@;
        proof {
            lemma_chunk_bounds(k as int, pairs@.len() as int, ts);
            assert(pop[first as int] == programs@[first as int]@);
            assert(pop[second as int] == programs@[second as int]@);
        }
        push_all(pool, programs[first].as_slice());
        push_all(pool, programs[second].as_slice());
        proof {
            let tape = pair_tape(pop, pairs@[k as int]);
            assert(pool@ =~= before + tape);
            assert(chunk(pool@, k as int, ts as nat) =~= tape);
            assert forall|i: int| 0 <= i < k implies chunk(pool@, i, ts as nat) == pair_tape(
                pop,
                #[trigger] pairs@[i],
            ) by {
                lemma_chunk_bounds(i, k as int, ts);
                assert(chunk(pool@, i, ts as nat) =~= chunk(before, i, ts as nat));
            }
        }
        k = k + 1;
    }
}

/// Calls rayon's `par_chunks_mut(tape_size)` on the pool and, through
/// `for_each`, runs `S::execute` with `step_limit` on every chunk, in
/// parallel. Rayon hands each chunk of `tape_size` bytes (they do not
/// overlap) to one call; so every chunk ends as `S::execute` leaves it, and
/// the pool keeps its length. `par_chunks_mut` panics on a zero chunk size,
/// which `requires` leaves out.
#[verifier::external_body]
fn execute_chunks_parallel<S: Substrate + Sync>(
    pool: &mut Vec<u8>,
    tape_size: usize,
    step_limit: usize,
)
    requires
        0 < tape_size <= isize::MAX,
        old(pool)@.len() % (tape_size as nat) == 0,
    ensures
        final(pool)@.len() == old(pool)@.len(),
        forall|k: int|
            0 <= k < old(pool)@.len() / (tape_size as nat) ==> #[trigger] chunk(
                final(pool)@,
                k,
                tape_size as nat,
            ) == S::spec_execute(chunk(old(pool)@, k, tape_size as nat), step_limit as nat).0,
{
    pool.par_chunks_mut(tape_size).for_each(
        |tape| {
            S::execute(tape, step_limit);
        },
    );
}

/// Write the two halves of chunk `k` of the pool back to the cells of pair
/// `k`.
fn copy_back(
    programs: &mut Vec<Vec<u8>>,
    pool: &Vec<u8>,
    pairs: &Vec<(usize, usize)>,
    program_size: usize,
)
    requires
        disjoint_pairs(pairs@),
        forall|k: int|
            0 <= k < pairs@.len() ==> (#[trigger] pairs@[k]).0 < old(programs)@.len() && pairs@[k].1
                < old(programs)@.len(),
        pool@.len() == pairs@.len() * (2 * program_size),
        uniform(contents(old(programs)@), program_size as nat),
        fits_tape(program_size as nat),
    ensures
        final(programs)@.len() == old(programs)@.len(),
        uniform(contents(final(programs)@), program_size as nat),
        forall|k: int|
            0 <= k < pairs@.len() ==> {
                let c = chunk(pool@, k, (2 * program_size) as nat);
                &&& contents(final(programs)@)[(#[trigger] pairs@[k]).0 as int] == c.subrange(
                    0,
                    program_size as int,
                )
                &&& contents(final(programs)@)[pairs@[k].1 as int] == c.subrange(
                    program_size as int,
                    2 * program_size as int,
                )
            },
        forall|c: int|
            0 <= c < old(programs)@.len() && !paired(pairs@, c) ==> #[trigger] contents(
                final(programs)@,
            )[c] == contents(old(programs)@)[c],
{
    let ghost ts = 2 * program_size;
    let ghost before = contents(programs@);
    let tape_size = 2 * program_size;
    let pool_len = pool.len();
    let mut k: usize = 0;
    while k < pairs.len()
        invariant
            pool_len == pool@.len(),
            ts == 2 * program_size,
            tape_size == ts,
            k <= pairs@.len(),
            disjoint_pairs(pairs@),
            forall|i: int|
                0 <= i < pairs@.len() ==> (#[trigger] pairs@[i]).0 < before.len() && pairs@[i].1
                    < before.len(),
            pool@.len() == pairs@.len() * ts,
            programs@.len() == before.len(),
            uniform(contents(programs@), program_size as nat),
            forall|i: int|
                0 <= i < k ==> {
                    let c = chunk(pool@, i, ts as nat);
                    &&& contents(programs@)[(#[trigger] pairs@[i]).0 as int] == c.subrange(
                        0,
                        program_size as int,
                    )
                    &&& contents(programs@)[pairs@[i].1 as int] == c.subrange(
                        program_size as int,
                        ts as int,
                    )
                },
            forall|c: int|
                0 <= c < before.len() && (forall|i: int|
                    0 <= i < k ==> (#[trigger] pairs@[i]).0 != c && pairs@[i].1 != c)
                    ==> #[trigger] contents(programs@)[c] == before[c],
        decreases pairs@.len() - k,
    {
        let (first, second) = pairs[k];
        proof {
            lemma_chunk_bounds(k as int, pairs@.len() as int, ts);
        }
        let base = k * tape_size;
        let ghost mid = programs@;
        let a = copy_range(pool.as_slice(), base, base + program_size);
        let b = copy_range(pool.as_slice(), base + program_size, base + tape_size);
        programs.set(first, a);
        programs.set(second, b);
        proof {
            let now = contents(programs@);
            let c = chunk(pool@, k as int, ts as nat);
            assert(now[first as int] == a@);
            assert(now[second as int] == b@);
            assert(a@ =~= c.subrange(0, program_size as int));
            assert(b@ =~= c.subrange(program_size as int, ts as int));
            assert forall|i: int|
                0 <= i < programs@.len() && i != first && i != second implies #[trigger] now[i]
                == contents(mid)[i] by {}
            assert forall|i: int| 0 <= i < k + 1 implies {
                let ci = chunk(pool@, i, ts as nat);
                &&& now[(#[trigger] pairs@[i]).0 as int] == ci.subrange(0, program_size as int)
                &&& now[pairs@[i].1 as int] == ci.subrange(program_size as int, ts as int)
            } by {
                if i < k {
                    assert(pairs@[i].0 != first && pairs@[i].0 != second);
                    assert(pairs@[i].1 != first && pairs@[i].1 != second);
                    assert(now[pairs@[i].0 as int] == contents(mid)[pairs@[i].0 as int]);
                    assert(now[pairs@[i].1 as int] == contents(mid)[pairs@[i].1 as int]);
                }
            }
            assert forall|c: int|
                0 <= c < before.len() && (forall|i: int|
                    0 <= i < k + 1 ==> (#[trigger] pairs@[i]).0 != c && pairs@[i].1 != c)
                    implies #[trigger] now[c] == before[c] by {
                assert(pairs@[k as int].0 != c && pairs@[k as int].1 != c);
                assert(now[c] == contents(mid)[c]);
            }
            assert forall|i: int| 0 <= i < now.len() implies (#[trigger] now[i]).len() == program_size by {
                if i != first && i != second {
                    assert(now[i] == contents(mid)[i]);
                }
            }
        }
        k = k + 1;
    }
    proof {
        assert forall|c: int|
            0 <= c < before.len() && !paired(pairs@, c) implies #[trigger] contents(programs@)[c]
            == before[c] by {
            assert forall|i: int| 0 <= i < k implies (#[trigger] pairs@[i]).0 != c && pairs@[i].1 != c by {
                if pairs@[i].0 == c || pairs@[i].1 == c {
                    assert(paired(pairs@, c));
                }
            }
        }
    }
}

impl EpochScratch {
    /// One epoch on a population laid out over the cells of `table`: go
    /// through the cells in a shuffled order and pair each free cell with a
    /// random neighbor the table lists for it, if that neighbor is free too
    /// (the pair's order is random); then execute the tapes of all pairs in
    /// parallel and write their halves back.
    pub(crate) fn run_epoch<S: Substrate + Sync>(
        &mut self,
        programs: &mut Vec<Vec<u8>>,
        rng: &mut SmallRng,
        table: &NeighborTable,
        program_size: usize,
        step_limit: usize,
    )
        requires
            old(self).sized_for(table.cells()),
            table.valid(),
            old(programs)@.len() == table.cells(),
            uniform(contents(old(programs)@), program_size as nat),
            table.cells() * program_size <= isize::MAX,
            0 < program_size,
            fits_tape(program_size as nat),
        ensures
            final(self).sized_for(table.cells()),
            final(programs)@.len() == old(programs)@.len(),
            uniform(contents(final(programs)@), program_size as nat),
            disjoint_pairs(final(self).pairs_made()),
            listed_pairs(*table, final(self).pairs_made()),
            forall|k: int|
                0 <= k < final(self).pairs_made().len() ==> (#[trigger] final(self).pairs_made()[k]).0
                    < table.cells() && final(self).pairs_made()[k].1 < table.cells(),
            pairs_interacted::<S>(
                contents(old(programs)@),
                contents(final(programs)@),
                final(self).pairs_made(),
                program_size as nat,
                step_limit as nat,
            ),
            final(self).greedy_pairing(*table),
            has_neighbors(*table) ==> final(self).pairs_made().len() >= 1,
    {
        let ghost pop = contents(programs@);
        let ps = program_size;

        // Phase 1: build the pairs.
        self.pair_up(rng, table);
        proof {
            if has_neighbors(*table) {
                let c = choose|c: usize| c < table.cells() && #[trigger] table.entries(c as int).len()
                    > 0;
                law_epoch_pairs_when_neighbors(
                    *table,
                    self.order_made(),
                    self.picks_made(),
                    self.coins_made(),
                    c,
                );
            }
        }

        // Phase 2: execute all pairs in parallel.
        let tape_size = ps * 2;
        let ghost np = self.pairs@.len();
        let ghost cells = table.cells();
        assert(np * (2 * ps) <= isize::MAX) by (nonlinear_arith)
            requires
                2 * np <= cells,
                cells * ps <= isize::MAX,
        ;
        fill_pool(&mut self.tape_pool, programs, &self.pairs, ps);
        let ghost filled = self.tape_pool@;
        proof {
            lemma_fundamental_div_mod_converse(filled.len() as int, tape_size as int, np as int, 0);
        }
        execute_chunks_parallel::<S>(&mut self.tape_pool, tape_size, step_limit);
        let ghost executed = self.tape_pool@;
        copy_back(programs, &self.tape_pool, &self.pairs, ps);
        proof {
            let pairs = self.pairs@;
            assert forall|k: int| 0 <= k < pairs.len() implies {
                let out = S::spec_execute(pair_tape(pop, #[trigger] pairs[k]), step_limit as nat).0;
                &&& contents(programs@)[pairs[k].0 as int] == out.subrange(0, ps as int)
                &&& contents(programs@)[pairs[k].1 as int] == out.subrange(ps as int, 2 * ps as int)
            } by {
                assert(chunk(filled, k, tape_size as nat) == pair_tape(pop, pairs[k]));
                assert(chunk(executed, k, tape_size as nat) == S::spec_execute(
                    chunk(filled, k, tape_size as nat),
                    step_limit as nat,
                ).0);
            }
        }
    }
}

} // verus!
