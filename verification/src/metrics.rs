use vstd::prelude::*;

verus! {

/// The contents of each program.
pub open spec fn contents(programs: Seq<Vec<u8>>) -> Seq<Seq<u8>> {
    programs.map_values(|p: Vec<u8>| p@)
}

/// How many bytes of `p` equal `b`.
pub open spec fn count_byte(p: Seq<u8>, b: u8) -> nat
    decreases p.len(),
{
    if p.len() == 0 {
        0
    } else {
        count_byte(p.drop_last(), b) + if p.last() == b {
            1nat
        } else {
            0nat
        }
    }
}

/// How many bytes equal to `b` there are across all programs.
pub open spec fn count_byte_all(ps: Seq<Seq<u8>>, b: u8) -> nat
    decreases ps.len(),
{
    if ps.len() == 0 {
        0
    } else {
        count_byte_all(ps.drop_last(), b) + count_byte(ps.last(), b)
    }
}

/// The total number of bytes across all programs.
pub open spec fn total_len(ps: Seq<Seq<u8>>) -> nat
    decreases ps.len(),
{
    if ps.len() == 0 {
        0
    } else {
        total_len(ps.drop_last()) + ps.last().len()
    }
}

proof fn lemma_count_byte_le(p: Seq<u8>, b: u8)
    ensures
        count_byte(p, b) <= p.len(),
    decreases p.len(),
{
    if p.len() > 0 {
        lemma_count_byte_le(p.drop_last(), b);
    }
}

proof fn lemma_count_byte_all_le(ps: Seq<Seq<u8>>, b: u8)
    ensures
        count_byte_all(ps, b) <= total_len(ps),
    decreases ps.len(),
{
    if ps.len() > 0 {
        lemma_count_byte_all_le(ps.drop_last(), b);
        lemma_count_byte_le(ps.last(), b);
    }
}

proof fn lemma_total_len_prefix(ps: Seq<Seq<u8>>, i: int)
    requires
        0 <= i <= ps.len(),
    ensures
        total_len(ps.take(i)) <= total_len(ps),
    decreases ps.len(),
{
    if i < ps.len() {
        assert(ps.drop_last().take(i) =~= ps.take(i));
        lemma_total_len_prefix(ps.drop_last(), i);
    } else {
        assert(ps.take(i) =~= ps);
    }
}

/// Count how many bytes of `p` equal `b`.
fn count_in(p: &Vec<u8>, b: u8) -> (n: usize)
    ensures
        n == count_byte(p@, b),
{
    let mut n: usize = 0;
    let mut j: usize = 0;
    while j < p.len()
        invariant
            j <= p@.len(),
            n == count_byte(p@.take(j as int), b),
            n <= j,
        decreases p@.len() - j,
    {
        assert(p@.take(j + 1).drop_last() =~= p@.take(j as int));
        if p[j] == b {
            n += 1;
        }
        j += 1;
    }
    assert(p@.take(j as int) =~= p@);
    n
}

/// Whether two programs hold the same bytes.
fn same_program(a: &Vec<u8>, b: &Vec<u8>) -> (r: bool)
    ensures
        r == (a@ == b@),
{
    if a.len() != b.len() {
        return false;
    }
    let mut j: usize = 0;
    while j < a.len()
        invariant
            a@.len() == b@.len(),
            j <= a@.len(),
            forall|k: int| 0 <= k < j ==> a@[k] == b@[k],
        decreases a@.len() - j,
    {
        if a[j] != b[j] {
            return false;
        }
        j += 1;
    }
    assert(a@ =~= b@);
    true
}

/// Count the number of distinct programs in the population.
pub fn unique_program_count(programs: &[Vec<u8>]) -> (n: usize)
    ensures
        n == contents(programs@).to_set().len(),
{
    let ghost ps = contents(programs@);
    let mut n: usize = 0;
    let mut i: usize = 0;
    assert(ps.take(0).to_set() =~= Set::<Seq<u8>>::empty());
    while i < programs.len()
        invariant
            i <= programs@.len(),
            ps == contents(programs@),
            n == ps.take(i as int).to_set().len(),
            n <= i,
        decreases programs@.len() - i,
    {
        let ghost prefix = ps.take(i as int);
        assert(ps.take(i + 1) =~= prefix.push(ps[i as int]));
        proof {
            prefix.lemma_push_to_set_commute(ps[i as int]);
            prefix.lemma_cardinality_of_set();
            vstd::seq_lib::seq_to_set_is_finite(prefix);
        }
        // Is an equal program already among the first `i`?
        let mut seen = false;
        let mut j: usize = 0;
        while j < i && !seen
            invariant
                j <= i < programs@.len(),
                ps == contents(programs@),
                prefix == ps.take(i as int),
                seen ==> prefix.contains(ps[i as int]),
                !seen ==> forall|k: int| 0 <= k < j ==> ps[k] != ps[i as int],
            decreases i - j,
        {
            if same_program(&programs[j], &programs[i]) {
                seen = true;
                assert(prefix[j as int] == ps[i as int]);
            }
            j += 1;
        }
        if !seen {
            assert(!prefix.contains(ps[i as int]));
            n += 1;
        } else {
            assert(prefix.to_set().contains(ps[i as int]));
            assert(prefix.to_set().insert(ps[i as int]) =~= prefix.to_set());
        }
        i += 1;
    }
    assert(ps.take(i as int) =~= ps);
    n
}

/// Count the total number of zero-valued bytes across all programs.
pub fn zero_byte_count(programs: &[Vec<u8>]) -> (n: usize)
    requires
        total_len(contents(programs@)) <= usize::MAX,
    ensures
        n == count_byte_all(contents(programs@), 0),
{
    let ghost ps = contents(programs@);
    let mut n: usize = 0;
    let mut i: usize = 0;
    while i < programs.len()
        invariant
            i <= programs@.len(),
            ps == contents(programs@),
            total_len(ps) <= usize::MAX,
            n == count_byte_all(ps.take(i as int), 0),
        decreases programs@.len() - i,
    {
        assert(ps.take(i + 1).drop_last() =~= ps.take(i as int));
        proof {
            lemma_total_len_prefix(ps, i + 1);
            lemma_count_byte_all_le(ps.take(i + 1), 0);
        }
        let c = count_in(&programs[i], 0);
        n = n + c;
        i += 1;
    }
    assert(ps.take(i as int) =~= ps);
    n
}

/// Compute a histogram of byte value frequencies across all programs.
/// Returns an array of 256 counts, one per possible byte value.
pub fn byte_frequency_histogram(programs: &[Vec<u8>]) -> (hist: [usize; 256])
    requires
        total_len(contents(programs@)) <= usize::MAX,
    ensures
        forall|b: u8| #[trigger] hist@[b as int] == count_byte_all(contents(programs@), b),
{
    let ghost ps = contents(programs@);
    let mut hist = [0usize; 256];
    let mut i: usize = 0;
    while i < programs.len()
        invariant
            i <= programs@.len(),
            ps == contents(programs@),
            total_len(ps) <= usize::MAX,
            forall|b: u8| #[trigger] hist@[b as int] == count_byte_all(ps.take(i as int), b),
        decreases programs@.len() - i,
    {
        assert(ps.take(i + 1).drop_last() =~= ps.take(i as int));
        assert(ps.take(i + 1).last() == ps[i as int]);
        proof {
            lemma_total_len_prefix(ps, i + 1);
        }
        let prog = &programs[i];
        let ghost p = prog@;
        let ghost before = hist@;
        let mut j: usize = 0;
        while j < prog.len()
            invariant
                i < programs@.len(),
                p == prog@,
                ps.len() == programs@.len(),
                p == ps[i as int],
                ps.take(i + 1).drop_last() == ps.take(i as int),
                ps.take(i + 1).last() == p,
                j <= p.len(),
                total_len(ps) <= usize::MAX,
                total_len(ps.take(i + 1)) <= total_len(ps),
                forall|b: u8|
                    #[trigger] hist@[b as int] == count_byte_all(ps.take(i as int), b)
                        + count_byte(p.take(j as int), b),
            decreases p.len() - j,
        {
            let v = prog[j];
            assert(p.take(j + 1).drop_last() =~= p.take(j as int));
            proof {
                lemma_count_byte_all_le(ps.take(i + 1), v);
                lemma_count_byte_le(p.take(j + 1), v);
                assert(count_byte_all(ps.take(i + 1), v) == count_byte_all(ps.take(i as int), v)
                    + count_byte(p, v));
                assert(p.take(j + 1) =~= p.take(j + 1));
                lemma_count_prefix_le(p, j + 1, v);
            }
            hist[v as usize] = hist[v as usize] + 1;
            j += 1;
        }
        assert(p.take(j as int) =~= p);
        i += 1;
    }
    assert(ps.take(i as int) =~= ps);
    hist
}

proof fn lemma_count_prefix_le(p: Seq<u8>, j: int, b: u8)
    requires
        0 <= j <= p.len(),
    ensures
        count_byte(p.take(j), b) <= count_byte(p, b),
    decreases p.len(),
{
    if j < p.len() {
        assert(p.drop_last().take(j) =~= p.take(j));
        lemma_count_prefix_le(p.drop_last(), j, b);
    } else {
        assert(p.take(j) =~= p);
    }
}


/// The counts of byte values `0 .. k` in `p`, added up.
pub open spec fn byte_sum(p: Seq<u8>, k: nat) -> nat
    decreases k,
{
    if k == 0 {
        0
    } else {
        byte_sum(p, (k - 1) as nat) + count_byte(p, (k - 1) as u8)
    }
}

/// The counts of byte values `0 .. k` across all programs, added up.
pub open spec fn byte_sum_all(ps: Seq<Seq<u8>>, k: nat) -> nat
    decreases k,
{
    if k == 0 {
        0
    } else {
        byte_sum_all(ps, (k - 1) as nat) + count_byte_all(ps, (k - 1) as u8)
    }
}

proof fn lemma_byte_sum_last(p: Seq<u8>, k: nat)
    requires
        p.len() > 0,
        k <= 256,
    ensures
        byte_sum(p, k) == byte_sum(p.drop_last(), k) + if (p.last() as nat) < k {
            1nat
        } else {
            0nat
        },
    decreases k,
{
    if k > 0 {
        lemma_byte_sum_last(p, (k - 1) as nat);
    }
}

proof fn lemma_byte_sum_len(p: Seq<u8>)
    ensures
        byte_sum(p, 256) == p.len(),
    decreases p.len(),
{
    if p.len() == 0 {
        lemma_byte_sum_empty(p, 256);
    } else {
        lemma_byte_sum_last(p, 256);
        lemma_byte_sum_len(p.drop_last());
    }
}

proof fn lemma_byte_sum_empty(p: Seq<u8>, k: nat)
    requires
        p.len() == 0,
    ensures
        byte_sum(p, k) == 0,
    decreases k,
{
    if k > 0 {
        lemma_byte_sum_empty(p, (k - 1) as nat);
    }
}

proof fn lemma_byte_sum_all_last(ps: Seq<Seq<u8>>, k: nat)
    requires
        ps.len() > 0,
    ensures
        byte_sum_all(ps, k) == byte_sum_all(ps.drop_last(), k) + byte_sum(ps.last(), k),
    decreases k,
{
    if k > 0 {
        lemma_byte_sum_all_last(ps, (k - 1) as nat);
    }
}

proof fn lemma_byte_sum_all_empty(ps: Seq<Seq<u8>>, k: nat)
    requires
        ps.len() == 0,
    ensures
        byte_sum_all(ps, k) == 0,
    decreases k,
{
    if k > 0 {
        lemma_byte_sum_all_empty(ps, (k - 1) as nat);
    }
}

/// Every byte of every program falls in exactly one bucket of the byte
/// frequency histogram: its 256 counts add up to the number of bytes.
pub proof fn law_histogram_counts_every_byte(ps: Seq<Seq<u8>>)
    ensures
        byte_sum_all(ps, 256) == total_len(ps),
    decreases ps.len(),
{
    if ps.len() == 0 {
        lemma_byte_sum_all_empty(ps, 256);
    } else {
        lemma_byte_sum_all_last(ps, 256);
        lemma_byte_sum_len(ps.last());
        law_histogram_counts_every_byte(ps.drop_last());
    }
}

/// There are never more distinct programs than programs, and a non-empty
/// population has at least one.
pub proof fn law_unique_count_bounds(ps: Seq<Seq<u8>>)
    ensures
        ps.to_set().len() <= ps.len(),
        ps.len() > 0 ==> ps.to_set().len() >= 1,
{
    ps.lemma_cardinality_of_set();
    if ps.len() > 0 {
        vstd::seq_lib::seq_to_set_is_finite(ps);
        assert(ps.to_set().contains(ps[0]));
        if ps.to_set().len() == 0 {
            ps.to_set().lemma_len0_is_empty();
        }
    }
}

proof fn lemma_count_byte_all_remove(ps: Seq<Seq<u8>>, j: int, b: u8)
    requires
        0 <= j < ps.len(),
    ensures
        count_byte_all(ps, b) == count_byte_all(ps.remove(j), b) + count_byte(ps[j], b),
    decreases ps.len(),
{
    if j == ps.len() - 1 {
        assert(ps.remove(j) =~= ps.drop_last());
    } else {
        assert(ps.remove(j).drop_last() =~= ps.drop_last().remove(j));
        assert(ps.remove(j).last() == ps.last());
        lemma_count_byte_all_remove(ps.drop_last(), j, b);
    }
}

/// The byte counts do not depend on the order of the programs: two
/// populations that hold the same programs, each as often, have the same
/// histogram.
pub proof fn law_histogram_ignores_order(ps: Seq<Seq<u8>>, qs: Seq<Seq<u8>>, b: u8)
    requires
        ps.to_multiset() == qs.to_multiset(),
    ensures
        count_byte_all(ps, b) == count_byte_all(qs, b),
    decreases ps.len(),
{
    broadcast use vstd::multiset::group_multiset_axioms;
    ps.to_multiset_ensures();
    qs.to_multiset_ensures();
    if ps.len() == 0 {
        assert(qs.len() == 0);
    } else {
        let x = ps.last();
        let rest = ps.drop_last();
        rest.to_multiset_ensures();
        assert(rest.push(x) =~= ps);
        assert(ps.contains(x)) by {
            assert(ps[ps.len() - 1] == x);
        }
        assert(qs.to_multiset().count(x) > 0);
        assert(qs.contains(x));
        let j = choose|j: int| 0 <= j < qs.len() && qs[j] == x;
        let qr = qs.remove(j);
        assert(qr.to_multiset() =~= qs.to_multiset().remove(x));
        assert(rest.to_multiset() =~= ps.to_multiset().remove(x));
        lemma_count_byte_all_remove(qs, j, b);
        law_histogram_ignores_order(rest, qr, b);
    }
}

/// The places `j` in `p` that hold the byte `b`.
pub open spec fn positions_in(p: Seq<u8>, b: u8) -> Set<int> {
    Set::new(|j: int| 0 <= j < p.len() && p[j] == b)
}

/// The places `(i, j)` (program `i`, byte `j`) that hold the byte `b`.
pub open spec fn byte_positions(ps: Seq<Seq<u8>>, b: u8) -> Set<(int, int)> {
    Set::new(|ij: (int, int)| 0 <= ij.0 < ps.len() && 0 <= ij.1 < ps[ij.0].len() && ps[ij.0][ij.1] == b)
}

proof fn lemma_count_byte_positions(p: Seq<u8>, b: u8)
    ensures
        positions_in(p, b).finite(),
        count_byte(p, b) == positions_in(p, b).len(),
    decreases p.len(),
{
    broadcast use vstd::set::group_set_axioms;
    if p.len() == 0 {
        assert(positions_in(p, b) =~= Set::empty());
    } else {
        let q = p.drop_last();
        lemma_count_byte_positions(q, b);
        let last = p.len() - 1;
        if p.last() == b {
            assert(positions_in(p, b) =~= positions_in(q, b).insert(last));
            assert(!positions_in(q, b).contains(last));
        } else {
            assert(positions_in(p, b) =~= positions_in(q, b));
        }
    }
}

/// The count of a byte value across the programs is the number of places
/// that hold it: entry `v` of the byte frequency histogram is the number of
/// places `(i, j)` with byte `v`, and the zero byte count (which is entry 0)
/// the number of places with a zero byte.
pub proof fn law_counts_are_places(ps: Seq<Seq<u8>>, b: u8)
    ensures
        byte_positions(ps, b).finite(),
        count_byte_all(ps, b) == byte_positions(ps, b).len(),
    decreases ps.len(),
{
    broadcast use vstd::set::group_set_axioms;
    if ps.len() == 0 {
        assert(byte_positions(ps, b) =~= Set::empty());
    } else {
        let rest = ps.drop_last();
        let n = ps.len() - 1;
        let last = ps.last();
        law_counts_are_places(rest, b);
        lemma_count_byte_positions(last, b);
        let f = |j: int| (n, j);
        let tail = positions_in(last, b).map(f);
        assert(vstd::relations::injective_on(f, positions_in(last, b)));
        vstd::set_lib::lemma_map_size(positions_in(last, b), tail, f);
        assert forall|ij: (int, int)| #[trigger] byte_positions(ps, b).contains(ij) <==> (
        byte_positions(rest, b) + tail).contains(ij) by {
            if ij.0 == n && 0 <= ij.1 < last.len() && last[ij.1] == b {
                assert(positions_in(last, b).contains(ij.1));
                assert(f(ij.1) == ij);
            }
            if tail.contains(ij) {
                let j = choose|j: int| positions_in(last, b).contains(j) && f(j) == ij;
                assert(ij == (n, j));
            }
        }
        assert(byte_positions(ps, b) =~= byte_positions(rest, b) + tail);
        assert(byte_positions(rest, b).disjoint(tail)) by {
            assert forall|ij: (int, int)| byte_positions(rest, b).contains(ij) implies !tail.contains(ij) by {
                if tail.contains(ij) {
                    let j = choose|j: int| positions_in(last, b).contains(j) && f(j) == ij;
                }
            }
        }
        vstd::set_lib::lemma_set_disjoint_lens(byte_positions(rest, b), tail);
    }
}

/// The length of what brotli writes when it compresses `data` at the given
/// quality with its other parameters at their defaults. Brotli's output is a
/// function of its input and its parameters alone.
pub uninterp spec fn brotli_compressed_len(data: Seq<u8>, quality: i32) -> nat;

/// Calls `brotli::BrotliCompress` on `data`, with `quality` and the default
/// encoder parameters otherwise, into a new buffer, and gives the buffer's
/// length. The call reports an error only when reading its input or writing
/// its output fails, which a slice and a vector never do.
#[verifier::external_body]
fn brotli_len(data: &[u8], quality: i32) -> (n: usize)
    ensures
        n == brotli_compressed_len(data@, quality),
{
    let mut compressed: Vec<u8> = Vec::new();
    let params = brotli::enc::BrotliEncoderParams { quality, ..Default::default() };
    brotli::BrotliCompress(&mut &data[..], &mut compressed, &params).expect(
        "brotli compression should not fail on valid input",
    );
    compressed.len()
}

/// The brotli quality at which the high-order entropy is measured.
pub const HOE_QUALITY: i32 = 2;

/// The high-order entropy (HOE) of a byte sequence, as a fraction:
/// `Some((compressed, raw))`, where `compressed` is the size of `data`
/// compressed by brotli at quality 2 and `raw` is its own size; the entropy is
/// `compressed / raw`. `None` for empty data, whose entropy is zero.
///
/// The ratio approximates the normalized Kolmogorov complexity of the data:
/// near 1 for incompressible (random) data, far below 1 for structured or
/// repetitive data, and slightly above 1 possible on random data because of
/// the compression overhead.
pub fn entropy_fraction(data: &[u8]) -> (r: Option<(usize, usize)>)
    ensures
        data@.len() == 0 <==> r is None,
        r matches Some((c, n)) ==> c == brotli_compressed_len(data@, HOE_QUALITY) && n == data@.len(),
{
    if data.len() == 0 {
        return None;
    }
    let c = brotli_len(data, HOE_QUALITY);
    Some((c, data.len()))
}

} // verus!
