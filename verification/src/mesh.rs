use crate::text::{dec, push_dec};
use vstd::prelude::*;

verus! {

/// The two triangles of quad `k` of a closed strip of `rings` rings of
/// `segments` vertices each: ring `i` and the next ring (the last ring is
/// followed by the first), vertex `j` and the next vertex around the ring.
pub open spec fn ring_quad(rings: nat, segments: nat, i: nat, j: nat) -> ([usize; 3], [usize; 3]) {
    let i_next = (i + 1) % rings;
    let j_next = (j + 1) % segments;
    let v00 = (i * segments + j) as usize;
    let v10 = (i_next * segments + j) as usize;
    let v11 = (i_next * segments + j_next) as usize;
    let v01 = (i * segments + j_next) as usize;
    ([v00, v10, v11], [v00, v11, v01])
}

/// `faces` are the triangles of a closed strip of `rings` rings of `segments`
/// vertices each (a torus, or a tunnel that closes on itself): quad
/// `i * segments + j` gives faces `2 * (i * segments + j)` and the next.
pub open spec fn ring_faces_of(faces: Seq<[usize; 3]>, rings: nat, segments: nat) -> bool {
    &&& faces.len() == 2 * rings * segments
    &&& forall|i: nat, j: nat|
        i < rings && j < segments ==> {
            let k = i * segments + j;
            let (a, b) = #[trigger] ring_quad(rings, segments, i, j);
            &&& faces[2 * k as int] == a
            &&& faces[2 * k as int + 1] == b
        }
}

proof fn lemma_index_lt(a: nat, b: nat, n: nat, m: nat)
    requires
        a < n,
        b < m,
    ensures
        a * m + b < n * m,
        a * m + m <= n * m,
{
    assert(a * m + m <= n * m) by (nonlinear_arith)
        requires
            a < n,
    ;
}

proof fn lemma_index_order(a: nat, b: nat, c: nat, d: nat, m: nat)
    requires
        (a < c && b < m) || (a == c && b < d),
    ensures
        a * m + b < c * m + d,
{
    assert(a * m + b < c * m + d) by (nonlinear_arith)
        requires
            (a < c && b < m) || (a == c && b < d),
    ;
}

/// The triangles of a closed strip of `rings` rings of `segments` vertices
/// each, two per quad: `[v00, v10, v11]` and `[v00, v11, v01]`.
pub fn ring_faces(rings: usize, segments: usize) -> (faces: Vec<[usize; 3]>)
    requires
        0 < rings,
        0 < segments,
        2 * rings * segments <= isize::MAX,
    ensures
        ring_faces_of(faces@, rings as nat, segments as nat),
{
    assert(2 * rings <= 2 * rings * segments && rings * segments <= isize::MAX && 2 * rings
        * segments == 2 * (rings * segments)) by (nonlinear_arith)
        requires
            0 < segments,
            2 * rings * segments <= isize::MAX,
    ;
    let mut faces: Vec<[usize; 3]> = Vec::with_capacity(2 * rings * segments);
    let mut k: usize = 0;
    let mut i: usize = 0;
    while i < rings
        invariant
            0 < rings,
            0 < segments,
            2 * rings * segments <= isize::MAX,
            rings * segments <= isize::MAX,
            2 * rings * segments == 2 * (rings * segments),
            i <= rings,
            k == i * segments,
            faces@.len() == 2 * k,
            forall|i2: nat, j2: nat|
                i2 < i && j2 < segments ==> {
                    let q = i2 * segments + j2;
                    let (a, b) = #[trigger] ring_quad(rings as nat, segments as nat, i2, j2);
                    &&& faces@[2 * q as int] == a
                    &&& faces@[2 * q as int + 1] == b
                },
        decreases rings - i,
    {
        let i_next = (i + 1) % rings;
        let mut j: usize = 0;
        while j < segments
            invariant
                0 < rings,
                0 < segments,
                2 * rings * segments <= isize::MAX,
                rings * segments <= isize::MAX,
                i < rings,
                i_next == (i + 1) % (rings as int),
                j <= segments,
                k == i * segments + j,
                faces@.len() == 2 * k,
                forall|i2: nat, j2: nat|
                    (i2 < i && j2 < segments) || (i2 == i && j2 < j) ==> {
                        let q = i2 * segments + j2;
                        let (a, b) = #[trigger] ring_quad(rings as nat, segments as nat, i2, j2);
                        &&& faces@[2 * q as int] == a
                        &&& faces@[2 * q as int + 1] == b
                    },
            decreases segments - j,
        {
            let j_next = (j + 1) % segments;
            proof {
                lemma_index_lt(i as nat, j as nat, rings as nat, segments as nat);
                lemma_index_lt(i_next as nat, j as nat, rings as nat, segments as nat);
                lemma_index_lt(i_next as nat, j_next as nat, rings as nat, segments as nat);
                lemma_index_lt(i as nat, j_next as nat, rings as nat, segments as nat);
            }
            let v00 = i * segments + j;
            let v10 = i_next * segments + j;
            let v11 = i_next * segments + j_next;
            let v01 = i * segments + j_next;
            let ghost before = faces@;
            faces.push([v00, v10, v11]);
            faces.push([v00, v11, v01]);
            proof {
                assert forall|i2: nat, j2: nat|
                    (i2 < i && j2 < segments) || (i2 == i && j2 < j + 1) implies {
                    let q = i2 * segments + j2;
                    let (a, b) = #[trigger] ring_quad(rings as nat, segments as nat, i2, j2);
                    &&& faces@[2 * q as int] == a
                    &&& faces@[2 * q as int + 1] == b
                } by {
                    if i2 != i || j2 != j {
                        lemma_index_order(i2, j2, i as nat, j as nat, segments as nat);
                    }
                }
            }
            k = k + 1;
            j = j + 1;
        }
        proof {
            assert(i * segments + segments == (i + 1) * segments) by (nonlinear_arith);
        }
        i = i + 1;
    }
    assert(k == rings * segments);
    faces
}

/// The two triangles of cell (`i`, `j`) of a flat grid `width` quads wide:
/// the quad's corners are vertices of a lattice `width + 1` vertices wide.
pub open spec fn grid_quad(width: nat, i: nat, j: nat) -> ([usize; 3], [usize; 3]) {
    let cols = width + 1;
    let v00 = (j * cols + i) as usize;
    let v10 = (j * cols + i + 1) as usize;
    let v01 = ((j + 1) * cols + i) as usize;
    let v11 = ((j + 1) * cols + i + 1) as usize;
    ([v00, v10, v11], [v00, v11, v01])
}

/// `faces` are the triangles of a flat grid of `width` by `height` quads:
/// quad `j * width + i` gives faces `2 * (j * width + i)` and the next.
pub open spec fn grid_faces_of(faces: Seq<[usize; 3]>, width: nat, height: nat) -> bool {
    &&& faces.len() == 2 * width * height
    &&& forall|i: nat, j: nat|
        i < width && j < height ==> {
            let k = j * width + i;
            let (a, b) = #[trigger] grid_quad(width, i, j);
            &&& faces[2 * k as int] == a
            &&& faces[2 * k as int + 1] == b
        }
}

/// The triangles of a flat grid of `width` by `height` quads, two per quad:
/// `[v00, v10, v11]` and `[v00, v11, v01]`.
pub fn grid_faces(width: usize, height: usize) -> (faces: Vec<[usize; 3]>)
    requires
        (width + 1) * (height + 1) <= isize::MAX,
        2 * width * height <= isize::MAX,
    ensures
        grid_faces_of(faces@, width as nat, height as nat),
{
    assert(width + 1 <= isize::MAX && 2 * width * height == 2 * (width * height) && (height
        == 0 || 2 * width <= 2 * width * height) && height * width == width * height)
        by (nonlinear_arith)
        requires
            (width + 1) * (height + 1) <= isize::MAX,
            2 * width * height <= isize::MAX,
    ;
    let cols = width + 1;
    let mut faces: Vec<[usize; 3]> = Vec::with_capacity(2 * width * height);
    let mut k: usize = 0;
    let mut j: usize = 0;
    while j < height
        invariant
            cols == width + 1,
            (width + 1) * (height + 1) <= isize::MAX,
            2 * width * height <= isize::MAX,
            2 * width * height == 2 * (width * height),
            j <= height,
            k == j * width,
            faces@.len() == 2 * k,
            forall|i2: nat, j2: nat|
                i2 < width && j2 < j ==> {
                    let q = j2 * width + i2;
                    let (a, b) = #[trigger] grid_quad(width as nat, i2, j2);
                    &&& faces@[2 * q as int] == a
                    &&& faces@[2 * q as int + 1] == b
                },
        decreases height - j,
    {
        let mut i: usize = 0;
        while i < width
            invariant
                cols == width + 1,
                (width + 1) * (height + 1) <= isize::MAX,
                2 * width * height <= isize::MAX,
                2 * width * height == 2 * (width * height),
                height * width == width * height,
                j < height,
                i <= width,
                k == j * width + i,
                faces@.len() == 2 * k,
                forall|i2: nat, j2: nat|
                    (i2 < width && j2 < j) || (j2 == j && i2 < i) ==> {
                        let q = j2 * width + i2;
                        let (a, b) = #[trigger] grid_quad(width as nat, i2, j2);
                        &&& faces@[2 * q as int] == a
                        &&& faces@[2 * q as int + 1] == b
                    },
            decreases width - i,
        {
            proof {
                lemma_index_lt(j as nat, i as nat, height as nat, width as nat);
                lemma_index_lt((j + 1) as nat, (i + 1) as nat, (height + 1) as nat, cols as nat);
                lemma_index_lt(j as nat, (i + 1) as nat, (height + 1) as nat, cols as nat);
                assert((height + 1) * cols == (width + 1) * (height + 1)) by (nonlinear_arith)
                    requires
                        cols == width + 1,
                ;
            }
            let v00 = j * cols + i;
            let v10 = j * cols + i + 1;
            let v01 = (j + 1) * cols + i;
            let v11 = (j + 1) * cols + i + 1;
            faces.push([v00, v10, v11]);
            faces.push([v00, v11, v01]);
            proof {
                assert forall|i2: nat, j2: nat|
                    (i2 < width && j2 < j) || (j2 == j && i2 < i + 1) implies {
                    let q = j2 * width + i2;
                    let (a, b) = #[trigger] grid_quad(width as nat, i2, j2);
                    &&& faces@[2 * q as int] == a
                    &&& faces@[2 * q as int + 1] == b
                } by {
                    if j2 != j || i2 != i {
                        lemma_index_order(j2, i2, j as nat, i as nat, width as nat);
                    }
                }
            }
            k = k + 1;
            i = i + 1;
        }
        proof {
            assert(j * width + width == (j + 1) * width) by (nonlinear_arith);
        }
        j = j + 1;
    }
    assert(k == height * width);
    assert(height * width == width * height) by (nonlinear_arith);
    faces
}

/// The first face, in order, that references a vertex at or past
/// `num_vertices`, with that vertex (its first such corner).
pub open spec fn bad_corner(faces: Seq<[usize; 3]>, num_vertices: nat) -> Option<(nat, usize)>
    decreases faces.len(),
{
    if faces.len() == 0 {
        None
    } else {
        match bad_corner(faces.drop_last(), num_vertices) {
            Some(r) => Some(r),
            None => {
                let f = faces.last();
                let fi = (faces.len() - 1) as nat;
                if f[0] >= num_vertices {
                    Some((fi, f[0]))
                } else if f[1] >= num_vertices {
                    Some((fi, f[1]))
                } else if f[2] >= num_vertices {
                    Some((fi, f[2]))
                } else {
                    None
                }
            },
        }
    }
}

/// The message for a face that references a missing vertex.
pub open spec fn bad_corner_text(fi: nat, vi: usize, num_vertices: nat) -> Seq<char> {
    "Face "@ + dec(fi) + " references vertex "@ + dec(vi as nat) + ", but only "@ + dec(
        num_vertices,
    ) + " vertices exist"@
}

/// Validate vertex indices: every face must reference existing vertices.
pub fn check_faces(faces: &[[usize; 3]], num_vertices: usize) -> (r: Result<(), String>)
    ensures
        match bad_corner(faces@, num_vertices as nat) {
            None => r is Ok,
            Some((fi, vi)) => r matches Err(m) && m@ == bad_corner_text(fi, vi, num_vertices as nat),
        },
{
    let mut fi: usize = 0;
    while fi < faces.len()
        invariant
            fi <= faces@.len(),
            bad_corner(faces@.take(fi as int), num_vertices as nat) is None,
        decreases faces@.len() - fi,
    {
        assert(faces@.take(fi + 1).drop_last() =~= faces@.take(fi as int));
        let face = faces[fi];
        let mut k: usize = 0;
        while k < 3
            invariant
                fi < faces@.len(),
                face == faces@[fi as int],
                bad_corner(faces@.take(fi as int), num_vertices as nat) is None,
                k <= 3,
                forall|m: int| 0 <= m < k ==> face[m] < num_vertices,
            decreases 3 - k,
        {
            let vi = face[k];
            if vi >= num_vertices {
                assert(faces@.take(fi + 1).drop_last() =~= faces@.take(fi as int));
                assert(faces@.take(fi + 1).last() == face);
                assert(bad_corner(faces@.take(fi + 1), num_vertices as nat) == Some((fi as nat, vi)));
                proof {
                    lemma_bad_corner_prefix(faces@, fi + 1, num_vertices as nat);
                }
                let mut m = String::new();
                m.append("Face ");
                push_dec(&mut m, fi);
                m.append(" references vertex ");
                push_dec(&mut m, vi);
                m.append(", but only ");
                push_dec(&mut m, num_vertices);
                m.append(" vertices exist");
                assert(m@ =~= bad_corner_text(fi as nat, vi, num_vertices as nat));
                return Err(m);
            }
            k = k + 1;
        }
        fi = fi + 1;
    }
    assert(faces@.take(fi as int) =~= faces@);
    Ok(())
}

proof fn lemma_bad_corner_prefix(faces: Seq<[usize; 3]>, n: int, num_vertices: nat)
    requires
        0 <= n <= faces.len(),
        bad_corner(faces.take(n), num_vertices) is Some,
    ensures
        bad_corner(faces, num_vertices) == bad_corner(faces.take(n), num_vertices),
    decreases faces.len() - n,
{
    if n < faces.len() {
        assert(faces.take(n + 1).drop_last() =~= faces.take(n));
        lemma_bad_corner_prefix(faces, n + 1, num_vertices);
    } else {
        assert(faces.take(n) =~= faces);
    }
}

/// Side `s` (0, 1 or 2) of a face: the edge from its corner `s` to the next
/// corner, its two vertices in increasing order.
pub open spec fn side(face: [usize; 3], s: int) -> (usize, usize) {
    let v0 = face[s];
    let v1 = face[(s + 1) % 3];
    if v0 < v1 {
        (v0, v1)
    } else {
        (v1, v0)
    }
}

/// The edge of slot `k`: side `k % 3` of face `k / 3`.
pub open spec fn slot_edge(faces: Seq<[usize; 3]>, k: int) -> (usize, usize) {
    side(faces[k / 3], k % 3)
}

/// How many of the first `k` slots have edge `e` (the sides of all faces
/// that lie on `e`, counted with repetition).
pub open spec fn edge_count(faces: Seq<[usize; 3]>, e: (usize, usize), k: int) -> nat
    decreases k,
{
    if k <= 0 {
        0
    } else {
        edge_count(faces, e, k - 1) + if slot_edge(faces, k - 1) == e {
            1nat
        } else {
            0nat
        }
    }
}

/// How many sides of all faces lie on the edge of slot `k`.
pub open spec fn sharing(faces: Seq<[usize; 3]>, k: int) -> nat {
    edge_count(faces, slot_edge(faces, k), 3 * faces.len() as int)
}

/// Another slot with the same edge as slot `k`.
pub open spec fn partner(faces: Seq<[usize; 3]>, k: int) -> int {
    choose|j: int| 0 <= j < 3 * faces.len() && j != k && slot_edge(faces, j) == slot_edge(faces, k)
}

/// The faces adjacent to face `f`, side by side: a side whose edge two face
/// sides share gives the face of the other side.
pub open spec fn adjacent_row(faces: Seq<[usize; 3]>, f: int) -> Seq<usize> {
    adjacent_sides(faces, f, 3)
}

/// The faces adjacent to face `f` across its first `s` sides.
pub open spec fn adjacent_sides(faces: Seq<[usize; 3]>, f: int, s: int) -> Seq<usize>
    decreases s,
{
    if s <= 0 {
        Seq::empty()
    } else {
        let k = 3 * f + s - 1;
        adjacent_sides(faces, f, s - 1) + if sharing(faces, k) == 2 {
            seq![(partner(faces, k) / 3) as usize]
        } else {
            Seq::empty()
        }
    }
}

/// The first slot, among the first `k`, whose edge more than two face sides
/// share.
pub open spec fn first_crowded(faces: Seq<[usize; 3]>, k: int) -> Option<int>
    decreases k,
{
    if k <= 0 {
        None
    } else {
        match first_crowded(faces, k - 1) {
            Some(j) => Some(j),
            None => if sharing(faces, k - 1) > 2 {
                Some(k - 1)
            } else {
                None
            },
        }
    }
}

/// The message for an edge shared by more than two face sides.
pub open spec fn crowded_text(e: (usize, usize), count: nat) -> Seq<char> {
    "Non-manifold edge ("@ + dec(e.0 as nat) + ", "@ + dec(e.1 as nat) + "): shared by "@ + dec(
        count,
    ) + " faces"@
}

/// The slots among the first `k` whose edge starts at vertex `v`, in order.
pub open spec fn slots_from(faces: Seq<[usize; 3]>, v: usize, k: int) -> Seq<usize>
    decreases k,
{
    if k <= 0 {
        Seq::empty()
    } else {
        slots_from(faces, v, k - 1) + if slot_edge(faces, k - 1).0 == v {
            seq![(k - 1) as usize]
        } else {
            Seq::empty()
        }
    }
}

/// How many slots of `list` have edge `e`.
pub open spec fn count_in(faces: Seq<[usize; 3]>, list: Seq<usize>, e: (usize, usize)) -> nat
    decreases list.len(),
{
    if list.len() == 0 {
        0
    } else {
        count_in(faces, list.drop_last(), e) + if slot_edge(faces, list.last() as int) == e {
            1nat
        } else {
            0nat
        }
    }
}

proof fn lemma_slots_from(faces: Seq<[usize; 3]>, e: (usize, usize), k: int)
    requires
        0 <= k,
        k <= usize::MAX + 1,
    ensures
        count_in(faces, slots_from(faces, e.0, k), e) == edge_count(faces, e, k),
        forall|i: int|
            0 <= i < slots_from(faces, e.0, k).len() ==> #[trigger] slots_from(faces, e.0, k)[i] < k
                && slot_edge(faces, slots_from(faces, e.0, k)[i] as int).0 == e.0,
        forall|j: int|
            0 <= j < k && slot_edge(faces, j).0 == e.0 ==> slots_from(faces, e.0, k).contains(
                j as usize,
            ),
    decreases k,
{
    if k > 0 {
        lemma_slots_from(faces, e, k - 1);
        let prev = slots_from(faces, e.0, k - 1);
        let cur = slots_from(faces, e.0, k);
        if slot_edge(faces, k - 1).0 == e.0 {
            assert(cur.drop_last() =~= prev);
            assert(cur[cur.len() - 1] == (k - 1) as usize);
            assert forall|j: int| 0 <= j < k && slot_edge(faces, j).0 == e.0 implies cur.contains(
                j as usize,
            ) by {
                if j < k - 1 {
                    let i = choose|i: int| 0 <= i < prev.len() && prev[i] == j as usize;
                    assert(cur[i] == prev[i]);
                } else {
                    assert(cur[cur.len() - 1] == j as usize);
                }
            }
        } else {
            assert(cur =~= prev);
        }
    }
}

proof fn lemma_two_slots(faces: Seq<[usize; 3]>, e: (usize, usize), k: int) -> (r: (int, int))
    requires
        edge_count(faces, e, k) >= 2,
    ensures
        0 <= r.0 < r.1 < k,
        slot_edge(faces, r.0) == e,
        slot_edge(faces, r.1) == e,
    decreases k,
{
    if slot_edge(faces, k - 1) == e && edge_count(faces, e, k - 1) >= 1 {
        let a = lemma_one_slot(faces, e, k - 1);
        (a, k - 1)
    } else {
        lemma_two_slots(faces, e, k - 1)
    }
}

proof fn lemma_one_slot(faces: Seq<[usize; 3]>, e: (usize, usize), k: int) -> (r: int)
    requires
        edge_count(faces, e, k) >= 1,
    ensures
        0 <= r < k,
        slot_edge(faces, r) == e,
    decreases k,
{
    if slot_edge(faces, k - 1) == e {
        k - 1
    } else {
        lemma_one_slot(faces, e, k - 1)
    }
}

proof fn lemma_three_distinct(
    faces: Seq<[usize; 3]>,
    e: (usize, usize),
    a: int,
    b: int,
    c: int,
    k: int,
)
    requires
        0 <= a < k,
        0 <= b < k,
        0 <= c < k,
        a != b,
        b != c,
        a != c,
        slot_edge(faces, a) == e,
        slot_edge(faces, b) == e,
        slot_edge(faces, c) == e,
    ensures
        edge_count(faces, e, k) >= 3,
{
    if a < b && b < c {
        lemma_edge_count_three(faces, e, a, b, c, k);
    } else if a < c && c < b {
        lemma_edge_count_three(faces, e, a, c, b, k);
    } else if b < a && a < c {
        lemma_edge_count_three(faces, e, b, a, c, k);
    } else if b < c && c < a {
        lemma_edge_count_three(faces, e, b, c, a, k);
    } else if c < a && a < b {
        lemma_edge_count_three(faces, e, c, a, b, k);
    } else {
        lemma_edge_count_three(faces, e, c, b, a, k);
    }
}

proof fn lemma_no_bad_corner(faces: Seq<[usize; 3]>, num_vertices: nat, f: int)
    requires
        bad_corner(faces, num_vertices) is None,
        0 <= f < faces.len(),
    ensures
        faces[f][0] < num_vertices,
        faces[f][1] < num_vertices,
        faces[f][2] < num_vertices,
    decreases faces.len(),
{
    if f < faces.len() - 1 {
        lemma_no_bad_corner(faces.drop_last(), num_vertices, f);
    }
}

/// The edge of slot `k`.
fn slot_edge_of(faces: &[[usize; 3]], k: usize) -> (e: (usize, usize))
    requires
        k < 3 * faces@.len(),
    ensures
        e == slot_edge(faces@, k as int),
{
    let face = faces[k / 3];
    let s = k % 3;
    let v0 = face[s];
    let v1 = face[(s + 1) % 3];
    if v0 < v1 {
        (v0, v1)
    } else {
        (v1, v0)
    }
}

/// For each vertex, the slots whose edge starts at it, in order.
fn slots_by_vertex(faces: &[[usize; 3]], num_vertices: usize) -> (lists: Vec<Vec<usize>>)
    requires
        bad_corner(faces@, num_vertices as nat) is None,
        3 * faces@.len() <= isize::MAX,
    ensures
        lists@.len() == num_vertices,
        forall|v: int|
            0 <= v < num_vertices ==> (#[trigger] lists@[v])@ == slots_from(
                faces@,
                v as usize,
                3 * faces@.len() as int,
            ),
{
    let mut lists: Vec<Vec<usize>> = Vec::new();
    let mut v: usize = 0;
    while v < num_vertices
        invariant
            v <= num_vertices,
            lists@.len() == v,
            forall|u: int| 0 <= u < v ==> (#[trigger] lists@[u])@ == Seq::<usize>::empty(),
        decreases num_vertices - v,
    {
        lists.push(Vec::new());
        v = v + 1;
    }
    let total = 3 * faces.len();
    let mut k: usize = 0;
    while k < total
        invariant
            total == 3 * faces@.len(),
            total <= isize::MAX,
            bad_corner(faces@, num_vertices as nat) is None,
            k <= total,
            lists@.len() == num_vertices,
            forall|u: int|
                0 <= u < num_vertices ==> (#[trigger] lists@[u])@ == slots_from(
                    faces@,
                    u as usize,
                    k as int,
                ),
        decreases total - k,
    {
        let e = slot_edge_of(faces, k);
        proof {
            lemma_no_bad_corner(faces@, num_vertices as nat, (k / 3) as int);
        }
        let a = e.0;
        let ghost before = lists@;
        let mut row: Vec<usize> = Vec::new();
        lists.set_and_swap(a, &mut row);
        row.push(k);
        lists.set(a, row);
        proof {
            assert forall|u: int| 0 <= u < num_vertices implies (#[trigger] lists@[u])@ == slots_from(
                faces@,
                u as usize,
                k + 1,
            ) by {
                if u == a as int {
                    assert(lists@[u]@ =~= before[u]@.push(k));
                } else {
                    assert(lists@[u] == before[u]);
                    assert(slots_from(faces@, u as usize, k + 1) =~= slots_from(
                        faces@,
                        u as usize,
                        k as int,
                    ));
                }
            }
        }
        k = k + 1;
    }
    lists
}

proof fn lemma_count_in_prefix(faces: Seq<[usize; 3]>, list: Seq<usize>, e: (usize, usize), i: int)
    requires
        0 <= i <= list.len(),
    ensures
        count_in(faces, list.take(i), e) <= count_in(faces, list, e),
    decreases list.len() - i,
{
    if i < list.len() {
        assert(list.take(i + 1).drop_last() =~= list.take(i));
        lemma_count_in_prefix(faces, list, e, i + 1);
    } else {
        assert(list.take(i) =~= list);
    }
}

proof fn lemma_edge_count_three(faces: Seq<[usize; 3]>, e: (usize, usize), a: int, b: int, c: int, k: int)
    requires
        0 <= a < b < c < k,
        slot_edge(faces, a) == e,
        slot_edge(faces, b) == e,
        slot_edge(faces, c) == e,
    ensures
        edge_count(faces, e, k) >= 3,
    decreases k,
{
    if k - 1 > c {
        lemma_edge_count_three(faces, e, a, b, c, k - 1);
    } else {
        lemma_edge_count_two(faces, e, a, b, k - 1);
    }
}

proof fn lemma_edge_count_two(faces: Seq<[usize; 3]>, e: (usize, usize), a: int, b: int, k: int)
    requires
        0 <= a < b < k,
        slot_edge(faces, a) == e,
        slot_edge(faces, b) == e,
    ensures
        edge_count(faces, e, k) >= 2,
    decreases k,
{
    if k - 1 > b {
        lemma_edge_count_two(faces, e, a, b, k - 1);
    } else {
        lemma_edge_count_one(faces, e, a, k - 1);
    }
}

proof fn lemma_edge_count_one(faces: Seq<[usize; 3]>, e: (usize, usize), a: int, k: int)
    requires
        0 <= a < k,
        slot_edge(faces, a) == e,
    ensures
        edge_count(faces, e, k) >= 1,
    decreases k,
{
    if k - 1 > a {
        lemma_edge_count_one(faces, e, a, k - 1);
    }
}

/// How many slots of `list` have edge `e`, and a slot of `list` other than
/// `k` with that edge if there is one (else `k`).
fn scan_edge(faces: &[[usize; 3]], list: &Vec<usize>, e: (usize, usize), k: usize) -> (r: (
    usize,
    usize,
))
    requires
        forall|i: int| 0 <= i < list@.len() ==> #[trigger] list@[i] < 3 * faces@.len(),
    ensures
        r.0 == count_in(faces@, list@, e),
        r.1 != k ==> r.1 < 3 * faces@.len() && slot_edge(faces@, r.1 as int) == e,
        (exists|i: int|
            0 <= i < list@.len() && #[trigger] list@[i] != k && slot_edge(faces@, list@[i] as int)
                == e) ==> r.1 != k,
{
    let mut count: usize = 0;
    let mut other = k;
    let mut i: usize = 0;
    while i < list.len()
        invariant
            forall|j: int| 0 <= j < list@.len() ==> #[trigger] list@[j] < 3 * faces@.len(),
            i <= list@.len(),
            count == count_in(faces@, list@.take(i as int), e),
            count <= i,
            other != k ==> other < 3 * faces@.len() && slot_edge(faces@, other as int) == e,
            (exists|j: int|
                0 <= j < i && #[trigger] list@[j] != k && slot_edge(faces@, list@[j] as int) == e)
                ==> other != k,
        decreases list@.len() - i,
    {
        let j = list[i];
        assert(list@.take(i + 1).drop_last() =~= list@.take(i as int));
        let ej = slot_edge_of(faces, j);
        if ej.0 == e.0 && ej.1 == e.1 {
            count = count + 1;
            if j != k {
                other = j;
            }
        }
        i = i + 1;
    }
    assert(list@.take(i as int) =~= list@);
    (count, other)
}

proof fn lemma_first_crowded_prefix(faces: Seq<[usize; 3]>, n: int, total: int)
    requires
        0 <= n <= total,
        first_crowded(faces, n) is Some,
    ensures
        first_crowded(faces, total) == first_crowded(faces, n),
    decreases total - n,
{
    if n < total {
        lemma_first_crowded_prefix(faces, n + 1, total);
    }
}

proof fn lemma_side_of_member(faces: Seq<[usize; 3]>, f: int, s: int, x: usize) -> (t: int)
    requires
        adjacent_sides(faces, f, s).contains(x),
    ensures
        0 <= t < s,
        sharing(faces, 3 * f + t) == 2,
        (partner(faces, 3 * f + t) / 3) as usize == x,
    decreases s,
{
    let prev = adjacent_sides(faces, f, s - 1);
    let k = 3 * f + s - 1;
    if prev.contains(x) {
        lemma_side_of_member(faces, f, s - 1, x)
    } else {
        let row = adjacent_sides(faces, f, s);
        let i = choose|i: int| 0 <= i < row.len() && row[i] == x;
        assert(i >= prev.len());
        s - 1
    }
}

proof fn lemma_member_of_side(faces: Seq<[usize; 3]>, f: int, s: int, t: int)
    requires
        0 <= t < s,
        sharing(faces, 3 * f + t) == 2,
    ensures
        adjacent_sides(faces, f, s).contains((partner(faces, 3 * f + t) / 3) as usize),
    decreases s,
{
    let x = (partner(faces, 3 * f + t) / 3) as usize;
    let prev = adjacent_sides(faces, f, s - 1);
    if t < s - 1 {
        lemma_member_of_side(faces, f, s - 1, t);
        let i = choose|i: int| 0 <= i < prev.len() && prev[i] == x;
        assert(adjacent_sides(faces, f, s)[i] == x);
    } else {
        assert(adjacent_sides(faces, f, s)[prev.len() as int] == x);
    }
}

/// The partner of a slot whose edge exactly two face sides share is a slot
/// of that edge, and its own partner is the first slot.
proof fn lemma_partner_pair(faces: Seq<[usize; 3]>, k: int)
    requires
        0 <= k < 3 * faces.len(),
        sharing(faces, k) == 2,
    ensures
        0 <= partner(faces, k) < 3 * faces.len(),
        partner(faces, k) != k,
        slot_edge(faces, partner(faces, k)) == slot_edge(faces, k),
        sharing(faces, partner(faces, k)) == 2,
        partner(faces, partner(faces, k)) == k,
{
    let total = 3 * faces.len() as int;
    let e = slot_edge(faces, k);
    let (a, b) = lemma_two_slots(faces, e, total);
    let w = if a != k {
        a
    } else {
        b
    };
    assert(0 <= w < total && w != k && slot_edge(faces, w) == e);
    let p = partner(faces, k);
    assert(slot_edge(faces, k) == slot_edge(faces, p));
    let q = partner(faces, p);
    assert(0 <= q < total && q != p && slot_edge(faces, q) == slot_edge(faces, p));
    if q != k {
        lemma_three_distinct(faces, e, k, p, q, total);
    }
}

/// Face adjacency is symmetric: if face `g` is adjacent to face `f`, then
/// `f` is adjacent to `g`.
pub proof fn law_adjacency_symmetric(faces: Seq<[usize; 3]>, f: int, g: usize)
    requires
        0 <= f < faces.len(),
        3 * faces.len() <= usize::MAX,
        adjacent_row(faces, f).contains(g),
    ensures
        (g as int) < faces.len(),
        adjacent_row(faces, g as int).contains(f as usize),
{
    let t = lemma_side_of_member(faces, f, 3, g);
    let k = 3 * f + t;
    lemma_partner_pair(faces, k);
    let p = partner(faces, k);
    assert(p == 3 * (p / 3) + p % 3);
    assert(p / 3 == g as int);
    lemma_member_of_side(faces, g as int, 3, p % 3);
    assert(k / 3 == f);
}

/// Build the face adjacency table: the faces adjacent to each face, across
/// its sides in order (two faces are adjacent across an edge that exactly
/// two face sides share). Returns an error if an edge is shared by more than
/// two face sides (a non-manifold edge): the first such edge, in the order
/// of the faces and their sides.
pub fn build_face_adjacency(faces: &[[usize; 3]], num_vertices: usize) -> (r: Result<
    Vec<Vec<usize>>,
    String,
>)
    requires
        bad_corner(faces@, num_vertices as nat) is None,
        3 * faces@.len() <= isize::MAX,
    ensures
        match first_crowded(faces@, 3 * faces@.len() as int) {
            Some(k) => r matches Err(m) && m@ == crowded_text(
                slot_edge(faces@, k),
                sharing(faces@, k),
            ),
            None => r matches Ok(adj) && adj@.len() == faces@.len() && forall|f: int|
                0 <= f < faces@.len() ==> (#[trigger] adj@[f])@ == adjacent_row(faces@, f),
        },
{
    let n = faces.len();
    let total = 3 * n;
    let lists = slots_by_vertex(faces, num_vertices);
    let mut adj: Vec<Vec<usize>> = Vec::new();
    let mut f: usize = 0;
    while f < n
        invariant
            n == faces@.len(),
            total == 3 * n,
            total <= isize::MAX,
            bad_corner(faces@, num_vertices as nat) is None,
            lists@.len() == num_vertices,
            forall|v: int|
                0 <= v < num_vertices ==> (#[trigger] lists@[v])@ == slots_from(
                    faces@,
                    v as usize,
                    total as int,
                ),
            f <= n,
            first_crowded(faces@, 3 * f as int) is None,
            adj@.len() == f,
            forall|g: int| 0 <= g < f ==> (#[trigger] adj@[g])@ == adjacent_row(faces@, g),
        decreases n - f,
    {
        let mut row: Vec<usize> = Vec::new();
        let mut s: usize = 0;
        while s < 3
            invariant
                n == faces@.len(),
                total == 3 * n,
                total <= isize::MAX,
                bad_corner(faces@, num_vertices as nat) is None,
                lists@.len() == num_vertices,
                forall|v: int|
                    0 <= v < num_vertices ==> (#[trigger] lists@[v])@ == slots_from(
                        faces@,
                        v as usize,
                        total as int,
                    ),
                f < n,
                s <= 3,
                first_crowded(faces@, 3 * f + s) is None,
                row@ == adjacent_sides(faces@, f as int, s as int),
            decreases 3 - s,
        {
            let k = 3 * f + s;
            let e = slot_edge_of(faces, k);
            proof {
                lemma_no_bad_corner(faces@, num_vertices as nat, f as int);
                assert(k / 3 == f);
            }
            let list = &lists[e.0];
            proof {
                lemma_slots_from(faces@, e, total as int);
            }
            let (count, other) = scan_edge(faces, list, e, k);
            assert(count == sharing(faces@, k as int));
            if count > 2 {
                proof {
                    assert(first_crowded(faces@, k + 1) == Some(k as int));
                    lemma_first_crowded_prefix(faces@, k + 1, total as int);
                }
                let mut m = String::new();
                m.append("Non-manifold edge (");
                push_dec(&mut m, e.0);
                m.append(", ");
                push_dec(&mut m, e.1);
                m.append("): shared by ");
                push_dec(&mut m, count);
                m.append(" faces");
                assert(m@ =~= crowded_text(e, count as nat));
                return Err(m);
            }
            if count == 2 {
                proof {
                    let (a, b) = lemma_two_slots(faces@, e, total as int);
                    let j = if a != k {
                        a
                    } else {
                        b
                    };
                    assert(slot_edge(faces@, j).0 == e.0);
                    assert(list@.contains(j as usize));
                    let i = choose|i: int| 0 <= i < list@.len() && list@[i] == j as usize;
                    assert(list@[i] != k && slot_edge(faces@, list@[i] as int) == e);
                    let p = partner(faces@, k as int);
                    assert(0 <= p < total && p != k && slot_edge(faces@, p) == e);
                    if p != other {
                        lemma_three_distinct(faces@, e, k as int, p, other as int, total as int);
                    }
                }
                row.push(other / 3);
            }
            proof {
                assert(row@ =~= adjacent_sides(faces@, f as int, s + 1));
            }
            s = s + 1;
        }
        adj.push(row);
        proof {
            assert forall|g: int| 0 <= g < f + 1 implies (#[trigger] adj@[g])@ == adjacent_row(faces@, g) by {
                if g < f {
                }
            }
        }
        f = f + 1;
    }
    assert(3 * f == total);
    Ok(adj)
}

/// The edge between vertices `a` and `b`, its smaller vertex first.
pub open spec fn edge_key(a: usize, b: usize) -> (usize, usize) {
    if a < b {
        (a, b)
    } else {
        (b, a)
    }
}

/// The edges at which a face is split, in the order the split meets them:
/// corners 0-1, 1-2, then 2-0.
pub open spec fn face_splits(f: [usize; 3]) -> Seq<(usize, usize)> {
    seq![edge_key(f[0], f[1]), edge_key(f[1], f[2]), edge_key(f[2], f[0])]
}

/// The edges at which the faces are split, face after face.
pub open spec fn split_sequence(faces: Seq<[usize; 3]>) -> Seq<(usize, usize)>
    decreases faces.len(),
{
    if faces.len() == 0 {
        Seq::empty()
    } else {
        split_sequence(faces.drop_last()) + face_splits(faces.last())
    }
}

/// The distinct edges of `es`, in the order they first occur.
pub open spec fn distinct_edges(es: Seq<(usize, usize)>) -> Seq<(usize, usize)>
    decreases es.len(),
{
    if es.len() == 0 {
        Seq::empty()
    } else {
        let d = distinct_edges(es.drop_last());
        if d.contains(es.last()) {
            d
        } else {
            d.push(es.last())
        }
    }
}

/// The edge list `d` with `e` added at its end, unless `d` has it.
pub open spec fn edge_step(d: Seq<(usize, usize)>, e: (usize, usize)) -> Seq<(usize, usize)> {
    if d.contains(e) {
        d
    } else {
        d.push(e)
    }
}

/// Where the edge `e` stands in the edge list `d`.
pub open spec fn position(d: Seq<(usize, usize)>, e: (usize, usize)) -> int {
    choose|k: int| 0 <= k < d.len() && d[k] == e
}

/// The new vertex on edge `e` of a split: the mesh's `n` vertices come
/// first, then one per split edge, in the order of `d`.
pub open spec fn midpoint(d: Seq<(usize, usize)>, n: nat, e: (usize, usize)) -> usize {
    (n + position(d, e)) as usize
}

/// Face `k` of the split of `faces` (a mesh of `n` vertices) whose split
/// edges are `d`: face `k / 4` becomes the triangles at its corners 0, 1
/// and 2, then the middle triangle.
pub open spec fn split_entry(faces: Seq<[usize; 3]>, n: nat, d: Seq<(usize, usize)>, k: int) -> [usize; 3] {
    let f = faces[k / 4];
    let m01 = midpoint(d, n, edge_key(f[0], f[1]));
    let m12 = midpoint(d, n, edge_key(f[1], f[2]));
    let m20 = midpoint(d, n, edge_key(f[2], f[0]));
    if k % 4 == 0 {
        [f[0], m01, m20]
    } else if k % 4 == 1 {
        [f[1], m12, m01]
    } else if k % 4 == 2 {
        [f[2], m20, m12]
    } else {
        [m01, m12, m20]
    }
}

/// The faces of a split of `faces`, on a mesh of `n` vertices: each face
/// becomes four, a triangle at each of its corners and the middle triangle.
pub open spec fn split_faces(faces: Seq<[usize; 3]>, n: nat) -> Seq<[usize; 3]> {
    Seq::new(
        4 * faces.len(),
        |k: int| split_entry(faces, n, distinct_edges(split_sequence(faces)), k),
    )
}

proof fn lemma_distinct_edges_no_dups(es: Seq<(usize, usize)>)
    ensures
        distinct_edges(es).no_duplicates(),
        forall|e: (usize, usize)| #[trigger] distinct_edges(es).contains(e) <==> es.contains(e),
    decreases es.len(),
{
    if es.len() > 0 {
        lemma_distinct_edges_no_dups(es.drop_last());
        let d = distinct_edges(es.drop_last());
        assert forall|e: (usize, usize)| #[trigger] distinct_edges(es).contains(e) <==> es.contains(e) by {
            if es.contains(e) {
                let i = choose|i: int| 0 <= i < es.len() && es[i] == e;
                if i < es.len() - 1 {
                    assert(es.drop_last()[i] == e);
                }
            }
            if es.drop_last().contains(e) {
                let i = choose|i: int| 0 <= i < es.drop_last().len() && es.drop_last()[i] == e;
                assert(es[i] == e);
            }
            if !d.contains(es.last()) {
                if d.push(es.last()).contains(e) {
                    let i = choose|i: int| 0 <= i < d.push(es.last()).len() && d.push(es.last())[i] == e;
                    if i < d.len() {
                        assert(d[i] == e);
                    }
                }
                if d.contains(e) {
                    let i = choose|i: int| 0 <= i < d.len() && d[i] == e;
                    assert(d.push(es.last())[i] == e);
                }
                assert(d.push(es.last())[d.len() as int] == es.last());
            }
            assert(es[es.len() - 1] == es.last());
        }
    }
}

proof fn lemma_position_in_prefix(d: Seq<(usize, usize)>, d2: Seq<(usize, usize)>, e: (usize, usize))
    requires
        d2.no_duplicates(),
        d.len() <= d2.len(),
        d2.take(d.len() as int) == d,
        d.contains(e),
    ensures
        position(d2, e) == position(d, e),
        0 <= position(d, e) < d.len(),
        d[position(d, e)] == e,
{
    let k = position(d, e);
    assert(d2[k] == e);
    let k2 = position(d2, e);
    assert(d2[k2] == e);
}

proof fn lemma_distinct_edges_prefix(es: Seq<(usize, usize)>, j: int)
    requires
        0 <= j <= es.len(),
    ensures
        distinct_edges(es.take(j)).len() <= distinct_edges(es).len(),
        distinct_edges(es).take(distinct_edges(es.take(j)).len() as int) == distinct_edges(es.take(j)),
    decreases es.len() - j,
{
    if j == es.len() {
        assert(es.take(j) =~= es);
        assert(distinct_edges(es).take(distinct_edges(es).len() as int) =~= distinct_edges(es));
    } else {
        lemma_distinct_edges_prefix(es, j + 1);
        let a = distinct_edges(es.take(j));
        let b = distinct_edges(es.take(j + 1));
        assert(es.take(j + 1).drop_last() =~= es.take(j));
        let c = distinct_edges(es);
        assert(c.take(a.len() as int) =~= b.take(a.len() as int));
        assert(b.take(a.len() as int) =~= a);
    }
}

/// The per-vertex index of the split edges `d`: `at[v]` lists the positions
/// in `d` of the edges whose smaller vertex is `v`.
pub open spec fn edge_index(d: Seq<(usize, usize)>, at: Seq<Seq<usize>>, nv: nat) -> bool {
    &&& at.len() == nv
    &&& forall|v: int, j: int|
        0 <= v < nv && 0 <= j < at[v].len() ==> #[trigger] at[v][j] < d.len() && d[at[v][j] as int].0
            == v
    &&& forall|k: int| 0 <= k < d.len() ==> (#[trigger] d[k]).0 < nv && at[d[k].0 as int].contains(k as usize)
}

/// The index of the new vertex on edge `e`, added to the split edges `d` if
/// it is not among them yet.
fn midpoint_index(
    d: &mut Vec<(usize, usize)>,
    at: &mut Vec<Vec<usize>>,
    e: (usize, usize),
    n: usize,
    Ghost(nv): Ghost<nat>,
) -> (m: usize)
    requires
        e.0 < nv,
        old(d)@.no_duplicates(),
        edge_index(old(d)@, deep_rows(old(at)@), nv),
        n + old(d)@.len() + 1 <= usize::MAX,
        old(d)@.len() + 1 <= usize::MAX,
    ensures
        final(d)@ == edge_step(old(d)@, e),
        final(d)@.no_duplicates(),
        edge_index(final(d)@, deep_rows(final(at)@), nv),
        final(d)@.contains(e),
        m == n + position(final(d)@, e),
{
    let row = &at[e.0];
    let mut j: usize = 0;
    while j < row.len()
        invariant
            e.0 < nv,
            d@ == old(d)@,
            at@ == old(at)@,
            d@.no_duplicates(),
            n + d@.len() + 1 <= usize::MAX,
            edge_index(d@, deep_rows(at@), nv),
            row@ == at@[e.0 as int]@,
            j <= row@.len(),
            forall|i: int| 0 <= i < j ==> d@[row@[i] as int] != e,
        decreases row@.len() - j,
    {
        let k = row[j];
        assert(deep_rows(at@)[e.0 as int][j as int] == k);
        let dk = d[k];
        if dk.0 == e.0 && dk.1 == e.1 {
            proof {
                assert(d@.contains(e));
                assert(d@.take(d@.len() as int) =~= d@);
                lemma_position_in_prefix(d@, d@, e);
                let p = position(d@, e);
                assert(d@[p] == e && d@[k as int] == e);
            }
            return n + k;
        }
        j += 1;
    }
    proof {
        if d@.contains(e) {
            let k = choose|k: int| 0 <= k < d@.len() && d@[k] == e;
            assert(d@[k].0 < nv && deep_rows(at@)[d@[k].0 as int].contains(k as usize));
            let i = choose|i: int| 0 <= i < row@.len() && row@[i] == k as usize;
            assert(false);
        }
    }
    let k = d.len();
    let ghost d0 = d@;
    let ghost at0 = deep_rows(at@);
    d.push(e);
    let mut r: Vec<usize> = Vec::new();
    at.set_and_swap(e.0, &mut r);
    r.push(k);
    at.set(e.0, r);
    proof {
        assert(d@[k as int] == e);
        assert(d@.contains(e));
        let p = position(d@, e);
        assert(d@[p] == e);
        if p != k {
            assert(d0[p] == e);
            assert(d0.contains(e));
        }
        assert forall|v: int, j: int|
            0 <= v < nv && 0 <= j < deep_rows(at@)[v].len() implies #[trigger] deep_rows(at@)[v][j]
            < d@.len() && d@[deep_rows(at@)[v][j] as int].0 == v by {
            if v == e.0 as int {
                assert(deep_rows(at@)[v] =~= at0[v].push(k));
                if j < at0[v].len() {
                    assert(deep_rows(at@)[v][j] == at0[v][j]);
                }
            } else {
                assert(deep_rows(at@)[v] == at0[v]);
            }
        }
        assert forall|q: int| 0 <= q < d@.len() implies (#[trigger] d@[q]).0 < nv && deep_rows(
            at@,
        )[d@[q].0 as int].contains(q as usize) by {
            let v = d@[q].0 as int;
            if v == e.0 as int {
                assert(deep_rows(at@)[v] =~= at0[v].push(k));
                if q < k {
                    assert(d0[q] == d@[q]);
                    let i = choose|i: int| 0 <= i < at0[v].len() && at0[v][i] == q as usize;
                    assert(deep_rows(at@)[v][i] == q as usize);
                } else {
                    assert(deep_rows(at@)[v][at0[v].len() as int] == k);
                }
            } else {
                assert(deep_rows(at@)[v] == at0[v]);
                assert(d0[q] == d@[q]);
            }
        }
    }
    n + k
}

/// The rows of a table of vectors, as sequences.
pub open spec fn deep_rows(at: Seq<Vec<usize>>) -> Seq<Seq<usize>> {
    at.map_values(|r: Vec<usize>| r@)
}

proof fn lemma_split_sequence_take(faces: Seq<[usize; 3]>, j: int)
    requires
        0 <= j <= faces.len(),
    ensures
        split_sequence(faces).len() == 3 * faces.len(),
        split_sequence(faces.take(j)) == split_sequence(faces).take(3 * j),
    decreases faces.len(),
{
    if faces.len() == 0 {
        assert(faces.take(j) =~= faces);
        assert(split_sequence(faces).take(0) =~= Seq::<(usize, usize)>::empty());
    } else if j == faces.len() {
        lemma_split_sequence_take(faces.drop_last(), 0);
        assert(faces.take(j) =~= faces);
        assert(split_sequence(faces).take(3 * j) =~= split_sequence(faces));
    } else {
        lemma_split_sequence_take(faces.drop_last(), j);
        assert(faces.drop_last().take(j) =~= faces.take(j));
        assert(split_sequence(faces).take(3 * j) =~= split_sequence(faces.drop_last()).take(3 * j));
    }
}

proof fn lemma_face_split(
    faces: Seq<[usize; 3]>,
    i: int,
    d0: Seq<(usize, usize)>,
    d1: Seq<(usize, usize)>,
    d2: Seq<(usize, usize)>,
    d3: Seq<(usize, usize)>,
)
    requires
        0 <= i < faces.len(),
        d0 == distinct_edges(split_sequence(faces.take(i))),
        d1 == edge_step(d0, edge_key(faces[i][0], faces[i][1])),
        d2 == edge_step(d1, edge_key(faces[i][1], faces[i][2])),
        d3 == edge_step(d2, edge_key(faces[i][2], faces[i][0])),
    ensures
        d3 == distinct_edges(split_sequence(faces.take(i + 1))),
        position(distinct_edges(split_sequence(faces)), edge_key(faces[i][0], faces[i][1]))
            == position(d1, edge_key(faces[i][0], faces[i][1])),
        position(distinct_edges(split_sequence(faces)), edge_key(faces[i][1], faces[i][2]))
            == position(d2, edge_key(faces[i][1], faces[i][2])),
        position(distinct_edges(split_sequence(faces)), edge_key(faces[i][2], faces[i][0]))
            == position(d3, edge_key(faces[i][2], faces[i][0])),
{
    let f = faces[i];
    let e01 = edge_key(f[0], f[1]);
    let e12 = edge_key(f[1], f[2]);
    let e20 = edge_key(f[2], f[0]);
    let big = distinct_edges(split_sequence(faces));
    let es = split_sequence(faces.take(i));
    let es1 = split_sequence(faces.take(i + 1));
    assert(faces.take(i + 1).drop_last() =~= faces.take(i));
    assert(faces.take(i + 1).last() == f);
    assert(es1 =~= es.push(e01).push(e12).push(e20));
    assert(es.push(e01).push(e12).push(e20).drop_last() =~= es.push(e01).push(e12));
    assert(es.push(e01).push(e12).drop_last() =~= es.push(e01));
    assert(es.push(e01).drop_last() =~= es);
    assert(d1 == distinct_edges(es.push(e01)));
    assert(d2 == distinct_edges(es.push(e01).push(e12)));
    assert(d3 == distinct_edges(es1));
    lemma_distinct_edges_no_dups(split_sequence(faces));
    lemma_split_sequence_take(faces, i + 1);
    lemma_distinct_edges_prefix(split_sequence(faces), 3 * (i + 1));
    assert(big.take(d3.len() as int) == d3);
    assert(d3.take(d1.len() as int) =~= d1);
    assert(d3.take(d2.len() as int) =~= d2);
    assert(big.take(d1.len() as int) =~= d1);
    assert(big.take(d2.len() as int) =~= d2);
    assert(d1.contains(e01)) by {
        if !d0.contains(e01) {
            assert(d1[d0.len() as int] == e01);
        }
    }
    assert(d2.contains(e12)) by {
        if !d1.contains(e12) {
            assert(d2[d1.len() as int] == e12);
        }
    }
    assert(d3.contains(e20)) by {
        if !d2.contains(e20) {
            assert(d3[d2.len() as int] == e20);
        }
    }
    lemma_position_in_prefix(d1, big, e01);
    lemma_position_in_prefix(d2, big, e12);
    lemma_position_in_prefix(d3, big, e20);
}

/// Split each face of `faces`, a mesh of `num_vertices` vertices, into
/// four at the midpoints of its edges. Returns the new faces and the split
/// edges: the new vertex on the `k`-th split edge is vertex
/// `num_vertices + k`, and an edge shared by two faces gets one vertex.
pub fn subdivide(faces: &[[usize; 3]], num_vertices: usize) -> (r: (Vec<[usize; 3]>, Vec<(usize, usize)>))
    requires
        bad_corner(faces@, num_vertices as nat) is None,
        num_vertices + 3 * faces@.len() + 1 <= usize::MAX,
        4 * faces@.len() <= isize::MAX,
    ensures
        r.1@ == distinct_edges(split_sequence(faces@)),
        r.0@ == split_faces(faces@, num_vertices as nat),
{
    let ghost nv = num_vertices as nat;
    let ghost big = distinct_edges(split_sequence(faces@));
    proof {
        lemma_distinct_edges_no_dups(split_sequence(faces@));
    }
    let mut at: Vec<Vec<usize>> = Vec::new();
    let mut v: usize = 0;
    while v < num_vertices
        invariant
            v <= num_vertices,
            at@.len() == v,
            forall|u: int| 0 <= u < v ==> (#[trigger] at@[u])@ == Seq::<usize>::empty(),
        decreases num_vertices - v,
    {
        at.push(Vec::new());
        v = v + 1;
    }
    let mut d: Vec<(usize, usize)> = Vec::new();
    let mut out: Vec<[usize; 3]> = Vec::new();
    proof {
        assert(faces@.take(0) =~= Seq::<[usize; 3]>::empty());
        assert(d@ =~= distinct_edges(split_sequence(faces@.take(0))));
        assert forall|u: int, j: int|
            0 <= u < nv && 0 <= j < deep_rows(at@)[u].len() implies #[trigger] deep_rows(at@)[u][j]
            < d@.len() && d@[deep_rows(at@)[u][j] as int].0 == u by {
            assert(deep_rows(at@)[u] == at@[u]@);
        }
    }
    let mut i: usize = 0;
    while i < faces.len()
        invariant
            nv == num_vertices,
            big == distinct_edges(split_sequence(faces@)),
            big.no_duplicates(),
            bad_corner(faces@, nv) is None,
            num_vertices + 3 * faces@.len() + 1 <= usize::MAX,
            4 * faces@.len() <= isize::MAX,
            i <= faces@.len(),
            d@ == distinct_edges(split_sequence(faces@.take(i as int))),
            d@.no_duplicates(),
            d@.len() <= 3 * i,
            edge_index(d@, deep_rows(at@), nv),
            out@.len() == 4 * i,
            forall|k: int| 0 <= k < 4 * i ==> #[trigger] out@[k] == split_entry(faces@, nv, big, k),
        decreases faces@.len() - i,
    {
        let f = faces[i];
        proof {
            lemma_no_bad_corner(faces@, nv, i as int);
            lemma_distinct_edges_no_dups(split_sequence(faces@.take(i as int)));
        }
        let ghost d0 = d@;
        let e01 = if f[0] < f[1] { (f[0], f[1]) } else { (f[1], f[0]) };
        let e12 = if f[1] < f[2] { (f[1], f[2]) } else { (f[2], f[1]) };
        let e20 = if f[2] < f[0] { (f[2], f[0]) } else { (f[0], f[2]) };
        let m01 = midpoint_index(&mut d, &mut at, e01, num_vertices, Ghost(nv));
        let ghost d1 = d@;
        let m12 = midpoint_index(&mut d, &mut at, e12, num_vertices, Ghost(nv));
        let ghost d2 = d@;
        let m20 = midpoint_index(&mut d, &mut at, e20, num_vertices, Ghost(nv));
        let ghost d3 = d@;
        proof {
            lemma_face_split(faces@, i as int, d0, d1, d2, d3);
        }
        out.push([f[0], m01, m20]);
        out.push([f[1], m12, m01]);
        out.push([f[2], m20, m12]);
        out.push([m01, m12, m20]);
        proof {
            assert forall|k: int| 0 <= k < 4 * (i + 1) implies #[trigger] out@[k] == split_entry(
                faces@,
                nv,
                big,
                k,
            ) by {
                if k >= 4 * i {
                    assert(k / 4 == i);
                }
            }
        }
        i = i + 1;
    }
    assert(faces@.take(i as int) =~= faces@);
    assert(out@ =~= split_faces(faces@, nv));
    (out, d)
}

/// The twenty faces of the icosahedron on its twelve vertices (the
/// vertices, in order, are the corners of its golden rectangles in the xy,
/// yz and zx planes).
pub open spec fn icosahedron() -> Seq<[usize; 3]> {
    seq![
        [0, 11, 5],
        [0, 5, 1],
        [0, 1, 7],
        [0, 7, 10],
        [0, 10, 11],
        [1, 5, 9],
        [5, 11, 4],
        [11, 10, 2],
        [10, 7, 6],
        [7, 1, 8],
        [3, 9, 4],
        [3, 4, 2],
        [3, 2, 6],
        [3, 6, 8],
        [3, 8, 9],
        [4, 9, 5],
        [2, 4, 11],
        [6, 2, 10],
        [8, 6, 7],
        [9, 8, 1],
    ]
}

/// The faces of the icosahedron.
pub fn icosahedron_faces() -> (faces: Vec<[usize; 3]>)
    ensures
        faces@ == icosahedron(),
{
    let faces = vec![
        [0, 11, 5],
        [0, 5, 1],
        [0, 1, 7],
        [0, 7, 10],
        [0, 10, 11],
        [1, 5, 9],
        [5, 11, 4],
        [11, 10, 2],
        [10, 7, 6],
        [7, 1, 8],
        [3, 9, 4],
        [3, 4, 2],
        [3, 2, 6],
        [3, 6, 8],
        [3, 8, 9],
        [4, 9, 5],
        [2, 4, 11],
        [6, 2, 10],
        [8, 6, 7],
        [9, 8, 1],
    ];
    assert(faces@ =~= icosahedron());
    faces
}

} // verus!
