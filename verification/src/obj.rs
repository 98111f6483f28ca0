//! The Wavefront OBJ text of a surface: vertex lines (`v x y z`) and face
//! lines (`f a b c ...`, polygons cut into a fan of triangles). The
//! coordinates are floating point and are read by the caller; here they are
//! the ranges of the text that hold them.
use crate::grid_arg::{int_error_str, int_error_text, parse_usize, read_usize, IntErrorKind};
use crate::text::{dec, push_dec};
use vstd::prelude::*;

verus! {

/// White space as Unicode defines it (the `White_Space` property), which
/// separates the words of a line.
pub open spec fn is_space(c: char) -> bool {
    let u = c as u32;
    (0x09 <= u <= 0x0D) || u == 0x20 || u == 0x85 || u == 0xA0 || u == 0x1680 || (0x2000 <= u
        <= 0x200A) || u == 0x2028 || u == 0x2029 || u == 0x202F || u == 0x205F || u == 0x3000
}

/// The words of `s`: its maximal runs of characters that are no white space.
pub open spec fn words(s: Seq<char>) -> Seq<Seq<char>>
    decreases s.len(),
{
    if s.len() == 0 {
        Seq::empty()
    } else {
        let w = words(s.drop_last());
        let c = s.last();
        if is_space(c) {
            w
        } else if s.len() >= 2 && !is_space(s[s.len() - 2]) {
            w.update(w.len() - 1, w.last().push(c))
        } else {
            w.push(seq![c])
        }
    }
}

/// The lines of `s`: the pieces between its `\n` characters (a text that
/// ends with `\n` ends with an empty piece).
pub open spec fn text_lines(s: Seq<char>) -> Seq<Seq<char>>
    decreases s.len(),
{
    if s.len() == 0 {
        seq![Seq::empty()]
    } else if s.last() == '\n' {
        text_lines(s.drop_last()).push(Seq::empty())
    } else {
        let p = text_lines(s.drop_last());
        p.update(p.len() - 1, p.last().push(s.last()))
    }
}

/// Whether `c` is the one character of the word `w`.
pub open spec fn is_word(w: Seq<char>, c: char) -> bool {
    w.len() == 1 && w[0] == c
}

proof fn lemma_words_last(s: Seq<char>)
    requires
        s.len() > 0,
        !is_space(s.last()),
    ensures
        words(s).len() > 0,
        words(s).last().last() == s.last(),
    decreases s.len(),
{
    if s.len() >= 2 && !is_space(s[s.len() - 2]) {
        assert(s.drop_last().last() == s[s.len() - 2]);
        lemma_words_last(s.drop_last());
    }
}

/// Whether `c` is white space.
fn space(c: char) -> (r: bool)
    ensures
        r == is_space(c),
{
    let u = c as u32;
    (0x09 <= u && u <= 0x0D) || u == 0x20 || u == 0x85 || u == 0xA0 || u == 0x1680 || (0x2000
        <= u && u <= 0x200A) || u == 0x2028 || u == 0x2029 || u == 0x202F || u == 0x205F || u
        == 0x3000
}

/// The ranges `ranges` of `text` hold the words `ws`.
pub open spec fn holds_words(text: Seq<char>, ranges: Seq<(usize, usize)>, ws: Seq<Seq<char>>) -> bool {
    &&& ranges.len() == ws.len()
    &&& forall|k: int|
        0 <= k < ranges.len() ==> {
            &&& (#[trigger] ranges[k]).0 <= ranges[k].1 <= text.len()
            &&& text.subrange(ranges[k].0 as int, ranges[k].1 as int) == ws[k]
        }
}

/// The words of the line `text[start..end]`, as ranges of `text`.
fn line_words(text: &[char], start: usize, end: usize) -> (r: Vec<(usize, usize)>)
    requires
        start <= end <= text@.len(),
    ensures
        holds_words(text@, r@, words(text@.subrange(start as int, end as int))),
{
    let ghost line = text@.subrange(start as int, end as int);
    let mut r: Vec<(usize, usize)> = Vec::new();
    let mut i: usize = start;
    while i < end
        invariant
            start <= i <= end <= text@.len(),
            line == text@.subrange(start as int, end as int),
            holds_words(text@, r@, words(line.take(i - start))),
            i > start && !is_space(text@[i - 1]) ==> r@.len() > 0 && r@.last().1 == i,
        decreases end - i,
    {
        let ghost pre = line.take(i - start);
        let ghost next = line.take(i + 1 - start);
        assert(next.drop_last() =~= pre);
        assert(next.last() == text@[i as int]);
        let c = text[i];
        if space(c) {
        } else if i > start && !space(text[i - 1]) {
            assert(next[next.len() - 2] == text@[i - 1]);
            let k = r.len() - 1;
            let (a, b) = r[k];
            proof {
                lemma_words_last(pre);
                assert(text@.subrange(a as int, i + 1) =~= text@.subrange(a as int, i as int).push(
                    c,
                ));
            }
            r.set(k, (a, i + 1));
            proof {
                assert forall|j: int| 0 <= j < r@.len() implies {
                    &&& (#[trigger] r@[j]).0 <= r@[j].1 <= text@.len()
                    &&& text@.subrange(r@[j].0 as int, r@[j].1 as int) == words(next)[j]
                } by {
                    if j < k {
                    }
                }
            }
        } else {
            if i > start {
                assert(next[next.len() - 2] == text@[i - 1]);
            }
            r.push((i, i + 1));
            proof {
                assert(text@.subrange(i as int, i + 1) =~= seq![c]);
                assert forall|j: int| 0 <= j < r@.len() implies {
                    &&& (#[trigger] r@[j]).0 <= r@[j].1 <= text@.len()
                    &&& text@.subrange(r@[j].0 as int, r@[j].1 as int) == words(next)[j]
                } by {
                    if j < r@.len() - 1 {
                    }
                }
            }
        }
        i += 1;
    }
    assert(line.take(end - start) =~= line);
    r
}

/// How many characters of `t` come before its first `/` (all of them if it
/// has none).
pub open spec fn slash_index(t: Seq<char>) -> int
    decreases t.len(),
{
    if t.len() == 0 || t[0] == '/' {
        0
    } else {
        1 + slash_index(t.drop_first())
    }
}

/// The bytes of `t` as std's integer parse tells them apart: an ASCII
/// character is its own byte; any other character begins with a byte that
/// is no digit and no sign, written here as `0xFF`.
pub open spec fn ascii_bytes(t: Seq<char>) -> Seq<u8> {
    Seq::new(t.len(), |k: int| if (t[k] as u32) < 0x80 { (t[k] as u32) as u8 } else { 0xFFu8 })
}

/// The vertex of a face corner `v`, `v/vt`, `v/vt/vn` or `v//vn`: the
/// decimal before the first `/`, less one (OBJ counts vertices from 1;
/// a vertex 0 wraps around to `usize::MAX`, which no mesh has).
pub open spec fn face_index(t: Seq<char>) -> Result<usize, IntErrorKind> {
    match parse_usize(ascii_bytes(t.take(slash_index(t)))) {
        Ok(v) => Ok(
            if v == 0 {
                usize::MAX
            } else {
                (v - 1) as usize
            },
        ),
        Err(e) => Err(e),
    }
}

/// The vertices of the face corners `ws`, or the error of the first corner
/// that names none.
pub open spec fn face_indices(ws: Seq<Seq<char>>) -> Result<Seq<usize>, IntErrorKind>
    decreases ws.len(),
{
    if ws.len() == 0 {
        Ok(Seq::empty())
    } else {
        match face_indices(ws.drop_last()) {
            Err(e) => Err(e),
            Ok(ix) => match face_index(ws.last()) {
                Err(e) => Err(e),
                Ok(i) => Ok(ix.push(i)),
            },
        }
    }
}

/// The triangles of the polygon `ix`, a fan around its first vertex.
pub open spec fn fan(ix: Seq<usize>) -> Seq<[usize; 3]> {
    Seq::new((ix.len() - 2) as nat, |k: int| [ix[0], ix[k + 1], ix[k + 2]])
}

/// Why the text of a surface was refused (lines counted from 1).
#[derive(Clone, Copy, Debug, PartialEq, Eq, Structural)]
pub enum ObjError {
    /// A face corner that names no vertex.
    FaceIndex { line: usize, kind: IntErrorKind },
    /// A face with fewer than three corners.
    ShortFace { line: usize },
    /// A vertex with fewer than three coordinates.
    ShortVertex { line: usize },
    /// The text holds no face.
    NoFaces,
}

/// What the lines read so far give: the vertex lines (line number and at
/// most three coordinate words), the triangles, and the first error.
pub type ObjState = (Seq<(nat, Seq<Seq<char>>)>, Seq<[usize; 3]>, Option<ObjError>);

/// Read line number `n`, `line`, after `st`. Nothing is read after an
/// error; blank lines, comments (`#`) and lines of other kinds are passed
/// over.
pub open spec fn obj_step(st: ObjState, line: Seq<char>, n: nat) -> ObjState {
    let (vs, fs, err) = st;
    let ws = words(line);
    if err is Some || ws.len() == 0 || (ws[0].len() > 0 && ws[0][0] == '#') {
        st
    } else if is_word(ws[0], 'v') {
        let coords = ws.subrange(1, if ws.len() < 4 { ws.len() as int } else { 4 });
        (
            vs.push((n, coords)),
            fs,
            if coords.len() < 3 {
                Some(ObjError::ShortVertex { line: n as usize })
            } else {
                None
            },
        )
    } else if is_word(ws[0], 'f') {
        match face_indices(ws.drop_first()) {
            Err(kind) => (vs, fs, Some(ObjError::FaceIndex { line: n as usize, kind })),
            Ok(ix) => if ix.len() < 3 {
                (vs, fs, Some(ObjError::ShortFace { line: n as usize }))
            } else {
                (vs, fs + fan(ix), None)
            },
        }
    } else {
        st
    }
}

/// What the lines `ls` give, read in order.
pub open spec fn obj_fold(ls: Seq<Seq<char>>) -> ObjState
    decreases ls.len(),
{
    if ls.len() == 0 {
        (Seq::empty(), Seq::empty(), None)
    } else {
        obj_step(obj_fold(ls.drop_last()), ls.last(), ls.len())
    }
}

/// What the text `s` of a surface gives: its vertex lines, its triangles,
/// and why it is refused, if it is (a text without faces is refused).
pub open spec fn obj_text(s: Seq<char>) -> ObjState {
    let (vs, fs, err) = obj_fold(text_lines(s));
    (
        vs,
        fs,
        if err is None && fs.len() == 0 {
            Some(ObjError::NoFaces)
        } else {
            err
        },
    )
}

/// A vertex line of the text: its number and the ranges of the text that
/// hold its coordinates.
pub struct VertexLine {
    pub line: usize,
    pub coords: Vec<(usize, usize)>,
}

/// The vertex lines `vls` of `text` are the vertex lines `vs`.
pub open spec fn vertex_lines_are(
    text: Seq<char>,
    vls: Seq<VertexLine>,
    vs: Seq<(nat, Seq<Seq<char>>)>,
) -> bool {
    &&& vls.len() == vs.len()
    &&& forall|k: int|
        0 <= k < vls.len() ==> (#[trigger] vls[k]).line == vs[k].0 && holds_words(
            text,
            vls[k].coords@,
            vs[k].1,
        )
}

/// The vertex of the face corner `text[start..end]`.
fn read_face_index(text: &[char], start: usize, end: usize) -> (r: Result<usize, IntErrorKind>)
    requires
        start <= end <= text@.len(),
    ensures
        r == face_index(text@.subrange(start as int, end as int)),
{
    let ghost t = text@.subrange(start as int, end as int);
    let mut p = start;
    while p < end && text[p] != '/'
        invariant
            start <= p <= end <= text@.len(),
            t == text@.subrange(start as int, end as int),
            slash_index(t) == (p - start) + slash_index(text@.subrange(p as int, end as int)),
        decreases end - p,
    {
        let ghost rest = text@.subrange(p as int, end as int);
        assert(rest.drop_first() =~= text@.subrange(p + 1, end as int));
        p += 1;
    }
    proof {
        let rest = text@.subrange(p as int, end as int);
        if p < end {
            assert(rest[0] == '/');
        }
        assert(slash_index(rest) == 0);
    }
    let mut b: Vec<u8> = Vec::new();
    let mut i = start;
    while i < p
        invariant
            start <= i <= p <= end <= text@.len(),
            t == text@.subrange(start as int, end as int),
            b@ == ascii_bytes(t.take(i - start)),
        decreases p - i,
    {
        let u = text[i] as u32;
        let byte: u8 = if u < 0x80 {
            u as u8
        } else {
            0xFF
        };
        b.push(byte);
        proof {
            assert(t[i - start] == text@[i as int]);
            assert(b@ =~= ascii_bytes(t.take(i + 1 - start)));
        }
        i += 1;
    }
    let n = b.len();
    assert(b@.subrange(0, n as int) =~= b@);
    match read_usize(&b, 0, n) {
        Ok(v) => Ok(
            if v == 0 {
                usize::MAX
            } else {
                v - 1
            },
        ),
        Err(e) => Err(e),
    }
}

proof fn lemma_face_indices_err(ws: Seq<Seq<char>>, j: int)
    requires
        0 <= j <= ws.len(),
        face_indices(ws.take(j)) is Err,
    ensures
        face_indices(ws) == face_indices(ws.take(j)),
    decreases ws.len(),
{
    if j == ws.len() {
        assert(ws.take(j) =~= ws);
    } else {
        assert(ws.drop_last().take(j) =~= ws.take(j));
        lemma_face_indices_err(ws.drop_last(), j);
    }
}

/// Read line number `n`, `text[start..end]`, onto the vertex lines, the
/// triangles and the error read so far.
fn obj_line(
    text: &[char],
    start: usize,
    end: usize,
    n: usize,
    vertices: &mut Vec<VertexLine>,
    faces: &mut Vec<[usize; 3]>,
    error: &mut Option<ObjError>,
    Ghost(vs): Ghost<Seq<(nat, Seq<Seq<char>>)>>,
)
    requires
        start <= end <= text@.len(),
        vertex_lines_are(text@, old(vertices)@, vs),
    ensures
        ({
            let st = obj_step(
                (vs, old(faces)@, *old(error)),
                text@.subrange(start as int, end as int),
                n as nat,
            );
            &&& vertex_lines_are(text@, final(vertices)@, st.0)
            &&& final(faces)@ == st.1
            &&& *final(error) == st.2
        }),
{
    if error.is_some() {
        return;
    }
    let ghost line = text@.subrange(start as int, end as int);
    let ghost wl = words(line);
    let ws = line_words(text, start, end);
    if ws.len() == 0 {
        return;
    }
    let (a0, b0) = ws[0];
    assert(text@.subrange(a0 as int, b0 as int) == wl[0]);
    if a0 < b0 && text[a0] == '#' {
        assert(wl[0][0] == text@[a0 as int]);
        return;
    }
    assert(a0 < b0 ==> wl[0][0] == text@[a0 as int]);
    if b0 - a0 == 1 && text[a0] == 'v' {
        let m = if ws.len() < 4 {
            ws.len()
        } else {
            4
        };
        let ghost cw = wl.subrange(1, m as int);
        let mut coords: Vec<(usize, usize)> = Vec::new();
        let mut k: usize = 1;
        while k < m
            invariant
                1 <= k <= m <= ws@.len(),
                holds_words(text@, ws@, wl),
                cw == wl.subrange(1, m as int),
                holds_words(text@, coords@, cw.take(k - 1)),
            decreases m - k,
        {
            coords.push(ws[k]);
            proof {
                assert forall|j: int| 0 <= j < coords@.len() implies {
                    &&& (#[trigger] coords@[j]).0 <= coords@[j].1 <= text@.len()
                    &&& text@.subrange(coords@[j].0 as int, coords@[j].1 as int) == cw.take(k as int)[j]
                } by {
                    if j < k - 1 {
                        assert(cw.take(k - 1)[j] == cw.take(k as int)[j]);
                    }
                }
            }
            k += 1;
        }
        assert(cw.take(m - 1) =~= cw);
        let short = coords.len() < 3;
        vertices.push(VertexLine { line: n, coords });
        if short {
            *error = Some(ObjError::ShortVertex { line: n });
        }
        return;
    }
    if b0 - a0 == 1 && text[a0] == 'f' {
        assert(is_word(wl[0], 'f') && !is_word(wl[0], 'v'));
        let ghost corners = wl.drop_first();
        let mut ix: Vec<usize> = Vec::new();
        let mut bad: Option<IntErrorKind> = None;
        let mut k: usize = 1;
        while k < ws.len() && bad.is_none()
            invariant
                1 <= k <= ws@.len(),
                holds_words(text@, ws@, wl),
                corners == wl.drop_first(),
                bad is None ==> face_indices(corners.take(k - 1)) == Ok::<Seq<usize>, IntErrorKind>(
                    ix@,
                ),
                bad matches Some(e) ==> face_indices(corners) == Err::<Seq<usize>, IntErrorKind>(e),
            decreases ws@.len() - k,
        {
            let (a, b) = ws[k];
            let ghost pre = corners.take(k as int);
            assert(pre.drop_last() =~= corners.take(k - 1));
            assert(pre.last() == wl[k as int]);
            match read_face_index(text, a, b) {
                Ok(i) => {
                    ix.push(i);
                },
                Err(e) => {
                    proof {
                        assert(face_indices(pre) == Err::<Seq<usize>, IntErrorKind>(e));
                        lemma_face_indices_err(corners, k as int);
                    }
                    bad = Some(e);
                },
            }
            k += 1;
        }
        if let Some(e) = bad {
            *error = Some(ObjError::FaceIndex { line: n, kind: e });
            return;
        }
        assert(corners.take(ws@.len() - 1) =~= corners);
        assert(face_indices(corners) == Ok::<Seq<usize>, IntErrorKind>(ix@));
        if ix.len() < 3 {
            *error = Some(ObjError::ShortFace { line: n });
            return;
        }
        let ghost f0 = faces@;
        let mut j: usize = 0;
        while j < ix.len() - 2
            invariant
                ix@.len() >= 3,
                j <= ix@.len() - 2,
                faces@ == f0 + fan(ix@).take(j as int),
                vertices@ == old(vertices)@,
                *error == *old(error),
            decreases ix@.len() - 2 - j,
        {
            faces.push([ix[0], ix[j + 1], ix[j + 2]]);
            proof {
                assert(faces@ =~= f0 + fan(ix@).take(j + 1));
            }
            j += 1;
        }
        assert(fan(ix@).take(j as int) =~= fan(ix@));
        return;
    }
}

/// The text of a surface, read: its vertex lines, its triangles, and why it
/// is refused, if it is.
pub struct ObjText {
    pub vertices: Vec<VertexLine>,
    pub faces: Vec<[usize; 3]>,
    pub error: Option<ObjError>,
}

/// Read the text of a surface, given as its characters: the vertex lines
/// (the caller reads their coordinates), the triangles of the faces, and
/// the first error (a line with too few coordinates or corners, a corner
/// that names no vertex, or no face at all).
pub fn parse_obj(text: &[char]) -> (r: ObjText)
    requires
        text@.len() < usize::MAX,
    ensures
        vertex_lines_are(text@, r.vertices@, obj_text(text@).0),
        r.faces@ == obj_text(text@).1,
        r.error == obj_text(text@).2,
{
    let n = text.len();
    let mut vertices: Vec<VertexLine> = Vec::new();
    let mut faces: Vec<[usize; 3]> = Vec::new();
    let mut error: Option<ObjError> = None;
    let ghost mut done: Seq<Seq<char>> = Seq::empty();
    let mut start: usize = 0;
    let mut line: usize = 0;
    let mut i: usize = 0;
    assert(text@.take(0) =~= Seq::<char>::empty());
    assert(text@.subrange(0, 0) =~= Seq::<char>::empty());
    while i < n
        invariant
            n == text@.len(),
            n < usize::MAX,
            start <= i <= n,
            line == done.len(),
            line <= i,
            text_lines(text@.take(i as int)) == done.push(text@.subrange(start as int, i as int)),
            vertex_lines_are(text@, vertices@, obj_fold(done).0),
            faces@ == obj_fold(done).1,
            error == obj_fold(done).2,
        decreases n - i,
    {
        let ghost cur = text@.take(i + 1);
        assert(cur.drop_last() =~= text@.take(i as int));
        assert(cur.last() == text@[i as int]);
        if text[i] == '\n' {
            obj_line(text, start, i, line + 1, &mut vertices, &mut faces, &mut error, Ghost(obj_fold(done).0));
            proof {
                let piece = text@.subrange(start as int, i as int);
                assert(done.push(piece).drop_last() =~= done);
                done = done.push(piece);
                assert(text@.subrange(i + 1, i + 1) =~= Seq::<char>::empty());
            }
            line += 1;
            start = i + 1;
        } else {
            proof {
                assert(text@.subrange(start as int, i + 1) =~= text@.subrange(start as int, i as int).push(
                    text@[i as int],
                ));
            }
        }
        i += 1;
    }
    assert(text@.take(n as int) =~= text@);
    obj_line(text, start, n, line + 1, &mut vertices, &mut faces, &mut error, Ghost(obj_fold(done).0));
    proof {
        let piece = text@.subrange(start as int, n as int);
        assert(done.push(piece).drop_last() =~= done);
        done = done.push(piece);
    }
    if error.is_none() && faces.len() == 0 {
        error = Some(ObjError::NoFaces);
    }
    ObjText { vertices, faces, error }
}

/// The message for a surface text read from `path` and refused for `e`.
pub open spec fn obj_error_text(e: ObjError, path: Seq<char>) -> Seq<char> {
    match e {
        ObjError::FaceIndex { line, kind } => "Line "@ + dec(line as nat) + ": invalid face index: "@
            + int_error_text(kind),
        ObjError::ShortFace { line } => "Line "@ + dec(line as nat)
            + ": face needs at least 3 vertices"@,
        ObjError::ShortVertex { line } => "Line "@ + dec(line as nat)
            + ": vertex needs 3 coordinates"@,
        ObjError::NoFaces => "OBJ file '"@ + path + "' contains no faces"@,
    }
}

impl ObjError {
    /// The message for a surface text read from `path` and refused.
    pub fn message(&self, path: &str) -> (m: String)
        ensures
            m@ == obj_error_text(*self, path@),
    {
        let mut m = String::new();
        match self {
            ObjError::FaceIndex { line, kind } => {
                m.append("Line ");
                push_dec(&mut m, *line);
                m.append(": invalid face index: ");
                m.append(int_error_str(*kind));
            },
            ObjError::ShortFace { line } => {
                m.append("Line ");
                push_dec(&mut m, *line);
                m.append(": face needs at least 3 vertices");
            },
            ObjError::ShortVertex { line } => {
                m.append("Line ");
                push_dec(&mut m, *line);
                m.append(": vertex needs 3 coordinates");
            },
            ObjError::NoFaces => {
                m.append("OBJ file '");
                m.append(path);
                m.append("' contains no faces");
            },
        }
        assert(m@ =~= obj_error_text(*self, path@));
        m
    }
}

} // verus!
