use vstd::prelude::*;

use std::collections::{BTreeMap, BTreeSet};

use crate::face::Face;
use crate::remap::{copied_bytes, copy_matches, lemma_copy_lands, lemma_room, push_copy};
use crate::vertex_buffer::VertexBuffer;

verus! {

broadcast use vstd::laws_cmp::group_laws_cmp;

/// A remap by vertices in progress: the copy each old vertex was last given, the old vertices
/// copied so far in order, and the faces made so far.
pub type RemapProgress = (Map<u32, u32>, Seq<u32>, Seq<Face>);

/// The progress of a remap that has not started.
pub open spec fn no_progress() -> RemapProgress {
    (Map::empty(), Seq::empty(), Seq::empty())
}

/// Copies one more old vertex: it lands after `base` and the copies made so far.
pub open spec fn copy_vertex(st: RemapProgress, base: int, index: u32) -> RemapProgress {
    (st.0.insert(index, (base + st.1.len()) as u32), st.1.push(index), st.2)
}

/// Copies the old vertices `start`, `start + 1`, ..., `start + count - 1`, each index taken as a
/// 32 bit integer.
pub open spec fn copy_range(st: RemapProgress, base: int, start: int, count: nat) -> RemapProgress
    decreases count,
{
    if count == 0 {
        st
    } else {
        copy_vertex(
            copy_range(st, base, start, (count - 1) as nat),
            base,
            (start + count - 1) as u32,
        )
    }
}

/// Copies the vertices of each `(start, length)` range, range after range.
pub open spec fn copy_ranges(st: RemapProgress, base: int, ranges: Seq<(usize, usize)>) -> RemapProgress
    decreases ranges.len(),
{
    if ranges.len() == 0 {
        st
    } else {
        let r = ranges.last();
        copy_range(copy_ranges(st, base, ranges.drop_last()), base, r.0 as int, r.1 as nat)
    }
}

/// Visits one old face. A face none of whose vertices has a copy yet is left out. Otherwise each
/// vertex without a copy when the face was reached is copied, in the order of the corners, and the
/// face is added with its indices pointing at the copies.
pub open spec fn visit_face(st: RemapProgress, base: int, face: Face) -> RemapProgress {
    let m = st.0;
    if !m.contains_key(face.i1) && !m.contains_key(face.i2) && !m.contains_key(face.i3) {
        st
    } else {
        let s1 = if m.contains_key(face.i1) {
            st
        } else {
            copy_vertex(st, base, face.i1)
        };
        let s2 = if m.contains_key(face.i2) {
            s1
        } else {
            copy_vertex(s1, base, face.i2)
        };
        let s3 = if m.contains_key(face.i3) {
            s2
        } else {
            copy_vertex(s2, base, face.i3)
        };
        let n1 = if m.contains_key(face.i1) {
            m[face.i1]
        } else {
            (base + st.1.len()) as u32
        };
        let n2 = if m.contains_key(face.i2) {
            m[face.i2]
        } else {
            (base + s1.1.len()) as u32
        };
        let n3 = if m.contains_key(face.i3) {
            m[face.i3]
        } else {
            (base + s2.1.len()) as u32
        };
        (s3.0, s3.1, s3.2.push(Face { i1: n1, i2: n2, i3: n3 }))
    }
}

/// Visits the old faces in order.
pub open spec fn visit_faces(st: RemapProgress, base: int, faces: Seq<Face>) -> RemapProgress
    decreases faces.len(),
{
    if faces.len() == 0 {
        st
    } else {
        visit_face(visit_faces(st, base, faces.drop_last()), base, faces.last())
    }
}

/// A whole remap by vertices onto a buffer of `base` vertices: the vertices of the ranges are
/// copied first, then every face that uses a copied vertex is copied with its other vertices.
pub open spec fn vertex_remap(faces: Seq<Face>, ranges: Seq<(usize, usize)>, base: int) -> RemapProgress {
    visit_faces(copy_ranges(no_progress(), base, ranges), base, faces)
}

proof fn lemma_prefix_trans(a: Seq<u32>, b: Seq<u32>, c: Seq<u32>)
    requires
        a.is_prefix_of(b),
        b.is_prefix_of(c),
    ensures
        a.is_prefix_of(c),
{
    assert(a =~= c.subrange(0, a.len() as int)) by {
        assert forall|i: int| 0 <= i < a.len() implies a[i] == c[i] by {
            assert(a[i] == b[i]);
            assert(b[i] == c[i]);
        }
    }
}

proof fn lemma_copy_vertex_extends(st: RemapProgress, base: int, index: u32)
    ensures
        st.1.is_prefix_of(copy_vertex(st, base, index).1),
{
    assert(st.1 =~= st.1.push(index).subrange(0, st.1.len() as int));
}

proof fn lemma_copy_range_prefix(st: RemapProgress, base: int, start: int, m: nat, count: nat)
    requires
        m <= count,
    ensures
        copy_range(st, base, start, m).1.is_prefix_of(copy_range(st, base, start, count).1),
        st.1.is_prefix_of(copy_range(st, base, start, count).1),
    decreases count,
{
    if count == 0 {
        assert(st.1 =~= st.1.subrange(0, st.1.len() as int));
    } else {
        let prev = copy_range(st, base, start, (count - 1) as nat);
        lemma_copy_vertex_extends(prev, base, (start + count - 1) as u32);
        if m < count {
            lemma_copy_range_prefix(st, base, start, m, (count - 1) as nat);
            lemma_prefix_trans(copy_range(st, base, start, m).1, prev.1, copy_range(st, base, start, count).1);
        } else {
            let c = copy_range(st, base, start, count).1;
            assert(c =~= c.subrange(0, c.len() as int));
        }
        lemma_copy_range_prefix(st, base, start, 0, (count - 1) as nat);
        lemma_prefix_trans(st.1, prev.1, copy_range(st, base, start, count).1);
    }
}

proof fn lemma_copy_ranges_prefix(st: RemapProgress, base: int, ranges: Seq<(usize, usize)>, r: int)
    requires
        0 <= r <= ranges.len(),
    ensures
        copy_ranges(st, base, ranges.take(r)).1.is_prefix_of(copy_ranges(st, base, ranges).1),
    decreases ranges.len() - r,
{
    if r == ranges.len() {
        assert(ranges.take(r) =~= ranges);
        let c = copy_ranges(st, base, ranges).1;
        assert(c =~= c.subrange(0, c.len() as int));
    } else {
        let shorter = ranges.drop_last();
        assert(shorter.take(r) =~= ranges.take(r));
        lemma_copy_ranges_prefix(st, base, shorter, r);
        let last = ranges.last();
        lemma_copy_range_prefix(copy_ranges(st, base, shorter), base, last.0 as int, 0, last.1 as nat);
        lemma_prefix_trans(
            copy_ranges(st, base, ranges.take(r)).1,
            copy_ranges(st, base, shorter).1,
            copy_ranges(st, base, ranges).1,
        );
    }
}

proof fn lemma_visit_face_extends(st: RemapProgress, base: int, face: Face)
    ensures
        st.1.is_prefix_of(visit_face(st, base, face).1),
{
    let m = st.0;
    let s1 = if m.contains_key(face.i1) {
        st
    } else {
        copy_vertex(st, base, face.i1)
    };
    let s2 = if m.contains_key(face.i2) {
        s1
    } else {
        copy_vertex(s1, base, face.i2)
    };
    let s3 = if m.contains_key(face.i3) {
        s2
    } else {
        copy_vertex(s2, base, face.i3)
    };
    assert(st.1 =~= st.1.subrange(0, st.1.len() as int));
    assert(s1.1 =~= s1.1.subrange(0, s1.1.len() as int));
    assert(s2.1 =~= s2.1.subrange(0, s2.1.len() as int));
    lemma_copy_vertex_extends(st, base, face.i1);
    lemma_copy_vertex_extends(s1, base, face.i2);
    lemma_copy_vertex_extends(s2, base, face.i3);
    lemma_prefix_trans(st.1, s1.1, s2.1);
    lemma_prefix_trans(st.1, s2.1, s3.1);
}

proof fn lemma_visit_faces_prefix(st: RemapProgress, base: int, faces: Seq<Face>, k: int)
    requires
        0 <= k <= faces.len(),
    ensures
        visit_faces(st, base, faces.take(k)).1.is_prefix_of(visit_faces(st, base, faces).1),
        st.1.is_prefix_of(visit_faces(st, base, faces).1),
    decreases faces.len(),
{
    if faces.len() == 0 {
        assert(faces.take(k) =~= faces);
        assert(st.1 =~= st.1.subrange(0, st.1.len() as int));
    } else {
        let shorter = faces.drop_last();
        let prev = visit_faces(st, base, shorter);
        lemma_visit_face_extends(prev, base, faces.last());
        if k == faces.len() {
            assert(faces.take(k) =~= faces);
            let c = visit_faces(st, base, faces).1;
            assert(c =~= c.subrange(0, c.len() as int));
        } else {
            assert(shorter.take(k) =~= faces.take(k));
            lemma_visit_faces_prefix(st, base, shorter, k);
            lemma_prefix_trans(visit_faces(st, base, faces.take(k)).1, prev.1, visit_faces(st, base, faces).1);
        }
        lemma_visit_faces_prefix(st, base, shorter, 0);
        lemma_prefix_trans(st.1, prev.1, visit_faces(st, base, faces).1);
    }
}

/// The target holds `start` followed by copies of the `copied` vertices of the source, the
/// `j`-th copy being vertex `base + j`.
spec fn copies_state(copied: Seq<u32>, base: int, source: VertexBuffer, start: Seq<u8>, target: VertexBuffer) -> bool {
    &&& forall|j: int| 0 <= j < copied.len() ==> #[trigger] copied[j] < source.spec_len()
    &&& target.wf()
    &&& target.same_layout(&source)
    &&& target.bytes() == start + copied_bytes(source, copied)
    &&& target.spec_len() == base + copied.len()
}

/// The next vertex a remap copies is the next one of the whole copy order.
proof fn lemma_next_copy(current: Seq<u32>, index: u32, all: Seq<u32>)
    requires
        current.push(index).is_prefix_of(all),
    ensures
        all[current.len() as int] == index,
        current.len() < all.len(),
        forall|j: int| 0 <= j < current.len() ==> all[j] == current[j],
{
    assert(current.push(index)[current.len() as int] == index);
    assert forall|j: int| 0 <= j < current.len() implies all[j] == current[j] by {
        assert(current.push(index)[j] == current[j]);
    }
}

/// Copies one more old vertex to the end of the target and records where it went.
fn copy_next(
    index: u32,
    map: &mut BTreeMap<u32, u32>,
    copied: &mut Vec<u32>,
    next: &mut u32,
    source: &VertexBuffer,
    target: &mut VertexBuffer,
    Ghost(base): Ghost<int>,
    Ghost(start): Ghost<Seq<u8>>,
) -> (landed: u32)
    requires
        source.wf(),
        copies_state(old(copied)@, base, *source, start, *old(target)),
        *old(next) == base + old(copied)@.len(),
        index < source.spec_len(),
        *old(next) < u32::MAX,
        old(target).bytes().len() + source.spec_stride() <= isize::MAX,
    ensures
        final(map)@ == old(map)@.insert(index, *old(next)),
        final(copied)@ == old(copied)@.push(index),
        copies_state(final(copied)@, base, *source, start, *final(target)),
        *final(next) == *old(next) + 1,
        landed == *old(next),
{
    let landed = *next;
    map.insert(index, landed);
    push_copy(target, source, index as usize);
    copied.push(index);
    *next = *next + 1;
    proof {
        let c = copied@;
        assert(c.drop_last() =~= old(copied)@);
        assert(target.bytes() =~= start + copied_bytes(*source, c));
        assert forall|j: int| 0 <= j < c.len() implies #[trigger] c[j] < source.spec_len() by {
            if j < c.len() - 1 {
                assert(c[j] == old(copied)@[j]);
            }
        }
    }
    landed
}

/// Copies the vertices that the `(start, length)` ranges pick out onto the end of
/// `new_vertices`, then copies every face that uses a copied vertex onto the end of `new_faces`,
/// copying its other vertices as well, in the order of the faces. The copied faces point at the
/// copies. Returns the old index of each copied vertex, in the order of the copies.
pub fn remap_mesh_by_vertices(
    faces: &Vec<Face>,
    vertices: &VertexBuffer,
    ranges: &Vec<(usize, usize)>,
    new_faces: &mut Vec<Face>,
    new_vertices: &mut VertexBuffer,
) -> (copied: Vec<u32>)
    requires
        vertices.wf(),
        old(new_vertices).wf(),
        vertices.same_layout(old(new_vertices)),
        forall|r: int| 0 <= r < ranges.len() ==> ranges[r].0 + ranges[r].1 <= usize::MAX,
        forall|j: int|
            0 <= j < vertex_remap(faces@, ranges@, old(new_vertices).spec_len()).1.len()
                ==> #[trigger] vertex_remap(faces@, ranges@, old(new_vertices).spec_len()).1[j]
                < vertices.spec_len(),
        old(new_vertices).spec_len() + vertex_remap(
            faces@,
            ranges@,
            old(new_vertices).spec_len(),
        ).1.len() <= u32::MAX,
        (old(new_vertices).spec_len() + vertex_remap(
            faces@,
            ranges@,
            old(new_vertices).spec_len(),
        ).1.len()) * vertices.spec_stride() <= isize::MAX,
    ensures
        copied@ == vertex_remap(faces@, ranges@, old(new_vertices).spec_len()).1,
        final(new_faces)@ == old(new_faces)@ + vertex_remap(
            faces@,
            ranges@,
            old(new_vertices).spec_len(),
        ).2,
        final(new_vertices).wf(),
        final(new_vertices).same_layout(old(new_vertices)),
        final(new_vertices).bytes() == old(new_vertices).bytes() + copied_bytes(*vertices, copied@),
{
    let ghost base = new_vertices.spec_len();
    let ghost start = new_vertices.bytes();
    let ghost start_faces = new_faces@;
    let ghost stride = vertices.spec_stride();
    let ghost from_ranges = copy_ranges(no_progress(), base, ranges@);
    let ghost all = vertex_remap(faces@, ranges@, base);
    let mut next: u32 = new_vertices.len() as u32;
    let mut map: BTreeMap<u32, u32> = BTreeMap::new();
    let mut copied: Vec<u32> = Vec::new();
    proof {
        assert(copied_bytes(*vertices, copied@) =~= Seq::<u8>::empty());
        assert(new_vertices.bytes() =~= start + copied_bytes(*vertices, copied@));
        assert(ranges@.take(0) =~= Seq::<(usize, usize)>::empty());
        assert(new_faces@ =~= start_faces + no_progress().2);
        lemma_visit_faces_prefix(from_ranges, base, faces@, 0);
    }
    let mut r: usize = 0;
    while r < ranges.len()
        invariant
            r <= ranges.len(),
            vertices.wf(),
            stride == vertices.spec_stride(),
            forall|i: int| 0 <= i < ranges.len() ==> ranges[i].0 + ranges[i].1 <= usize::MAX,
            forall|j: int| 0 <= j < all.1.len() ==> #[trigger] all.1[j] < vertices.spec_len(),
            base + all.1.len() <= u32::MAX,
            (base + all.1.len()) * stride <= isize::MAX,
            from_ranges == copy_ranges(no_progress(), base, ranges@),
            all == visit_faces(from_ranges, base, faces@),
            from_ranges.1.is_prefix_of(all.1),
            copies_state(copied@, base, *vertices, start, *new_vertices),
            next == base + copied@.len(),
            map@ == copy_ranges(no_progress(), base, ranges@.take(r as int)).0,
            copied@ == copy_ranges(no_progress(), base, ranges@.take(r as int)).1,
            new_faces@ == start_faces + copy_ranges(no_progress(), base, ranges@.take(r as int)).2,
        decreases ranges.len() - r,
    {
        let (first, count) = ranges[r];
        let end = first + count;
        let ghost before = copy_ranges(no_progress(), base, ranges@.take(r as int));
        let ghost after = copy_ranges(no_progress(), base, ranges@.take(r + 1));
        proof {
            assert(ranges@.take(r + 1).drop_last() =~= ranges@.take(r as int));
            lemma_copy_ranges_prefix(no_progress(), base, ranges@, r + 1);
            lemma_prefix_trans(after.1, from_ranges.1, all.1);
        }
        let mut v: usize = first;
        while v < end
            invariant
                first <= v <= end,
                end == first + count,
                vertices.wf(),
                stride == vertices.spec_stride(),
                forall|j: int| 0 <= j < all.1.len() ==> #[trigger] all.1[j] < vertices.spec_len(),
                base + all.1.len() <= u32::MAX,
                (base + all.1.len()) * stride <= isize::MAX,
                after == copy_range(before, base, first as int, count as nat),
                after.1.is_prefix_of(all.1),
                copies_state(copied@, base, *vertices, start, *new_vertices),
                next == base + copied@.len(),
                map@ == copy_range(before, base, first as int, (v - first) as nat).0,
                copied@ == copy_range(before, base, first as int, (v - first) as nat).1,
                new_faces@ == start_faces + copy_range(before, base, first as int, (v - first) as nat).2,
            decreases end - v,
        {
            let ghost cur = copy_range(before, base, first as int, (v - first) as nat);
            proof {
                lemma_copy_range_prefix(before, base, first as int, (v - first + 1) as nat, count as nat);
                lemma_prefix_trans(
                    copy_range(before, base, first as int, (v - first + 1) as nat).1,
                    after.1,
                    all.1,
                );
                lemma_next_copy(cur.1, v as u32, all.1);
                lemma_room(*new_vertices, base + all.1.len());
            }
            copy_next(v as u32, &mut map, &mut copied, &mut next, vertices, new_vertices, Ghost(base), Ghost(start));
            v += 1;
        }
        r += 1;
    }
    proof {
        assert(ranges@.take(r as int) =~= ranges@);
    }
    let mut k: usize = 0;
    while k < faces.len()
        invariant
            k <= faces.len(),
            vertices.wf(),
            stride == vertices.spec_stride(),
            forall|j: int| 0 <= j < all.1.len() ==> #[trigger] all.1[j] < vertices.spec_len(),
            base + all.1.len() <= u32::MAX,
            (base + all.1.len()) * stride <= isize::MAX,
            all == visit_faces(from_ranges, base, faces@),
            copies_state(copied@, base, *vertices, start, *new_vertices),
            next == base + copied@.len(),
            map@ == visit_faces(from_ranges, base, faces@.take(k as int)).0,
            copied@ == visit_faces(from_ranges, base, faces@.take(k as int)).1,
            new_faces@ == start_faces + visit_faces(from_ranges, base, faces@.take(k as int)).2,
        decreases faces.len() - k,
    {
        let face = faces[k];
        proof {
            assert(faces@.take(k + 1).drop_last() =~= faces@.take(k as int));
            lemma_visit_faces_prefix(from_ranges, base, faces@, k + 1);
            let done = visit_faces(from_ranges, base, faces@.take(k as int));
            assert(new_faces@.subrange(0, start_faces.len() as int) =~= start_faces);
            assert(new_faces@.skip(start_faces.len() as int) =~= done.2);
        }
        visit_one_face(face, &mut map, &mut copied, &mut next, vertices, new_vertices, new_faces, Ghost(base), Ghost(start), Ghost(start_faces), Ghost(all.1));
        k += 1;
    }
    proof {
        assert(faces@.take(k as int) =~= faces@);
    }
    copied
}

/// Visits one old face of a remap by vertices.
fn visit_one_face(
    face: Face,
    map: &mut BTreeMap<u32, u32>,
    copied: &mut Vec<u32>,
    next: &mut u32,
    source: &VertexBuffer,
    target: &mut VertexBuffer,
    new_faces: &mut Vec<Face>,
    Ghost(base): Ghost<int>,
    Ghost(start): Ghost<Seq<u8>>,
    Ghost(start_faces): Ghost<Seq<Face>>,
    Ghost(all): Ghost<Seq<u32>>,
)
    requires
        source.wf(),
        copies_state(old(copied)@, base, *source, start, *old(target)),
        *old(next) == base + old(copied)@.len(),
        visit_face((old(map)@, old(copied)@, old(new_faces)@.skip(start_faces.len() as int)), base, face).1.is_prefix_of(all),
        old(new_faces)@.len() >= start_faces.len(),
        old(new_faces)@.subrange(0, start_faces.len() as int) == start_faces,
        forall|j: int| 0 <= j < all.len() ==> #[trigger] all[j] < source.spec_len(),
        base + all.len() <= u32::MAX,
        (base + all.len()) * source.spec_stride() <= isize::MAX,
    ensures
        ({
            let st = visit_face((old(map)@, old(copied)@, old(new_faces)@.skip(start_faces.len() as int)), base, face);
            &&& final(map)@ == st.0
            &&& final(copied)@ == st.1
            &&& final(new_faces)@ == start_faces + st.2
        }),
        copies_state(final(copied)@, base, *source, start, *final(target)),
        *final(next) == base + final(copied)@.len(),
{
    let ghost st = (map@, copied@, new_faces@.skip(start_faces.len() as int));
    let ghost m = map@;
    let l1: Option<u32> = match map.get(&face.i1) {
        Some(found) => Some(*found),
        None => None,
    };
    let l2: Option<u32> = match map.get(&face.i2) {
        Some(found) => Some(*found),
        None => None,
    };
    let l3: Option<u32> = match map.get(&face.i3) {
        Some(found) => Some(*found),
        None => None,
    };
    proof {
        assert(new_faces@ =~= start_faces + st.2);
    }
    if l1.is_none() && l2.is_none() && l3.is_none() {
        return;
    }
    let ghost s1 = if m.contains_key(face.i1) { st } else { copy_vertex(st, base, face.i1) };
    let ghost s2 = if m.contains_key(face.i2) { s1 } else { copy_vertex(s1, base, face.i2) };
    let ghost s3 = if m.contains_key(face.i3) { s2 } else { copy_vertex(s2, base, face.i3) };
    proof {
        lemma_copy_vertex_extends(s1, base, face.i2);
        lemma_copy_vertex_extends(s2, base, face.i3);
        assert(s2.1 =~= s2.1.subrange(0, s2.1.len() as int));
        assert(s1.1 =~= s1.1.subrange(0, s1.1.len() as int));
        lemma_prefix_trans(s2.1, s3.1, all);
        lemma_prefix_trans(s1.1, s2.1, all);
    }
    let n1 = match l1 {
        Some(found) => found,
        None => {
            proof {
                lemma_next_copy(copied@, face.i1, all);
                lemma_room(*target, base + all.len());
            }
            copy_next(face.i1, map, copied, next, source, target, Ghost(base), Ghost(start))
        },
    };
    let n2 = match l2 {
        Some(found) => found,
        None => {
            proof {
                lemma_next_copy(copied@, face.i2, all);
                lemma_room(*target, base + all.len());
            }
            copy_next(face.i2, map, copied, next, source, target, Ghost(base), Ghost(start))
        },
    };
    let n3 = match l3 {
        Some(found) => found,
        None => {
            proof {
                lemma_next_copy(copied@, face.i3, all);
                lemma_room(*target, base + all.len());
            }
            copy_next(face.i3, map, copied, next, source, target, Ghost(base), Ghost(start))
        },
    };
    new_faces.push(Face::new(n1, n2, n3));
    proof {
        assert(new_faces@ =~= start_faces + s3.2.push(Face { i1: n1, i2: n2, i3: n3 }));
    }
}

/// The old face a copied face comes from, read back through the copy order.
pub open spec fn origin(face: Face, order: Seq<u32>, base: int) -> Face {
    Face { i1: order[face.i1 - base], i2: order[face.i2 - base], i3: order[face.i3 - base] }
}

/// Whether a vertex index points at one of the copies.
pub open spec fn points_at_copy(index: u32, order: Seq<u32>, base: int) -> bool {
    base <= index < base + order.len()
}

/// Every recorded copy is where the map says, and every made face points at copies and reads
/// back as one of the old faces.
spec fn progress_inv(st: RemapProgress, base: int, faces: Seq<Face>) -> bool {
    &&& forall|x: u32| #[trigger]
        st.0.contains_key(x) ==> points_at_copy(st.0[x], st.1, base) && st.1[st.0[x] - base] == x
    &&& forall|k: int|
        0 <= k < st.2.len() ==> {
            &&& points_at_copy(#[trigger] st.2[k].i1, st.1, base)
            &&& points_at_copy(st.2[k].i2, st.1, base)
            &&& points_at_copy(st.2[k].i3, st.1, base)
            &&& faces.contains(origin(st.2[k], st.1, base))
        }
}

proof fn lemma_copy_vertex_inv(st: RemapProgress, base: int, faces: Seq<Face>, index: u32)
    requires
        progress_inv(st, base, faces),
        0 <= base,
        base + st.1.len() < u32::MAX,
    ensures
        progress_inv(copy_vertex(st, base, index), base, faces),
{
    let next = copy_vertex(st, base, index);
    assert forall|k: int| 0 <= k < next.2.len() implies origin(#[trigger] next.2[k], next.1, base)
        == origin(st.2[k], st.1, base) by {
        let f = st.2[k];
        assert(next.1[f.i1 - base] == st.1[f.i1 - base]);
        assert(next.1[f.i2 - base] == st.1[f.i2 - base]);
        assert(next.1[f.i3 - base] == st.1[f.i3 - base]);
    }
    assert forall|x: u32| #[trigger] next.0.contains_key(x) implies points_at_copy(
        next.0[x],
        next.1,
        base,
    ) && next.1[next.0[x] - base] == x by {
        if x != index {
            assert(next.1[st.0[x] - base] == st.1[st.0[x] - base]);
        }
    }
}

proof fn lemma_copy_range_inv(st: RemapProgress, base: int, faces: Seq<Face>, start: int, count: nat, limit: int)
    requires
        progress_inv(st, base, faces),
        0 <= base,
        base + copy_range(st, base, start, count).1.len() <= limit,
        limit <= u32::MAX,
    ensures
        progress_inv(copy_range(st, base, start, count), base, faces),
        copy_range(st, base, start, count).2 == st.2,
    decreases count,
{
    if count > 0 {
        let prev = copy_range(st, base, start, (count - 1) as nat);
        lemma_copy_range_inv(st, base, faces, start, (count - 1) as nat, limit);
        lemma_copy_vertex_inv(prev, base, faces, (start + count - 1) as u32);
    }
}

proof fn lemma_copy_ranges_inv(base: int, faces: Seq<Face>, ranges: Seq<(usize, usize)>, limit: int)
    requires
        0 <= base,
        base + copy_ranges(no_progress(), base, ranges).1.len() <= limit,
        limit <= u32::MAX,
    ensures
        progress_inv(copy_ranges(no_progress(), base, ranges), base, faces),
        copy_ranges(no_progress(), base, ranges).2 == Seq::<Face>::empty(),
    decreases ranges.len(),
{
    if ranges.len() > 0 {
        let shorter = ranges.drop_last();
        let r = ranges.last();
        lemma_copy_ranges_prefix(no_progress(), base, ranges, ranges.len() - 1);
        assert(ranges.take(ranges.len() - 1) =~= shorter);
        lemma_copy_ranges_inv(base, faces, shorter, limit);
        lemma_copy_range_inv(copy_ranges(no_progress(), base, shorter), base, faces, r.0 as int, r.1 as nat, limit);
    } else {
        assert(progress_inv(no_progress(), base, faces));
    }
}

proof fn lemma_visit_face_inv(st: RemapProgress, base: int, faces: Seq<Face>, face: Face, limit: int)
    requires
        progress_inv(st, base, faces),
        faces.contains(face),
        0 <= base,
        base + visit_face(st, base, face).1.len() <= limit,
        limit <= u32::MAX,
    ensures
        progress_inv(visit_face(st, base, face), base, faces),
{
    let m = st.0;
    if m.contains_key(face.i1) || m.contains_key(face.i2) || m.contains_key(face.i3) {
        let s1 = if m.contains_key(face.i1) {
            st
        } else {
            copy_vertex(st, base, face.i1)
        };
        let s2 = if m.contains_key(face.i2) {
            s1
        } else {
            copy_vertex(s1, base, face.i2)
        };
        let s3 = if m.contains_key(face.i3) {
            s2
        } else {
            copy_vertex(s2, base, face.i3)
        };
        lemma_copy_vertex_extends(st, base, face.i1);
        lemma_copy_vertex_extends(s1, base, face.i2);
        lemma_copy_vertex_extends(s2, base, face.i3);
        if !m.contains_key(face.i1) {
            lemma_copy_vertex_inv(st, base, faces, face.i1);
        }
        if !m.contains_key(face.i2) {
            lemma_copy_vertex_inv(s1, base, faces, face.i2);
        }
        if !m.contains_key(face.i3) {
            lemma_copy_vertex_inv(s2, base, faces, face.i3);
        }
        let n1 = if m.contains_key(face.i1) {
            m[face.i1]
        } else {
            (base + st.1.len()) as u32
        };
        let n2 = if m.contains_key(face.i2) {
            m[face.i2]
        } else {
            (base + s1.1.len()) as u32
        };
        let n3 = if m.contains_key(face.i3) {
            m[face.i3]
        } else {
            (base + s2.1.len()) as u32
        };
        let made = Face { i1: n1, i2: n2, i3: n3 };
        let o = s3.1;
        assert(o[n1 - base] == face.i1) by {
            if m.contains_key(face.i1) {
                assert(s1.1[n1 - base] == st.1[n1 - base]);
                assert(s2.1[n1 - base] == s1.1[n1 - base]);
                assert(o[n1 - base] == s2.1[n1 - base]);
            } else {
                assert(s1.1[st.1.len() as int] == face.i1);
                assert(s2.1[st.1.len() as int] == s1.1[st.1.len() as int]);
                assert(o[st.1.len() as int] == s2.1[st.1.len() as int]);
            }
        }
        assert(o[n2 - base] == face.i2) by {
            if m.contains_key(face.i2) {
                assert(s1.1[n2 - base] == st.1[n2 - base]);
                assert(s2.1[n2 - base] == s1.1[n2 - base]);
                assert(o[n2 - base] == s2.1[n2 - base]);
            } else {
                assert(s2.1[s1.1.len() as int] == face.i2);
                assert(o[s1.1.len() as int] == s2.1[s1.1.len() as int]);
            }
        }
        assert(o[n3 - base] == face.i3) by {
            if m.contains_key(face.i3) {
                assert(s1.1[n3 - base] == st.1[n3 - base]);
                assert(s2.1[n3 - base] == s1.1[n3 - base]);
                assert(o[n3 - base] == s2.1[n3 - base]);
            }
        }
        assert(origin(made, o, base) == face);
        assert(progress_inv(s1, base, faces));
        assert(progress_inv(s2, base, faces));
        assert(progress_inv(s3, base, faces));
        assert(points_at_copy(n1, o, base));
        assert(points_at_copy(n2, o, base));
        assert(points_at_copy(n3, o, base));
        lemma_push_face_inv(s3, base, faces, made);
        assert(visit_face(st, base, face) == (s3.0, s3.1, s3.2.push(made)));
    }
}

/// Adding a face that points at copies and reads back as an old face keeps the invariant.
proof fn lemma_push_face_inv(st: RemapProgress, base: int, faces: Seq<Face>, made: Face)
    requires
        progress_inv(st, base, faces),
        points_at_copy(made.i1, st.1, base),
        points_at_copy(made.i2, st.1, base),
        points_at_copy(made.i3, st.1, base),
        faces.contains(origin(made, st.1, base)),
    ensures
        progress_inv((st.0, st.1, st.2.push(made)), base, faces),
{
    let list = st.2.push(made);
    assert forall|k: int| 0 <= k < list.len() implies {
        &&& points_at_copy(#[trigger] list[k].i1, st.1, base)
        &&& points_at_copy(list[k].i2, st.1, base)
        &&& points_at_copy(list[k].i3, st.1, base)
        &&& faces.contains(origin(list[k], st.1, base))
    } by {
        if k < st.2.len() {
            assert(list[k] == st.2[k]);
        }
    }
}

proof fn lemma_visit_faces_inv(st: RemapProgress, base: int, faces: Seq<Face>, n: int, limit: int)
    requires
        progress_inv(st, base, faces),
        0 <= n <= faces.len(),
        0 <= base,
        base + visit_faces(st, base, faces.take(n)).1.len() <= limit,
        limit <= u32::MAX,
    ensures
        progress_inv(visit_faces(st, base, faces.take(n)), base, faces),
    decreases n,
{
    if n > 0 {
        let shorter = faces.take(n);
        assert(shorter.drop_last() =~= faces.take(n - 1));
        lemma_visit_faces_prefix(st, base, shorter, n - 1);
        assert(shorter.take(n - 1) =~= faces.take(n - 1));
        lemma_visit_faces_inv(st, base, faces, n - 1, limit);
        assert(faces.contains(faces[n - 1]));
        lemma_visit_face_inv(visit_faces(st, base, faces.take(n - 1)), base, faces, faces[n - 1], limit);
    } else {
        assert(faces.take(0) =~= Seq::<Face>::empty());
    }
}

/// A remap by vertices makes only faces that point at copies, and each of them reads back,
/// through the copies, as one of the old faces: each of its corners has the bytes of the same
/// corner of that old face.
pub proof fn law_remap_by_vertices_keeps_faces(
    faces: Seq<Face>,
    ranges: Seq<(usize, usize)>,
    vertices: VertexBuffer,
    start: VertexBuffer,
    result: VertexBuffer,
)
    requires
        vertices.wf(),
        start.wf(),
        vertices.same_layout(&start),
        result.same_layout(&start),
        forall|j: int|
            0 <= j < vertex_remap(faces, ranges, start.spec_len()).1.len()
                ==> #[trigger] vertex_remap(faces, ranges, start.spec_len()).1[j]
                < vertices.spec_len(),
        start.spec_len() + vertex_remap(faces, ranges, start.spec_len()).1.len() <= u32::MAX,
        result.bytes() == start.bytes() + copied_bytes(
            vertices,
            vertex_remap(faces, ranges, start.spec_len()).1,
        ),
    ensures
        forall|k: int|
            #![trigger vertex_remap(faces, ranges, start.spec_len()).2[k]]
            0 <= k < vertex_remap(faces, ranges, start.spec_len()).2.len() ==> {
                let st = vertex_remap(faces, ranges, start.spec_len());
                &&& faces.contains(origin(st.2[k], st.1, start.spec_len()))
                &&& copy_matches(
                    origin(st.2[k], st.1, start.spec_len()),
                    st.2[k],
                    vertices,
                    start.spec_len(),
                    result,
                )
            },
{
    let base = start.spec_len();
    let st = vertex_remap(faces, ranges, base);
    let from_ranges = copy_ranges(no_progress(), base, ranges);
    let limit = base + st.1.len();
    assert(0 <= base);
    lemma_visit_faces_prefix(from_ranges, base, faces, 0);
    lemma_copy_ranges_inv(base, faces, ranges, limit);
    assert(faces.take(faces.len() as int) =~= faces);
    lemma_visit_faces_inv(from_ranges, base, faces, faces.len() as int, limit);
    assert forall|k: int| 0 <= k < st.2.len() implies {
        &&& faces.contains(origin(#[trigger] st.2[k], st.1, base))
        &&& copy_matches(origin(st.2[k], st.1, base), st.2[k], vertices, base, result)
    } by {
        let f = st.2[k];
        lemma_copy_lands(vertices, start, result, st.1, f.i1 - base);
        lemma_copy_lands(vertices, start, result, st.1, f.i2 - base);
        lemma_copy_lands(vertices, start, result, st.1, f.i3 - base);
    }
}

/// The old vertices a remap by vertices copies, in order, worked out without copying them.
fn vertex_remap_order(faces: &Vec<Face>, ranges: &Vec<(usize, usize)>, Ghost(base): Ghost<int>) -> (order: Vec<u32>)
    requires
        forall|r: int| 0 <= r < ranges.len() ==> ranges[r].0 + ranges[r].1 <= usize::MAX,
    ensures
        order@ == vertex_remap(faces@, ranges@, base).1,
{
    let ghost from_ranges = copy_ranges(no_progress(), base, ranges@);
    let mut seen: BTreeSet<u32> = BTreeSet::new();
    let mut order: Vec<u32> = Vec::new();
    proof {
        assert(ranges@.take(0) =~= Seq::<(usize, usize)>::empty());
        assert(seen@ =~= no_progress().0.dom());
    }
    let mut r: usize = 0;
    while r < ranges.len()
        invariant
            r <= ranges.len(),
            forall|i: int| 0 <= i < ranges.len() ==> ranges[i].0 + ranges[i].1 <= usize::MAX,
            from_ranges == copy_ranges(no_progress(), base, ranges@),
            seen@ == copy_ranges(no_progress(), base, ranges@.take(r as int)).0.dom(),
            order@ == copy_ranges(no_progress(), base, ranges@.take(r as int)).1,
        decreases ranges.len() - r,
    {
        let (first, count) = ranges[r];
        let end = first + count;
        let ghost before = copy_ranges(no_progress(), base, ranges@.take(r as int));
        proof {
            assert(ranges@.take(r + 1).drop_last() =~= ranges@.take(r as int));
        }
        let mut v: usize = first;
        while v < end
            invariant
                first <= v <= end,
                end == first + count,
                seen@ == copy_range(before, base, first as int, (v - first) as nat).0.dom(),
                order@ == copy_range(before, base, first as int, (v - first) as nat).1,
            decreases end - v,
        {
            let ghost cur = copy_range(before, base, first as int, (v - first) as nat);
            let index = v as u32;
            seen.insert(index);
            order.push(index);
            proof {
                let next = copy_range(before, base, first as int, (v + 1 - first) as nat);
                assert(next == copy_vertex(cur, base, index));
                assert(seen@ =~= next.0.dom());
            }
            v += 1;
        }
        r += 1;
    }
    proof {
        assert(ranges@.take(r as int) =~= ranges@);
        assert(faces@.take(0) =~= Seq::<Face>::empty());
    }
    let mut k: usize = 0;
    while k < faces.len()
        invariant
            k <= faces.len(),
            from_ranges == copy_ranges(no_progress(), base, ranges@),
            seen@ == visit_faces(from_ranges, base, faces@.take(k as int)).0.dom(),
            order@ == visit_faces(from_ranges, base, faces@.take(k as int)).1,
        decreases faces.len() - k,
    {
        let face = faces[k];
        let ghost st = visit_faces(from_ranges, base, faces@.take(k as int));
        proof {
            assert(faces@.take(k + 1).drop_last() =~= faces@.take(k as int));
            assert(faces@.take(k + 1).last() == face);
        }
        let c1 = seen.contains(&face.i1);
        let c2 = seen.contains(&face.i2);
        let c3 = seen.contains(&face.i3);
        if c1 || c2 || c3 {
            let ghost m = st.0;
            let ghost s1 = if m.contains_key(face.i1) { st } else { copy_vertex(st, base, face.i1) };
            let ghost s2 = if m.contains_key(face.i2) { s1 } else { copy_vertex(s1, base, face.i2) };
            if !c1 {
                seen.insert(face.i1);
                order.push(face.i1);
            }
            proof {
                assert(seen@ =~= s1.0.dom());
            }
            if !c2 {
                seen.insert(face.i2);
                order.push(face.i2);
            }
            proof {
                assert(seen@ =~= s2.0.dom());
            }
            if !c3 {
                seen.insert(face.i3);
                order.push(face.i3);
            }
            proof {
                let s3 = if m.contains_key(face.i3) { s2 } else { copy_vertex(s2, base, face.i3) };
                assert(seen@ =~= s3.0.dom());
            }
        }
        k += 1;
    }
    proof {
        assert(faces@.take(k as int) =~= faces@);
    }
    order
}

/// Whether a remap by vertices onto `target` reads only vertices that `vertices` has, numbers
/// its copies within 32 bits and fits the target in memory.
pub open spec fn vertex_remap_fits(
    faces: Seq<Face>,
    ranges: Seq<(usize, usize)>,
    vertices: VertexBuffer,
    target: VertexBuffer,
) -> bool {
    let order = vertex_remap(faces, ranges, target.spec_len()).1;
    &&& forall|j: int| 0 <= j < order.len() ==> #[trigger] order[j] < vertices.spec_len()
    &&& target.spec_len() + order.len() <= u32::MAX
    &&& (target.spec_len() + order.len()) * vertices.spec_stride() <= isize::MAX
}

/// Remaps by vertices as `remap_mesh_by_vertices` does when the remap fits; otherwise returns
/// `None` and changes nothing.
pub fn try_remap_mesh_by_vertices(
    faces: &Vec<Face>,
    vertices: &VertexBuffer,
    ranges: &Vec<(usize, usize)>,
    new_faces: &mut Vec<Face>,
    new_vertices: &mut VertexBuffer,
) -> (copied: Option<Vec<u32>>)
    requires
        vertices.wf(),
        old(new_vertices).wf(),
        vertices.same_layout(old(new_vertices)),
        forall|r: int| 0 <= r < ranges.len() ==> ranges[r].0 + ranges[r].1 <= usize::MAX,
    ensures
        vertex_remap_fits(faces@, ranges@, *vertices, *old(new_vertices)) ==> (copied matches Some(
            c,
        ) && c@ == vertex_remap(faces@, ranges@, old(new_vertices).spec_len()).1
            && final(new_faces)@ == old(new_faces)@ + vertex_remap(
            faces@,
            ranges@,
            old(new_vertices).spec_len(),
        ).2 && final(new_vertices).wf() && final(new_vertices).same_layout(old(new_vertices))
            && final(new_vertices).bytes() == old(new_vertices).bytes() + copied_bytes(
            *vertices,
            c@,
        )),
        !vertex_remap_fits(faces@, ranges@, *vertices, *old(new_vertices)) ==> copied is None
            && final(new_faces)@ == old(new_faces)@ && *final(new_vertices) == *old(new_vertices),
{
    let base = new_vertices.len();
    let order = vertex_remap_order(faces, ranges, Ghost(base as int));
    let count = vertices.len();
    let mut j: usize = 0;
    while j < order.len()
        invariant
            j <= order.len(),
            count == vertices.spec_len(),
            base == old(new_vertices).spec_len(),
            order@ == vertex_remap(faces@, ranges@, base as int).1,
            *new_vertices == *old(new_vertices),
            new_faces@ == old(new_faces)@,
            forall|i: int| 0 <= i < j ==> #[trigger] order@[i] < count,
        decreases order.len() - j,
    {
        if order[j] as usize >= count {
            proof {
                assert(order@[j as int] >= vertices.spec_len());
            }
            return None;
        }
        j += 1;
    }
    let total = match base.checked_add(order.len()) {
        Some(total) => total,
        None => {
            return None;
        },
    };
    if total > 0xffff_ffff {
        return None;
    }
    let bytes = match total.checked_mul(vertices.stride()) {
        Some(bytes) => bytes,
        None => {
            return None;
        },
    };
    if bytes > isize::MAX as usize {
        return None;
    }
    Some(remap_mesh_by_vertices(faces, vertices, ranges, new_faces, new_vertices))
}

} // verus!
