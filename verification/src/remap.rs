use vstd::prelude::*;

use std::collections::{BTreeMap, BTreeSet};

use crate::distinct::{
    first_occurrences, lemma_first_occurrences, lemma_first_occurrences_prefix,
    lemma_first_occurrences_push, lemma_index_of_stable,
};
use crate::face::Face;
use crate::vertex_buffer::VertexBuffer;

verus! {

broadcast use vstd::laws_cmp::group_laws_cmp;

/// The vertex indices of faces, three per face, in order.
pub open spec fn corners(faces: Seq<Face>) -> Seq<u32>
    decreases faces.len(),
{
    if faces.len() == 0 {
        Seq::empty()
    } else {
        let f = faces.last();
        corners(faces.drop_last()) + seq![f.i1, f.i2, f.i3]
    }
}

/// The faces that a list of `(start, length)` ranges picks out, range after range.
pub open spec fn picked_faces(faces: Seq<Face>, ranges: Seq<(usize, usize)>) -> Seq<Face>
    decreases ranges.len(),
{
    if ranges.len() == 0 {
        Seq::empty()
    } else {
        let r = ranges.last();
        picked_faces(faces, ranges.drop_last()) + faces.subrange(r.0 as int, r.0 + r.1)
    }
}

/// The bytes of the given vertices of a buffer, one vertex after another.
pub open spec fn copied_bytes(vertices: VertexBuffer, order: Seq<u32>) -> Seq<u8>
    decreases order.len(),
{
    if order.len() == 0 {
        Seq::empty()
    } else {
        copied_bytes(vertices, order.drop_last()) + vertices.vertex_bytes(order.last() as int)
    }
}

/// Where a copied vertex lands: after `base`, at its place in the copy order.
pub open spec fn landing(order: Seq<u32>, base: int, index: u32) -> u32 {
    (base + order.index_of(index)) as u32
}

/// A face whose indices point at the copies of its vertices.
pub open spec fn remapped_face(face: Face, order: Seq<u32>, base: int) -> Face {
    Face {
        i1: landing(order, base, face.i1),
        i2: landing(order, base, face.i2),
        i3: landing(order, base, face.i3),
    }
}

proof fn lemma_corners_concat(a: Seq<Face>, b: Seq<Face>)
    ensures
        corners(a + b) == corners(a) + corners(b),
    decreases b.len(),
{
    if b.len() == 0 {
        assert(a + b =~= a);
        assert(corners(a) + corners(b) =~= corners(a));
    } else {
        assert((a + b).drop_last() =~= a + b.drop_last());
        lemma_corners_concat(a, b.drop_last());
        assert(corners(a + b) =~= corners(a) + corners(b));
    }
}

proof fn lemma_corners_len(a: Seq<Face>)
    ensures
        corners(a).len() == 3 * a.len(),
    decreases a.len(),
{
    if a.len() > 0 {
        lemma_corners_len(a.drop_last());
    }
}

/// A prefix of faces has its corners as a prefix of the corners of the whole.
proof fn lemma_corners_prefix(a: Seq<Face>, n: int)
    requires
        0 <= n <= a.len(),
    ensures
        corners(a.subrange(0, n)).len() <= corners(a).len(),
        corners(a).subrange(0, corners(a.subrange(0, n)).len() as int) == corners(
            a.subrange(0, n),
        ),
{
    lemma_corners_concat(a.subrange(0, n), a.subrange(n, a.len() as int));
    assert(a.subrange(0, n) + a.subrange(n, a.len() as int) =~= a);
    let c = corners(a.subrange(0, n));
    assert(corners(a).subrange(0, c.len() as int) =~= c);
}

/// Appends a copy of vertex `index` of `source` to the end of `target`.
pub(crate) fn push_copy(target: &mut VertexBuffer, source: &VertexBuffer, index: usize)
    requires
        old(target).wf(),
        source.wf(),
        index < source.spec_len(),
        source.same_layout(old(target)),
        old(target).bytes().len() + old(target).spec_stride() <= isize::MAX,
    ensures
        final(target).wf(),
        final(target).same_layout(old(target)),
        final(target).bytes() == old(target).bytes() + source.vertex_bytes(index as int),
        final(target).spec_len() == old(target).spec_len() + 1,
{
    let ghost before = target.bytes();
    let ghost stride = target.spec_stride();
    proof {
        let n = before.len() as int;
        vstd::arithmetic::div_mod::lemma_fundamental_div_mod(n, stride);
        vstd::arithmetic::mul::lemma_mul_is_commutative(n / stride, stride);
        let len = source.bytes().len() as int;
        vstd::arithmetic::div_mod::lemma_fundamental_div_mod(len, stride);
        vstd::arithmetic::mul::lemma_mul_inequality(index + 1, len / stride, stride);
        vstd::arithmetic::mul::lemma_mul_is_commutative(len / stride, stride);
        vstd::arithmetic::mul::lemma_mul_is_distributive_add_other_way(stride, index as int, 1);
        vstd::arithmetic::mul::lemma_mul_nonnegative(index as int, stride);
    }
    let mut vertex = target.create();
    let from = source.vertex(index);
    vertex.copy_from(&from);
    proof {
        let copied = source.vertex_bytes(index as int);
        assert(copied.len() == stride);
        assert(vertex.buffer.bytes() =~= before + copied);
    }
}

/// The bookkeeping of a remap in progress: `copied` lists the old vertices copied so far, the
/// `j`-th landing at `base + j` in the target, whose bytes are `start` followed by the copies,
/// and `map` sends each copied vertex to its copy.
spec fn remap_state(
    map: Map<u32, u32>,
    copied: Seq<u32>,
    base: int,
    source: VertexBuffer,
    start: Seq<u8>,
    target: VertexBuffer,
) -> bool {
    &&& forall|j: int|
        0 <= j < copied.len() ==> map.contains_key(#[trigger] copied[j]) && map[copied[j]] == base
            + j
    &&& forall|x: u32| #[trigger] map.contains_key(x) ==> copied.contains(x)
    &&& forall|j: int| 0 <= j < copied.len() ==> #[trigger] copied[j] < source.spec_len()
    &&& target.wf()
    &&& target.same_layout(&source)
    &&& target.bytes() == start + copied_bytes(source, copied)
    &&& target.spec_len() == base + copied.len()
}

proof fn lemma_state_no_duplicates(
    map: Map<u32, u32>,
    copied: Seq<u32>,
    base: int,
    source: VertexBuffer,
    start: Seq<u8>,
    target: VertexBuffer,
)
    requires
        remap_state(map, copied, base, source, start, target),
    ensures
        copied.no_duplicates(),
        forall|j: int| 0 <= j < copied.len() ==> copied.index_of(#[trigger] copied[j]) == j,
{
    assert forall|i: int, j: int|
        0 <= i < copied.len() && 0 <= j < copied.len() && i != j implies copied[i] != copied[j] by {
        assert(map[copied[i]] == base + i);
        assert(map[copied[j]] == base + j);
    }
    assert forall|j: int| 0 <= j < copied.len() implies copied.index_of(#[trigger] copied[j]) == j by {
        assert(copied.contains(copied[j]));
        let k = copied.index_of(copied[j]);
    }
}

/// Finds the copy of an old vertex, copying it to the end of the target first when it has none.
fn remap_corner(
    index: u32,
    map: &mut BTreeMap<u32, u32>,
    copied: &mut Vec<u32>,
    next: &mut u32,
    source: &VertexBuffer,
    target: &mut VertexBuffer,
    Ghost(base): Ghost<int>,
    Ghost(start): Ghost<Seq<u8>>,
) -> (landed: u32)
    requires
        source.wf(),
        remap_state(old(map)@, old(copied)@, base, *source, start, *old(target)),
        *old(next) == base + old(copied)@.len(),
        index < source.spec_len(),
        !old(copied)@.contains(index) ==> *old(next) < u32::MAX && old(target).bytes().len()
            + source.spec_stride() <= isize::MAX,
    ensures
        final(copied)@ == if old(copied)@.contains(index) {
            old(copied)@
        } else {
            old(copied)@.push(index)
        },
        remap_state(final(map)@, final(copied)@, base, *source, start, *final(target)),
        *final(next) == base + final(copied)@.len(),
        final(copied)@.contains(index),
        landed == landing(final(copied)@, base, index),
{
    proof {
        lemma_state_no_duplicates(map@, copied@, base, *source, start, *target);
    }
    match map.get(&index) {
        Some(found) => {
            let landed = *found;
            proof {
                let j = copied@.index_of(index);
                assert(copied@[j] == index);
            }
            landed
        },
        None => {
            let landed = *next;
            proof {
                assert(!copied@.contains(index));
            }
            map.insert(index, landed);
            push_copy(target, source, index as usize);
            copied.push(index);
            *next = *next + 1;
            proof {
                let c = copied@;
                assert(c.drop_last() =~= old(copied)@);
                assert(c[c.len() - 1] == index);
                assert forall|x: u32| #[trigger] map@.contains_key(x) implies c.contains(x) by {
                    if x != index {
                        let i = choose|i: int| 0 <= i < old(copied)@.len() && old(copied)@[i] == x;
                        assert(c[i] == x);
                    }
                }
                assert forall|j: int| 0 <= j < c.len() implies map@.contains_key(#[trigger] c[j])
                    && map@[c[j]] == base + j by {
                    if j < c.len() - 1 {
                        assert(c[j] == old(copied)@[j]);
                    }
                }
                assert(copied_bytes(*source, c) == copied_bytes(*source, old(copied)@)
                    + source.vertex_bytes(index as int));
                assert(target.bytes() =~= start + copied_bytes(*source, c));
                assert(map@.contains_key(index));
                assert(target.spec_len() == base + c.len());
                lemma_state_no_duplicates(map@, c, base, *source, start, *target);
            }
            landed
        },
    }
}

proof fn lemma_corners_index(a: Seq<Face>, i: int)
    requires
        0 <= i < a.len(),
    ensures
        corners(a).len() == 3 * a.len(),
        corners(a)[3 * i] == a[i].i1,
        corners(a)[3 * i + 1] == a[i].i2,
        corners(a)[3 * i + 2] == a[i].i3,
    decreases a.len(),
{
    lemma_corners_len(a);
    lemma_corners_len(a.drop_last());
    if i < a.len() - 1 {
        lemma_corners_index(a.drop_last(), i);
    }
}

/// Stepping over one more face adds its three indices to the corners, which stay a prefix of
/// the corners of all faces.
proof fn lemma_face_step(all: Seq<Face>, n: int)
    requires
        0 <= n < all.len(),
    ensures
        corners(all.take(n)).len() == 3 * n,
        corners(all.take(n + 1)) == corners(all.take(n)) + seq![all[n].i1, all[n].i2, all[n].i3],
        3 * n + 3 <= corners(all).len(),
        corners(all).subrange(0, 3 * n + 1) == corners(all.take(n)).push(all[n].i1),
        corners(all).subrange(0, 3 * n + 2) == corners(all.take(n)).push(all[n].i1).push(
            all[n].i2,
        ),
        corners(all).subrange(0, 3 * n + 3) == corners(all.take(n + 1)),
{
    let p = corners(all.take(n));
    lemma_corners_len(all.take(n));
    lemma_corners_len(all);
    assert(all.take(n + 1).drop_last() =~= all.take(n));
    lemma_corners_prefix(all, n + 1);
    assert(all.subrange(0, n + 1) =~= all.take(n + 1));
    let c = corners(all);
    let q = corners(all.take(n + 1));
    assert(c.subrange(0, 3 * n + 1) =~= q.subrange(0, 3 * n + 1));
    assert(c.subrange(0, 3 * n + 2) =~= q.subrange(0, 3 * n + 2));
    assert(q.subrange(0, 3 * n + 1) =~= p.push(all[n].i1));
    assert(q.subrange(0, 3 * n + 2) =~= p.push(all[n].i1).push(all[n].i2));
}

/// Faces whose vertices are all copied keep their remapped indices as more vertices are copied.
proof fn lemma_remapped_stable(done: Seq<Face>, order: Seq<u32>, longer: Seq<u32>, base: int)
    requires
        longer.no_duplicates(),
        order.len() <= longer.len(),
        longer.subrange(0, order.len() as int) == order,
        forall|x: u32| corners(done).contains(x) ==> #[trigger] order.contains(x),
    ensures
        done.map_values(|f: Face| remapped_face(f, order, base)) == done.map_values(
            |f: Face| remapped_face(f, longer, base),
        ),
{
    assert forall|i: int| 0 <= i < done.len() implies remapped_face(done[i], order, base)
        == remapped_face(done[i], longer, base) by {
        lemma_corners_index(done, i);
        let c = corners(done);
        assert(c.contains(c[3 * i]));
        assert(c.contains(c[3 * i + 1]));
        assert(c.contains(c[3 * i + 2]));
        lemma_index_of_stable(order, longer, done[i].i1);
        lemma_index_of_stable(order, longer, done[i].i2);
        lemma_index_of_stable(order, longer, done[i].i3);
    }
    assert(done.map_values(|f: Face| remapped_face(f, order, base)) =~= done.map_values(
        |f: Face| remapped_face(f, longer, base),
    ));
}

/// Collects the faces that the ranges pick out.
fn pick_faces(faces: &Vec<Face>, ranges: &Vec<(usize, usize)>) -> (picked: Vec<Face>)
    requires
        forall|r: int| 0 <= r < ranges.len() ==> ranges[r].0 + ranges[r].1 <= faces.len(),
    ensures
        picked@ == picked_faces(faces@, ranges@),
{
    let mut picked: Vec<Face> = Vec::new();
    let mut r: usize = 0;
    while r < ranges.len()
        invariant
            r <= ranges.len(),
            forall|i: int| 0 <= i < ranges.len() ==> ranges[i].0 + ranges[i].1 <= faces.len(),
            picked@ == picked_faces(faces@, ranges@.take(r as int)),
        decreases ranges.len() - r,
    {
        let (start, length) = ranges[r];
        let end = start + length;
        let ghost before = picked@;
        let mut f: usize = start;
        while f < end
            invariant
                start <= f <= end <= faces.len(),
                picked@ == before + faces@.subrange(start as int, f as int),
            decreases end - f,
        {
            picked.push(faces[f]);
            f += 1;
            proof {
                assert(picked@ =~= before + faces@.subrange(start as int, f as int));
            }
        }
        proof {
            assert(ranges@.take(r + 1).drop_last() =~= ranges@.take(r as int));
        }
        r += 1;
    }
    proof {
        assert(ranges@.take(r as int) =~= ranges@);
    }
    picked
}

/// The copy order after visiting one more vertex: it is added at the end unless it is in already.
pub open spec fn add_first(order: Seq<u32>, x: u32) -> Seq<u32> {
    if order.contains(x) {
        order
    } else {
        order.push(x)
    }
}

/// The copy order after visiting the three vertices of a face.
pub open spec fn add_face(order: Seq<u32>, face: Face) -> Seq<u32> {
    add_first(add_first(add_first(order, face.i1), face.i2), face.i3)
}

proof fn lemma_add_first_prefix(order: Seq<u32>, x: u32)
    ensures
        add_first(order, x).len() >= order.len(),
        add_first(order, x).subrange(0, order.len() as int) == order,
        add_first(order, x).contains(x),
        forall|y: u32| order.contains(y) ==> #[trigger] add_first(order, x).contains(y),
{
    if !order.contains(x) {
        assert(order.push(x).subrange(0, order.len() as int) =~= order);
        assert(order.push(x)[order.len() as int] == x);
        assert forall|y: u32| order.contains(y) implies #[trigger] order.push(x).contains(y) by {
            let i = choose|i: int| 0 <= i < order.len() && order[i] == y;
            assert(order.push(x)[i] == y);
        }
    }
}

/// Remaps the three vertices of a face, copying those not copied yet.
fn remap_face(
    face: Face,
    map: &mut BTreeMap<u32, u32>,
    copied: &mut Vec<u32>,
    next: &mut u32,
    source: &VertexBuffer,
    target: &mut VertexBuffer,
    Ghost(base): Ghost<int>,
    Ghost(start): Ghost<Seq<u8>>,
) -> (remapped: Face)
    requires
        source.wf(),
        remap_state(old(map)@, old(copied)@, base, *source, start, *old(target)),
        *old(next) == base + old(copied)@.len(),
        face.i1 < source.spec_len(),
        face.i2 < source.spec_len(),
        face.i3 < source.spec_len(),
        base + add_face(old(copied)@, face).len() <= u32::MAX,
        (base + add_face(old(copied)@, face).len()) * source.spec_stride() <= isize::MAX,
    ensures
        final(copied)@ == add_face(old(copied)@, face),
        remap_state(final(map)@, final(copied)@, base, *source, start, *final(target)),
        *final(next) == base + final(copied)@.len(),
        remapped == remapped_face(face, final(copied)@, base),
{
    let ghost limit = base + add_face(copied@, face).len();
    let ghost before = copied@;
    proof {
        lemma_add_first_prefix(before, face.i1);
        lemma_add_first_prefix(add_first(before, face.i1), face.i2);
        lemma_add_first_prefix(add_first(add_first(before, face.i1), face.i2), face.i3);
        if !copied@.contains(face.i1) {
            lemma_room(*target, limit);
        }
    }
    let i1 = remap_corner(face.i1, map, copied, next, source, target, Ghost(base), Ghost(start));
    let ghost after1 = copied@;
    proof {
        if !copied@.contains(face.i2) {
            lemma_room(*target, limit);
        }
    }
    let i2 = remap_corner(face.i2, map, copied, next, source, target, Ghost(base), Ghost(start));
    let ghost after2 = copied@;
    proof {
        if !copied@.contains(face.i3) {
            lemma_room(*target, limit);
        }
    }
    let i3 = remap_corner(face.i3, map, copied, next, source, target, Ghost(base), Ghost(start));
    proof {
        let c = copied@;
        lemma_state_no_duplicates(map@, c, base, *source, start, *target);
        lemma_add_first_prefix(after2, face.i3);
        lemma_add_first_prefix(after1, face.i2);
        assert(c.subrange(0, after1.len() as int) =~= after1);
        lemma_index_of_stable(after1, c, face.i1);
        lemma_index_of_stable(after2, c, face.i2);
    }
    Face::new(i1, i2, i3)
}

/// The old vertices that a remap by faces copies, in order: each vertex of a picked face, the
/// first time a picked face uses it.
pub open spec fn face_remap_order(faces: Seq<Face>, ranges: Seq<(usize, usize)>) -> Seq<u32> {
    first_occurrences(corners(picked_faces(faces, ranges)))
}

/// Copies the faces that the `(start, length)` ranges pick out, together with the vertices they
/// use, onto the ends of `new_faces` and `new_vertices`. A vertex is copied once, when a picked
/// face first uses it, and the copied faces point at the copies. Returns the old index of each
/// copied vertex, in the order of the copies.
pub fn remap_mesh_by_faces(
    faces: &Vec<Face>,
    vertices: &VertexBuffer,
    ranges: &Vec<(usize, usize)>,
    new_faces: &mut Vec<Face>,
    new_vertices: &mut VertexBuffer,
) -> (copied: Vec<u32>)
    requires
        vertices.wf(),
        old(new_vertices).wf(),
        vertices.same_layout(old(new_vertices)),
        forall|r: int| 0 <= r < ranges.len() ==> ranges[r].0 + ranges[r].1 <= faces.len(),
        forall|k: int|
            0 <= k < corners(picked_faces(faces@, ranges@)).len() ==> #[trigger] corners(
                picked_faces(faces@, ranges@),
            )[k] < vertices.spec_len(),
        old(new_vertices).spec_len() + face_remap_order(faces@, ranges@).len() <= u32::MAX,
        (old(new_vertices).spec_len() + face_remap_order(faces@, ranges@).len())
            * vertices.spec_stride() <= isize::MAX,
    ensures
        copied@ == face_remap_order(faces@, ranges@),
        final(new_faces)@ == old(new_faces)@ + picked_faces(faces@, ranges@).map_values(
            |f: Face| remapped_face(f, copied@, old(new_vertices).spec_len()),
        ),
        final(new_vertices).wf(),
        final(new_vertices).same_layout(old(new_vertices)),
        final(new_vertices).bytes() == old(new_vertices).bytes() + copied_bytes(*vertices, copied@),
{
    let picked = pick_faces(faces, ranges);
    let ghost all = picked@;
    let ghost everything = corners(all);
    let ghost base = new_vertices.spec_len();
    let ghost start = new_vertices.bytes();
    let ghost start_faces = new_faces@;
    let ghost stride = vertices.spec_stride();
    let mut next: u32 = new_vertices.len() as u32;
    let mut map: BTreeMap<u32, u32> = BTreeMap::new();
    let mut copied: Vec<u32> = Vec::new();
    proof {
        assert(all.take(0) =~= Seq::<Face>::empty());
        assert(copied_bytes(*vertices, copied@) =~= Seq::<u8>::empty());
        assert(new_vertices.bytes() =~= start + copied_bytes(*vertices, copied@));
        assert(all.take(0).map_values(|f: Face| remapped_face(f, copied@, base)) =~= Seq::<
            Face,
        >::empty());
        assert(new_faces@ =~= start_faces + all.take(0).map_values(
            |f: Face| remapped_face(f, copied@, base),
        ));
    }
    let mut k: usize = 0;
    while k < picked.len()
        invariant
            k <= all.len(),
            picked@ == all,
            everything == corners(all),
            vertices.wf(),
            stride == vertices.spec_stride(),
            forall|i: int| 0 <= i < everything.len() ==> #[trigger] everything[i] < vertices.spec_len(),
            base + first_occurrences(everything).len() <= u32::MAX,
            (base + first_occurrences(everything).len()) * stride <= isize::MAX,
            remap_state(map@, copied@, base, *vertices, start, *new_vertices),
            copied@ == first_occurrences(corners(all.take(k as int))),
            next == base + copied@.len(),
            new_faces@ == start_faces + all.take(k as int).map_values(
                |f: Face| remapped_face(f, copied@, base),
            ),
        decreases all.len() - k,
    {
        let face = picked[k];
        let ghost before = copied@;
        let ghost p = corners(all.take(k as int));
        proof {
            lemma_face_step(all, k as int);
            lemma_corners_len(all);
            lemma_first_occurrences_push(p, face.i1);
            lemma_first_occurrences_push(p.push(face.i1), face.i2);
            lemma_first_occurrences_push(p.push(face.i1).push(face.i2), face.i3);
            assert(p.push(face.i1).push(face.i2).push(face.i3) =~= corners(all.take(k + 1)));
            lemma_first_occurrences_prefix(corners(all.take(k + 1)), everything);
            assert(everything[3 * k] == face.i1);
            assert(everything[3 * k + 1] == face.i2);
            assert(everything[3 * k + 2] == face.i3);
            vstd::arithmetic::mul::lemma_mul_inequality(
                base + add_face(before, face).len(),
                base + first_occurrences(everything).len(),
                stride,
            );
        }
        let remapped = remap_face(face, &mut map, &mut copied, &mut next, vertices, new_vertices, Ghost(base), Ghost(start));
        new_faces.push(remapped);
        proof {
            let c = copied@;
            lemma_state_no_duplicates(map@, c, base, *vertices, start, *new_vertices);
            lemma_add_first_prefix(before, face.i1);
            lemma_add_first_prefix(add_first(before, face.i1), face.i2);
            lemma_add_first_prefix(add_first(add_first(before, face.i1), face.i2), face.i3);
            assert(c.subrange(0, before.len() as int) =~= before);
            lemma_first_occurrences(p);
            lemma_remapped_stable(all.take(k as int), before, c, base);
            let done = all.take(k + 1);
            assert(done.drop_last() =~= all.take(k as int));
            assert(done.map_values(|f: Face| remapped_face(f, c, base)) =~= all.take(k as int).map_values(
                |f: Face| remapped_face(f, c, base),
            ).push(remapped_face(face, c, base)));
            assert(new_faces@ =~= start_faces + done.map_values(|f: Face| remapped_face(f, c, base)));
        }
        k += 1;
    }
    proof {
        assert(all.take(k as int) =~= all);
    }
    copied
}

/// There is room for one more vertex in a buffer that holds fewer than `limit` vertices.
pub(crate) proof fn lemma_room(target: VertexBuffer, limit: int)
    requires
        target.wf(),
        target.spec_len() < limit,
        limit * target.spec_stride() <= isize::MAX,
    ensures
        target.bytes().len() + target.spec_stride() <= isize::MAX,
{
    let stride = target.spec_stride();
    let n = target.spec_len();
    vstd::arithmetic::div_mod::lemma_fundamental_div_mod(target.bytes().len() as int, stride);
    vstd::arithmetic::mul::lemma_mul_is_commutative(n, stride);
    vstd::arithmetic::mul::lemma_mul_inequality(n + 1, limit, stride);
    vstd::arithmetic::mul::lemma_mul_is_distributive_add_other_way(stride, n, 1);
}

/// The copies lie one after another, each with the bytes of the vertex it copies.
pub(crate) proof fn lemma_copied_bytes(vertices: VertexBuffer, order: Seq<u32>)
    requires
        vertices.wf(),
        forall|j: int| 0 <= j < order.len() ==> #[trigger] order[j] < vertices.spec_len(),
    ensures
        copied_bytes(vertices, order).len() == order.len() * vertices.spec_stride(),
        forall|j: int|
            0 <= j < order.len() ==> copied_bytes(vertices, order).subrange(
                j * vertices.spec_stride(),
                (j + 1) * vertices.spec_stride(),
            ) == vertices.vertex_bytes(#[trigger] order[j] as int),
    decreases order.len(),
{
    let stride = vertices.spec_stride();
    if order.len() > 0 {
        let rest = order.drop_last();
        lemma_copied_bytes(vertices, rest);
        let last = order.last() as int;
        let len = vertices.bytes().len() as int;
        vstd::arithmetic::div_mod::lemma_fundamental_div_mod(len, stride);
        vstd::arithmetic::mul::lemma_mul_inequality(last + 1, len / stride, stride);
        vstd::arithmetic::mul::lemma_mul_is_commutative(len / stride, stride);
        vstd::arithmetic::mul::lemma_mul_is_distributive_add_other_way(stride, last, 1);
        vstd::arithmetic::mul::lemma_mul_nonnegative(last, stride);
        vstd::arithmetic::mul::lemma_mul_is_distributive_add_other_way(stride, rest.len() as int, 1);
        let cb = copied_bytes(vertices, order);
        let rb = copied_bytes(vertices, rest);
        assert forall|j: int| 0 <= j < order.len() implies cb.subrange(
            j * stride,
            (j + 1) * stride,
        ) == vertices.vertex_bytes(#[trigger] order[j] as int) by {
            vstd::arithmetic::mul::lemma_mul_is_distributive_add_other_way(stride, j, 1);
            if j < rest.len() {
                vstd::arithmetic::mul::lemma_mul_inequality(j + 1, rest.len() as int, stride);
                vstd::arithmetic::mul::lemma_mul_nonnegative(j, stride);
                assert(rest[j] == order[j]);
                assert(cb.subrange(j * stride, (j + 1) * stride) =~= rb.subrange(
                    j * stride,
                    (j + 1) * stride,
                ));
            } else {
                assert(cb.subrange(j * stride, (j + 1) * stride) =~= vertices.vertex_bytes(last));
            }
        }
    }
}

/// The vertex at `base + j` of a buffer made of `base` vertices followed by copies is the copy
/// of `order[j]`.
pub(crate) proof fn lemma_copy_lands(vertices: VertexBuffer, start: VertexBuffer, result: VertexBuffer, order: Seq<u32>, j: int)
    requires
        vertices.wf(),
        start.wf(),
        vertices.same_layout(&start),
        result.same_layout(&start),
        result.bytes() == start.bytes() + copied_bytes(vertices, order),
        forall|i: int| 0 <= i < order.len() ==> #[trigger] order[i] < vertices.spec_len(),
        0 <= j < order.len(),
    ensures
        result.vertex_bytes(start.spec_len() + j) == vertices.vertex_bytes(order[j] as int),
        start.spec_len() + j < result.spec_len(),
{
    let stride = vertices.spec_stride();
    let base = start.spec_len();
    lemma_copied_bytes(vertices, order);
    let len = start.bytes().len() as int;
    vstd::arithmetic::div_mod::lemma_fundamental_div_mod(len, stride);
    vstd::arithmetic::mul::lemma_mul_is_commutative(base, stride);
    vstd::arithmetic::mul::lemma_mul_is_distributive_add_other_way(stride, base, j);
    vstd::arithmetic::mul::lemma_mul_is_distributive_add_other_way(stride, base, j + 1);
    vstd::arithmetic::mul::lemma_mul_is_distributive_add_other_way(stride, j, 1);
    vstd::arithmetic::mul::lemma_mul_inequality(j + 1, order.len() as int, stride);
    vstd::arithmetic::mul::lemma_mul_nonnegative(j, stride);
    let cb = copied_bytes(vertices, order);
    assert(result.vertex_bytes(base + j) =~= cb.subrange(j * stride, (j + 1) * stride));
    vstd::arithmetic::mul::lemma_mul_is_distributive_add_other_way(stride, base, order.len() as int);
    vstd::arithmetic::div_mod::lemma_div_multiples_vanish(base + order.len(), stride);
    vstd::arithmetic::mul::lemma_mul_is_commutative(base + order.len(), stride);
}

/// Each corner of `copy` is one of the vertices of `result` from `first` on, with the bytes of the
/// same corner of `face` in `source`.
pub open spec fn copy_matches(
    face: Face,
    copy: Face,
    source: VertexBuffer,
    first: int,
    result: VertexBuffer,
) -> bool {
    &&& first <= copy.i1 < result.spec_len()
    &&& first <= copy.i2 < result.spec_len()
    &&& first <= copy.i3 < result.spec_len()
    &&& result.vertex_bytes(copy.i1 as int) == source.vertex_bytes(face.i1 as int)
    &&& result.vertex_bytes(copy.i2 as int) == source.vertex_bytes(face.i2 as int)
    &&& result.vertex_bytes(copy.i3 as int) == source.vertex_bytes(face.i3 as int)
}

/// A remap by faces copies no vertex twice, and each corner of a copied face is a vertex with the
/// bytes of the same corner of the face it was copied from.
pub proof fn law_remap_by_faces_keeps_faces(
    faces: Seq<Face>,
    ranges: Seq<(usize, usize)>,
    vertices: VertexBuffer,
    start: VertexBuffer,
    result: VertexBuffer,
)
    requires
        vertices.wf(),
        start.wf(),
        vertices.same_layout(&start),
        result.same_layout(&start),
        forall|k: int|
            0 <= k < corners(picked_faces(faces, ranges)).len() ==> #[trigger] corners(
                picked_faces(faces, ranges),
            )[k] < vertices.spec_len(),
        start.spec_len() + face_remap_order(faces, ranges).len() <= u32::MAX,
        result.bytes() == start.bytes() + copied_bytes(vertices, face_remap_order(faces, ranges)),
    ensures
        face_remap_order(faces, ranges).no_duplicates(),
        forall|k: int|
            #![trigger picked_faces(faces, ranges)[k]]
            0 <= k < picked_faces(faces, ranges).len() ==> copy_matches(
                picked_faces(faces, ranges)[k],
                remapped_face(
                    picked_faces(faces, ranges)[k],
                    face_remap_order(faces, ranges),
                    start.spec_len(),
                ),
                vertices,
                start.spec_len(),
                result,
            ),
{
    let picked = picked_faces(faces, ranges);
    let c = corners(picked);
    let order = face_remap_order(faces, ranges);
    lemma_first_occurrences(c);
    assert forall|j: int| 0 <= j < order.len() implies #[trigger] order[j] < vertices.spec_len() by {
        assert(order.contains(order[j]));
        let i = choose|i: int| 0 <= i < c.len() && c[i] == order[j];
    }
    assert forall|k: int| 0 <= k < picked.len() implies copy_matches(
        #[trigger] picked[k],
        remapped_face(picked[k], order, start.spec_len()),
        vertices,
        start.spec_len(),
        result,
    ) by {
        let f = picked[k];
        lemma_corners_index(picked, k);
        assert(c.contains(c[3 * k]));
        assert(c.contains(c[3 * k + 1]));
        assert(c.contains(c[3 * k + 2]));
        lemma_lands(vertices, start, result, order, f.i1);
        lemma_lands(vertices, start, result, order, f.i2);
        lemma_lands(vertices, start, result, order, f.i3);
    }
}

proof fn lemma_lands(vertices: VertexBuffer, start: VertexBuffer, result: VertexBuffer, order: Seq<u32>, x: u32)
    requires
        vertices.wf(),
        start.wf(),
        vertices.same_layout(&start),
        result.same_layout(&start),
        result.bytes() == start.bytes() + copied_bytes(vertices, order),
        forall|i: int| 0 <= i < order.len() ==> #[trigger] order[i] < vertices.spec_len(),
        order.contains(x),
        start.spec_len() + order.len() <= u32::MAX,
    ensures
        start.spec_len() <= landing(order, start.spec_len(), x) < result.spec_len(),
        result.vertex_bytes(landing(order, start.spec_len(), x) as int) == vertices.vertex_bytes(x as int),
{
    let j = order.index_of(x);
    lemma_copy_lands(vertices, start, result, order, j);
    assert(0 <= start.spec_len());
}

/// Puts a vertex at the end of a copy order unless it is in already.
fn add_distinct(x: u32, seen: &mut BTreeSet<u32>, order: &mut Vec<u32>)
    requires
        forall|y: u32| #[trigger] old(seen)@.contains(y) <==> old(order)@.contains(y),
    ensures
        final(order)@ == add_first(old(order)@, x),
        forall|y: u32| #[trigger] final(seen)@.contains(y) <==> final(order)@.contains(y),
{
    if !seen.contains(&x) {
        seen.insert(x);
        let ghost before = order@;
        order.push(x);
        proof {
            assert forall|y: u32| #[trigger] seen@.contains(y) <==> order@.contains(y) by {
                if order@.contains(y) && y != x {
                    let i = choose|i: int| 0 <= i < order@.len() && order@[i] == y;
                    assert(before[i] == y);
                }
                if before.contains(y) {
                    let i = choose|i: int| 0 <= i < before.len() && before[i] == y;
                    assert(order@[i] == y);
                }
                assert(order@[before.len() as int] == x);
            }
        }
    }
}

/// The old vertices a remap by faces copies, in order, worked out without copying them.
fn face_remap_order_of(picked: &Vec<Face>) -> (order: Vec<u32>)
    ensures
        order@ == first_occurrences(corners(picked@)),
{
    let ghost all = picked@;
    let mut seen: BTreeSet<u32> = BTreeSet::new();
    let mut order: Vec<u32> = Vec::new();
    proof {
        assert(all.take(0) =~= Seq::<Face>::empty());
    }
    let mut k: usize = 0;
    while k < picked.len()
        invariant
            k <= all.len(),
            picked@ == all,
            order@ == first_occurrences(corners(all.take(k as int))),
            forall|y: u32| #[trigger] seen@.contains(y) <==> order@.contains(y),
        decreases all.len() - k,
    {
        let face = picked[k];
        let ghost p = corners(all.take(k as int));
        proof {
            lemma_face_step(all, k as int);
            lemma_first_occurrences_push(p, face.i1);
            lemma_first_occurrences_push(p.push(face.i1), face.i2);
            lemma_first_occurrences_push(p.push(face.i1).push(face.i2), face.i3);
            assert(p.push(face.i1).push(face.i2).push(face.i3) =~= corners(all.take(k + 1)));
        }
        add_distinct(face.i1, &mut seen, &mut order);
        add_distinct(face.i2, &mut seen, &mut order);
        add_distinct(face.i3, &mut seen, &mut order);
        k += 1;
    }
    proof {
        assert(all.take(k as int) =~= all);
    }
    order
}

/// Whether a remap by faces onto `target` picks only faces that `faces` has, reads only
/// vertices that `vertices` has, numbers its copies within 32 bits and fits the target in
/// memory.
pub open spec fn face_remap_fits(
    faces: Seq<Face>,
    ranges: Seq<(usize, usize)>,
    vertices: VertexBuffer,
    target: VertexBuffer,
) -> bool {
    &&& forall|r: int| 0 <= r < ranges.len() ==> #[trigger] ranges[r].0 + ranges[r].1 <= faces.len()
    &&& forall|k: int|
        0 <= k < corners(picked_faces(faces, ranges)).len() ==> #[trigger] corners(
            picked_faces(faces, ranges),
        )[k] < vertices.spec_len()
    &&& target.spec_len() + face_remap_order(faces, ranges).len() <= u32::MAX
    &&& (target.spec_len() + face_remap_order(faces, ranges).len()) * vertices.spec_stride()
        <= isize::MAX
}

/// Remaps by faces as `remap_mesh_by_faces` does when the remap fits; otherwise returns `None`
/// and changes nothing.
pub fn try_remap_mesh_by_faces(
    faces: &Vec<Face>,
    vertices: &VertexBuffer,
    ranges: &Vec<(usize, usize)>,
    new_faces: &mut Vec<Face>,
    new_vertices: &mut VertexBuffer,
) -> (copied: Option<Vec<u32>>)
    requires
        vertices.wf(),
        old(new_vertices).wf(),
        vertices.same_layout(old(new_vertices)),
    ensures
        face_remap_fits(faces@, ranges@, *vertices, *old(new_vertices)) ==> (copied matches Some(
            c,
        ) && c@ == face_remap_order(faces@, ranges@) && final(new_faces)@ == old(new_faces)@
            + picked_faces(faces@, ranges@).map_values(
            |f: Face| remapped_face(f, c@, old(new_vertices).spec_len()),
        ) && final(new_vertices).wf() && final(new_vertices).same_layout(old(new_vertices))
            && final(new_vertices).bytes() == old(new_vertices).bytes() + copied_bytes(
            *vertices,
            c@,
        )),
        !face_remap_fits(faces@, ranges@, *vertices, *old(new_vertices)) ==> copied is None
            && final(new_faces)@ == old(new_faces)@ && *final(new_vertices) == *old(new_vertices),
{
    let mut r: usize = 0;
    while r < ranges.len()
        invariant
            r <= ranges.len(),
            *new_vertices == *old(new_vertices),
            new_faces@ == old(new_faces)@,
            forall|i: int| 0 <= i < r ==> #[trigger] ranges[i].0 + ranges[i].1 <= faces.len(),
        decreases ranges.len() - r,
    {
        let (start, length) = ranges[r];
        match start.checked_add(length) {
            Some(end) => {
                if end > faces.len() {
                    proof {
                        assert(ranges[r as int].0 + ranges[r as int].1 > faces.len());
                    }
                    return None;
                }
            },
            None => {
                proof {
                    assert(ranges[r as int].0 + ranges[r as int].1 > faces.len());
                }
                return None;
            },
        }
        r += 1;
    }
    let picked = pick_faces(faces, ranges);
    let order = face_remap_order_of(&picked);
    let base = new_vertices.len();
    let count = vertices.len();
    let ghost c = corners(picked@);
    proof {
        lemma_first_occurrences(c);
    }
    let mut j: usize = 0;
    while j < order.len()
        invariant
            j <= order.len(),
            count == vertices.spec_len(),
            c == corners(picked_faces(faces@, ranges@)),
            *new_vertices == *old(new_vertices),
            new_faces@ == old(new_faces)@,
            order@ == first_occurrences(c),
            forall|y: u32| #[trigger] order@.contains(y) <==> c.contains(y),
            forall|i: int| 0 <= i < j ==> #[trigger] order@[i] < count,
        decreases order.len() - j,
    {
        if order[j] as usize >= count {
            proof {
                assert(order@.contains(order@[j as int]));
                assert(c.contains(order@[j as int]));
                let k = choose|k: int| 0 <= k < c.len() && c[k] == order@[j as int];
                assert(c[k] >= vertices.spec_len());
            }
            return None;
        }
        j += 1;
    }
    proof {
        assert forall|k: int| 0 <= k < c.len() implies #[trigger] c[k] < vertices.spec_len() by {
            assert(c.contains(c[k]));
            assert(order@.contains(c[k]));
            let i = choose|i: int| 0 <= i < order@.len() && order@[i] == c[k];
        }
    }
    let total = match base.checked_add(order.len()) {
        Some(total) => total,
        None => {
            return None;
        },
    };
    if total > 0xffff_ffff {
        return None;
    }
    let bytes = match total.checked_mul(vertices.stride()) {
        Some(bytes) => bytes,
        None => {
            return None;
        },
    };
    if bytes > isize::MAX as usize {
        return None;
    }
    Some(remap_mesh_by_faces(faces, vertices, ranges, new_faces, new_vertices))
}

} // verus!
