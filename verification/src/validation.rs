use vstd::prelude::*;

use crate::face::Face;
use crate::vertex_buffer::{VertexBuffer, WeightBoneId};

verus! {

/// The positions, in order, of the items that a test picks out.
pub open spec fn positions_where<T>(items: Seq<T>, test: spec_fn(T) -> bool) -> Seq<usize>
    decreases items.len(),
{
    if items.len() == 0 {
        Seq::empty()
    } else {
        let earlier = positions_where(items.drop_last(), test);
        if test(items.last()) {
            earlier.push((items.len() - 1) as usize)
        } else {
            earlier
        }
    }
}

/// A face that refers to a vertex the buffer does not have.
pub open spec fn face_out_of_range(face: Face, vertex_count: u32) -> bool {
    !(face.i1 < vertex_count && face.i2 < vertex_count && face.i3 < vertex_count)
}

/// A face with two equal corners, which has no area.
pub open spec fn face_degenerate(face: Face) -> bool {
    face.i1 == face.i2 || face.i1 == face.i3 || face.i2 == face.i3
}

proof fn lemma_positions_step<T>(items: Seq<T>, test: spec_fn(T) -> bool, i: int)
    requires
        0 <= i < items.len(),
    ensures
        positions_where(items.take(i + 1), test) == if test(items[i]) {
            positions_where(items.take(i), test).push(i as usize)
        } else {
            positions_where(items.take(i), test)
        },
{
    assert(items.take(i + 1).drop_last() =~= items.take(i));
}

/// The positions of the faces that refer to a vertex at or past `vertex_count`.
pub fn faces_out_of_range(faces: &Vec<Face>, vertex_count: u32) -> (found: Vec<usize>)
    ensures
        found@ == positions_where(faces@, |f: Face| face_out_of_range(f, vertex_count)),
{
    let ghost test = |f: Face| face_out_of_range(f, vertex_count);
    let mut found: Vec<usize> = Vec::new();
    let mut i: usize = 0;
    proof {
        assert(faces@.take(0) =~= Seq::<Face>::empty());
    }
    while i < faces.len()
        invariant
            i <= faces.len(),
            test == (|f: Face| face_out_of_range(f, vertex_count)),
            found@ == positions_where(faces@.take(i as int), test),
        decreases faces.len() - i,
    {
        proof {
            lemma_positions_step(faces@, test, i as int);
        }
        let face = faces[i];
        if !(face.i1 < vertex_count && face.i2 < vertex_count && face.i3 < vertex_count) {
            found.push(i);
        }
        i += 1;
    }
    proof {
        assert(faces@.take(i as int) =~= faces@);
    }
    found
}

/// The positions of the faces with two equal corners.
pub fn degenerate_faces(faces: &Vec<Face>) -> (found: Vec<usize>)
    ensures
        found@ == positions_where(faces@, |f: Face| face_degenerate(f)),
{
    let ghost test = |f: Face| face_degenerate(f);
    let mut found: Vec<usize> = Vec::new();
    let mut i: usize = 0;
    proof {
        assert(faces@.take(0) =~= Seq::<Face>::empty());
    }
    while i < faces.len()
        invariant
            i <= faces.len(),
            test == (|f: Face| face_degenerate(f)),
            found@ == positions_where(faces@.take(i as int), test),
        decreases faces.len() - i,
    {
        proof {
            lemma_positions_step(faces@, test, i as int);
        }
        let face = faces[i];
        if face.i1 == face.i2 || face.i1 == face.i3 || face.i2 == face.i3 {
            found.push(i);
        }
        i += 1;
    }
    proof {
        assert(faces@.take(i as int) =~= faces@);
    }
    found
}

/// The positions of the bones whose parent is neither `-1` (no parent) nor one of the bones.
pub fn invalid_parents(parents: &Vec<i32>) -> (found: Vec<usize>)
    ensures
        found@ == positions_where(
            parents@,
            |p: i32| !(p == -1 || (p > -1 && p < (parents.len() as i32))),
        ),
{
    let count = parents.len() as i32;
    let ghost test = |p: i32| !(p == -1 || (p > -1 && p < count));
    let mut found: Vec<usize> = Vec::new();
    let mut i: usize = 0;
    proof {
        assert(parents@.take(0) =~= Seq::<i32>::empty());
    }
    while i < parents.len()
        invariant
            i <= parents.len(),
            test == (|p: i32| !(p == -1 || (p > -1 && p < count))),
            found@ == positions_where(parents@.take(i as int), test),
        decreases parents.len() - i,
    {
        proof {
            lemma_positions_step(parents@, test, i as int);
        }
        let parent = parents[i];
        if !(parent == -1 || (parent > -1 && parent < count)) {
            found.push(i);
        }
        i += 1;
    }
    proof {
        assert(parents@.take(i as int) =~= parents@);
    }
    found
}

/// What is wrong with the vertex indices of a blend shape, given in increasing order: `None` when
/// it has more deltas than the mesh has vertices, otherwise the positions of the indices that are
/// not vertices of the mesh.
pub fn blend_shape_issues(indices: &Vec<u32>, vertex_count: usize) -> (issues: Option<Vec<usize>>)
    ensures
        indices.len() > vertex_count ==> issues is None,
        indices.len() <= vertex_count ==> (issues matches Some(found) && found@ == positions_where(
            indices@,
            |x: u32| x as usize >= vertex_count,
        )),
{
    if indices.len() > vertex_count {
        return None;
    }
    let ghost test = |x: u32| x as usize >= vertex_count;
    let mut found: Vec<usize> = Vec::new();
    let mut i: usize = 0;
    proof {
        assert(indices@.take(0) =~= Seq::<u32>::empty());
    }
    while i < indices.len()
        invariant
            i <= indices.len(),
            test == (|x: u32| x as usize >= vertex_count),
            found@ == positions_where(indices@.take(i as int), test),
        decreases indices.len() - i,
    {
        proof {
            lemma_positions_step(indices@, test, i as int);
        }
        if indices[i] as usize >= vertex_count {
            found.push(i);
        }
        i += 1;
    }
    proof {
        assert(indices@.take(i as int) =~= indices@);
    }
    Some(found)
}

/// The number of particles that strands with the given segment counts hold: one more than the
/// segments of each strand.
pub open spec fn particles_needed(segments: Seq<u32>) -> int
    decreases segments.len(),
{
    if segments.len() == 0 {
        0
    } else {
        particles_needed(segments.drop_last()) + segments.last() + 1
    }
}

proof fn lemma_particles_grow(segments: Seq<u32>, i: int)
    requires
        0 <= i <= segments.len(),
    ensures
        particles_needed(segments.take(i)) <= particles_needed(segments),
        0 <= particles_needed(segments.take(i)),
    decreases segments.len() - i,
{
    if i < segments.len() {
        lemma_particles_grow(segments, i + 1);
        assert(segments.take(i + 1).drop_last() =~= segments.take(i));
        lemma_particles_nonnegative(segments.take(i));
    } else {
        assert(segments.take(i) =~= segments);
        lemma_particles_nonnegative(segments);
    }
}

proof fn lemma_particles_nonnegative(segments: Seq<u32>)
    ensures
        0 <= particles_needed(segments),
    decreases segments.len(),
{
    if segments.len() > 0 {
        lemma_particles_nonnegative(segments.drop_last());
    }
}

/// The number of particles that strands with the given segment counts hold.
pub fn particle_count(segments: &Vec<u32>) -> (count: usize)
    requires
        particles_needed(segments@) <= usize::MAX,
    ensures
        count == particles_needed(segments@),
{
    let mut count: usize = 0;
    let mut i: usize = 0;
    proof {
        assert(segments@.take(0) =~= Seq::<u32>::empty());
    }
    while i < segments.len()
        invariant
            i <= segments.len(),
            particles_needed(segments@) <= usize::MAX,
            count == particles_needed(segments@.take(i as int)),
        decreases segments.len() - i,
    {
        proof {
            assert(segments@.take(i + 1).drop_last() =~= segments@.take(i as int));
            lemma_particles_grow(segments@, i + 1);
        }
        count = count + segments[i] as usize + 1;
        i += 1;
    }
    proof {
        assert(segments@.take(i as int) =~= segments@);
    }
    count
}

/// The weights among the first `w` weights of vertex `v` whose bone is not below `limit`, as
/// `(vertex, weight)` pairs in order.
pub open spec fn vertex_weights_outside(vertices: VertexBuffer, limit: WeightBoneId, v: int, w: int) -> Seq<(usize, usize)>
    decreases w,
{
    if w <= 0 {
        Seq::empty()
    } else {
        let earlier = vertex_weights_outside(vertices, limit, v, w - 1);
        if vertices.spec_weight_bone(v, w - 1) >= limit {
            earlier.push((v as usize, (w - 1) as usize))
        } else {
            earlier
        }
    }
}

/// The weights of the first `v` vertices whose bone is not below `limit`, vertex after vertex.
pub open spec fn weights_outside(vertices: VertexBuffer, limit: WeightBoneId, v: int) -> Seq<(usize, usize)>
    decreases v,
{
    if v <= 0 {
        Seq::empty()
    } else {
        weights_outside(vertices, limit, v - 1) + vertex_weights_outside(
            vertices,
            limit,
            v - 1,
            vertices.spec_maximum_influence() as int,
        )
    }
}

/// The weights whose bone is not one of the first `bone_count` bones, the count taken as a bone
/// id, as `(vertex, weight)` pairs, vertex after vertex.
pub fn weights_out_of_range(vertices: &VertexBuffer, bone_count: usize) -> (found: Vec<(usize, usize)>)
    requires
        vertices.wf(),
    ensures
        found@ == weights_outside(*vertices, bone_count as WeightBoneId, vertices.spec_len()),
{
    let limit = bone_count as WeightBoneId;
    let count = vertices.len();
    let influence = vertices.maximum_influence();
    let mut found: Vec<(usize, usize)> = Vec::new();
    let mut v: usize = 0;
    while v < count
        invariant
            v <= count,
            vertices.wf(),
            count == vertices.spec_len(),
            influence == vertices.spec_maximum_influence(),
            found@ == weights_outside(*vertices, limit, v as int),
        decreases count - v,
    {
        let vertex = vertices.vertex(v);
        let ghost before = found@;
        let mut w: usize = 0;
        while w < influence
            invariant
                w <= influence,
                v < count,
                vertices.wf(),
                count == vertices.spec_len(),
                influence == vertices.spec_maximum_influence(),
                *vertex.buffer == *vertices,
                vertex.index == v,
                before == weights_outside(*vertices, limit, v as int),
                found@ == before + vertex_weights_outside(*vertices, limit, v as int, w as int),
            decreases influence - w,
        {
            if vertex.weight_bone(w) >= limit {
                found.push((v, w));
            }
            w += 1;
            proof {
                assert(found@ =~= before + vertex_weights_outside(*vertices, limit, v as int, w as int));
            }
        }
        v += 1;
    }
    found
}

/// The particle pairs that the segments of hair strands join: strand after strand, each segment
/// joins a particle and the next one, and each strand starts one particle past the last particle
/// of the strand before it.
pub open spec fn segment_pairs(segments: Seq<u32>) -> Seq<(usize, usize)>
    decreases segments.len(),
{
    if segments.len() == 0 {
        Seq::empty()
    } else {
        let offset = particles_needed(segments.drop_last());
        segment_pairs(segments.drop_last()) + Seq::new(
            segments.last() as nat,
            |t: int| ((offset + t) as usize, (offset + t + 1) as usize),
        )
    }
}

/// The particle pairs that the segments of hair strands join, in order.
pub fn hair_segment_pairs(segments: &Vec<u32>) -> (pairs: Vec<(usize, usize)>)
    requires
        particles_needed(segments@) <= usize::MAX,
    ensures
        pairs@ == segment_pairs(segments@),
{
    let mut pairs: Vec<(usize, usize)> = Vec::new();
    let mut offset: usize = 0;
    let mut i: usize = 0;
    proof {
        assert(segments@.take(0) =~= Seq::<u32>::empty());
    }
    while i < segments.len()
        invariant
            i <= segments.len(),
            particles_needed(segments@) <= usize::MAX,
            offset == particles_needed(segments@.take(i as int)),
            pairs@ == segment_pairs(segments@.take(i as int)),
        decreases segments.len() - i,
    {
        proof {
            assert(segments@.take(i + 1).drop_last() =~= segments@.take(i as int));
            lemma_particles_grow(segments@, i + 1);
        }
        let count = segments[i] as usize;
        let ghost before = pairs@;
        let mut t: usize = 0;
        while t < count
            invariant
                t <= count,
                offset + count + 1 <= usize::MAX,
                pairs@ == before + Seq::new(
                    t as nat,
                    |k: int| ((offset + k) as usize, (offset + k + 1) as usize),
                ),
            decreases count - t,
        {
            pairs.push((offset + t, offset + t + 1));
            t += 1;
            proof {
                assert(pairs@ =~= before + Seq::new(
                    t as nat,
                    |k: int| ((offset + k) as usize, (offset + k + 1) as usize),
                ));
            }
        }
        offset = offset + count + 1;
        i += 1;
    }
    proof {
        assert(segments@.take(i as int) =~= segments@);
    }
    pairs
}

/// The faces of the mesh that hair with `count` segments makes: each segment has six vertices of
/// its own, in order, and two triangles, over its first three and its last three vertices.
pub open spec fn hair_face(k: int) -> Face {
    let first = 6 * (k / 2) + 3 * (k % 2);
    Face { i1: first as u32, i2: (first + 1) as u32, i3: (first + 2) as u32 }
}

/// The faces of the mesh that hair with `count` segments makes.
pub fn hair_faces(count: usize) -> (faces: Vec<Face>)
    requires
        6 * count <= u32::MAX + 1,
    ensures
        faces@ == Seq::new(2 * count as nat, |k: int| hair_face(k)),
{
    let mut faces: Vec<Face> = Vec::new();
    let mut s: usize = 0;
    while s < count
        invariant
            s <= count,
            6 * count <= u32::MAX + 1,
            faces@ == Seq::new(2 * s as nat, |k: int| hair_face(k)),
        decreases count - s,
    {
        let first = (6 * s) as u32;
        faces.push(Face::new(first, first + 1, first + 2));
        faces.push(Face::new(first + 3, first + 4, first + 5));
        proof {
            assert(hair_face(2 * s) == (Face { i1: first, i2: (first + 1) as u32, i3: (first + 2) as u32 }));
            assert(hair_face(2 * s + 1) == (Face { i1: (first + 3) as u32, i2: (first + 4) as u32, i3: (first + 5) as u32 }));
        }
        s += 1;
        proof {
            assert(faces@ =~= Seq::new(2 * s as nat, |k: int| hair_face(k)));
        }
    }
    faces
}

} // verus!
