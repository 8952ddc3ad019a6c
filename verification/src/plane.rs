use vstd::prelude::*;

use crate::face::Face;

verus! {

/// The vertex at column `x` and row `y` of a grid with `width` vertices per row, counted row by
/// row.
pub open spec fn grid_vertex(width: int, x: int, y: int) -> u32 {
    (y * width + x) as u32
}

/// The first of the two triangles of the cell at column `x` and row `y` of a plane subdivided
/// `subdivision` times: over the far corner, the next corner of the row and the cell's corner.
pub open spec fn plane_first_face(subdivision: int, x: int, y: int) -> Face {
    let w = subdivision + 1;
    Face { i1: grid_vertex(w, x + 1, y + 1), i2: grid_vertex(w, x + 1, y), i3: grid_vertex(w, x, y) }
}

/// The second of the two triangles of a cell: over the corner of the next row, the far corner
/// and the cell's corner.
pub open spec fn plane_second_face(subdivision: int, x: int, y: int) -> Face {
    let w = subdivision + 1;
    Face { i1: grid_vertex(w, x, y + 1), i2: grid_vertex(w, x + 1, y + 1), i3: grid_vertex(w, x, y) }
}

/// The faces of a flat plane subdivided into `subdivision` by `subdivision` cells, whose
/// vertices are laid out row by row: two triangles per cell, cell after cell, row after row.
pub fn plane_faces(subdivision: usize) -> (faces: Vec<Face>)
    requires
        (subdivision + 1) * (subdivision + 1) <= u32::MAX,
    ensures
        faces.len() == 2 * subdivision * subdivision,
        forall|x: int, y: int|
            0 <= x < subdivision && 0 <= y < subdivision ==> {
                &&& #[trigger] faces@[2 * (y * subdivision + x)] == plane_first_face(subdivision as int, x, y)
                &&& faces@[2 * (y * subdivision + x) + 1] == plane_second_face(subdivision as int, x, y)
            },
{
    let s = subdivision;
    let ghost si = s as int;
    proof {
        assert(0 <= s * s <= (s + 1) * (s + 1)) by (nonlinear_arith);
        assert(s + 1 <= (s + 1) * (s + 1)) by (nonlinear_arith);
    }
    let width: u32 = (s + 1) as u32;
    let mut faces: Vec<Face> = Vec::new();
    let mut y: usize = 0;
    while y < s
        invariant
            y <= s,
            si == s,
            width == s + 1,
            (s + 1) * (s + 1) <= u32::MAX,
            faces.len() == 2 * (y * s),
            forall|x0: int, y0: int|
                0 <= x0 < s && 0 <= y0 < y ==> {
                    &&& #[trigger] faces@[2 * (y0 * s + x0)] == plane_first_face(si, x0, y0)
                    &&& faces@[2 * (y0 * s + x0) + 1] == plane_second_face(si, x0, y0)
                },
        decreases s - y,
    {
        let mut x: usize = 0;
        while x < s
            invariant
                x <= s,
                y < s,
                si == s,
                width == s + 1,
                (s + 1) * (s + 1) <= u32::MAX,
                faces.len() == 2 * (y * s + x),
                forall|x0: int, y0: int|
                    0 <= x0 < s && 0 <= y0 < y ==> {
                        &&& #[trigger] faces@[2 * (y0 * s + x0)] == plane_first_face(si, x0, y0)
                        &&& faces@[2 * (y0 * s + x0) + 1] == plane_second_face(si, x0, y0)
                    },
                forall|x0: int|
                    0 <= x0 < x ==> {
                        &&& #[trigger] faces@[2 * (y * s + x0)] == plane_first_face(si, x0, y as int)
                        &&& faces@[2 * (y * s + x0) + 1] == plane_second_face(si, x0, y as int)
                    },
            decreases s - x,
        {
            proof {
                assert((y + 1) * (s + 1) + x + 1 <= (s + 1) * (s + 1)) by (nonlinear_arith)
                    requires
                        y < s,
                        x < s,
                ;
                assert((y + 1) * (s + 1) == y * (s + 1) + (s + 1)) by (nonlinear_arith);
                assert(2 * (y * s + x) + 2 <= 2 * (s * s)) by (nonlinear_arith)
                    requires
                        y < s,
                        x < s,
                ;
            }
            let row = (y as u32) * width;
            let next_row = row + width;
            let i1 = row + x as u32;
            let i2 = row + x as u32 + 1;
            let i3 = next_row + x as u32 + 1;
            let i4 = next_row + x as u32;
            let ghost before = faces@;
            faces.push(Face::new(i3, i2, i1));
            faces.push(Face::new(i4, i3, i1));
            proof {
                assert(faces@[2 * (y * s + x)] == plane_first_face(si, x as int, y as int));
                assert(faces@[2 * (y * s + x) + 1] == plane_second_face(si, x as int, y as int));
                assert forall|x0: int, y0: int| 0 <= x0 < s && 0 <= y0 < y implies {
                    &&& #[trigger] faces@[2 * (y0 * s + x0)] == plane_first_face(si, x0, y0)
                    &&& faces@[2 * (y0 * s + x0) + 1] == plane_second_face(si, x0, y0)
                } by {
                    assert(y0 * s + x0 < y * s) by (nonlinear_arith)
                        requires
                            x0 < s,
                            y0 < y,
                    ;
                    assert(faces@[2 * (y0 * s + x0)] == before[2 * (y0 * s + x0)]);
                    assert(faces@[2 * (y0 * s + x0) + 1] == before[2 * (y0 * s + x0) + 1]);
                }
                assert forall|x0: int| 0 <= x0 < x + 1 implies {
                    &&& #[trigger] faces@[2 * (y * s + x0)] == plane_first_face(si, x0, y as int)
                    &&& faces@[2 * (y * s + x0) + 1] == plane_second_face(si, x0, y as int)
                } by {
                    if x0 < x {
                        assert(faces@[2 * (y * s + x0)] == before[2 * (y * s + x0)]);
                        assert(faces@[2 * (y * s + x0) + 1] == before[2 * (y * s + x0) + 1]);
                    }
                }
            }
            x += 1;
        }
        proof {
            assert(y * s + s == (y + 1) * s) by (nonlinear_arith);
        }
        y += 1;
    }
    proof {
        assert(2 * (s * s) == 2 * s * s) by (nonlinear_arith);
    }
    faces
}

} // verus!
