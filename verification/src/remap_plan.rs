use vstd::prelude::*;

use std::collections::BTreeMap;

use crate::material::Material;
use crate::material_remap::{MaterialRemapFaces, MaterialRemapVertices};
use crate::distinct::{
    first_occurrences, lemma_first_occurrences, lemma_first_occurrences_push, lemma_index_of_stable,
};

verus! {

/// A remap request as plain values: the material, the mesh, and the start and length of a range.
pub type Request = (Seq<char>, usize, usize, usize);

/// The share of one old mesh in a material: the `(start, length)` ranges of that mesh that move
/// to the material, in the order they were asked for.
pub struct RemapGroup {
    pub material: String,
    pub mesh: usize,
    pub ranges: Vec<(usize, usize)>,
}

/// The requests that remaps by faces make.
pub open spec fn face_requests(remaps: Seq<MaterialRemapFaces>) -> Seq<Request> {
    remaps.map_values(
        |r: MaterialRemapFaces|
            (r.spec_material(), r.spec_mesh(), r.spec_face_start(), r.spec_length()),
    )
}

/// The requests that remaps by vertices make.
pub open spec fn vertex_requests(remaps: Seq<MaterialRemapVertices>) -> Seq<Request> {
    remaps.map_values(
        |r: MaterialRemapVertices|
            (r.spec_material(), r.spec_mesh(), r.spec_vertex_start(), r.spec_length()),
    )
}

/// The view of requests held as executable values.
pub open spec fn request_view(requests: Seq<(String, usize, usize, usize)>) -> Seq<Request> {
    requests.map_values(|q: (String, usize, usize, usize)| (q.0@, q.1, q.2, q.3))
}

/// The materials asked for, each once, in the order they are first asked for.
pub open spec fn material_order(requests: Seq<Request>) -> Seq<Seq<char>> {
    first_occurrences(requests.map_values(|q: Request| q.0))
}

/// The ranges asked for one material and one mesh, in order.
pub open spec fn ranges_of(requests: Seq<Request>, material: Seq<char>, mesh: usize) -> Seq<
    (usize, usize),
>
    decreases requests.len(),
{
    if requests.len() == 0 {
        Seq::empty()
    } else {
        let earlier = ranges_of(requests.drop_last(), material, mesh);
        let q = requests.last();
        if q.0 == material && q.1 == mesh {
            earlier.push((q.2, q.3))
        } else {
            earlier
        }
    }
}

/// Group `a` comes before group `b`: its material was asked for first, or the material is the
/// same and its mesh comes first.
pub open spec fn group_before(
    order: Seq<Seq<char>>,
    a_material: Seq<char>,
    a_mesh: usize,
    b_material: Seq<char>,
    b_mesh: usize,
) -> bool {
    ||| order.index_of(a_material) < order.index_of(b_material)
    ||| (a_material == b_material && a_mesh < b_mesh)
}

/// The groups hold, for each material and mesh that is asked for, the ranges asked for them; the
/// materials come in the order they are first asked for and the meshes of a material in
/// increasing order.
pub open spec fn is_grouping(groups: Seq<RemapGroup>, requests: Seq<Request>) -> bool {
    &&& forall|g: int|
        0 <= g < groups.len() ==> {
            &&& material_order(requests).contains(#[trigger] groups[g].material@)
            &&& groups[g].ranges@ == ranges_of(requests, groups[g].material@, groups[g].mesh)
            &&& groups[g].ranges@.len() > 0
        }
    &&& forall|i: int|
        0 <= i < requests.len() ==> exists|g: int|
            0 <= g < groups.len() && groups[g].material@ == (#[trigger] requests[i]).0
                && groups[g].mesh == requests[i].1
    &&& forall|a: int, b: int|
        0 <= a < b < groups.len() ==> group_before(
            material_order(requests),
            #[trigger] groups[a].material@,
            groups[a].mesh,
            #[trigger] groups[b].material@,
            groups[b].mesh,
        )
}

/// Whether some request asks for this material and mesh.
pub open spec fn asked_for(requests: Seq<Request>, material: Seq<char>, mesh: usize) -> bool {
    exists|i: int| 0 <= i < requests.len() && (#[trigger] requests[i]).0 == material && requests[i].1 == mesh
}

/// Whether two strings hold the same characters.
fn same_text(a: &String, b: &String) -> (same: bool)
    ensures
        same == (a@ == b@),
{
    *a == *b
}

/// The distinct materials of the requests, in the order they are first asked for.
fn distinct_materials(requests: &Vec<(String, usize, usize, usize)>) -> (order: Vec<String>)
    ensures
        order@.map_values(|s: String| s@) == material_order(request_view(requests@)),
{
    let ghost mats = request_view(requests@).map_values(|q: Request| q.0);
    let mut order: Vec<String> = Vec::new();
    let mut i: usize = 0;
    proof {
        assert(mats.take(0) =~= Seq::<Seq<char>>::empty());
        assert(order@.map_values(|s: String| s@) =~= Seq::<Seq<char>>::empty());
    }
    while i < requests.len()
        invariant
            i <= requests.len(),
            mats == request_view(requests@).map_values(|q: Request| q.0),
            mats.len() == requests.len(),
            order@.map_values(|s: String| s@) == first_occurrences(mats.take(i as int)),
        decreases requests.len() - i,
    {
        let material = &requests[i].0;
        let ghost seen = order@.map_values(|s: String| s@);
        let mut found = false;
        let mut j: usize = 0;
        while j < order.len()
            invariant
                j <= order.len(),
                seen == order@.map_values(|s: String| s@),
                found <==> exists|k: int| 0 <= k < j && seen[k] == material@,
            decreases order.len() - j,
        {
            if same_text(&order[j], material) {
                found = true;
            }
            proof {
                assert(seen[j as int] == order@[j as int]@);
            }
            j += 1;
        }
        proof {
            assert(mats.take(i + 1) =~= mats.take(i as int).push(material@));
            lemma_first_occurrences_push(mats.take(i as int), material@);
            if found {
                let k = choose|k: int| 0 <= k < j && seen[k] == material@;
                assert(seen.contains(material@));
            } else {
                assert(!seen.contains(material@));
            }
        }
        if !found {
            order.push(material.clone());
            proof {
                assert(order@.map_values(|s: String| s@) =~= seen.push(material@));
            }
        }
        i += 1;
    }
    proof {
        assert(mats.take(i as int) =~= mats);
    }
    order
}

/// A material and mesh that are asked for have at least one range.
proof fn lemma_asked_has_ranges(requests: Seq<Request>, material: Seq<char>, mesh: usize)
    requires
        asked_for(requests, material, mesh),
    ensures
        ranges_of(requests, material, mesh).len() > 0,
    decreases requests.len(),
{
    let i = choose|i: int| 0 <= i < requests.len() && (#[trigger] requests[i]).0 == material && requests[i].1 == mesh;
    if i < requests.len() - 1 {
        assert(requests.drop_last()[i] == requests[i]);
        lemma_asked_has_ranges(requests.drop_last(), material, mesh);
    }
}

/// The meshes asked for with a material, each once, in increasing order.
fn sorted_meshes(requests: &Vec<(String, usize, usize, usize)>, material: &String) -> (meshes: Vec<usize>)
    ensures
        forall|a: int, b: int| 0 <= a < b < meshes.len() ==> meshes[a] < meshes[b],
        forall|x: usize| #[trigger] meshes@.contains(x) <==> asked_for(request_view(requests@), material@, x),
{
    let ghost view = request_view(requests@);
    let mut meshes: Vec<usize> = Vec::new();
    let mut i: usize = 0;
    while i < requests.len()
        invariant
            i <= requests.len(),
            view == request_view(requests@),
            view.len() == requests.len(),
            forall|a: int, b: int| 0 <= a < b < meshes.len() ==> meshes[a] < meshes[b],
            forall|x: usize| #[trigger] meshes@.contains(x) <==> asked_for(view.take(i as int), material@, x),
        decreases requests.len() - i,
    {
        let ghost before = meshes@;
        let ghost current = view[i as int];
        proof {
            assert(current == (requests@[i as int].0@, requests@[i as int].1, requests@[i as int].2, requests@[i as int].3));
            assert forall|x: usize| asked_for(view.take(i + 1), material@, x) <==> (asked_for(
                view.take(i as int),
                material@,
                x,
            ) || (current.0 == material@ && current.1 == x)) by {
                if asked_for(view.take(i + 1), material@, x) {
                    let k = choose|k: int| 0 <= k < view.take(i + 1).len() && (#[trigger] view.take(i + 1)[k]).0 == material@ && view.take(i + 1)[k].1 == x;
                    if k < i {
                        assert(view.take(i as int)[k] == view.take(i + 1)[k]);
                    }
                }
                if asked_for(view.take(i as int), material@, x) {
                    let k = choose|k: int| 0 <= k < view.take(i as int).len() && (#[trigger] view.take(i as int)[k]).0 == material@ && view.take(i as int)[k].1 == x;
                    assert(view.take(i + 1)[k] == view.take(i as int)[k]);
                }
                if current.0 == material@ && current.1 == x {
                    assert(view.take(i + 1)[i as int] == current);
                }
            }
        }
        if same_text(&requests[i].0, material) {
            let mesh = requests[i].1;
            let mut p: usize = 0;
            while p < meshes.len() && meshes[p] < mesh
                invariant
                    p <= meshes.len(),
                    meshes@ == before,
                    forall|k: int| 0 <= k < p ==> meshes[k] < mesh,
                decreases meshes.len() - p,
            {
                p += 1;
            }
            if p < meshes.len() && meshes[p] == mesh {
                proof {
                    assert(meshes@.contains(mesh));
                }
            } else {
                meshes.insert(p, mesh);
                proof {
                    let after = meshes@;
                    assert forall|a: int, b: int| 0 <= a < b < after.len() implies after[a] < after[b] by {
                        if b < p {
                            assert(after[a] == before[a] && after[b] == before[b]);
                        } else if b == p {
                            assert(after[a] == before[a]);
                        } else if a == p {
                            assert(after[b] == before[b - 1]);
                            assert(before[p as int] >= mesh);
                            if b - 1 > p {
                                assert(before[p as int] < before[b - 1]);
                            }
                        } else if a < p {
                            assert(after[a] == before[a]);
                            assert(after[b] == before[b - 1]);
                        } else {
                            assert(after[a] == before[a - 1]);
                            assert(after[b] == before[b - 1]);
                        }
                    }
                    assert forall|x: usize| #[trigger] after.contains(x) <==> (before.contains(x) || x == mesh) by {
                        if after.contains(x) {
                            let k = choose|k: int| 0 <= k < after.len() && after[k] == x;
                            if k < p {
                                assert(before[k] == x);
                            } else if k > p {
                                assert(before[k - 1] == x);
                            }
                        }
                        if before.contains(x) {
                            let k = choose|k: int| 0 <= k < before.len() && before[k] == x;
                            if k < p {
                                assert(after[k] == x);
                            } else {
                                assert(after[k + 1] == x);
                            }
                        }
                        if x == mesh {
                            assert(after[p as int] == x);
                        }
                    }
                }
            }
        }
        assert forall|x: usize| #[trigger] meshes@.contains(x) <==> asked_for(view.take(i + 1), material@, x) by {
            assert(before.contains(x) <==> asked_for(view.take(i as int), material@, x));
            assert(asked_for(view.take(i + 1), material@, x) <==> (asked_for(
                view.take(i as int),
                material@,
                x,
            ) || (current.0 == material@ && current.1 == x)));
        }
        i += 1;
    }
    proof {
        assert(view.take(i as int) =~= view);
    }
    meshes
}

/// The ranges asked for one material and one mesh, in order.
fn ranges_for(requests: &Vec<(String, usize, usize, usize)>, material: &String, mesh: usize) -> (ranges: Vec<(usize, usize)>)
    ensures
        ranges@ == ranges_of(request_view(requests@), material@, mesh),
{
    let ghost view = request_view(requests@);
    let mut ranges: Vec<(usize, usize)> = Vec::new();
    let mut i: usize = 0;
    proof {
        assert(view.take(0) =~= Seq::<Request>::empty());
    }
    while i < requests.len()
        invariant
            i <= requests.len(),
            view == request_view(requests@),
            view.len() == requests.len(),
            ranges@ == ranges_of(view.take(i as int), material@, mesh),
        decreases requests.len() - i,
    {
        proof {
            assert(view.take(i + 1).drop_last() =~= view.take(i as int));
        }
        if same_text(&requests[i].0, material) && requests[i].1 == mesh {
            ranges.push((requests[i].2, requests[i].3));
        }
        i += 1;
    }
    proof {
        assert(view.take(i as int) =~= view);
    }
    ranges
}

/// Groups the requests by material, materials in the order they are first asked for, and then by
/// mesh, in increasing order.
fn group_requests(requests: &Vec<(String, usize, usize, usize)>) -> (groups: Vec<RemapGroup>)
    ensures
        is_grouping(groups@, request_view(requests@)),
{
    let ghost view = request_view(requests@);
    let ghost mats = view.map_values(|q: Request| q.0);
    let order = distinct_materials(requests);
    let ghost mo = material_order(view);
    proof {
        lemma_first_occurrences(mats);
        assert forall|r: int| 0 <= r < order.len() implies #[trigger] order@[r]@ == mo[r] by {
            assert(order@.map_values(|s: String| s@)[r] == order@[r]@);
        }
    }
    let mut groups: Vec<RemapGroup> = Vec::new();
    let ghost mut ranks: Seq<int> = Seq::empty();
    let mut a: usize = 0;
    while a < order.len()
        invariant
            a <= order.len(),
            view == request_view(requests@),
            mats == view.map_values(|q: Request| q.0),
            mo == material_order(view),
            mo == first_occurrences(mats),
            mo.len() == order.len(),
            mo.no_duplicates(),
            forall|r: int| 0 <= r < order.len() ==> #[trigger] order@[r]@ == mo[r],
            ranks.len() == groups.len(),
            forall|g: int|
                0 <= g < groups.len() ==> {
                    &&& 0 <= #[trigger] ranks[g] < a
                    &&& groups[g].material@ == mo[ranks[g]]
                    &&& groups[g].ranges@ == ranges_of(view, groups[g].material@, groups[g].mesh)
                    &&& groups[g].ranges@.len() > 0
                },
            forall|g1: int, g2: int|
                0 <= g1 < g2 < groups.len() ==> #[trigger] ranks[g1] < #[trigger] ranks[g2] || (
                ranks[g1] == ranks[g2] && groups[g1].mesh < groups[g2].mesh),
            forall|r: int, i: int|
                0 <= r < a && 0 <= i < view.len() && #[trigger] view[i].0 == #[trigger] mo[r]
                    ==> exists|g: int|
                    0 <= g < groups.len() && groups[g].material@ == view[i].0 && groups[g].mesh
                        == view[i].1,
        decreases order.len() - a,
    {
        let material = &order[a];
        let meshes = sorted_meshes(requests, material);
        let ghost prev = groups@;
        let ghost prev_ranks = ranks;
        let mut t: usize = 0;
        while t < meshes.len()
            invariant
                t <= meshes.len(),
                a < order.len(),
                material@ == mo[a as int],
                view == request_view(requests@),
                mo.len() == order.len(),
                forall|x: usize| #[trigger] meshes@.contains(x) <==> asked_for(view, material@, x),
                forall|p: int, q: int| 0 <= p < q < meshes.len() ==> meshes[p] < meshes[q],
                ranks.len() == groups.len(),
                groups.len() == prev.len() + t,
                forall|g: int| 0 <= g < prev.len() ==> groups@[g] == prev[g] && ranks[g] == prev_ranks[g],
                forall|g: int| 0 <= g < prev.len() ==> #[trigger] prev_ranks[g] < a,
                forall|g: int|
                    prev.len() <= g < groups.len() ==> #[trigger] ranks[g] == a && groups[g].mesh
                        == meshes[g - prev.len()],
                forall|g: int|
                    0 <= g < groups.len() ==> {
                        &&& 0 <= #[trigger] ranks[g] <= a
                        &&& groups[g].material@ == mo[ranks[g]]
                        &&& groups[g].ranges@ == ranges_of(view, groups[g].material@, groups[g].mesh)
                        &&& groups[g].ranges@.len() > 0
                    },
                forall|g1: int, g2: int|
                    0 <= g1 < g2 < groups.len() ==> #[trigger] ranks[g1] < #[trigger] ranks[g2] || (
                    ranks[g1] == ranks[g2] && groups[g1].mesh < groups[g2].mesh),
                forall|r: int, i: int|
                    0 <= r < a && 0 <= i < view.len() && #[trigger] view[i].0 == #[trigger] mo[r]
                        ==> exists|g: int|
                        0 <= g < prev.len() && prev[g].material@ == view[i].0 && prev[g].mesh
                            == view[i].1,
                forall|i: int, k: int|
                    0 <= i < view.len() && 0 <= k < t && (#[trigger] view[i]).0 == mo[a as int]
                        && view[i].1 == #[trigger] meshes[k] ==> groups[prev.len() + k].mesh == view[i].1
                        && groups[prev.len() + k].material@ == view[i].0,
            decreases meshes.len() - t,
        {
            let mesh = meshes[t];
            let ranges = ranges_for(requests, material, mesh);
            proof {
                assert(meshes@.contains(mesh));
                lemma_asked_has_ranges(view, material@, mesh);
            }
            groups.push(RemapGroup { material: material.clone(), mesh, ranges });
            proof {
                ranks = ranks.push(a as int);
            }
            t += 1;
        }
        proof {
            assert forall|r: int, i: int|
                0 <= r < a + 1 && 0 <= i < view.len() && #[trigger] view[i].0 == #[trigger] mo[r]
                    implies exists|g: int|
                    0 <= g < groups.len() && groups[g].material@ == view[i].0 && groups[g].mesh
                        == view[i].1 by {
                if r < a {
                    let g = choose|g: int|
                        0 <= g < prev.len() && prev[g].material@ == view[i].0 && prev[g].mesh
                            == view[i].1;
                    assert(groups@[g] == prev[g]);
                } else {
                    assert(view[i] == (requests@[i].0@, requests@[i].1, requests@[i].2, requests@[i].3));
                    assert(asked_for(view, material@, view[i].1));
                    assert(meshes@.contains(view[i].1));
                    let k = choose|k: int| 0 <= k < meshes.len() && meshes@[k] == view[i].1;
                    assert(groups[prev.len() + k].mesh == view[i].1);
                }
            }
        }
        a += 1;
    }
    proof {
        assert forall|g: int| 0 <= g < groups.len() implies mo.contains(#[trigger] groups@[g].material@) by {
            assert(mo[ranks[g]] == groups@[g].material@);
        }
        assert forall|g: int| 0 <= g < groups.len() implies mo.index_of(#[trigger] groups@[g].material@) == ranks[g] by {
            assert(mo.contains(groups@[g].material@));
            let k = mo.index_of(groups@[g].material@);
        }
        assert forall|i: int| 0 <= i < view.len() implies exists|g: int|
            0 <= g < groups.len() && groups@[g].material@ == (#[trigger] view[i]).0 && groups@[g].mesh
                == view[i].1 by {
            assert(mats[i] == view[i].0);
            assert(mats.contains(view[i].0));
            assert(mo.contains(view[i].0));
            let r = choose|r: int| 0 <= r < mo.len() && mo[r] == view[i].0;
        }
        assert forall|x: int, y: int| 0 <= x < y < groups.len() implies group_before(
            mo,
            #[trigger] groups@[x].material@,
            groups@[x].mesh,
            #[trigger] groups@[y].material@,
            groups@[y].mesh,
        ) by {
            assert(ranks[x] < ranks[y] || (ranks[x] == ranks[y] && groups@[x].mesh < groups@[y].mesh));
        }
    }
    groups
}

impl RemapGroup {
    /// Groups remaps by faces by material, materials in the order they are first asked for, and
    /// then by mesh, in increasing order, keeping the ranges of each in the order given.
    pub fn by_faces(remaps: &[MaterialRemapFaces]) -> (groups: Vec<RemapGroup>)
        ensures
            is_grouping(groups@, face_requests(remaps@)),
    {
        let mut requests: Vec<(String, usize, usize, usize)> = Vec::new();
        let mut i: usize = 0;
        while i < remaps.len()
            invariant
                i <= remaps.len(),
                request_view(requests@) == face_requests(remaps@).take(i as int),
            decreases remaps.len() - i,
        {
            let ghost before = requests@;
            let (material, mesh, start, length) = remaps[i].parts();
            let name = material.clone();
            requests.push((name, mesh, start, length));
            proof {
                let want = face_requests(remaps@).take(i + 1);
                let got = request_view(requests@);
                assert(request_view(before).len() == before.len());
                assert(face_requests(remaps@).len() == remaps@.len());
                assert(got.len() == want.len());
                assert forall|k: int| 0 <= k < got.len() implies got[k] == want[k] by {
                    if k < i {
                        assert(requests@[k] == before[k]);
                        assert(request_view(before)[k] == face_requests(remaps@).take(i as int)[k]);
                    } else {
                        assert(requests@[k] == (name, mesh, start, length));
                    }
                }
                assert(got =~= want);
            }
            i += 1;
        }
        proof {
            assert(face_requests(remaps@).take(i as int) =~= face_requests(remaps@));
        }
        group_requests(&requests)
    }

    /// Groups remaps by vertices by material, materials in the order they are first asked for,
    /// and then by mesh, in increasing order, keeping the ranges of each in the order given.
    pub fn by_vertices(remaps: &[MaterialRemapVertices]) -> (groups: Vec<RemapGroup>)
        ensures
            is_grouping(groups@, vertex_requests(remaps@)),
    {
        let mut requests: Vec<(String, usize, usize, usize)> = Vec::new();
        let mut i: usize = 0;
        while i < remaps.len()
            invariant
                i <= remaps.len(),
                request_view(requests@) == vertex_requests(remaps@).take(i as int),
            decreases remaps.len() - i,
        {
            let ghost before = requests@;
            let (material, mesh, start, length) = remaps[i].parts();
            let name = material.clone();
            requests.push((name, mesh, start, length));
            proof {
                let want = vertex_requests(remaps@).take(i + 1);
                let got = request_view(requests@);
                assert(request_view(before).len() == before.len());
                assert(vertex_requests(remaps@).len() == remaps@.len());
                assert(got.len() == want.len());
                assert forall|k: int| 0 <= k < got.len() implies got[k] == want[k] by {
                    if k < i {
                        assert(requests@[k] == before[k]);
                        assert(request_view(before)[k] == vertex_requests(remaps@).take(i as int)[k]);
                    } else {
                        assert(requests@[k] == (name, mesh, start, length));
                    }
                }
                assert(got =~= want);
            }
            i += 1;
        }
        proof {
            assert(vertex_requests(remaps@).take(i as int) =~= vertex_requests(remaps@));
        }
        group_requests(&requests)
    }
}

/// What decides which new mesh a group fills: its material and the vertex layout (colors, uv
/// layers, maximum influence) of its old mesh.
pub type MergeKey = (Seq<char>, usize, usize, usize);

/// The merge key of each group, given the layout of each group's old mesh.
pub open spec fn merge_keys(groups: Seq<RemapGroup>, layouts: Seq<(usize, usize, usize)>) -> Seq<MergeKey> {
    Seq::new(
        groups.len(),
        |i: int| (groups[i].material@, layouts[i].0, layouts[i].1, layouts[i].2),
    )
}

/// The new mesh that group `i` fills: the place of its merge key among the distinct merge keys,
/// in the order they first come.
pub open spec fn merge_target(groups: Seq<RemapGroup>, layouts: Seq<(usize, usize, usize)>, i: int) -> int {
    first_occurrences(merge_keys(groups, layouts)).index_of(merge_keys(groups, layouts)[i])
}

/// Two groups fill the same new mesh exactly when they have the same material and their old
/// meshes have the same vertex layout: the same colors, uv layers and maximum influence. Every
/// group fills one of the new meshes.
pub proof fn law_merge_targets_shared_iff_same_material_and_layout(
    groups: Seq<RemapGroup>,
    layouts: Seq<(usize, usize, usize)>,
    i: int,
    j: int,
)
    requires
        layouts.len() == groups.len(),
        0 <= i < groups.len(),
        0 <= j < groups.len(),
    ensures
        0 <= merge_target(groups, layouts, i) < first_occurrences(merge_keys(groups, layouts)).len(),
        (merge_target(groups, layouts, i) == merge_target(groups, layouts, j)) <==> (
        groups[i].material@ == groups[j].material@ && layouts[i] == layouts[j]),
{
    let keys = merge_keys(groups, layouts);
    let firsts = first_occurrences(keys);
    lemma_first_occurrences(keys);
    assert(keys.contains(keys[i]));
    assert(keys.contains(keys[j]));
    assert(firsts.contains(keys[i]));
    assert(firsts.contains(keys[j]));
    let a = firsts.index_of(keys[i]);
    let b = firsts.index_of(keys[j]);
    assert(firsts[a] == keys[i]);
    assert(firsts[b] == keys[j]);
    if groups[i].material@ == groups[j].material@ && layouts[i] == layouts[j] {
        assert(keys[i] == keys[j]);
    }
    if a == b {
        assert(keys[i] == keys[j]);
        assert(layouts[i].0 == layouts[j].0 && layouts[i].1 == layouts[j].1 && layouts[i].2 == layouts[j].2);
    }
}

/// Assigns each group the new mesh it fills. Groups with the same material whose old meshes lay
/// out their vertices the same way fill the same new mesh, and new meshes are numbered in the
/// order of their first group. Returns the new mesh of each group and the number of new meshes.
pub fn merge_targets(groups: &Vec<RemapGroup>, layouts: &Vec<(usize, usize, usize)>) -> (targets: (
    Vec<usize>,
    usize,
))
    requires
        layouts.len() == groups.len(),
    ensures
        targets.0.len() == groups.len(),
        targets.1 == first_occurrences(merge_keys(groups@, layouts@)).len(),
        forall|i: int|
            0 <= i < groups.len() ==> #[trigger] targets.0[i] == first_occurrences(
                merge_keys(groups@, layouts@),
            ).index_of(merge_keys(groups@, layouts@)[i]),
        forall|i: int| 0 <= i < groups.len() ==> #[trigger] targets.0[i] < targets.1,
        forall|i: int, j: int|
            0 <= i < groups.len() && 0 <= j < groups.len() ==> ((#[trigger] targets.0[i]
                == #[trigger] targets.0[j]) <==> (groups[i].material@ == groups[j].material@
                && layouts[i] == layouts[j])),
{
    let ghost keys = merge_keys(groups@, layouts@);
    let mut firsts: Vec<usize> = Vec::new();
    let mut targets: Vec<usize> = Vec::new();
    let mut i: usize = 0;
    proof {
        assert(keys.take(0) =~= Seq::<MergeKey>::empty());
        assert(firsts@.map_values(|j: usize| keys[j as int]) =~= Seq::<MergeKey>::empty());
    }
    while i < groups.len()
        invariant
            i <= groups.len(),
            layouts.len() == groups.len(),
            keys == merge_keys(groups@, layouts@),
            forall|k: int| 0 <= k < firsts.len() ==> #[trigger] firsts[k] < i,
            firsts@.map_values(|j: usize| keys[j as int]) == first_occurrences(keys.take(i as int)),
            targets.len() == i,
            forall|k: int|
                0 <= k < i ==> #[trigger] targets[k] == first_occurrences(keys.take(i as int)).index_of(
                    keys[k],
                ),
        decreases groups.len() - i,
    {
        let ghost seen = firsts@.map_values(|j: usize| keys[j as int]);
        let ghost key = keys[i as int];
        let mut found: Option<usize> = None;
        let mut p: usize = 0;
        while p < firsts.len()
            invariant
                p <= firsts.len(),
                i < groups.len(),
                layouts.len() == groups.len(),
                keys == merge_keys(groups@, layouts@),
                key == keys[i as int],
                forall|k: int| 0 <= k < firsts.len() ==> #[trigger] firsts[k] < i,
                seen == firsts@.map_values(|j: usize| keys[j as int]),
                match found {
                    Some(q) => q < p && seen[q as int] == key,
                    None => forall|k: int| 0 <= k < p ==> seen[k] != key,
                },
            decreases firsts.len() - p,
        {
            let j = firsts[p];
            if found.is_none() && same_text(&groups[j].material, &groups[i].material) && layouts[j].0
                == layouts[i].0 && layouts[j].1 == layouts[i].1 && layouts[j].2 == layouts[i].2 {
                found = Some(p);
            }
            proof {
                assert(seen[p as int] == keys[j as int]);
            }
            p += 1;
        }
        let ghost before = first_occurrences(keys.take(i as int));
        proof {
            assert(keys.take(i + 1) =~= keys.take(i as int).push(key));
            lemma_first_occurrences_push(keys.take(i as int), key);
            lemma_first_occurrences(keys.take(i as int));
            lemma_first_occurrences(keys.take(i + 1));
        }
        match found {
            Some(q) => {
                targets.push(q);
                proof {
                    assert(seen.contains(key));
                    assert(before.index_of(key) == q as int);
                }
            },
            None => {
                proof {
                    assert(!seen.contains(key));
                }
                targets.push(firsts.len());
                firsts.push(i);
                proof {
                    assert(firsts@.map_values(|j: usize| keys[j as int]) =~= seen.push(key));
                    let after = seen.push(key);
                    assert(after[seen.len() as int] == key);
                    assert(after.index_of(key) == seen.len());
                }
            },
        }
        proof {
            let after = first_occurrences(keys.take(i + 1));
            assert(after.subrange(0, before.len() as int) =~= before);
            assert forall|k: int| 0 <= k < i + 1 implies #[trigger] targets[k] == after.index_of(keys[k]) by {
                if k < i {
                    assert(keys.take(i as int)[k] == keys[k]);
                    assert(before.contains(keys[k]));
                    lemma_index_of_stable(before, after, keys[k]);
                }
            }
        }
        i += 1;
    }
    proof {
        assert(keys.take(i as int) =~= keys);
        assert forall|a: int, b: int|
            0 <= a < groups.len() && 0 <= b < groups.len() implies ((#[trigger] targets[a]
                == #[trigger] targets[b]) <==> (groups[a].material@ == groups[b].material@
                && layouts[a] == layouts[b])) by {
            law_merge_targets_shared_iff_same_material_and_layout(groups@, layouts@, a, b);
        }
        assert forall|a: int| 0 <= a < groups.len() implies #[trigger] targets[a] < firsts.len() by {
            law_merge_targets_shared_iff_same_material_and_layout(groups@, layouts@, a, a);
        }
    }
    (targets, firsts.len())
}

/// The first material whose source name is `name`, which a remapped mesh takes as its material.
pub fn find_material(materials: &Vec<Material>, name: &String) -> (index: Option<usize>)
    ensures
        match index {
            Some(i) => i < materials.len() && materials[i as int].source_name@ == name@ && forall|j: int|
                0 <= j < i ==> #[trigger] materials[j].source_name@ != name@,
            None => forall|j: int|
                0 <= j < materials.len() ==> #[trigger] materials[j].source_name@ != name@,
        },
{
    let mut i: usize = 0;
    while i < materials.len()
        invariant
            i <= materials.len(),
            forall|j: int| 0 <= j < i ==> #[trigger] materials[j].source_name@ != name@,
        decreases materials.len() - i,
    {
        if same_text(&materials[i].source_name, name) {
            return Some(i);
        }
        i += 1;
    }
    None
}

/// The deltas of a blend shape carried over to the copies of its vertices: the vertex copied
/// `k`-th, whose old index is `copied[k]`, is vertex `base + k` of the new mesh and takes the
/// delta that its old vertex had, when it had one.
pub open spec fn carried_deltas<V>(deltas: Map<u32, V>, copied: Seq<u32>, base: int) -> Map<u32, V> {
    Map::new(
        |k: u32| base <= k < base + copied.len() && deltas.contains_key(copied[k - base]),
        |k: u32| deltas[copied[k - base]],
    )
}

/// Carries the deltas of a blend shape over to the copies of its vertices, which a remap put at
/// `base` and on in the new mesh, in the order of `copied`.
pub fn carry_deltas<V: Copy>(deltas: &BTreeMap<u32, V>, copied: &Vec<u32>, base: usize) -> (carried:
    BTreeMap<u32, V>)
    requires
        base + copied@.len() <= u32::MAX + 1,
    ensures
        carried@ == carried_deltas(deltas@, copied@, base as int),
{
    let mut carried: BTreeMap<u32, V> = BTreeMap::new();
    let mut offset: usize = 0;
    proof {
        assert(carried@ =~= carried_deltas(deltas@, copied@.take(0), base as int));
    }
    while offset < copied.len()
        invariant
            offset <= copied@.len(),
            base + copied@.len() <= u32::MAX + 1,
            carried@ == carried_deltas(deltas@, copied@.take(offset as int), base as int),
        decreases copied@.len() - offset,
    {
        let ghost before = carried@;
        let index = copied[offset];
        let key = (base + offset) as u32;
        let ghost next = carried_deltas(deltas@, copied@.take(offset + 1), base as int);
        match deltas.get(&index) {
            Some(delta) => {
                carried.insert(key, *delta);
                proof {
                    assert(carried@ =~= next);
                }
            },
            None => {
                proof {
                    assert(carried@ =~= next);
                }
            },
        }
        offset += 1;
    }
    proof {
        assert(copied@.take(copied@.len() as int) =~= copied@);
    }
    carried
}

} // verus!
