use std::collections::BTreeMap;

use porter::remap::{remap_mesh_by_faces, try_remap_mesh_by_faces};
use porter::remap_plan::{carry_deltas, find_material, merge_targets, RemapGroup};
use porter::remap_vertices::{remap_mesh_by_vertices, try_remap_mesh_by_vertices};
use porter::{Face, Material, MaterialRemapFaces, MaterialRemapVertices, VertexBuffer, VertexColor};

/// A buffer whose vertex `i` has the color (10 * i, 0, 0, 0).
fn tagged_vertices(count: u8) -> VertexBuffer {
    let mut buffer = VertexBuffer::builder().colors(1).build();
    for i in 0..count {
        buffer.create().set_color(0, VertexColor::new(10 * i, 0, 0, 0));
    }
    buffer
}

fn tags(buffer: &VertexBuffer) -> Vec<u8> {
    (0..buffer.len()).map(|i| buffer.vertex(i).color(0).r).collect()
}

#[test]
fn remap_by_faces_copies_each_vertex_once() {
    let faces = vec![Face::new(0, 1, 2), Face::new(2, 1, 3), Face::new(3, 4, 5)];
    let vertices = tagged_vertices(6);
    let mut new_faces = Vec::new();
    let mut new_vertices = VertexBuffer::builder().colors(1).build();
    let copied = remap_mesh_by_faces(&faces, &vertices, &vec![(1, 2)], &mut new_faces, &mut new_vertices);
    assert_eq!(copied, vec![2, 1, 3, 4, 5]);
    assert_eq!(new_faces, vec![Face::new(0, 1, 2), Face::new(2, 3, 4)]);
    assert_eq!(tags(&new_vertices), vec![20, 10, 30, 40, 50]);
}

#[test]
fn remap_by_faces_appends_after_existing_data() {
    let faces = vec![Face::new(0, 1, 2), Face::new(2, 1, 3)];
    let vertices = tagged_vertices(4);
    let mut new_faces = vec![Face::new(0, 0, 0)];
    let mut new_vertices = tagged_vertices(1);
    let copied = remap_mesh_by_faces(
        &faces,
        &vertices,
        &vec![(1, 1), (0, 1)],
        &mut new_faces,
        &mut new_vertices,
    );
    assert_eq!(copied, vec![2, 1, 3, 0]);
    assert_eq!(
        new_faces,
        vec![Face::new(0, 0, 0), Face::new(1, 2, 3), Face::new(4, 2, 1)]
    );
    assert_eq!(tags(&new_vertices), vec![0, 20, 10, 30, 0]);
}

#[test]
fn remap_by_faces_with_no_ranges_changes_nothing() {
    let faces = vec![Face::new(0, 1, 2)];
    let vertices = tagged_vertices(3);
    let mut new_faces = Vec::new();
    let mut new_vertices = VertexBuffer::builder().colors(1).build();
    let copied = remap_mesh_by_faces(&faces, &vertices, &vec![], &mut new_faces, &mut new_vertices);
    assert!(copied.is_empty());
    assert!(new_faces.is_empty());
    assert!(new_vertices.is_empty());
}

#[test]
fn remap_by_vertices_pulls_in_touching_faces() {
    let faces = vec![
        Face::new(0, 1, 2),
        Face::new(2, 3, 4),
        Face::new(5, 6, 7),
        Face::new(4, 8, 8),
    ];
    let vertices = tagged_vertices(9);
    let mut new_faces = Vec::new();
    let mut new_vertices = VertexBuffer::builder().colors(1).build();
    let copied = remap_mesh_by_vertices(&faces, &vertices, &vec![(1, 2)], &mut new_faces, &mut new_vertices);
    assert_eq!(copied, vec![1, 2, 0, 3, 4, 8, 8]);
    assert_eq!(
        new_faces,
        vec![Face::new(2, 0, 1), Face::new(1, 3, 4), Face::new(4, 5, 6)]
    );
    assert_eq!(tags(&new_vertices), vec![10, 20, 0, 30, 40, 80, 80]);
}

#[test]
fn remap_by_vertices_copies_repeated_ranges_again() {
    let faces = vec![Face::new(0, 1, 2)];
    let vertices = tagged_vertices(3);
    let mut new_faces = Vec::new();
    let mut new_vertices = VertexBuffer::builder().colors(1).build();
    let copied = remap_mesh_by_vertices(
        &faces,
        &vertices,
        &vec![(0, 2), (1, 1)],
        &mut new_faces,
        &mut new_vertices,
    );
    assert_eq!(copied, vec![0, 1, 1, 2]);
    assert_eq!(new_faces, vec![Face::new(0, 2, 3)]);
}

#[test]
fn remap_by_vertices_without_touched_faces_copies_only_ranges() {
    let faces = vec![Face::new(0, 1, 2)];
    let vertices = tagged_vertices(5);
    let mut new_faces = Vec::new();
    let mut new_vertices = VertexBuffer::builder().colors(1).build();
    let copied = remap_mesh_by_vertices(&faces, &vertices, &vec![(3, 2)], &mut new_faces, &mut new_vertices);
    assert_eq!(copied, vec![3, 4]);
    assert!(new_faces.is_empty());
    assert_eq!(tags(&new_vertices), vec![30, 40]);
}

#[test]
fn face_remaps_group_by_material_then_mesh() {
    let remaps = vec![
        MaterialRemapFaces::new(String::from("b"), 1, 0, 1),
        MaterialRemapFaces::new(String::from("a"), 0, 2, 3),
        MaterialRemapFaces::new(String::from("b"), 0, 5, 1),
        MaterialRemapFaces::new(String::from("b"), 1, 7, 2),
    ];
    let groups = RemapGroup::by_faces(&remaps);
    let seen: Vec<(&str, usize, Vec<(usize, usize)>)> = groups
        .iter()
        .map(|g| (g.material.as_str(), g.mesh, g.ranges.clone()))
        .collect();
    assert_eq!(
        seen,
        vec![
            ("b", 0, vec![(5, 1)]),
            ("b", 1, vec![(0, 1), (7, 2)]),
            ("a", 0, vec![(2, 3)])
        ]
    );
}

#[test]
fn vertex_remaps_group_by_material_then_mesh() {
    let remaps = vec![
        MaterialRemapVertices::new(String::from("x"), 3, 0, 4),
        MaterialRemapVertices::new(String::from("x"), 3, 10, 1),
        MaterialRemapVertices::new(String::from("x"), 1, 2, 2),
    ];
    let groups = RemapGroup::by_vertices(&remaps);
    assert_eq!(groups.len(), 2);
    assert_eq!((groups[0].mesh, groups[0].ranges.clone()), (1, vec![(2, 2)]));
    assert_eq!((groups[1].mesh, groups[1].ranges.clone()), (3, vec![(0, 4), (10, 1)]));
    assert!(RemapGroup::by_vertices(&[]).is_empty());
}

#[test]
fn groups_with_same_material_and_layout_share_a_mesh() {
    let remaps = vec![
        MaterialRemapFaces::new(String::from("b"), 0, 0, 1),
        MaterialRemapFaces::new(String::from("b"), 1, 0, 1),
        MaterialRemapFaces::new(String::from("a"), 2, 0, 1),
        MaterialRemapFaces::new(String::from("b"), 2, 0, 1),
    ];
    let groups = RemapGroup::by_faces(&remaps);
    let layouts = vec![(1, 0, 0), (1, 0, 0), (0, 1, 0), (0, 1, 0)];
    let (targets, count) = merge_targets(&groups, &layouts);
    assert_eq!(targets, vec![0, 0, 1, 2]);
    assert_eq!(count, 3);
}

#[test]
fn materials_are_found_by_source_name() {
    let materials = vec![
        Material::with_source_name(String::from("a"), String::from("one")),
        Material::with_source_name(String::from("b"), String::from("two")),
        Material::with_source_name(String::from("c"), String::from("two")),
    ];
    assert_eq!(find_material(&materials, &String::from("two")), Some(1));
    assert_eq!(find_material(&materials, &String::from("three")), None);
}

#[test]
fn checked_remap_by_vertices_ignores_untouched_bad_faces() {
    let faces = vec![Face::new(0, 1, 2), Face::new(7, 8, 9)];
    let vertices = tagged_vertices(3);
    let mut new_faces = Vec::new();
    let mut new_vertices = VertexBuffer::builder().colors(1).build();
    let copied =
        try_remap_mesh_by_vertices(&faces, &vertices, &vec![(0, 1)], &mut new_faces, &mut new_vertices);
    assert_eq!(copied, Some(vec![0, 1, 2]));
    assert_eq!(new_faces, vec![Face::new(0, 1, 2)]);
}

#[test]
fn checked_remap_by_vertices_refuses_touched_bad_faces() {
    let faces = vec![Face::new(0, 1, 9)];
    let vertices = tagged_vertices(3);
    let mut new_faces = vec![Face::new(5, 5, 5)];
    let mut new_vertices = tagged_vertices(1);
    let copied =
        try_remap_mesh_by_vertices(&faces, &vertices, &vec![(0, 1)], &mut new_faces, &mut new_vertices);
    assert_eq!(copied, None);
    assert_eq!(new_faces, vec![Face::new(5, 5, 5)]);
    assert_eq!(tags(&new_vertices), vec![0]);
}

#[test]
fn checked_remap_by_faces_refuses_bad_ranges_and_corners() {
    let faces = vec![Face::new(0, 1, 2), Face::new(0, 1, 7)];
    let vertices = tagged_vertices(3);
    let mut new_faces = Vec::new();
    let mut new_vertices = VertexBuffer::builder().colors(1).build();
    assert_eq!(
        try_remap_mesh_by_faces(&faces, &vertices, &vec![(1, 5)], &mut new_faces, &mut new_vertices),
        None
    );
    assert_eq!(
        try_remap_mesh_by_faces(&faces, &vertices, &vec![(1, 1)], &mut new_faces, &mut new_vertices),
        None
    );
    assert!(new_faces.is_empty() && new_vertices.is_empty());
    assert_eq!(
        try_remap_mesh_by_faces(&faces, &vertices, &vec![(0, 1)], &mut new_faces, &mut new_vertices),
        Some(vec![0, 1, 2])
    );
    assert_eq!(new_faces, vec![Face::new(0, 1, 2)]);
}

#[test]
fn carried_deltas_follow_the_copies_of_their_vertices() {
    let mut deltas: BTreeMap<u32, (i32, i32, i32)> = BTreeMap::new();
    deltas.insert(5, (1, 2, 3));
    deltas.insert(7, (4, 5, 6));
    deltas.insert(9, (7, 8, 9));
    let carried = carry_deltas(&deltas, &vec![7, 6, 5], 10);
    let expected: BTreeMap<u32, (i32, i32, i32)> = [(10, (4, 5, 6)), (12, (1, 2, 3))].into_iter().collect();
    assert_eq!(carried, expected);
    assert!(carry_deltas(&deltas, &vec![0, 1], 0).is_empty());
    assert!(carry_deltas(&deltas, &Vec::new(), 3).is_empty());
}
