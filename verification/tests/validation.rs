use porter::bones::{bone_index, ik_handle_for, skipped_axes};
use porter::validation::{
    blend_shape_issues, degenerate_faces, faces_out_of_range, hair_faces, hair_segment_pairs,
    invalid_parents, particle_count, weights_out_of_range,
};
use porter::{Face, VertexBuffer};

#[test]
fn faces_past_the_vertices_are_reported() {
    let faces = vec![Face::new(0, 1, 2), Face::new(0, 1, 5), Face::new(3, 0, 0)];
    assert_eq!(faces_out_of_range(&faces, 3), vec![1, 2]);
    assert_eq!(faces_out_of_range(&faces, 6), Vec::<usize>::new());
}

#[test]
fn degenerate_faces_are_reported() {
    let faces = vec![Face::new(0, 0, 1), Face::new(0, 1, 2), Face::new(2, 1, 2), Face::new(4, 5, 5)];
    assert_eq!(degenerate_faces(&faces), vec![0, 2, 3]);
}

#[test]
fn bone_parents_must_be_bones_or_none() {
    assert_eq!(invalid_parents(&vec![-1, 0, 5, -2, 1]), vec![2, 3]);
    assert_eq!(invalid_parents(&vec![-1, 0, 1]), Vec::<usize>::new());
}

#[test]
fn blend_shape_indices_must_be_vertices() {
    assert_eq!(blend_shape_issues(&vec![0, 3, 7], 5), Some(vec![2]));
    assert_eq!(blend_shape_issues(&vec![0, 1], 5), Some(vec![]));
    assert_eq!(blend_shape_issues(&vec![0, 1, 2], 2), None);
}

#[test]
fn hair_particles_and_pairs() {
    assert_eq!(particle_count(&vec![2, 0, 3]), 8);
    assert_eq!(particle_count(&vec![]), 0);
    assert_eq!(
        hair_segment_pairs(&vec![2, 0, 1]),
        vec![(0, 1), (1, 2), (4, 5)]
    );
}

#[test]
fn hair_faces_use_six_vertices_per_segment() {
    assert_eq!(
        hair_faces(2),
        vec![
            Face::new(0, 1, 2),
            Face::new(3, 4, 5),
            Face::new(6, 7, 8),
            Face::new(9, 10, 11)
        ]
    );
    assert!(hair_faces(0).is_empty());
}

#[test]
fn weights_with_unknown_bones_are_reported() {
    let mut buffer = VertexBuffer::builder().maximum_influence(2).build();
    buffer.create().set_weight_bone(0, 1).set_weight_bone(1, 5);
    buffer.create().set_weight_bone(0, 3).set_weight_bone(1, 0);
    assert_eq!(weights_out_of_range(&buffer, 3), vec![(0, 1), (1, 0)]);
    assert_eq!(weights_out_of_range(&buffer, 6), Vec::<(usize, usize)>::new());
}

fn bone_names() -> Vec<Option<String>> {
    vec![
        Some(String::from("root")),
        None,
        Some(String::from("arm")),
        Some(String::from("hand")),
        Some(String::from("arm")),
        Some(String::from("pole")),
    ]
}

#[test]
fn bones_are_found_by_first_matching_name() {
    let names = bone_names();
    assert_eq!(bone_index(&names, "arm"), Some(2));
    assert_eq!(bone_index(&names, "root"), Some(0));
    assert_eq!(bone_index(&names, "leg"), None);
    assert_eq!(bone_index(&names, ""), None);
}

#[test]
fn ik_handle_needs_its_three_bones() {
    let names = bone_names();
    let handle = ik_handle_for(
        &names,
        Some(String::from("ik")),
        "root",
        "arm",
        "hand",
        Some("pole"),
        Some("missing"),
        true,
    )
    .unwrap();
    assert_eq!(handle.name, Some(String::from("ik")));
    assert_eq!((handle.start_bone, handle.end_bone), (0, 2));
    assert_eq!(handle.target_bone, Some(3));
    assert_eq!(handle.pole_bone, Some(5));
    assert_eq!(handle.pole_vector_bone, None);
    assert!(handle.use_target_rotation);
    assert!(ik_handle_for(&names, None, "root", "arm", "foot", None, None, false).is_none());
}

#[test]
fn constraint_axes_to_skip() {
    assert_eq!(skipped_axes("xz"), (true, false, true));
    assert_eq!(skipped_axes(""), (false, false, false));
    assert_eq!(skipped_axes("zyx"), (true, true, true));
}

#[test]
fn plane_faces_cover_each_cell_twice() {
    assert_eq!(
        porter::plane::plane_faces(1),
        vec![Face::new(3, 1, 0), Face::new(2, 3, 0)]
    );
    let faces = porter::plane::plane_faces(2);
    assert_eq!(faces.len(), 8);
    assert_eq!(faces[6], Face::new(8, 5, 4));
    assert_eq!(faces[7], Face::new(7, 8, 4));
    assert!(porter::plane::plane_faces(0).is_empty());
}
