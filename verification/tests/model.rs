use porter::{
    ConstraintType, IKHandle, MaterialRemapFaces, MaterialRemapVertices, ModelError,
    Packed102Vector4, PackedI8Vector4, PackedU8Vector4, PreviewError, SkinningMethod,
};

#[test]
fn ik_handle_builders_set_one_field_each() {
    let handle = IKHandle::new(Some(String::from("leg")), 1, 4);
    assert_eq!(handle.target_bone, None);
    assert!(!handle.use_target_rotation);
    let handle = handle
        .target_bone(5)
        .pole_bone(6)
        .pole_vector_bone(7)
        .use_target_rotation(true);
    assert_eq!(handle.name, Some(String::from("leg")));
    assert_eq!((handle.start_bone, handle.end_bone), (1, 4));
    assert_eq!(handle.target_bone, Some(5));
    assert_eq!(handle.pole_bone, Some(6));
    assert_eq!(handle.pole_vector_bone, Some(7));
    assert!(handle.use_target_rotation);
}

#[test]
fn packed_vectors_keep_their_parts() {
    assert_eq!(Packed102Vector4::new(0xC000_0001).packed, 0xC000_0001);
    let v = PackedI8Vector4::new(-128, 0, 1, 127);
    assert_eq!((v.x, v.y, v.z, v.w), (-128, 0, 1, 127));
    let v = PackedU8Vector4::new(0, 1, 254, 255);
    assert_eq!((v.x, v.y, v.z, v.w), (0, 1, 254, 255));
}

#[test]
fn io_errors_convert() {
    let error = ModelError::from(std::io::Error::new(std::io::ErrorKind::NotFound, "missing"));
    assert!(matches!(error, ModelError::IoError(_)));
    let error = PreviewError::from(std::io::Error::new(std::io::ErrorKind::Other, "broken"));
    assert!(matches!(error, PreviewError::IoError(_)));
}

#[test]
fn reserve_errors_convert() {
    let failure = Vec::<u8>::new().try_reserve(usize::MAX).unwrap_err();
    assert!(matches!(ModelError::from(failure.clone()), ModelError::TryReserveError(_)));
    assert!(matches!(PreviewError::from(failure), PreviewError::TryReserveError(_)));
}

#[test]
fn enums_compare() {
    assert_eq!(ConstraintType::Point, ConstraintType::Point);
    assert_ne!(ConstraintType::Orient, ConstraintType::Scale);
    assert_ne!(SkinningMethod::Linear, SkinningMethod::DualQuaternion);
}

#[test]
fn remap_requests_are_built() {
    let faces = MaterialRemapFaces::new(String::from("m"), 1, 2, 3);
    let vertices = MaterialRemapVertices::new(String::from("m"), 4, 5, 6);
    assert!(format!("{:?}", faces).contains("face_start: 2"));
    assert!(format!("{:?}", vertices).contains("vertex_start: 5"));
}
