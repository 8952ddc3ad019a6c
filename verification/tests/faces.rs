use porter::{Face, FaceBuffer, FaceBufferExt};

#[test]
fn face_new_keeps_indices() {
    let face = Face::new(1, 2, 3);
    assert_eq!((face.i1, face.i2, face.i3), (1, 2, 3));
}

#[test]
fn face_from_u16_tuple_widens() {
    let face: Face = (1u16, 2u16, 65535u16).into();
    assert_eq!(face, Face::new(1, 2, 65535));
}

#[test]
fn face_from_u32_tuple() {
    let face: Face = (7u32, 8u32, 4_000_000_000u32).into();
    assert_eq!(face, Face::new(7, 8, 4_000_000_000));
}

#[test]
fn face_swap_order_twice_restores() {
    let mut face = Face::new(1, 2, 3);
    face.swap_order();
    assert_eq!(face, Face::new(3, 2, 1));
    face.swap_order();
    assert_eq!(face, Face::new(1, 2, 3));
}

#[test]
fn strips_alternate_winding() {
    let buffer = FaceBuffer::from_strips_u16(&[0, 1, 2, 3, 4], 0xFFFF);
    assert_eq!(
        buffer,
        vec![Face::new(0, 1, 2), Face::new(3, 2, 1), Face::new(2, 3, 4)]
    );
}

#[test]
fn strips_restart_after_separator() {
    let sep = u32::MAX;
    let buffer = FaceBuffer::from_strips_u32(&[0, 1, 2, sep, 3, 4, 5], sep);
    assert_eq!(buffer, vec![Face::new(0, 1, 2), Face::new(3, 4, 5)]);
}

#[test]
fn strips_winding_restarts_with_each_strip() {
    let sep = 0xFFFFu16;
    let buffer = FaceBuffer::from_strips_u16(&[0, 1, 2, 3, sep, 4, 5, 6, 7], sep);
    assert_eq!(
        buffer,
        vec![
            Face::new(0, 1, 2),
            Face::new(3, 2, 1),
            Face::new(4, 5, 6),
            Face::new(7, 6, 5)
        ]
    );
}

#[test]
fn strips_too_short_give_nothing() {
    assert!(FaceBuffer::from_strips_u16(&[], 0xFFFF).is_empty());
    assert!(FaceBuffer::from_strips_u16(&[0, 1], 0xFFFF).is_empty());
    assert!(FaceBuffer::from_strips_u32(&[0, 1, 9, 2, 3], 9).is_empty());
}

#[test]
fn strips_u16_and_u32_agree() {
    let small: Vec<u16> = vec![5, 6, 7, 8, 100, 9, 10, 11, 12, 13];
    let wide: Vec<u32> = small.iter().map(|x| *x as u32).collect();
    assert_eq!(
        FaceBuffer::from_strips_u16(&small, 100),
        FaceBuffer::from_strips_u32(&wide, 100)
    );
}

#[test]
fn buffer_swap_order_reverses_each_face() {
    let mut buffer: FaceBuffer = vec![Face::new(0, 1, 2), Face::new(3, 4, 5)];
    buffer.swap_order();
    assert_eq!(buffer, vec![Face::new(2, 1, 0), Face::new(5, 4, 3)]);
    buffer.swap_order();
    assert_eq!(buffer, vec![Face::new(0, 1, 2), Face::new(3, 4, 5)]);
}
