use porter::{PackedU8Vector4, VertexBuffer, VertexColor};

fn colored_buffer(count: u8) -> VertexBuffer {
    let mut buffer = VertexBuffer::builder().colors(1).build();
    for i in 0..count {
        buffer
            .create()
            .set_color(0, VertexColor::new(i, i + 1, i + 2, i + 3));
    }
    buffer
}

#[test]
fn stride_counts_every_field() {
    let buffer = VertexBuffer::builder()
        .uv_layers(2)
        .maximum_influence(3)
        .colors(1)
        .build();
    assert_eq!(buffer.stride(), 24 + 16 + 18 + 4);
    assert_eq!(buffer.uv_layers(), 2);
    assert_eq!(buffer.maximum_influence(), 3);
    assert_eq!(buffer.colors(), 1);
    assert!(buffer.is_empty());
}

#[test]
fn plain_buffer_holds_position_and_normal() {
    let buffer = VertexBuffer::with_capacity(10).build();
    assert_eq!(buffer.stride(), 24);
    assert_eq!(buffer.len(), 0);
}

#[test]
fn create_appends_zeroed_vertex() {
    let mut buffer = VertexBuffer::builder().colors(1).maximum_influence(1).build();
    buffer.create();
    assert_eq!(buffer.len(), 1);
    assert_eq!(buffer.as_slice().len(), 34);
    assert!(buffer.as_slice().iter().all(|b| *b == 0));
    assert_eq!(buffer.vertex(0).color(0), VertexColor::new(0, 0, 0, 0));
}

#[test]
fn color_write_then_read() {
    let mut buffer = VertexBuffer::builder().colors(2).build();
    buffer.create();
    buffer.create();
    buffer.vertex_mut(1).set_color(1, VertexColor::new(1, 2, 3, 4));
    assert_eq!(buffer.vertex(1).color(1), VertexColor::new(1, 2, 3, 4));
    assert_eq!(buffer.vertex(1).color(0), VertexColor::new(0, 0, 0, 0));
    assert_eq!(buffer.vertex(0).color(1), VertexColor::new(0, 0, 0, 0));
    let stride = buffer.stride();
    assert_eq!(&buffer.as_slice()[stride + 28..stride + 32], &[1, 2, 3, 4]);
    let mut vertex = buffer.vertex_mut(1);
    assert_eq!(vertex.color(1), VertexColor::new(1, 2, 3, 4));
    vertex.set_color(0, VertexColor::new(9, 9, 9, 9)).set_color(1, VertexColor::new(5, 6, 7, 8));
    assert_eq!(buffer.vertex(1).color(0), VertexColor::new(9, 9, 9, 9));
    assert_eq!(buffer.vertex(1).color(1), VertexColor::new(5, 6, 7, 8));
}

#[test]
fn weight_bone_is_stored_little_endian() {
    let mut buffer = VertexBuffer::builder().uv_layers(1).maximum_influence(2).build();
    buffer.create().set_weight_bone(1, 0x1234);
    let offset = 24 + 8 + 6;
    assert_eq!(&buffer.as_slice()[offset..offset + 2], &[0x34, 0x12]);
    assert!(buffer.as_slice()[..offset].iter().all(|b| *b == 0));
    assert!(buffer.as_slice()[offset + 2..].iter().all(|b| *b == 0));
}

#[test]
fn remove_shifts_later_vertices_down() {
    let mut buffer = colored_buffer(3);
    buffer.remove(1);
    assert_eq!(buffer.len(), 2);
    assert_eq!(buffer.vertex(0).color(0), VertexColor::new(0, 1, 2, 3));
    assert_eq!(buffer.vertex(1).color(0), VertexColor::new(2, 3, 4, 5));
}

#[test]
fn clear_keeps_layout() {
    let mut buffer = colored_buffer(2);
    buffer.clear();
    assert!(buffer.is_empty());
    assert_eq!(buffer.len(), 0);
    assert_eq!(buffer.colors(), 1);
}

#[test]
fn copy_from_copies_every_byte() {
    let source = colored_buffer(3);
    let mut target = colored_buffer(2);
    target.vertex_mut(0).copy_from(&source.vertex(2));
    assert_eq!(target.vertex(0).color(0), VertexColor::new(2, 3, 4, 5));
    assert_eq!(target.vertex(1).color(0), VertexColor::new(1, 2, 3, 4));
    assert_eq!(&target.as_slice()[..28], &source.as_slice()[56..84]);
}

#[test]
fn copy_from_mut_copies_every_byte() {
    let mut source = colored_buffer(2);
    let mut target = colored_buffer(1);
    let from = source.vertex_mut(1);
    target.vertex_mut(0).copy_from_mut(&from);
    assert_eq!(target.vertex(0).color(0), VertexColor::new(1, 2, 3, 4));
}

#[test]
fn vertex_color_default_is_opaque_white() {
    assert_eq!(VertexColor::default(), VertexColor::new(255, 255, 255, 255));
}

#[test]
fn vertex_color_packs_little_endian() {
    assert_eq!(u32::from(VertexColor::new(1, 2, 3, 4)), 0x0403_0201);
    assert_eq!(u32::from(VertexColor::default()), u32::MAX);
}

#[test]
fn vertex_color_from_bytes_and_packed_vector() {
    assert_eq!(VertexColor::from([9u8, 8, 7, 6]), VertexColor::new(9, 8, 7, 6));
    assert_eq!(
        VertexColor::from(PackedU8Vector4::new(1, 2, 3, 4)),
        VertexColor::new(1, 2, 3, 4)
    );
}

#[test]
fn position_and_normal_bits_round_trip() {
    let mut buffer = VertexBuffer::builder().uv_layers(1).build();
    buffer
        .create()
        .set_position_bits((1.5f32.to_bits(), (-2.0f32).to_bits(), 0x7F80_0000))
        .set_normal_bits((0, 1, 2));
    let vertex = buffer.vertex(0);
    assert_eq!(vertex.position_bits(), (1.5f32.to_bits(), (-2.0f32).to_bits(), 0x7F80_0000));
    assert_eq!(vertex.normal_bits(), (0, 1, 2));
    assert_eq!(&buffer.as_slice()[0..4], &1.5f32.to_le_bytes());
    assert_eq!(&buffer.as_slice()[12..16], &[0, 0, 0, 0]);
    assert_eq!(&buffer.as_slice()[16..20], &[1, 0, 0, 0]);
}

#[test]
fn uv_bits_land_after_the_normal() {
    let mut buffer = VertexBuffer::builder().uv_layers(2).build();
    buffer.create().set_uv_bits(1, (0x0102_0304, 0xA0B0_C0D0));
    assert_eq!(buffer.vertex(0).uv_bits(1), (0x0102_0304, 0xA0B0_C0D0));
    assert_eq!(buffer.vertex(0).uv_bits(0), (0, 0));
    assert_eq!(&buffer.as_slice()[32..40], &[4, 3, 2, 1, 0xD0, 0xC0, 0xB0, 0xA0]);
}

#[test]
fn weight_value_leaves_the_bone() {
    let mut buffer = VertexBuffer::builder().maximum_influence(2).build();
    buffer
        .create()
        .set_weight_bone(1, 7)
        .set_weight_value_bits(1, 0.25f32.to_bits());
    let vertex = buffer.vertex(0);
    assert_eq!(vertex.weight_bone(1), 7);
    assert_eq!(f32::from_bits(vertex.weight_value_bits(1)), 0.25);
    assert_eq!(vertex.weight_bone(0), 0);
    assert_eq!(vertex.weight_value_bits(0), 0);
    let mut vertex = buffer.vertex_mut(0);
    vertex.set_weight_value_bits(1, 1.0f32.to_bits());
    assert_eq!(vertex.position_bits(), (0, 0, 0));
    assert_eq!(buffer.vertex(0).weight_bone(1), 7);
    assert_eq!(f32::from_bits(buffer.vertex(0).weight_value_bits(1)), 1.0);
}
