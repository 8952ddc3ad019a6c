use vstd::prelude::*;

use crate::vertex_buffer::{
    lemma_vertex_in_bounds, splice, Vertex, VertexBuffer, VertexMut, VECTOR2_SIZE, VECTOR3_SIZE,
    VERTEX_WEIGHT_SIZE,
};

verus! {

// Positions, normals, uv coordinates and weight values are 32 bit floats. The buffer stores
// their bits, four little endian bytes each, and these accessors read and write those bits;
// turning bits into floats and back is left to the caller.

/// The four little endian bytes of a 32 bit value.
pub open spec fn u32_bytes(value: u32) -> Seq<u8> {
    seq![
        (value % 256) as u8,
        ((value / 256) % 256) as u8,
        ((value / 65536) % 256) as u8,
        (value / 16777216) as u8,
    ]
}

/// The 32 bit value stored little endian at an offset.
pub open spec fn u32_at(bytes: Seq<u8>, offset: int) -> u32 {
    (bytes[offset] + 256 * bytes[offset + 1] + 65536 * bytes[offset + 2] + 16777216 * bytes[offset
        + 3]) as u32
}

/// The bytes of three 32 bit values, one after another.
pub open spec fn triple_bytes(values: (u32, u32, u32)) -> Seq<u8> {
    u32_bytes(values.0) + u32_bytes(values.1) + u32_bytes(values.2)
}

/// The bytes of two 32 bit values, one after another.
pub open spec fn pair_bytes(values: (u32, u32)) -> Seq<u8> {
    u32_bytes(values.0) + u32_bytes(values.1)
}

impl VertexBuffer {
    /// The offset of the position of a vertex: its first bytes.
    pub open spec fn position_offset(&self, index: int) -> int {
        self.vertex_offset(index)
    }

    /// The offset of the normal of a vertex: right after its position.
    pub open spec fn normal_offset(&self, index: int) -> int {
        self.vertex_offset(index) + VECTOR3_SIZE
    }

    /// The offset of a uv layer of a vertex: after its position and normal and the layers before.
    pub open spec fn uv_offset(&self, index: int, layer: int) -> int {
        self.vertex_offset(index) + 2 * VECTOR3_SIZE + VECTOR2_SIZE * layer
    }

    /// The offset of the value of a weight of a vertex: right after the weight's bone id.
    pub open spec fn weight_value_offset(&self, index: int, weight: int) -> int {
        self.weight_offset(index, weight) + 2
    }

    /// The bits of the position of a vertex.
    pub open spec fn spec_position(&self, index: int) -> (u32, u32, u32) {
        let o = self.position_offset(index);
        (u32_at(self.bytes(), o), u32_at(self.bytes(), o + 4), u32_at(self.bytes(), o + 8))
    }

    /// The bits of the normal of a vertex.
    pub open spec fn spec_normal(&self, index: int) -> (u32, u32, u32) {
        let o = self.normal_offset(index);
        (u32_at(self.bytes(), o), u32_at(self.bytes(), o + 4), u32_at(self.bytes(), o + 8))
    }

    /// The bits of a uv layer of a vertex.
    pub open spec fn spec_uv(&self, index: int, layer: int) -> (u32, u32) {
        let o = self.uv_offset(index, layer);
        (u32_at(self.bytes(), o), u32_at(self.bytes(), o + 4))
    }

    /// The bits of the value of a weight of a vertex.
    pub open spec fn spec_weight_value(&self, index: int, weight: int) -> u32 {
        u32_at(self.bytes(), self.weight_value_offset(index, weight))
    }
}

/// Bytes `within..within + size` of a vertex lie inside the buffer.
proof fn lemma_field_in_bounds(buffer: &VertexBuffer, vertex: int, within: int, size: int)
    requires
        buffer.wf(),
        0 <= vertex < buffer.spec_len(),
        0 <= within,
        within + size <= buffer.spec_stride(),
    ensures
        0 <= buffer.vertex_offset(vertex),
        buffer.vertex_offset(vertex) + within + size <= buffer.bytes().len(),
{
    lemma_vertex_in_bounds(buffer.bytes().len() as int, buffer.spec_stride(), vertex);
    vstd::arithmetic::mul::lemma_mul_nonnegative(vertex, buffer.spec_stride());
}

/// The offset of bytes `within..` of a vertex, computed.
fn field_offset(buffer: &VertexBuffer, vertex: usize, within: usize, size: usize) -> (offset: usize)
    requires
        buffer.wf(),
        vertex < buffer.spec_len(),
        within + size <= buffer.spec_stride(),
    ensures
        offset == buffer.vertex_offset(vertex as int) + within,
        offset + size <= buffer.bytes().len(),
{
    proof {
        lemma_field_in_bounds(buffer, vertex as int, within as int, size as int);
    }
    vertex * buffer.stride() + within
}

/// Reads the 32 bit value stored little endian at an offset.
fn read_u32(buffer: &VertexBuffer, offset: usize) -> (value: u32)
    requires
        offset + 4 <= buffer.bytes().len() <= usize::MAX,
    ensures
        value == u32_at(buffer.bytes(), offset as int),
{
    let b0 = buffer.read_byte(offset) as u32;
    let b1 = buffer.read_byte(offset + 1) as u32;
    let b2 = buffer.read_byte(offset + 2) as u32;
    let b3 = buffer.read_byte(offset + 3) as u32;
    b0 + 256 * b1 + 65536 * b2 + 16777216 * b3
}

/// Writes a 32 bit value little endian at an offset.
fn write_u32(buffer: &mut VertexBuffer, offset: usize, value: u32)
    requires
        offset + 4 <= old(buffer).bytes().len() <= usize::MAX,
    ensures
        final(buffer).bytes() == splice(old(buffer).bytes(), offset as int, u32_bytes(value)),
        final(buffer).same_layout(old(buffer)),
{
    buffer.write_byte(offset, (value % 256) as u8);
    buffer.write_byte(offset + 1, ((value / 256) % 256) as u8);
    buffer.write_byte(offset + 2, ((value / 65536) % 256) as u8);
    buffer.write_byte(offset + 3, (value / 16777216) as u8);
    proof {
        assert(buffer.bytes() =~= splice(old(buffer).bytes(), offset as int, u32_bytes(value)));
    }
}

/// A 32 bit value written as four little endian bytes reads back as itself.
pub proof fn law_u32_bytes_round_trip(value: u32)
    ensures
        u32_at(u32_bytes(value), 0) == value,
{
    let b = u32_bytes(value);
    assert((value % 256) + 256 * ((value / 256) % 256) + 65536 * ((value / 65536) % 256)
        + 16777216 * (value / 16777216) == value) by (bit_vector);
    assert(b[0] == value % 256);
    assert(b[1] == (value / 256) % 256);
    assert(b[2] == (value / 65536) % 256);
    assert(b[3] == value / 16777216) by {
        assert(value / 16777216 < 256) by (bit_vector);
    }
}

/// Writes three 32 bit values one after another.
fn write_triple(buffer: &mut VertexBuffer, offset: usize, values: (u32, u32, u32))
    requires
        offset + 12 <= old(buffer).bytes().len() <= usize::MAX,
    ensures
        final(buffer).bytes() == splice(old(buffer).bytes(), offset as int, triple_bytes(values)),
        final(buffer).same_layout(old(buffer)),
{
    write_u32(buffer, offset, values.0);
    write_u32(buffer, offset + 4, values.1);
    write_u32(buffer, offset + 8, values.2);
    proof {
        assert(buffer.bytes() =~= splice(old(buffer).bytes(), offset as int, triple_bytes(values)));
    }
}

/// Writes two 32 bit values one after another.
fn write_pair(buffer: &mut VertexBuffer, offset: usize, values: (u32, u32))
    requires
        offset + 8 <= old(buffer).bytes().len() <= usize::MAX,
    ensures
        final(buffer).bytes() == splice(old(buffer).bytes(), offset as int, pair_bytes(values)),
        final(buffer).same_layout(old(buffer)),
{
    write_u32(buffer, offset, values.0);
    write_u32(buffer, offset + 4, values.1);
    proof {
        assert(buffer.bytes() =~= splice(old(buffer).bytes(), offset as int, pair_bytes(values)));
    }
}

impl<'a> Vertex<'a> {
    /// Returns the bits of the position of this vertex.
    pub fn position_bits(&self) -> (position: (u32, u32, u32))
        requires
            self.buffer.wf(),
            self.index < self.buffer.spec_len(),
        ensures
            position == self.buffer.spec_position(self.index as int),
    {
        let o = field_offset(self.buffer, self.index, 0, 12);
        (read_u32(self.buffer, o), read_u32(self.buffer, o + 4), read_u32(self.buffer, o + 8))
    }

    /// Returns the bits of the normal of this vertex.
    pub fn normal_bits(&self) -> (normal: (u32, u32, u32))
        requires
            self.buffer.wf(),
            self.index < self.buffer.spec_len(),
        ensures
            normal == self.buffer.spec_normal(self.index as int),
    {
        let o = field_offset(self.buffer, self.index, 12, 12);
        (read_u32(self.buffer, o), read_u32(self.buffer, o + 4), read_u32(self.buffer, o + 8))
    }

    /// Returns the bits of a uv layer of this vertex.
    pub fn uv_bits(&self, index: usize) -> (uv: (u32, u32))
        requires
            self.buffer.wf(),
            self.index < self.buffer.spec_len(),
            index < self.buffer.spec_uv_layers(),
        ensures
            uv == self.buffer.spec_uv(self.index as int, index as int),
    {
        let o = field_offset(self.buffer, self.index, 24 + 8 * index, 8);
        (read_u32(self.buffer, o), read_u32(self.buffer, o + 4))
    }

    /// Returns the bits of the value of a weight of this vertex.
    pub fn weight_value_bits(&self, index: usize) -> (value: u32)
        requires
            self.buffer.wf(),
            self.index < self.buffer.spec_len(),
            index < self.buffer.spec_maximum_influence(),
        ensures
            value == self.buffer.spec_weight_value(self.index as int, index as int),
    {
        let o = field_offset(
            self.buffer,
            self.index,
            24 + 8 * self.buffer.uv_layers() + 6 * index + 2,
            4,
        );
        read_u32(self.buffer, o)
    }
}

impl<'a> VertexMut<'a> {
    /// Returns the bits of the position of this vertex.
    pub fn position_bits(&self) -> (position: (u32, u32, u32))
        requires
            old(self.buffer).wf(),
            self.index < old(self.buffer).spec_len(),
        ensures
            position == old(self.buffer).spec_position(self.index as int),
    {
        let o = field_offset(self.buffer, self.index, 0, 12);
        (read_u32(self.buffer, o), read_u32(self.buffer, o + 4), read_u32(self.buffer, o + 8))
    }

    /// Returns the bits of the normal of this vertex.
    pub fn normal_bits(&self) -> (normal: (u32, u32, u32))
        requires
            old(self.buffer).wf(),
            self.index < old(self.buffer).spec_len(),
        ensures
            normal == old(self.buffer).spec_normal(self.index as int),
    {
        let o = field_offset(self.buffer, self.index, 12, 12);
        (read_u32(self.buffer, o), read_u32(self.buffer, o + 4), read_u32(self.buffer, o + 8))
    }

    /// Sets the bits of the position of this vertex.
    pub fn set_position_bits(&mut self, position: (u32, u32, u32)) -> (vertex: &mut Self)
        requires
            old(self).buffer.wf(),
            old(self).index < old(self).buffer.spec_len(),
        ensures
            vertex.index == old(self).index,
            vertex.buffer.same_layout(old(self).buffer),
            vertex.buffer.wf(),
            vertex.buffer.bytes() == splice(
                old(self).buffer.bytes(),
                old(self).buffer.position_offset(old(self).index as int),
                triple_bytes(position),
            ),
            *final(vertex.buffer) == *final(old(self).buffer),
            *final(self) == *final(vertex),
    {
        let o = field_offset(self.buffer, self.index, 0, 12);
        write_triple(self.buffer, o, position);
        self
    }

    /// Sets the bits of the normal of this vertex.
    pub fn set_normal_bits(&mut self, normal: (u32, u32, u32)) -> (vertex: &mut Self)
        requires
            old(self).buffer.wf(),
            old(self).index < old(self).buffer.spec_len(),
        ensures
            vertex.index == old(self).index,
            vertex.buffer.same_layout(old(self).buffer),
            vertex.buffer.wf(),
            vertex.buffer.bytes() == splice(
                old(self).buffer.bytes(),
                old(self).buffer.normal_offset(old(self).index as int),
                triple_bytes(normal),
            ),
            *final(vertex.buffer) == *final(old(self).buffer),
            *final(self) == *final(vertex),
    {
        let o = field_offset(self.buffer, self.index, 12, 12);
        write_triple(self.buffer, o, normal);
        self
    }

    /// Sets the bits of a uv layer of this vertex.
    pub fn set_uv_bits(&mut self, index: usize, uv: (u32, u32)) -> (vertex: &mut Self)
        requires
            old(self).buffer.wf(),
            old(self).index < old(self).buffer.spec_len(),
            index < old(self).buffer.spec_uv_layers(),
        ensures
            vertex.index == old(self).index,
            vertex.buffer.same_layout(old(self).buffer),
            vertex.buffer.wf(),
            vertex.buffer.bytes() == splice(
                old(self).buffer.bytes(),
                old(self).buffer.uv_offset(old(self).index as int, index as int),
                pair_bytes(uv),
            ),
            *final(vertex.buffer) == *final(old(self).buffer),
            *final(self) == *final(vertex),
    {
        let o = field_offset(self.buffer, self.index, 24 + 8 * index, 8);
        write_pair(self.buffer, o, uv);
        self
    }

    /// Sets the bits of the value of a weight of this vertex.
    pub fn set_weight_value_bits(&mut self, index: usize, value: u32) -> (vertex: &mut Self)
        requires
            old(self).buffer.wf(),
            old(self).index < old(self).buffer.spec_len(),
            index < old(self).buffer.spec_maximum_influence(),
        ensures
            vertex.index == old(self).index,
            vertex.buffer.same_layout(old(self).buffer),
            vertex.buffer.wf(),
            vertex.buffer.bytes() == splice(
                old(self).buffer.bytes(),
                old(self).buffer.weight_value_offset(old(self).index as int, index as int),
                u32_bytes(value),
            ),
            *final(vertex.buffer) == *final(old(self).buffer),
            *final(self) == *final(vertex),
    {
        let o = field_offset(
            self.buffer,
            self.index,
            24 + 8 * self.buffer.uv_layers() + 6 * index + 2,
            4,
        );
        write_u32(self.buffer, o, value);
        self
    }
}

} // verus!
