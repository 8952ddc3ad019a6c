use vstd::prelude::*;

use crate::packed::PackedU8Vector4;

verus! {

/// The type of a bone id.
pub type WeightBoneId = u16;

/// Bytes taken by a position or a normal (three 32 bit floats).
pub const VECTOR3_SIZE: usize = 12;

/// Bytes taken by one uv layer (two 32 bit floats).
pub const VECTOR2_SIZE: usize = 8;

/// Bytes taken by one weight (a 16 bit bone id followed by a 32 bit float).
pub const VERTEX_WEIGHT_SIZE: usize = 6;

/// Bytes taken by one vertex color (four 8 bit channels).
pub const VERTEX_COLOR_SIZE: usize = 4;

/// The number of bytes one vertex takes: a position, a normal, the uv layers, the weights and the
/// colors, packed back to back.
pub open spec fn spec_stride(uv_layers: int, maximum_influence: int, colors: int) -> int {
    2 * VECTOR3_SIZE + VECTOR2_SIZE * uv_layers + VERTEX_WEIGHT_SIZE * maximum_influence
        + VERTEX_COLOR_SIZE * colors
}

/// `s` with the bytes starting at `at` replaced by `b`.
pub open spec fn splice(s: Seq<u8>, at: int, b: Seq<u8>) -> Seq<u8> {
    s.subrange(0, at) + b + s.subrange(at + b.len(), s.len() as int)
}

/// Utility to compute the stride of each vertex in bytes.
fn compute_stride(uv_layers: usize, maximum_influence: usize, colors: usize) -> (stride: usize)
    requires
        spec_stride(uv_layers as int, maximum_influence as int, colors as int) <= usize::MAX,
    ensures
        stride == spec_stride(uv_layers as int, maximum_influence as int, colors as int),
{
    (VECTOR3_SIZE * 2) + (VECTOR2_SIZE * uv_layers) + (VERTEX_WEIGHT_SIZE * maximum_influence) + (
    VERTEX_COLOR_SIZE * colors)
}

/// Represents the color of a vertex.
#[derive(Debug, Clone, Copy, PartialEq, Eq, Structural)]
pub struct VertexColor {
    /// The red channel in (0..=255).
    pub r: u8,
    /// The green channel in (0..=255).
    pub g: u8,
    /// The blue channel in (0..=255).
    pub b: u8,
    /// The alpha channel in (0..=255).
    pub a: u8,
}

impl VertexColor {
    /// Constructs a new vertex color.
    pub fn new(r: u8, g: u8, b: u8, a: u8) -> (color: Self)
        ensures
            color == (VertexColor { r, g, b, a }),
    {
        Self { r, g, b, a }
    }

    /// The bytes of this color as stored in a vertex: red, green, blue, alpha.
    pub open spec fn bytes(self) -> Seq<u8> {
        seq![self.r, self.g, self.b, self.a]
    }

    /// The color packed as a little endian 32 bit value: red in the lowest byte, alpha in the
    /// highest.
    pub open spec fn packed(self) -> u32 {
        (self.r + 256 * self.g + 65536 * self.b + 16777216 * self.a) as u32
    }
}

impl Default for VertexColor {
    /// Opaque white.
    fn default() -> (color: Self)
        ensures
            color == (VertexColor { r: 255, g: 255, b: 255, a: 255 }),
    {
        Self::new(255, 255, 255, 255)
    }
}

impl From<VertexColor> for u32 {
    #[inline]
    fn from(value: VertexColor) -> (packed: u32) {
        value.r as u32 + 256 * (value.g as u32) + 65536 * (value.b as u32) + 16777216 * (
        value.a as u32)
    }
}

impl vstd::std_specs::convert::FromSpecImpl<VertexColor> for u32 {
    open spec fn obeys_from_spec() -> bool {
        true
    }

    open spec fn from_spec(value: VertexColor) -> u32 {
        value.packed()
    }
}

impl From<PackedU8Vector4> for VertexColor {
    #[inline]
    fn from(value: PackedU8Vector4) -> (color: Self) {
        Self::new(value.x, value.y, value.z, value.w)
    }
}

impl vstd::std_specs::convert::FromSpecImpl<PackedU8Vector4> for VertexColor {
    open spec fn obeys_from_spec() -> bool {
        true
    }

    open spec fn from_spec(value: PackedU8Vector4) -> VertexColor {
        VertexColor { r: value.x, g: value.y, b: value.z, a: value.w }
    }
}

impl From<[u8; 4]> for VertexColor {
    #[inline]
    fn from(value: [u8; 4]) -> (color: Self) {
        Self::new(value[0], value[1], value[2], value[3])
    }
}

impl vstd::std_specs::convert::FromSpecImpl<[u8; 4]> for VertexColor {
    open spec fn obeys_from_spec() -> bool {
        true
    }

    open spec fn from_spec(value: [u8; 4]) -> VertexColor {
        VertexColor { r: value@[0], g: value@[1], b: value@[2], a: value@[3] }
    }
}

/// The two little endian bytes of a bone id.
pub open spec fn bone_bytes(bone: WeightBoneId) -> Seq<u8> {
    seq![(bone % 256) as u8, (bone / 256) as u8]
}

/// Removes the bytes in `start..end` from the vector, keeping the rest in order.
#[verifier::external_body]
fn vec_drain(buffer: &mut Vec<u8>, start: usize, end: usize)
    requires
        start <= end <= old(buffer)@.len(),
    ensures
        final(buffer)@ == old(buffer)@.subrange(0, start as int) + old(buffer)@.subrange(
            end as int,
            old(buffer)@.len() as int,
        ),
{
    buffer.drain(start..end);
}

/// Releases the spare capacity of the vector; its contents stay as they are.
#[verifier::external_body]
fn vec_shrink_to_fit(buffer: &mut Vec<u8>)
    ensures
        final(buffer)@ == old(buffer)@,
{
    buffer.shrink_to_fit();
}

/// A buffer of vertices for a mesh, stored as one vertex after another, each `stride` bytes long.
#[derive(Clone)]
pub struct VertexBuffer {
    buffer: Vec<u8>,
    colors: usize,
    uv_layers: usize,
    maximum_influence: usize,
}

/// Used to build a buffer of vertices based on the configuration.
#[derive(Debug, Clone, Copy)]
pub struct VertexBufferBuilder {
    pub(crate) capacity: usize,
    pub(crate) colors: usize,
    pub(crate) uv_layers: usize,
    pub(crate) maximum_influence: usize,
}

impl Default for VertexBufferBuilder {
    /// A builder for an empty buffer with no uv layers, weights or colors.
    fn default() -> (builder: Self)
        ensures
            builder.spec_capacity() == 0,
            builder.spec_colors() == 0,
            builder.spec_uv_layers() == 0,
            builder.spec_maximum_influence() == 0,
    {
        VertexBufferBuilder { capacity: 0, colors: 0, uv_layers: 0, maximum_influence: 0 }
    }
}

impl VertexBuffer {
    /// The raw bytes of all vertices.
    pub closed spec fn bytes(&self) -> Seq<u8> {
        self.buffer@
    }

    /// The number of color layers per vertex.
    pub closed spec fn spec_colors(&self) -> nat {
        self.colors as nat
    }

    /// The number of uv layers per vertex.
    pub closed spec fn spec_uv_layers(&self) -> nat {
        self.uv_layers as nat
    }

    /// The number of weights per vertex.
    pub closed spec fn spec_maximum_influence(&self) -> nat {
        self.maximum_influence as nat
    }

    /// The number of bytes per vertex.
    pub open spec fn spec_stride(&self) -> int {
        spec_stride(
            self.spec_uv_layers() as int,
            self.spec_maximum_influence() as int,
            self.spec_colors() as int,
        )
    }

    /// The number of vertices.
    pub open spec fn spec_len(&self) -> int {
        self.bytes().len() as int / self.spec_stride()
    }

    /// A well formed buffer has a stride that fits in memory and holds whole vertices only.
    pub open spec fn wf(&self) -> bool {
        &&& self.spec_stride() <= usize::MAX
        &&& self.bytes().len() <= usize::MAX
        &&& self.bytes().len() as int % self.spec_stride() == 0
    }

    /// Whether both buffers lay out their vertices the same way.
    pub open spec fn same_layout(&self, other: &VertexBuffer) -> bool {
        &&& self.spec_colors() == other.spec_colors()
        &&& self.spec_uv_layers() == other.spec_uv_layers()
        &&& self.spec_maximum_influence() == other.spec_maximum_influence()
    }

    /// The offset of the first byte of a vertex.
    pub open spec fn vertex_offset(&self, index: int) -> int {
        index * self.spec_stride()
    }

    /// The bytes of one vertex.
    pub open spec fn vertex_bytes(&self, index: int) -> Seq<u8> {
        self.bytes().subrange(self.vertex_offset(index), self.vertex_offset(index + 1))
    }

    /// The offset of a weight of a vertex.
    pub open spec fn weight_offset(&self, index: int, weight: int) -> int {
        self.vertex_offset(index) + 2 * VECTOR3_SIZE + VECTOR2_SIZE * self.spec_uv_layers()
            + VERTEX_WEIGHT_SIZE * weight
    }

    /// The offset of a color of a vertex.
    pub open spec fn color_offset(&self, index: int, color: int) -> int {
        self.vertex_offset(index) + 2 * VECTOR3_SIZE + VECTOR2_SIZE * self.spec_uv_layers()
            + VERTEX_WEIGHT_SIZE * self.spec_maximum_influence() + VERTEX_COLOR_SIZE * color
    }

    /// The color stored for a vertex.
    pub open spec fn spec_color(&self, index: int, color: int) -> VertexColor {
        let o = self.color_offset(index, color);
        VertexColor {
            r: self.bytes()[o],
            g: self.bytes()[o + 1],
            b: self.bytes()[o + 2],
            a: self.bytes()[o + 3],
        }
    }

    /// The bone id stored for a weight of a vertex.
    pub open spec fn spec_weight_bone(&self, index: int, weight: int) -> WeightBoneId {
        let o = self.weight_offset(index, weight);
        (self.bytes()[o] + 256 * self.bytes()[o + 1]) as WeightBoneId
    }

    /// Creates a new vertex buffer builder.
    pub fn builder() -> (builder: VertexBufferBuilder)
        ensures
            builder.spec_capacity() == 0,
            builder.spec_colors() == 0,
            builder.spec_uv_layers() == 0,
            builder.spec_maximum_influence() == 0,
    {
        VertexBufferBuilder::default()
    }

    /// Creates a new vertex buffer builder with the given capacity of vertices.
    pub fn with_capacity(capacity: usize) -> (builder: VertexBufferBuilder)
        ensures
            builder.spec_capacity() == capacity,
            builder.spec_colors() == 0,
            builder.spec_uv_layers() == 0,
            builder.spec_maximum_influence() == 0,
    {
        VertexBufferBuilder { capacity, colors: 0, uv_layers: 0, maximum_influence: 0 }
    }

    /// Adds a zeroed vertex to the end of the buffer and returns it.
    pub fn create(&mut self) -> (vertex: VertexMut<'_>)
        requires
            old(self).wf(),
            old(self).bytes().len() + old(self).spec_stride() <= isize::MAX,
        ensures
            vertex.index == old(self).spec_len(),
            vertex.buffer.wf(),
            vertex.buffer.same_layout(old(self)),
            vertex.buffer.bytes() == old(self).bytes() + Seq::new(
                old(self).spec_stride() as nat,
                |i: int| 0u8,
            ),
            vertex.buffer.spec_len() == old(self).spec_len() + 1,
            *final(vertex.buffer) == *final(self),
    {
        let stride = self.stride();
        let old_len = self.buffer.len();
        self.buffer.resize(old_len + stride, 0);
        proof {
            assert(self.buffer@ =~= old(self).buffer@ + Seq::new(stride as nat, |i: int| 0u8));
            lemma_len_grows(old_len as int, stride as int);
        }
        let index = self.len() - 1;
        proof {
            lemma_len_grows(old_len as int, stride as int);
        }
        VertexMut { buffer: self, index }
    }

    /// Removes the vertex at the given index.
    pub fn remove(&mut self, index: usize)
        requires
            old(self).wf(),
            index < old(self).spec_len(),
        ensures
            final(self).wf(),
            final(self).same_layout(old(self)),
            final(self).spec_len() == old(self).spec_len() - 1,
            final(self).bytes() == old(self).bytes().subrange(0, old(self).vertex_offset(index as int))
                + old(self).bytes().subrange(
                old(self).vertex_offset(index + 1),
                old(self).bytes().len() as int,
            ),
    {
        let stride = self.stride();
        proof {
            lemma_vertex_in_bounds(self.bytes().len() as int, stride as int, index as int);
        }
        let start = index * stride;
        vec_drain(&mut self.buffer, start, start + stride);
        proof {
            lemma_len_shrinks(old(self).bytes().len() as int, stride as int);
        }
    }

    /// Returns the number of uv layers.
    pub fn uv_layers(&self) -> (n: usize)
        ensures
            n == self.spec_uv_layers(),
    {
        self.uv_layers
    }

    /// Returns the maximum number of weights.
    pub fn maximum_influence(&self) -> (n: usize)
        ensures
            n == self.spec_maximum_influence(),
    {
        self.maximum_influence
    }

    /// Returns the number of color layers.
    pub fn colors(&self) -> (n: usize)
        ensures
            n == self.spec_colors(),
    {
        self.colors
    }

    /// Clears the vertex buffer.
    pub fn clear(&mut self)
        ensures
            final(self).bytes() == Seq::<u8>::empty(),
            final(self).same_layout(old(self)),
            old(self).wf() ==> final(self).wf(),
    {
        self.buffer.clear();
        vec_shrink_to_fit(&mut self.buffer);
    }

    /// Whether or not the buffer is empty.
    pub fn is_empty(&self) -> (empty: bool)
        ensures
            empty == (self.bytes().len() == 0),
    {
        self.buffer.is_empty()
    }

    /// Returns the number of vertices in the buffer.
    pub fn len(&self) -> (n: usize)
        requires
            self.wf(),
        ensures
            n == self.spec_len(),
    {
        self.buffer.len() / self.stride()
    }

    /// The stride in bytes of each vertex.
    pub fn stride(&self) -> (stride: usize)
        requires
            self.wf(),
        ensures
            stride == self.spec_stride(),
    {
        compute_stride(self.uv_layers, self.maximum_influence, self.colors)
    }

    /// Gets the vertex at the given index.
    pub fn vertex(&self, index: usize) -> (vertex: Vertex<'_>)
        requires
            self.wf(),
            index < self.spec_len(),
        ensures
            *vertex.buffer == *self,
            vertex.index == index,
    {
        Vertex::new(self, index)
    }

    /// Gets a mutable vertex at the given index.
    pub fn vertex_mut(&mut self, index: usize) -> (vertex: VertexMut<'_>)
        requires
            old(self).wf(),
            index < old(self).spec_len(),
        ensures
            *vertex.buffer == *old(self),
            vertex.index == index,
            *final(vertex.buffer) == *final(self),
    {
        VertexMut::new(self, index)
    }

    /// Returns the internal buffer used by this vertex buffer.
    pub fn as_slice(&self) -> (bytes: &[u8])
        ensures
            bytes@ == self.bytes(),
    {
        self.buffer.as_slice()
    }

    /// Writes one byte of the buffer.
    pub(crate) fn write_byte(&mut self, offset: usize, value: u8)
        requires
            offset < old(self).bytes().len(),
        ensures
            final(self).bytes() == old(self).bytes().update(offset as int, value),
            final(self).same_layout(old(self)),
    {
        self.buffer.set(offset, value);
    }

    /// Reads one byte of the buffer.
    pub(crate) fn read_byte(&self, offset: usize) -> (value: u8)
        requires
            offset < self.bytes().len(),
        ensures
            value == self.bytes()[offset as int],
    {
        self.buffer[offset]
    }
}

impl VertexBufferBuilder {
    /// The number of vertices room is made for.
    pub closed spec fn spec_capacity(&self) -> nat {
        self.capacity as nat
    }

    /// The number of color layers per vertex.
    pub closed spec fn spec_colors(&self) -> nat {
        self.colors as nat
    }

    /// The number of uv layers per vertex.
    pub closed spec fn spec_uv_layers(&self) -> nat {
        self.uv_layers as nat
    }

    /// The number of weights per vertex.
    pub closed spec fn spec_maximum_influence(&self) -> nat {
        self.maximum_influence as nat
    }

    /// Sets the maximum number of color layers per vertex.
    pub fn colors(self, colors: usize) -> (builder: Self)
        ensures
            builder.spec_capacity() == self.spec_capacity(),
            builder.spec_colors() == colors,
            builder.spec_uv_layers() == self.spec_uv_layers(),
            builder.spec_maximum_influence() == self.spec_maximum_influence(),
    {
        let mut builder = self;
        builder.colors = colors;
        builder
    }

    /// Sets the maximum number of uv layers per vertex.
    pub fn uv_layers(self, uv_layers: usize) -> (builder: Self)
        ensures
            builder.spec_capacity() == self.spec_capacity(),
            builder.spec_colors() == self.spec_colors(),
            builder.spec_uv_layers() == uv_layers,
            builder.spec_maximum_influence() == self.spec_maximum_influence(),
    {
        let mut builder = self;
        builder.uv_layers = uv_layers;
        builder
    }

    /// Sets the maximum influence per vertex (Maximum number of bones assigned to each vertex for
    /// weights).
    pub fn maximum_influence(self, maximum_influence: usize) -> (builder: Self)
        ensures
            builder.spec_capacity() == self.spec_capacity(),
            builder.spec_colors() == self.spec_colors(),
            builder.spec_uv_layers() == self.spec_uv_layers(),
            builder.spec_maximum_influence() == maximum_influence,
    {
        let mut builder = self;
        builder.maximum_influence = maximum_influence;
        builder
    }

    /// The stride of the buffers this builder makes.
    pub open spec fn builder_stride(&self) -> int {
        spec_stride(
            self.spec_uv_layers() as int,
            self.spec_maximum_influence() as int,
            self.spec_colors() as int,
        )
    }

    /// Builds an empty vertex buffer with room for the configured number of vertices.
    #[inline]
    pub fn build(self) -> (buffer: VertexBuffer)
        requires
            self.builder_stride() <= usize::MAX,
            self.spec_capacity() * self.builder_stride() <= isize::MAX,
        ensures
            buffer.wf(),
            buffer.bytes() == Seq::<u8>::empty(),
            buffer.spec_colors() == self.spec_colors(),
            buffer.spec_uv_layers() == self.spec_uv_layers(),
            buffer.spec_maximum_influence() == self.spec_maximum_influence(),
    {
        let stride = compute_stride(self.uv_layers, self.maximum_influence, self.colors);
        proof {
            vstd::arithmetic::div_mod::lemma_mod_multiples_basic(0, stride as int);
        }

        VertexBuffer {
            buffer: Vec::with_capacity(self.capacity * stride),
            colors: self.colors,
            uv_layers: self.uv_layers,
            maximum_influence: self.maximum_influence,
        }
    }
}

proof fn lemma_len_grows(len: int, stride: int)
    requires
        stride > 0,
        len >= 0,
        len % stride == 0,
    ensures
        (len + stride) % stride == 0,
        (len + stride) / stride == len / stride + 1,
{
    vstd::arithmetic::div_mod::lemma_mod_adds(len, stride, stride);
    vstd::arithmetic::div_mod::lemma_div_plus_one(len, stride);
}

proof fn lemma_len_shrinks(len: int, stride: int)
    requires
        stride > 0,
        len >= stride,
        len % stride == 0,
    ensures
        (len - stride) % stride == 0,
        (len - stride) / stride == len / stride - 1,
{
    vstd::arithmetic::div_mod::lemma_mod_sub_multiples_vanish(len, stride);
    vstd::arithmetic::div_mod::lemma_div_minus_one(len, stride);
}

/// A vertex that lies before `len / stride` lies wholly inside the buffer.
pub(crate) proof fn lemma_vertex_in_bounds(len: int, stride: int, index: int)
    requires
        stride > 0,
        len >= 0,
        len % stride == 0,
        0 <= index < len / stride,
    ensures
        (index + 1) * stride <= len,
        index * stride + stride == (index + 1) * stride,
{
    vstd::arithmetic::div_mod::lemma_fundamental_div_mod(len, stride);
    vstd::arithmetic::mul::lemma_mul_inequality(index + 1, len / stride, stride);
    vstd::arithmetic::mul::lemma_mul_is_distributive_add_other_way(stride, index, 1);
    vstd::arithmetic::mul::lemma_mul_is_commutative(len / stride, stride);
}

/// A single vertex of a polygon mesh.
pub struct Vertex<'a> {
    /// The buffer the vertex lives in.
    pub buffer: &'a VertexBuffer,
    /// The index of the vertex in its buffer.
    pub index: usize,
}

/// A mutable single vertex of a polygon mesh.
pub struct VertexMut<'a> {
    /// The buffer the vertex lives in.
    pub buffer: &'a mut VertexBuffer,
    /// The index of the vertex in its buffer.
    pub index: usize,
}

impl<'a> Vertex<'a> {
    /// Creates a new instance of vertex.
    pub(crate) fn new(buffer: &'a VertexBuffer, index: usize) -> (vertex: Self)
        ensures
            *vertex.buffer == *buffer,
            vertex.index == index,
    {
        Self { buffer, index }
    }

    /// Returns the bone id of a weight of this vertex.
    pub fn weight_bone(&self, index: usize) -> (bone: WeightBoneId)
        requires
            self.buffer.wf(),
            self.index < self.buffer.spec_len(),
            index < self.buffer.spec_maximum_influence(),
        ensures
            bone == self.buffer.spec_weight_bone(self.index as int, index as int),
    {
        let o = weight_offset(self.buffer, self.index, index);
        let low = self.buffer.read_byte(o) as u16;
        let high = self.buffer.read_byte(o + 1) as u16;
        low + 256 * high
    }

    /// Returns the color for this vertex.
    pub fn color(&self, index: usize) -> (color: VertexColor)
        requires
            self.buffer.wf(),
            self.index < self.buffer.spec_len(),
            index < self.buffer.spec_colors(),
        ensures
            color == self.buffer.spec_color(self.index as int, index as int),
    {
        proof {
            lemma_color_in_bounds(self.buffer, self.index as int, index as int);
        }
        let o = color_offset(self.buffer, self.index, index);
        VertexColor::new(
            self.buffer.read_byte(o),
            self.buffer.read_byte(o + 1),
            self.buffer.read_byte(o + 2),
            self.buffer.read_byte(o + 3),
        )
    }
}

/// Overwrites the bytes of vertex `dst` of `target` with those of vertex `src` of `source`.
fn copy_vertex_bytes(target: &mut VertexBuffer, dst: usize, source: &VertexBuffer, src: usize)
    requires
        old(target).wf(),
        dst < old(target).spec_len(),
        source.wf(),
        src < source.spec_len(),
        source.same_layout(old(target)),
    ensures
        final(target).wf(),
        final(target).same_layout(old(target)),
        final(target).bytes() == splice(
            old(target).bytes(),
            old(target).vertex_offset(dst as int),
            source.vertex_bytes(src as int),
        ),
{
    let stride = target.stride();
    proof {
        lemma_vertex_in_bounds(target.bytes().len() as int, stride as int, dst as int);
        lemma_vertex_in_bounds(source.bytes().len() as int, stride as int, src as int);
    }
    let to = dst * stride;
    let from = src * stride;
    let ghost initial = target.bytes();
    let ghost copied = source.vertex_bytes(src as int);
    let mut k: usize = 0;
    while k < stride
        invariant
            0 <= k <= stride,
            stride == old(target).spec_stride(),
            stride == source.spec_stride(),
            to == old(target).vertex_offset(dst as int),
            from == source.vertex_offset(src as int),
            to + stride <= initial.len() <= usize::MAX,
            from + stride <= source.bytes().len() <= usize::MAX,
            initial == old(target).bytes(),
            copied == source.bytes().subrange(from as int, from + stride),
            target.same_layout(old(target)),
            target.bytes().len() == initial.len(),
            forall|j: int|
                0 <= j < initial.len() ==> #[trigger] target.bytes()[j] == if to <= j < to + k {
                    copied[j - to]
                } else {
                    initial[j]
                },
        decreases stride - k,
    {
        let value = source.read_byte(from + k);
        target.write_byte(to + k, value);
        k = k + 1;
    }
    proof {
        assert(target.bytes() =~= splice(initial, to as int, copied));
    }
}

/// The offset of a color of a vertex, computed.
fn color_offset(buffer: &VertexBuffer, vertex: usize, color: usize) -> (offset: usize)
    requires
        buffer.wf(),
        vertex < buffer.spec_len(),
        color < buffer.spec_colors(),
    ensures
        offset == buffer.color_offset(vertex as int, color as int),
        offset + VERTEX_COLOR_SIZE <= buffer.bytes().len(),
{
    proof {
        lemma_color_in_bounds(buffer, vertex as int, color as int);
    }
    vertex * buffer.stride() + 2 * VECTOR3_SIZE + VECTOR2_SIZE * buffer.uv_layers()
        + VERTEX_WEIGHT_SIZE * buffer.maximum_influence() + VERTEX_COLOR_SIZE * color
}

/// The offset of a weight of a vertex, computed.
fn weight_offset(buffer: &VertexBuffer, vertex: usize, weight: usize) -> (offset: usize)
    requires
        buffer.wf(),
        vertex < buffer.spec_len(),
        weight < buffer.spec_maximum_influence(),
    ensures
        offset == buffer.weight_offset(vertex as int, weight as int),
        offset + VERTEX_WEIGHT_SIZE <= buffer.bytes().len(),
{
    proof {
        lemma_weight_in_bounds(buffer, vertex as int, weight as int);
    }
    vertex * buffer.stride() + 2 * VECTOR3_SIZE + VECTOR2_SIZE * buffer.uv_layers()
        + VERTEX_WEIGHT_SIZE * weight
}

proof fn lemma_color_in_bounds(buffer: &VertexBuffer, vertex: int, color: int)
    requires
        buffer.wf(),
        0 <= vertex < buffer.spec_len(),
        0 <= color < buffer.spec_colors(),
    ensures
        buffer.color_offset(vertex, color) + VERTEX_COLOR_SIZE <= buffer.vertex_offset(vertex + 1),
        buffer.vertex_offset(vertex + 1) <= buffer.bytes().len(),
        0 <= buffer.vertex_offset(vertex),
{
    lemma_vertex_in_bounds(buffer.bytes().len() as int, buffer.spec_stride(), vertex);
    vstd::arithmetic::mul::lemma_mul_nonnegative(vertex, buffer.spec_stride());
}

proof fn lemma_weight_in_bounds(buffer: &VertexBuffer, vertex: int, weight: int)
    requires
        buffer.wf(),
        0 <= vertex < buffer.spec_len(),
        0 <= weight < buffer.spec_maximum_influence(),
    ensures
        buffer.weight_offset(vertex, weight) + VERTEX_WEIGHT_SIZE <= buffer.vertex_offset(
            vertex + 1,
        ),
        buffer.vertex_offset(vertex + 1) <= buffer.bytes().len(),
        0 <= buffer.vertex_offset(vertex),
{
    lemma_vertex_in_bounds(buffer.bytes().len() as int, buffer.spec_stride(), vertex);
    vstd::arithmetic::mul::lemma_mul_nonnegative(vertex, buffer.spec_stride());
}

impl<'a> VertexMut<'a> {
    /// Creates a new instance of vertex.
    pub(crate) fn new(buffer: &'a mut VertexBuffer, index: usize) -> (vertex: Self)
        ensures
            *vertex.buffer == *old(buffer),
            vertex.index == index,
            *final(vertex.buffer) == *final(buffer),
    {
        Self { buffer, index }
    }

    /// Sets the weight bone index for this vertex.
    pub fn set_weight_bone(&mut self, index: usize, bone: WeightBoneId) -> (vertex: &mut Self)
        requires
            old(self).buffer.wf(),
            old(self).index < old(self).buffer.spec_len(),
            index < old(self).buffer.spec_maximum_influence(),
        ensures
            vertex.index == old(self).index,
            vertex.buffer.same_layout(old(self).buffer),
            vertex.buffer.wf(),
            vertex.buffer.bytes() == splice(
                old(self).buffer.bytes(),
                old(self).buffer.weight_offset(old(self).index as int, index as int),
                bone_bytes(bone),
            ),
            *final(vertex.buffer) == *final(old(self).buffer),
            *final(self) == *final(vertex),
    {
        let o = weight_offset(self.buffer, self.index, index);
        self.buffer.write_byte(o, (bone % 256) as u8);
        self.buffer.write_byte(o + 1, (bone / 256) as u8);
        proof {
            assert(self.buffer.bytes() =~= splice(old(self).buffer.bytes(), o as int, bone_bytes(bone)));
        }
        self
    }

    /// Copies all of the values from the given vertex, whose buffer must lay out its vertices
    /// the same way.
    pub fn copy_from(&mut self, vertex: &Vertex<'_>)
        requires
            old(self).buffer.wf(),
            old(self).index < old(self).buffer.spec_len(),
            vertex.buffer.wf(),
            vertex.index < vertex.buffer.spec_len(),
            vertex.buffer.same_layout(old(self).buffer),
        ensures
            final(self).index == old(self).index,
            final(self).buffer.wf(),
            final(self).buffer.same_layout(old(self).buffer),
            final(self).buffer.bytes() == splice(
                old(self).buffer.bytes(),
                old(self).buffer.vertex_offset(old(self).index as int),
                vertex.buffer.vertex_bytes(vertex.index as int),
            ),
            *final(final(self).buffer) == *final(old(self).buffer),
    {
        copy_vertex_bytes(self.buffer, self.index, vertex.buffer, vertex.index);
    }

    /// Copies all of the values from the given mutable vertex, whose buffer must lay out its
    /// vertices the same way.
    pub fn copy_from_mut(&mut self, vertex: &VertexMut<'_>)
        requires
            old(self).buffer.wf(),
            old(self).index < old(self).buffer.spec_len(),
            old(vertex.buffer).wf(),
            vertex.index < old(vertex.buffer).spec_len(),
            old(vertex.buffer).same_layout(old(self).buffer),
        ensures
            final(self).index == old(self).index,
            final(self).buffer.wf(),
            final(self).buffer.same_layout(old(self).buffer),
            final(self).buffer.bytes() == splice(
                old(self).buffer.bytes(),
                old(self).buffer.vertex_offset(old(self).index as int),
                old(vertex.buffer).vertex_bytes(vertex.index as int),
            ),
            *final(final(self).buffer) == *final(old(self).buffer),
    {
        copy_vertex_bytes(self.buffer, self.index, vertex.buffer, vertex.index);
    }

    /// Returns the color for this vertex.
    pub fn color(&self, index: usize) -> (color: VertexColor)
        requires
            old(self.buffer).wf(),
            self.index < old(self.buffer).spec_len(),
            index < old(self.buffer).spec_colors(),
        ensures
            color == old(self.buffer).spec_color(self.index as int, index as int),
    {
        let o = color_offset(self.buffer, self.index, index);
        VertexColor::new(
            self.buffer.read_byte(o),
            self.buffer.read_byte(o + 1),
            self.buffer.read_byte(o + 2),
            self.buffer.read_byte(o + 3),
        )
    }

    /// Sets the color for this vertex.
    pub fn set_color(&mut self, index: usize, color: VertexColor) -> (vertex: &mut Self)
        requires
            old(self).buffer.wf(),
            old(self).index < old(self).buffer.spec_len(),
            index < old(self).buffer.spec_colors(),
        ensures
            vertex.index == old(self).index,
            vertex.buffer.same_layout(old(self).buffer),
            vertex.buffer.wf(),
            vertex.buffer.bytes() == splice(
                old(self).buffer.bytes(),
                old(self).buffer.color_offset(old(self).index as int, index as int),
                color.bytes(),
            ),
            *final(vertex.buffer) == *final(old(self).buffer),
            *final(self) == *final(vertex),
    {
        let o = color_offset(self.buffer, self.index, index);
        self.buffer.write_byte(o, color.r);
        self.buffer.write_byte(o + 1, color.g);
        self.buffer.write_byte(o + 2, color.b);
        self.buffer.write_byte(o + 3, color.a);
        proof {
            assert(self.buffer.bytes() =~= splice(old(self).buffer.bytes(), o as int, color.bytes()));
        }
        self
    }
}

} // verus!
