use vstd::prelude::*;

verus! {

/// Represents one face or triangle indices for a polygon mesh.
#[derive(Debug, Clone, Copy, PartialEq, Eq, Structural)]
pub struct Face {
    pub i1: u32,
    pub i2: u32,
    pub i3: u32,
}

/// A buffer of triangle vertex indices for a polygon mesh.
pub type FaceBuffer = Vec<Face>;

impl Face {
    /// Constructs a face from its three vertex indices.
    #[inline]
    pub fn new(i1: u32, i2: u32, i3: u32) -> (face: Self)
        ensures
            face == (Face { i1, i2, i3 }),
    {
        Self { i1, i2, i3 }
    }

    /// The face with the opposite winding order: the first and last indices trade places.
    pub open spec fn reversed(self) -> Face {
        Face { i1: self.i3, i2: self.i2, i3: self.i1 }
    }

    /// Swaps the winding order of this face.
    #[inline]
    pub fn swap_order(&mut self)
        ensures
            *final(self) == old(self).reversed(),
    {
        let first = self.i1;
        self.i1 = self.i3;
        self.i3 = first;
    }
}

impl From<(u16, u16, u16)> for Face {
    #[inline]
    fn from(value: (u16, u16, u16)) -> (face: Self) {
        Self { i1: value.0 as u32, i2: value.1 as u32, i3: value.2 as u32 }
    }
}

impl vstd::std_specs::convert::FromSpecImpl<(u16, u16, u16)> for Face {
    open spec fn obeys_from_spec() -> bool {
        true
    }

    open spec fn from_spec(value: (u16, u16, u16)) -> Face {
        Face { i1: value.0 as u32, i2: value.1 as u32, i3: value.2 as u32 }
    }
}

impl From<(u32, u32, u32)> for Face {
    #[inline]
    fn from(value: (u32, u32, u32)) -> (face: Self) {
        Self { i1: value.0, i2: value.1, i3: value.2 }
    }
}

impl vstd::std_specs::convert::FromSpecImpl<(u32, u32, u32)> for Face {
    open spec fn obeys_from_spec() -> bool {
        true
    }

    open spec fn from_spec(value: (u32, u32, u32)) -> Face {
        Face { i1: value.0, i2: value.1, i3: value.2 }
    }
}

/// Widens a strip of 16 bit indices to 32 bit indices.
pub open spec fn widen_strip(strips: Seq<u16>) -> Seq<u32> {
    strips.map_values(|v: u16| v as u32)
}

/// Whether the three indices starting at `i` form a triangle: they all exist and none of them is
/// the separator.
pub open spec fn strip_window(strips: Seq<u32>, separator: u32, i: int) -> bool {
    &&& 0 <= i
    &&& i + 2 < strips.len()
    &&& strips[i] != separator
    &&& strips[i + 1] != separator
    &&& strips[i + 2] != separator
}

/// The number of indices directly before `i` that belong to the same strip as `i`
/// (the distance from `i` back to the previous separator, or to the start).
pub open spec fn strip_run(strips: Seq<u32>, separator: u32, i: int) -> nat
    decreases i,
{
    if i <= 0 {
        0
    } else if strips[i - 1] == separator {
        0
    } else {
        1 + strip_run(strips, separator, i - 1)
    }
}

/// The triangle for the window starting at `i`: every second triangle of a strip is flipped so
/// that all triangles keep the same winding.
pub open spec fn strip_face(strips: Seq<u32>, separator: u32, i: int) -> Face {
    if strip_run(strips, separator, i) % 2 == 0 {
        Face { i1: strips[i], i2: strips[i + 1], i3: strips[i + 2] }
    } else {
        Face { i1: strips[i + 2], i2: strips[i + 1], i3: strips[i] }
    }
}

/// The triangle list for the windows that start before `n`, in order.
pub open spec fn strip_faces_upto(strips: Seq<u32>, separator: u32, n: int) -> Seq<Face>
    decreases n,
{
    if n <= 0 {
        Seq::empty()
    } else if strip_window(strips, separator, n - 1) {
        strip_faces_upto(strips, separator, n - 1).push(strip_face(strips, separator, n - 1))
    } else {
        strip_faces_upto(strips, separator, n - 1)
    }
}

/// The triangle list of a whole strip buffer.
pub open spec fn strip_faces(strips: Seq<u32>, separator: u32) -> Seq<Face> {
    strip_faces_upto(strips, separator, strips.len() as int)
}

/// Every face of a buffer reversed.
pub open spec fn reversed_faces(faces: Seq<Face>) -> Seq<Face> {
    faces.map_values(|f: Face| f.reversed())
}

/// Reads the index at `i` of a strip, widened to 32 bits.
trait StripIndex {
    spec fn widened(&self) -> Seq<u32>;

    fn strip_len(&self) -> (n: usize)
        ensures
            n == self.widened().len(),
    ;

    fn strip_at(&self, i: usize) -> (v: u32)
        requires
            i < self.widened().len(),
        ensures
            v == self.widened()[i as int],
    ;
}

impl StripIndex for [u16] {
    spec fn widened(&self) -> Seq<u32> {
        widen_strip(self@)
    }

    fn strip_len(&self) -> (n: usize) {
        self.len()
    }

    fn strip_at(&self, i: usize) -> (v: u32) {
        self[i] as u32
    }
}

impl StripIndex for [u32] {
    spec fn widened(&self) -> Seq<u32> {
        self@
    }

    fn strip_len(&self) -> (n: usize) {
        self.len()
    }

    fn strip_at(&self, i: usize) -> (v: u32) {
        self[i]
    }
}

/// Adding one more window start to the prefix adds the face of that window when it is a triangle.
proof fn lemma_faces_step(strips: Seq<u32>, separator: u32, i: int)
    requires
        0 <= i,
    ensures
        strip_faces_upto(strips, separator, i + 1) == if strip_window(strips, separator, i) {
            strip_faces_upto(strips, separator, i).push(strip_face(strips, separator, i))
        } else {
            strip_faces_upto(strips, separator, i)
        },
{
}

/// Windows that start at or after the end contribute nothing.
proof fn lemma_faces_tail(strips: Seq<u32>, separator: u32, i: int)
    requires
        0 <= i,
        strips.len() <= i + 2,
    ensures
        strip_faces_upto(strips, separator, i) == strip_faces(strips, separator),
    decreases strips.len() + 2 - i,
{
    if i < strips.len() {
        lemma_faces_tail(strips, separator, i + 1);
        lemma_faces_step(strips, separator, i);
    } else if i > strips.len() {
        lemma_faces_down(strips, separator, i);
    }
}

/// Past the end of the strip, the prefix no longer grows.
proof fn lemma_faces_down(strips: Seq<u32>, separator: u32, i: int)
    requires
        strips.len() <= i,
    ensures
        strip_faces_upto(strips, separator, i) == strip_faces(strips, separator),
    decreases i,
{
    if i > strips.len() {
        lemma_faces_down(strips, separator, i - 1);
    }
}

/// Converts a strip buffer to a triangle list; shared by both index widths.
fn faces_from_strips<S: StripIndex + ?Sized>(strips: &S, separator: u32) -> (buffer: FaceBuffer)
    ensures
        buffer@ == strip_faces(strips.widened(), separator),
{
    let ghost s = strips.widened();
    let len = strips.strip_len();
    let mut buffer = FaceBuffer::new();
    let mut i: usize = 0;

    while i < len
        invariant
            len == s.len(),
            s == strips.widened(),
            i <= len,
            buffer@ == strip_faces_upto(s, separator, i as int),
            strip_window(s, separator, i as int) ==> strip_run(s, separator, i as int) == 0,
        decreases len - i,
    {
        if len - i <= 2 || strips.strip_at(i) == separator {
            proof {
                lemma_faces_step(s, separator, i as int);
            }
            i += 1;
            continue;
        }
        let start: usize = i;
        let mut triangle_count: usize = 0;

        while len - i > 2 && strips.strip_at(i) != separator && strips.strip_at(i + 1) != separator
            && strips.strip_at(i + 2) != separator
            invariant
                len == s.len(),
                s == strips.widened(),
                start <= i < len,
                triangle_count == i - start,
                buffer@ == strip_faces_upto(s, separator, i as int),
                strip_window(s, separator, start as int) ==> strip_run(s, separator, start as int)
                    == 0,
                triangle_count > 0 ==> strip_window(s, separator, start as int),
                strip_run(s, separator, i as int) == strip_run(s, separator, start as int)
                    + triangle_count,
            decreases len - i,
        {
            proof {
                lemma_faces_step(s, separator, i as int);
            }
            if triangle_count % 2 == 0 {
                buffer.push(Face::new(strips.strip_at(i), strips.strip_at(i + 1), strips.strip_at(i + 2)));
            } else {
                buffer.push(Face::new(strips.strip_at(i + 2), strips.strip_at(i + 1), strips.strip_at(i)));
            }
            i += 1;
            triangle_count += 1;
        }

        proof {
            lemma_faces_step(s, separator, i as int);
            if i + 2 < len && strip_window(s, separator, i + 1) {
                assert(s[i as int] == separator);
            }
        }
        i += 1;
    }
    buffer
}

/// Useful methods for working with face buffers.
pub trait FaceBufferExt: Sized {
    spec fn faces(&self) -> Seq<Face>;

    /// Creates a new triangle list face buffer from the given strip indices and separator.
    fn from_strips_u16(strips: &[u16], separator: u16) -> (buffer: Self)
        ensures
            buffer.faces() == strip_faces(widen_strip(strips@), separator as u32),
    ;

    /// Creates a new triangle list face buffer from the given strip indices and separator.
    fn from_strips_u32(strips: &[u32], separator: u32) -> (buffer: Self)
        ensures
            buffer.faces() == strip_faces(strips@, separator),
    ;

    /// Swaps the winding order of all of the faces.
    fn swap_order(&mut self)
        ensures
            final(self).faces() == reversed_faces(old(self).faces()),
    ;
}

impl FaceBufferExt for FaceBuffer {
    open spec fn faces(&self) -> Seq<Face> {
        self@
    }

    fn from_strips_u16(strips: &[u16], separator: u16) -> (buffer: FaceBuffer) {
        faces_from_strips(strips, separator as u32)
    }

    fn from_strips_u32(strips: &[u32], separator: u32) -> (buffer: FaceBuffer) {
        faces_from_strips(strips, separator)
    }

    fn swap_order(&mut self) {
        let n = self.len();
        let ghost initial = self@;
        let mut i: usize = 0;
        while i < n
            invariant
                n == initial.len(),
                self@.len() == n,
                i <= n,
                forall|j: int| 0 <= j < i ==> self@[j] == initial[j].reversed(),
                forall|j: int| i <= j < n ==> self@[j] == initial[j],
            decreases n - i,
        {
            let mut face = self[i];
            face.swap_order();
            self.set(i, face);
            i += 1;
        }
        assert(self@ =~= reversed_faces(initial));
    }
}

/// Swapping the winding order twice gives back the initial faces.
pub proof fn law_swap_order_involution(faces: Seq<Face>)
    ensures
        reversed_faces(reversed_faces(faces)) == faces,
{
    assert(reversed_faces(reversed_faces(faces)) =~= faces);
}

/// Strips given as 16 bit indices give the same faces as the same strips given as 32 bit
/// indices, with the separator widened the same way.
pub proof fn law_strip_widths_agree(strips: Seq<u16>, wide: Seq<u32>, separator: u16)
    requires
        wide.len() == strips.len(),
        forall|i: int| 0 <= i < strips.len() ==> wide[i] == strips[i] as u32,
    ensures
        strip_faces(widen_strip(strips), separator as u32) == strip_faces(wide, separator as u32),
{
    assert(widen_strip(strips) =~= wide);
}

/// Every triangle built from strips uses three indices read from the strip, none of which is the
/// separator, and there are never more triangles than windows of three indices.
pub proof fn law_strip_faces_wellformed(strips: Seq<u32>, separator: u32)
    ensures
        strip_faces(strips, separator).len() <= if strips.len() >= 2 {
            strips.len() - 2
        } else {
            0
        },
        forall|k: int|
            0 <= k < strip_faces(strips, separator).len() ==> {
                let f = #[trigger] strip_faces(strips, separator)[k];
                &&& f.i1 != separator
                &&& f.i2 != separator
                &&& f.i3 != separator
                &&& strips.contains(f.i1)
                &&& strips.contains(f.i2)
                &&& strips.contains(f.i3)
            },
{
    lemma_strip_faces_upto_wellformed(strips, separator, strips.len() as int);
}

proof fn lemma_strip_faces_upto_wellformed(strips: Seq<u32>, separator: u32, n: int)
    requires
        0 <= n <= strips.len(),
    ensures
        strip_faces_upto(strips, separator, n).len() <= n,
        strip_faces_upto(strips, separator, n).len() == 0 || strip_faces_upto(
            strips,
            separator,
            n,
        ).len() + 2 <= strips.len(),
        forall|k: int|
            0 <= k < strip_faces_upto(strips, separator, n).len() ==> {
                let f = #[trigger] strip_faces_upto(strips, separator, n)[k];
                &&& f.i1 != separator
                &&& f.i2 != separator
                &&& f.i3 != separator
                &&& strips.contains(f.i1)
                &&& strips.contains(f.i2)
                &&& strips.contains(f.i3)
            },
    decreases n,
{
    if n > 0 {
        lemma_strip_faces_upto_wellformed(strips, separator, n - 1);
        let i = n - 1;
        if strip_window(strips, separator, i) {
            assert(strips[i] == strips[i]);
            assert(strips.contains(strips[i]));
            assert(strips.contains(strips[i + 1]));
            assert(strips.contains(strips[i + 2]));
        }
    }
}

/// The triangle of the window at `i` with the indices in strip order.
pub open spec fn window_in_order(strips: Seq<u32>, i: int) -> Face {
    Face { i1: strips[i], i2: strips[i + 1], i3: strips[i + 2] }
}

/// The first triangle of every strip keeps the strip's own order: at the start of the buffer and
/// right after a separator, the window's indices come out as they stand.
pub proof fn law_strip_starts_in_order(strips: Seq<u32>, separator: u32, i: int)
    requires
        strip_window(strips, separator, i),
        i == 0 || strips[i - 1] == separator,
    ensures
        strip_face(strips, separator, i) == window_in_order(strips, i),
{
}

/// Two neighbouring triangles of one strip have opposite windings: one keeps the strip order of
/// its window and the next one is reversed, or the other way round.
pub proof fn law_strip_alternates(strips: Seq<u32>, separator: u32, i: int)
    requires
        strip_window(strips, separator, i),
        strip_window(strips, separator, i + 1),
    ensures
        (strip_face(strips, separator, i) == window_in_order(strips, i) && strip_face(
            strips,
            separator,
            i + 1,
        ) == window_in_order(strips, i + 1).reversed()) || (strip_face(strips, separator, i)
            == window_in_order(strips, i).reversed() && strip_face(strips, separator, i + 1)
            == window_in_order(strips, i + 1)),
{
    assert(strip_run(strips, separator, i + 1) == 1 + strip_run(strips, separator, i));
}

/// A strip buffer without separators gives one triangle per window of three indices, the
/// triangle of window `k` at place `k`.
pub proof fn law_single_strip_faces(strips: Seq<u32>, separator: u32)
    requires
        strips.len() >= 2,
        forall|k: int| 0 <= k < strips.len() ==> strips[k] != separator,
    ensures
        strip_faces(strips, separator).len() == strips.len() - 2,
        forall|k: int|
            0 <= k < strips.len() - 2 ==> #[trigger] strip_faces(strips, separator)[k]
                == strip_face(strips, separator, k),
{
    lemma_single_strip_upto(strips, separator, strips.len() - 2);
    lemma_faces_tail(strips, separator, strips.len() - 2);
}

proof fn lemma_single_strip_upto(strips: Seq<u32>, separator: u32, n: int)
    requires
        0 <= n <= strips.len() - 2,
        forall|k: int| 0 <= k < strips.len() ==> strips[k] != separator,
    ensures
        strip_faces_upto(strips, separator, n).len() == n,
        forall|k: int|
            0 <= k < n ==> #[trigger] strip_faces_upto(strips, separator, n)[k] == strip_face(
                strips,
                separator,
                k,
            ),
    decreases n,
{
    if n > 0 {
        lemma_single_strip_upto(strips, separator, n - 1);
        assert(strip_window(strips, separator, n - 1));
    }
}

} // verus!
