use vstd::prelude::*;

verus! {

/// A 3d XYZ(W) packed vector with 10 bits for XYZ and 2 bits for W.
#[derive(Debug, Clone, Copy, Default, PartialEq, Eq, Structural)]
pub struct Packed102Vector4 {
    pub packed: u32,
}

impl Packed102Vector4 {
    /// Constructs a new packed vector from the given packed value.
    #[inline]
    pub fn new(packed: u32) -> (v: Self)
        ensures
            v == (Packed102Vector4 { packed }),
    {
        Self { packed }
    }
}

/// A 3d XYZW unit vector packed to signed bytes in the range [-1.0, 1.0].
#[derive(Debug, Clone, Copy, Default, PartialEq, Eq, Structural)]
pub struct PackedI8Vector4 {
    pub x: i8,
    pub y: i8,
    pub z: i8,
    pub w: i8,
}

impl PackedI8Vector4 {
    /// Constructs a new packed vector from its four components.
    #[inline]
    pub fn new(x: i8, y: i8, z: i8, w: i8) -> (v: Self)
        ensures
            v == (PackedI8Vector4 { x, y, z, w }),
    {
        Self { x, y, z, w }
    }
}

/// A 3d XYZW unit vector packed to unsigned bytes in the range [-1.0, 1.0].
#[derive(Debug, Clone, Copy, Default, PartialEq, Eq, Structural)]
pub struct PackedU8Vector4 {
    pub x: u8,
    pub y: u8,
    pub z: u8,
    pub w: u8,
}

impl PackedU8Vector4 {
    /// Constructs a new packed vector from its four components.
    #[inline]
    pub fn new(x: u8, y: u8, z: u8, w: u8) -> (v: Self)
        ensures
            v == (PackedU8Vector4 { x, y, z, w }),
    {
        Self { x, y, z, w }
    }
}

} // verus!
