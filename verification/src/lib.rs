//! Mesh, material and math building blocks for exporting 3d models.
use vstd::prelude::*;

pub mod bones;
pub mod distinct;
pub mod error;
pub mod face;
pub mod ik_handle;
pub mod kinds;
pub mod material;
pub mod material_remap;
pub mod names;
pub mod obj;
pub mod packed;
pub mod plane;
pub mod rect;
pub mod remap;
pub mod remap_plan;
pub mod remap_vertices;
pub mod text;
pub mod vertex_buffer;
pub mod validation;
pub mod vertex_laws;
pub mod vertex_values;

pub use error::{ModelError, PreviewError};
pub use face::{Face, FaceBuffer, FaceBufferExt};
pub use ik_handle::IKHandle;
pub use kinds::{ConstraintType, ModelFileType, SkinningMethod};
pub use material::{
    Material, MaterialParameter, MaterialParameterType, MaterialParameterValue, MaterialTexture,
    MaterialUsage,
};
pub use material_remap::{MaterialRemapFaces, MaterialRemapVertices};
pub use packed::{Packed102Vector4, PackedI8Vector4, PackedU8Vector4};
pub use rect::Rect;
pub use vertex_buffer::{
    Vertex, VertexBuffer, VertexBufferBuilder, VertexColor, VertexMut, WeightBoneId,
};

verus! {

} // verus!
