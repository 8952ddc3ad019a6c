use vstd::prelude::*;

verus! {

/// The type of constraint to apply.
#[derive(Debug, Clone, Copy, PartialEq, Eq, Structural)]
pub enum ConstraintType {
    Point,
    Orient,
    Scale,
}

/// The skinning method to use when deforming a mesh.
#[derive(Debug, Clone, Copy, PartialEq, Eq, Structural)]
pub enum SkinningMethod {
    /// Linear, the default skinning method.
    Linear,
    /// Dual quaternion skinning method.
    DualQuaternion,
}

/// Represents a supported model file type.
#[derive(Debug, Clone, Copy, PartialEq, Eq, Structural)]
pub enum ModelFileType {
    Obj,
    Smd,
    XnaLara,
    XModelExport,
    Cast,
    Maya,
    Fbx,
}

/// The file extension that files of a model file type are saved with.
pub open spec fn file_extension(file_type: ModelFileType) -> Seq<char> {
    match file_type {
        ModelFileType::Obj => "obj"@,
        ModelFileType::Smd => "smd"@,
        ModelFileType::XnaLara => "mesh.ascii"@,
        ModelFileType::XModelExport => "xmodel_export"@,
        ModelFileType::Cast => "cast"@,
        ModelFileType::Maya => "ma"@,
        ModelFileType::Fbx => "fbx"@,
    }
}

impl ModelFileType {
    /// The file extension that files of this type are saved with.
    pub fn extension(&self) -> (extension: &'static str)
        ensures
            extension@ == file_extension(*self),
    {
        match self {
            Self::Obj => "obj",
            Self::Smd => "smd",
            Self::XnaLara => "mesh.ascii",
            Self::XModelExport => "xmodel_export",
            Self::Cast => "cast",
            Self::Maya => "ma",
            Self::Fbx => "fbx",
        }
    }
}

} // verus!
