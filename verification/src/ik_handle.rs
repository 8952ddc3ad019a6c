use vstd::prelude::*;

verus! {

/// A 3d bone inverse kinematics handle.
#[derive(Debug, Clone)]
pub struct IKHandle {
    pub name: Option<String>,
    pub start_bone: usize,
    pub end_bone: usize,
    pub target_bone: Option<usize>,
    pub pole_vector_bone: Option<usize>,
    pub pole_bone: Option<usize>,
    pub use_target_rotation: bool,
}

impl IKHandle {
    /// Constructs a new instance of an ik handle, with no target, pole vector or pole bone and
    /// without using the target's rotation.
    pub fn new(name: Option<String>, start_bone: usize, end_bone: usize) -> (handle: Self)
        ensures
            handle.name == name,
            handle.start_bone == start_bone,
            handle.end_bone == end_bone,
            handle.target_bone is None,
            handle.pole_vector_bone is None,
            handle.pole_bone is None,
            !handle.use_target_rotation,
    {
        Self {
            name,
            start_bone,
            end_bone,
            target_bone: None,
            pole_vector_bone: None,
            pole_bone: None,
            use_target_rotation: false,
        }
    }

    /// Sets the target bone index.
    #[inline]
    pub fn target_bone(self, bone: usize) -> (handle: Self)
        ensures
            handle == (IKHandle { target_bone: Some(bone), ..self }),
    {
        let mut handle = self;
        handle.target_bone = Some(bone);
        handle
    }

    /// Sets the pole vector bone index.
    #[inline]
    pub fn pole_vector_bone(self, bone: usize) -> (handle: Self)
        ensures
            handle == (IKHandle { pole_vector_bone: Some(bone), ..self }),
    {
        let mut handle = self;
        handle.pole_vector_bone = Some(bone);
        handle
    }

    /// Sets the pole bone index.
    #[inline]
    pub fn pole_bone(self, bone: usize) -> (handle: Self)
        ensures
            handle == (IKHandle { pole_bone: Some(bone), ..self }),
    {
        let mut handle = self;
        handle.pole_bone = Some(bone);
        handle
    }

    /// Sets whether or not to use the target bone's rotation.
    #[inline]
    pub fn use_target_rotation(self, value: bool) -> (handle: Self)
        ensures
            handle == (IKHandle { use_target_rotation: value, ..self }),
    {
        let mut handle = self;
        handle.use_target_rotation = value;
        handle
    }
}

} // verus!
