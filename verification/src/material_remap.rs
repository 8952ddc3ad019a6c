use vstd::prelude::*;

verus! {

/// A material remap operation by faces.
#[derive(Debug)]
pub struct MaterialRemapFaces {
    pub(crate) material: String,
    pub(crate) mesh: usize,
    pub(crate) face_start: usize,
    pub(crate) length: usize,
}

/// A material remap operation by vertex.
#[derive(Debug)]
pub struct MaterialRemapVertices {
    pub(crate) material: String,
    pub(crate) mesh: usize,
    pub(crate) vertex_start: usize,
    pub(crate) length: usize,
}

impl MaterialRemapFaces {
    /// The material source name the faces move to.
    pub closed spec fn spec_material(&self) -> Seq<char> {
        self.material@
    }

    /// The index of the mesh the faces come from.
    pub closed spec fn spec_mesh(&self) -> usize {
        self.mesh
    }

    /// The first face of the run.
    pub closed spec fn spec_face_start(&self) -> usize {
        self.face_start
    }

    /// The number of faces in the run.
    pub closed spec fn spec_length(&self) -> usize {
        self.length
    }

    /// Constructs a new instance of material remap by faces.
    pub fn new(material: String, mesh: usize, face_start: usize, length: usize) -> (remap: Self)
        ensures
            remap.spec_material() == material@,
            remap.spec_mesh() == mesh,
            remap.spec_face_start() == face_start,
            remap.spec_length() == length,
    {
        Self { material, mesh, face_start, length }
    }

    /// The material, mesh, first face and face count of the remap.
    pub(crate) fn parts(&self) -> (parts: (&String, usize, usize, usize))
        ensures
            parts.0@ == self.spec_material(),
            parts.1 == self.spec_mesh(),
            parts.2 == self.spec_face_start(),
            parts.3 == self.spec_length(),
    {
        (&self.material, self.mesh, self.face_start, self.length)
    }
}

impl MaterialRemapVertices {
    /// The material source name the vertices move to.
    pub closed spec fn spec_material(&self) -> Seq<char> {
        self.material@
    }

    /// The index of the mesh the vertices come from.
    pub closed spec fn spec_mesh(&self) -> usize {
        self.mesh
    }

    /// The first vertex of the run.
    pub closed spec fn spec_vertex_start(&self) -> usize {
        self.vertex_start
    }

    /// The number of vertices in the run.
    pub closed spec fn spec_length(&self) -> usize {
        self.length
    }

    /// Constructs a new instance of material remap by vertex.
    pub fn new(material: String, mesh: usize, vertex_start: usize, length: usize) -> (remap: Self)
        ensures
            remap.spec_material() == material@,
            remap.spec_mesh() == mesh,
            remap.spec_vertex_start() == vertex_start,
            remap.spec_length() == length,
    {
        Self { material, mesh, vertex_start, length }
    }

    /// The material, mesh, first vertex and vertex count of the remap.
    pub(crate) fn parts(&self) -> (parts: (&String, usize, usize, usize))
        ensures
            parts.0@ == self.spec_material(),
            parts.1 == self.spec_mesh(),
            parts.2 == self.spec_vertex_start(),
            parts.3 == self.spec_length(),
    {
        (&self.material, self.mesh, self.vertex_start, self.length)
    }
}

} // verus!
