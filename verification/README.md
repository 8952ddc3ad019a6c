# porter

Building blocks for 3d model export: faces and triangle strips, vertex buffers, materials,
remapping meshes by material, validation of meshes, skeletons and hair, and name cleaning for
export formats. The library under `src/` is written in Verus. Its functions are verified
against their contracts, except a few small trusted wrappers around std whose contracts restate
std's documentation: `char_is_whitespace` and `string_push` in `src/text.rs`,
`search_by_key` (`binary_search_by_key`) in `src/material.rs`, and `vec_drain` and
`vec_shrink_to_fit` in `src/vertex_buffer.rs`; `src/error.rs` declares `std::io::Error` so that
errors can carry it.

Bone and material names are cleaned by replacing spaces, avoiding `default` and empty names,
and guarding a leading digit (`src/names.rs`). No further file-name cleaning is applied to them:
characters that file systems refuse in file names are kept.

## Layout

- `src/face.rs`: faces, triangle strips, winding order.
- `src/vertex_buffer.rs`, `src/vertex_values.rs`: the byte layout of vertices (position,
  normal, uv layers, weights, colors) and its accessors; float fields are read and written as
  their bits.
- `src/vertex_laws.rs`: what writes, copies, creations and removals do to a buffer.
- `src/material.rs`, `src/material_remap.rs`, `src/obj.rs`: materials, their textures and
  parameters, remap requests and obj texture slots.
- `src/remap.rs`, `src/remap_vertices.rs`, `src/remap_plan.rs`: moving the faces and vertices of
  meshes into new meshes by material, and carrying blend shape deltas over to the copied
  vertices.
- `src/validation.rs`, `src/bones.rs`, `src/plane.rs`: checks of meshes, skeletons, blend shapes
  and hair, bone lookup, ik handles, and the topology of hair and plane meshes.
- `src/names.rs`, `src/text.rs`: cleaning of names for export formats.
- `src/rect.rs`, `src/packed.rs`, `src/kinds.rs`, `src/ik_handle.rs`, `src/error.rs`: small
  value types.
- `tests/`: tests on concrete values.
- `app/`: the parts that hold floats (vectors, meshes, skeletons, hair, models, the obj writer)
  and the binary encoding of model file types, built on the library.
