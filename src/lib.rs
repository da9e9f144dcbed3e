//! Conversion of triangle meshes with materials into flat, GPU-ready
//! vertex attribute and index buffers.
//!
//! The pipeline: a [`mesh::Mesh`] is checked, the triangles touching each
//! position are gathered ([`normals`]) so that smooth normals can be summed,
//! each group is split into a locally renumbered [`chunk::Chunk`] under its
//! resolved [`material::Material`], and the chunks are concatenated into
//! flat buffers ([`flatten`]) with one texture source each ([`texture`]).
//!
//! Scalars that the renderer reads as `f32` are carried through the library
//! as their IEEE-754 single-precision bit patterns, so that every step that
//! only moves, selects or reindexes them is exact and can be proved.

pub mod geometry;
pub mod material;
pub mod mesh;
pub mod texture;
pub mod chunk;
pub mod normals;
pub mod flatten;
pub mod controls;
