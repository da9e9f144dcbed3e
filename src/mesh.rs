//! The polygon mesh handed over by the geometry source, and its
//! well-formedness check.

use crate::geometry::{Uv, Vec3};
use vstd::prelude::*;

verus! {

/// One corner of a primitive: indices into the mesh's position and
/// texture-coordinate arrays (and, unused here, its normal array).
#[derive(Clone, Copy, Debug, PartialEq, Eq, Structural)]
pub struct Corner {
    pub position: usize,
    pub texcoord: Option<usize>,
    pub normal: Option<usize>,
}

/// A primitive as the geometry source delivers it. Only triangles can be
/// rendered; the others make the mesh malformed.
#[derive(Clone, Copy, Debug, PartialEq, Eq, Structural)]
pub enum Primitive {
    Point(Corner),
    Line(Corner, Corner),
    Triangle(Corner, Corner, Corner),
}

/// Faces that share a material name.
#[derive(Debug)]
pub struct Group {
    pub material_name: Option<String>,
    pub primitives: Vec<Primitive>,
}

#[derive(Debug)]
pub struct Mesh {
    pub positions: Vec<Vec3>,
    pub texcoords: Vec<Uv>,
    pub groups: Vec<Group>,
}

/// Why a mesh cannot be rendered; `group` and `primitive` locate the
/// first offending primitive.
#[derive(Clone, Copy, Debug, PartialEq, Eq, Structural)]
pub enum MeshError {
    NotATriangle { group: usize, primitive: usize },
    PositionOutOfRange { group: usize, primitive: usize },
    TexcoordOutOfRange { group: usize, primitive: usize },
}

pub open spec fn corner_positions_ok(c: Corner, n_positions: nat) -> bool {
    c.position < n_positions
}

pub open spec fn corner_texcoord_ok(c: Corner, n_texcoords: nat) -> bool {
    c.texcoord matches Some(t) ==> t < n_texcoords
}

pub open spec fn positions_ok(p: Primitive, n_positions: nat) -> bool {
    match p {
        Primitive::Triangle(a, b, c) => corner_positions_ok(a, n_positions) && corner_positions_ok(
            b,
            n_positions,
        ) && corner_positions_ok(c, n_positions),
        _ => false,
    }
}

pub open spec fn texcoords_ok(p: Primitive, n_texcoords: nat) -> bool {
    match p {
        Primitive::Triangle(a, b, c) => corner_texcoord_ok(a, n_texcoords) && corner_texcoord_ok(
            b,
            n_texcoords,
        ) && corner_texcoord_ok(c, n_texcoords),
        _ => false,
    }
}

/// A triangle whose indices all lie inside the mesh's arrays.
pub open spec fn face_ok(p: Primitive, n_positions: nat, n_texcoords: nat) -> bool {
    &&& p is Triangle
    &&& positions_ok(p, n_positions)
    &&& texcoords_ok(p, n_texcoords)
}

/// The three corners of a triangle.
pub open spec fn face_corners(p: Primitive) -> Seq<Corner> {
    match p {
        Primitive::Triangle(a, b, c) => seq![a, b, c],
        _ => Seq::empty(),
    }
}

/// The corners of a face list, three per face, in order.
pub open spec fn corners_of(faces: Seq<Primitive>) -> Seq<Corner>
    decreases faces.len(),
{
    if faces.len() == 0 {
        Seq::empty()
    } else {
        corners_of(faces.drop_last()) + face_corners(faces.last())
    }
}

impl Group {
    pub open spec fn faces_ok(&self, n_positions: nat, n_texcoords: nat) -> bool {
        forall|i: int|
            0 <= i < self.primitives@.len() ==> #[trigger] face_ok(
                self.primitives@[i],
                n_positions,
                n_texcoords,
            )
    }
}

impl Mesh {
    /// Every primitive is a triangle and every index it holds is valid.
    pub open spec fn wf(&self) -> bool {
        forall|g: int|
            0 <= g < self.groups@.len() ==> #[trigger] self.groups@[g].faces_ok(
                self.positions@.len(),
                self.texcoords@.len(),
            )
    }

    pub open spec fn error_locates(&self, e: MeshError) -> bool {
        match e {
            MeshError::NotATriangle { group, primitive } => {
                &&& group < self.groups@.len()
                &&& primitive < self.groups@[group as int].primitives@.len()
                &&& !(self.groups@[group as int].primitives@[primitive as int] is Triangle)
            },
            MeshError::PositionOutOfRange { group, primitive } => {
                &&& group < self.groups@.len()
                &&& primitive < self.groups@[group as int].primitives@.len()
                &&& self.groups@[group as int].primitives@[primitive as int] is Triangle
                &&& !positions_ok(
                    self.groups@[group as int].primitives@[primitive as int],
                    self.positions@.len(),
                )
            },
            MeshError::TexcoordOutOfRange { group, primitive } => {
                &&& group < self.groups@.len()
                &&& primitive < self.groups@[group as int].primitives@.len()
                &&& positions_ok(
                    self.groups@[group as int].primitives@[primitive as int],
                    self.positions@.len(),
                )
                &&& !texcoords_ok(
                    self.groups@[group as int].primitives@[primitive as int],
                    self.texcoords@.len(),
                )
            },
        }
    }

    proof fn lemma_bad_face(&self, g: int, i: int)
        requires
            0 <= g < self.groups@.len(),
            0 <= i < self.groups@[g].primitives@.len(),
            !face_ok(
                self.groups@[g].primitives@[i],
                self.positions@.len(),
                self.texcoords@.len(),
            ),
        ensures
            !self.wf(),
    {
        assert(!self.groups@[g].faces_ok(self.positions@.len(), self.texcoords@.len()));
    }

    /// Checks that the mesh can be rendered: only triangles, and only valid
    /// position and texture-coordinate indices.
    pub fn check(&self) -> (r: Result<(), MeshError>)
        ensures
            r is Ok <==> self.wf(),
            r matches Err(e) ==> self.error_locates(e),
    {
        let n_positions = self.positions.len();
        let n_texcoords = self.texcoords.len();
        let mut g: usize = 0;
        while g < self.groups.len()
            invariant
                g <= self.groups@.len(),
                n_positions == self.positions@.len(),
                n_texcoords == self.texcoords@.len(),
                forall|h: int|
                    0 <= h < g ==> #[trigger] self.groups@[h].faces_ok(
                        n_positions as nat,
                        n_texcoords as nat,
                    ),
            decreases self.groups@.len() - g,
        {
            let primitives = &self.groups[g].primitives;
            let mut i: usize = 0;
            while i < primitives.len()
                invariant
                    i <= primitives@.len(),
                    g < self.groups@.len(),
                    primitives == &self.groups@[g as int].primitives,
                    n_positions == self.positions@.len(),
                    n_texcoords == self.texcoords@.len(),
                    forall|j: int|
                        0 <= j < i ==> #[trigger] face_ok(
                            primitives@[j],
                            n_positions as nat,
                            n_texcoords as nat,
                        ),
                decreases primitives@.len() - i,
            {
                match primitives[i] {
                    Primitive::Triangle(a, b, c) => {
                        if a.position >= n_positions || b.position >= n_positions || c.position
                            >= n_positions {
                            proof {
                                self.lemma_bad_face(g as int, i as int);
                            }
                            return Err(MeshError::PositionOutOfRange { group: g, primitive: i });
                        }
                        if !texcoord_in_range(a, n_texcoords) || !texcoord_in_range(
                            b,
                            n_texcoords,
                        ) || !texcoord_in_range(c, n_texcoords) {
                            proof {
                                self.lemma_bad_face(g as int, i as int);
                            }
                            return Err(MeshError::TexcoordOutOfRange { group: g, primitive: i });
                        }
                    },
                    _ => {
                        proof {
                            self.lemma_bad_face(g as int, i as int);
                        }
                        return Err(MeshError::NotATriangle { group: g, primitive: i });
                    },
                }
                i = i + 1;
            }
            g = g + 1;
        }
        Ok(())
    }
}

fn texcoord_in_range(c: Corner, n_texcoords: usize) -> (r: bool)
    ensures
        r == corner_texcoord_ok(c, n_texcoords as nat),
{
    match c.texcoord {
        Some(t) => t < n_texcoords,
        None => true,
    }
}

} // verus!
