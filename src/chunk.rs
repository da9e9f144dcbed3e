//! Splitting a mesh into one renderable chunk per group, with the group's
//! vertices renumbered densely from zero.

use crate::geometry::{origin_uv, spec_origin_uv, Uv, Vec3};
use crate::material::{resolve_material, spec_resolve, table_view, Material, MaterialTable};
use crate::mesh::{corners_of, face_corners, Corner, Mesh, Primitive};
use crate::texture::{spec_texture_for, texture_for, TextureSource};
use std::collections::HashMap;
use vstd::prelude::*;

verus! {

broadcast use vstd::std_specs::hash::group_hash_axioms;

/// A triangle over a chunk's local vertex numbers.
#[derive(Clone, Copy, Debug, PartialEq, Eq, Structural)]
pub struct LocalTriangle {
    pub a: usize,
    pub b: usize,
    pub c: usize,
}

/// The part of a mesh that shares one material, renumbered locally.
/// `sources[k]` is the mesh position index of local vertex `k`.
#[derive(Debug)]
pub struct Chunk {
    pub material: Material,
    pub sources: Vec<usize>,
    pub vertices: Vec<Vec3>,
    pub normals: Vec<Vec3>,
    pub uvs: Vec<Uv>,
    pub triangles: Vec<LocalTriangle>,
    pub texture: TextureSource,
}

impl Chunk {
    /// Parallel vertex arrays, and triangles over local vertex numbers only.
    pub open spec fn wf(&self) -> bool {
        let n = self.vertices@.len();
        &&& self.normals@.len() == n
        &&& self.uvs@.len() == n
        &&& forall|i: int|
            0 <= i < self.triangles@.len() ==> #[trigger] self.triangles@[i].a < n
                && self.triangles@[i].b < n && self.triangles@[i].c < n
    }
}

pub open spec fn positions_of(cs: Seq<Corner>) -> Seq<usize> {
    cs.map_values(|c: Corner| c.position)
}

/// The elements of `s` without repeats, in order of first appearance.
pub open spec fn distinct_in_order(s: Seq<usize>) -> Seq<usize>
    decreases s.len(),
{
    if s.len() == 0 {
        Seq::empty()
    } else {
        let d = distinct_in_order(s.drop_last());
        if d.contains(s.last()) {
            d
        } else {
            d.push(s.last())
        }
    }
}

/// A corner's texture coordinate; `(0, 0)` where it names none.
pub open spec fn corner_uv(c: Corner, texcoords: Seq<Uv>) -> Uv {
    match c.texcoord {
        Some(t) => texcoords[t as int],
        None => spec_origin_uv(),
    }
}

/// The texture coordinate of the first corner at position `p`.
pub open spec fn first_uv(cs: Seq<Corner>, texcoords: Seq<Uv>, p: usize) -> Uv
    decreases cs.len(),
{
    if cs.len() == 0 {
        spec_origin_uv()
    } else if positions_of(cs.drop_last()).contains(p) {
        first_uv(cs.drop_last(), texcoords, p)
    } else if cs.last().position == p {
        corner_uv(cs.last(), texcoords)
    } else {
        spec_origin_uv()
    }
}

/// `t` is face `f` with each corner's position replaced by its local number.
pub open spec fn renumbers(t: LocalTriangle, f: Primitive, sources: Seq<usize>) -> bool {
    let n = sources.len();
    match f {
        Primitive::Triangle(a, b, c) => {
            &&& t.a < n && sources[t.a as int] == a.position
            &&& t.b < n && sources[t.b as int] == b.position
            &&& t.c < n && sources[t.c as int] == c.position
        },
        _ => false,
    }
}

/// `c` is the chunk of the faces `faces` under `material`: its local
/// vertices are the distinct positions the faces use, in order of first
/// use; each carries its position, its normal and, for a textured
/// material, the texture coordinate of its first corner (else `(0, 0)`).
pub open spec fn is_chunk_of(
    c: Chunk,
    faces: Seq<Primitive>,
    positions: Seq<Vec3>,
    normals: Seq<Vec3>,
    texcoords: Seq<Uv>,
    material: Material,
) -> bool {
    let cs = corners_of(faces);
    let n = c.sources@.len();
    &&& c.material == material
    &&& c.sources@ == distinct_in_order(positions_of(cs))
    &&& c.vertices@.len() == n
    &&& c.normals@.len() == n
    &&& c.uvs@.len() == n
    &&& forall|k: int|
        0 <= k < n ==> {
            &&& #[trigger] c.vertices@[k] == positions[c.sources@[k] as int]
            &&& c.normals@[k] == normals[c.sources@[k] as int]
            &&& c.uvs@[k] == if material.texture_map is Some {
                first_uv(cs, texcoords, c.sources@[k])
            } else {
                spec_origin_uv()
            }
        }
    &&& c.triangles@.len() == faces.len()
    &&& forall|i: int|
        0 <= i < faces.len() ==> renumbers(#[trigger] c.triangles@[i], faces[i], c.sources@)
    &&& c.texture == spec_texture_for(material)
}

proof fn lemma_seq_push_contains(s: Seq<usize>, v: usize, x: usize)
    ensures
        s.push(v).contains(x) <==> (s.contains(x) || x == v),
{
    let t = s.push(v);
    assert(t[s.len() as int] == v);
    if s.contains(x) {
        let i = choose|i: int| 0 <= i < s.len() && s[i] == x;
        assert(t[i] == x);
    }
    if t.contains(x) && x != v {
        let i = choose|i: int| 0 <= i < t.len() && t[i] == x;
        assert(s[i] == x);
    }
}

proof fn lemma_distinct_contains(s: Seq<usize>)
    ensures
        forall|x: usize| distinct_in_order(s).contains(x) <==> s.contains(x),
        distinct_in_order(s).no_duplicates(),
    decreases s.len(),
{
    if s.len() > 0 {
        let p = s.drop_last();
        lemma_distinct_contains(p);
        let d = distinct_in_order(p);
        assert(s =~= p.push(s.last()));
        assert forall|x: usize| distinct_in_order(s).contains(x) <==> s.contains(x) by {
            lemma_seq_push_contains(p, s.last(), x);
            lemma_seq_push_contains(d, s.last(), x);
        }
        if !d.contains(s.last()) {
            let e = d.push(s.last());
            assert forall|i: int, j: int|
                0 <= i < e.len() && 0 <= j < e.len() && i != j implies e[i] != e[j] by {
                if i == d.len() {
                    assert(d[j] == e[j]);
                } else if j == d.len() {
                    assert(d[i] == e[i]);
                }
            }
        }
    }
}

/// Position indices in a chunk's order never repeat, and a chunk has one
/// local vertex for each distinct position index that its faces use: no
/// more, no fewer.
pub proof fn lemma_chunk_vertex_count(
    c: Chunk,
    faces: Seq<Primitive>,
    positions: Seq<Vec3>,
    normals: Seq<Vec3>,
    texcoords: Seq<Uv>,
    material: Material,
)
    requires
        is_chunk_of(c, faces, positions, normals, texcoords, material),
    ensures
        c.sources@.no_duplicates(),
        c.sources@.to_set() == positions_of(corners_of(faces)).to_set(),
        c.vertices@.len() == positions_of(corners_of(faces)).to_set().len(),
{
    let s = positions_of(corners_of(faces));
    lemma_distinct_contains(s);
    assert(c.sources@.to_set() =~= s.to_set());
    c.sources@.unique_seq_to_set();
}

/// The renumbering built so far: one entry per distinct position seen.
struct Renumbering {
    local_of: HashMap<usize, usize>,
    sources: Vec<usize>,
    vertices: Vec<Vec3>,
    normals: Vec<Vec3>,
    uvs: Vec<Uv>,
}

impl Renumbering {
    spec fn inv(
        &self,
        positions: Seq<Vec3>,
        normals: Seq<Vec3>,
        texcoords: Seq<Uv>,
        textured: bool,
        cs: Seq<Corner>,
    ) -> bool {
        let n = self.sources@.len();
        &&& self.sources@ == distinct_in_order(positions_of(cs))
        &&& self.sources@.no_duplicates()
        &&& forall|p: usize| #[trigger]
            self.local_of@.contains_key(p) <==> self.sources@.contains(p)
        &&& forall|k: int|
            0 <= k < n ==> #[trigger] self.local_of@[self.sources@[k]] as int == k
        &&& self.vertices@.len() == n
        &&& self.normals@.len() == n
        &&& self.uvs@.len() == n
        &&& forall|k: int|
            0 <= k < n ==> #[trigger] self.vertices@[k] == positions[self.sources@[k] as int]
        &&& forall|k: int|
            0 <= k < n ==> #[trigger] self.normals@[k] == normals[self.sources@[k] as int]
        &&& forall|k: int|
            0 <= k < n ==> #[trigger] self.uvs@[k] == if textured {
                first_uv(cs, texcoords, self.sources@[k])
            } else {
                spec_origin_uv()
            }
    }

    /// The local number of `c`'s position, allocating one on first sight.
    fn visit(
        &mut self,
        c: Corner,
        positions: &Vec<Vec3>,
        normals: &Vec<Vec3>,
        texcoords: &Vec<Uv>,
        textured: bool,
        Ghost(cs): Ghost<Seq<Corner>>,
    ) -> (r: usize)
        requires
            old(self).inv(positions@, normals@, texcoords@, textured, cs),
            c.position < positions@.len(),
            normals@.len() == positions@.len(),
            c.texcoord matches Some(t) ==> t < texcoords@.len(),
        ensures
            final(self).inv(positions@, normals@, texcoords@, textured, cs.push(c)),
            r < final(self).sources@.len(),
            final(self).sources@[r as int] == c.position,
            old(self).sources@.len() <= final(self).sources@.len(),
            forall|k: int|
                0 <= k < old(self).sources@.len() ==> final(self).sources@[k]
                    == old(self).sources@[k],
    {
        let ghost cs2 = cs.push(c);
        proof {
            assert(cs2.drop_last() =~= cs);
            assert(positions_of(cs2).drop_last() =~= positions_of(cs));
            assert(positions_of(cs2.drop_last()) =~= positions_of(cs));
            lemma_distinct_contains(positions_of(cs));
            assert(positions_of(cs2).last() == c.position);
        }
        let found = self.local_of.get(&c.position);
        match found {
            Some(k) => {
                let k = *k;
                proof {
                    let i = choose|i: int|
                        0 <= i < self.sources@.len() && self.sources@[i] == c.position;
                    assert(self.local_of@[self.sources@[i]] as int == i);
                    assert(self.local_of@[c.position] == k);
                    assert forall|j: int| 0 <= j < self.sources@.len() implies #[trigger] self.uvs@[j]
                        == if textured {
                        first_uv(cs2, texcoords@, self.sources@[j])
                    } else {
                        spec_origin_uv()
                    } by {
                        assert(self.uvs@[j] == old(self).uvs@[j]);
                        assert(self.sources@.contains(self.sources@[j]));
                    }
                    assert(distinct_in_order(positions_of(cs)).contains(c.position));
                    assert(self.sources@ == distinct_in_order(positions_of(cs2)));
                    assert(self.inv(positions@, normals@, texcoords@, textured, cs2));
                }
                k
            },
            None => {
                let k = self.sources.len();
                self.local_of.insert(c.position, k);
                self.sources.push(c.position);
                self.vertices.push(positions[c.position]);
                self.normals.push(normals[c.position]);
                let uv = if textured {
                    match c.texcoord {
                        Some(t) => texcoords[t],
                        None => origin_uv(),
                    }
                } else {
                    origin_uv()
                };
                self.uvs.push(uv);
                proof {
                    let old_sources = self.sources@.drop_last();
                    assert(old_sources =~= old(self).sources@);
                    assert forall|j: int| 0 <= j < old_sources.len() implies #[trigger] self.uvs@[j]
                        == if textured {
                        first_uv(cs2, texcoords@, self.sources@[j])
                    } else {
                        spec_origin_uv()
                    } by {
                        assert(self.uvs@[j] == old(self).uvs@[j]);
                        assert(old_sources.contains(old_sources[j]));
                    }
                    assert(first_uv(cs2, texcoords@, c.position) == corner_uv(c, texcoords@));
                    lemma_distinct_contains(positions_of(cs2));
                    assert(self.local_of@ == old(self).local_of@.insert(c.position, k));
                    assert forall|p: usize| #[trigger]
                        self.local_of@.contains_key(p) <==> self.sources@.contains(p) by {
                        assert(old(self).local_of@.contains_key(p) <==> old_sources.contains(p));
                        if self.sources@.contains(p) && p != c.position {
                            let i = choose|i: int|
                                0 <= i < self.sources@.len() && self.sources@[i] == p;
                            assert(old_sources[i] == p);
                        }
                        if old_sources.contains(p) {
                            let i = choose|i: int| 0 <= i < old_sources.len() && old_sources[i] == p;
                            assert(self.sources@[i] == p);
                        }
                        assert(self.sources@[k as int] == c.position);
                    }
                }
                k
            },
        }
    }
}

/// Splits group `g` of `mesh` into a chunk under the material that the
/// group resolves to. `normals` holds one normal per mesh position.
pub fn split_group(
    mesh: &Mesh,
    g: usize,
    normals: &Vec<Vec3>,
    materials: Option<&MaterialTable>,
    default: &Material,
) -> (c: Chunk)
    requires
        mesh.wf(),
        g < mesh.groups@.len(),
        normals@.len() == mesh.positions@.len(),
        materials matches Some(t) ==> t.wf(),
    ensures
        c.wf(),
        is_chunk_of(
            c,
            mesh.groups@[g as int].primitives@,
            mesh.positions@,
            normals@,
            mesh.texcoords@,
            spec_resolve(
                table_view(materials),
                mesh.groups@[g as int].material_name,
                *default,
            ),
        ),
{
    let group = &mesh.groups[g];
    let material = resolve_material(materials, &group.material_name, default);
    let textured = material.texture_map.is_some();
    let faces = &group.primitives;
    let mut r = Renumbering {
        local_of: HashMap::new(),
        sources: Vec::new(),
        vertices: Vec::new(),
        normals: Vec::new(),
        uvs: Vec::new(),
    };
    let mut triangles: Vec<LocalTriangle> = Vec::new();
    let mut i: usize = 0;
    proof {
        assert(distinct_in_order(positions_of(corners_of(faces@.take(0)))) =~= Seq::empty());
    }
    while i < faces.len()
        invariant
            mesh.wf(),
            g < mesh.groups@.len(),
            faces == &mesh.groups@[g as int].primitives,
            normals@.len() == mesh.positions@.len(),
            textured == material.texture_map is Some,
            i <= faces@.len(),
            r.inv(mesh.positions@, normals@, mesh.texcoords@, textured, corners_of(faces@.take(i as int))),
            triangles@.len() == i,
            forall|j: int| 0 <= j < i ==> renumbers(#[trigger] triangles@[j], faces@[j], r.sources@),
        decreases faces@.len() - i,
    {
        assert(mesh.groups@[g as int].faces_ok(mesh.positions@.len(), mesh.texcoords@.len()));
        assert(crate::mesh::face_ok(faces@[i as int], mesh.positions@.len(), mesh.texcoords@.len()));
        let ghost before = corners_of(faces@.take(i as int));
        let ghost old_sources = r.sources@;
        proof {
            assert(faces@.take(i + 1).drop_last() =~= faces@.take(i as int));
            assert(faces@.take(i + 1).last() == faces@[i as int]);
        }
        match faces[i] {
            Primitive::Triangle(x, y, z) => {
                let a = r.visit(x, &mesh.positions, normals, &mesh.texcoords, textured, Ghost(before));
                let b = r.visit(y, &mesh.positions, normals, &mesh.texcoords, textured, Ghost(before.push(x)));
                let c = r.visit(z, &mesh.positions, normals, &mesh.texcoords, textured, Ghost(before.push(x).push(y)));
                proof {
                    assert(before.push(x).push(y).push(z) =~= corners_of(faces@.take(i + 1)));
                    assert forall|j: int| 0 <= j < i implies renumbers(
                        #[trigger] triangles@[j],
                        faces@[j],
                        r.sources@,
                    ) by {
                        assert(renumbers(triangles@[j], faces@[j], old_sources));
                    }
                }
                triangles.push(LocalTriangle { a, b, c });
            },
            _ => {
                assert(false);
            },
        }
        i = i + 1;
    }
    proof {
        assert(faces@.take(faces@.len() as int) =~= faces@);
        assert forall|j: int| 0 <= j < triangles@.len() implies #[trigger] triangles@[j].a < r.vertices@.len()
            && triangles@[j].b < r.vertices@.len() && triangles@[j].c < r.vertices@.len() by {
            assert(renumbers(triangles@[j], faces@[j], r.sources@));
        }
    }
    let texture = texture_for(&material);
    let chunk = Chunk {
        material,
        sources: r.sources,
        vertices: r.vertices,
        normals: r.normals,
        uvs: r.uvs,
        triangles,
        texture,
    };
    chunk
}

/// `c` is the well-formed chunk of group `g` of `mesh`.
pub open spec fn is_group_chunk(
    c: Chunk,
    mesh: &Mesh,
    g: int,
    normals: Seq<Vec3>,
    materials: Option<Map<Seq<char>, Material>>,
    default: Material,
) -> bool {
    &&& c.wf()
    &&& is_chunk_of(
        c,
        mesh.groups@[g].primitives@,
        mesh.positions@,
        normals,
        mesh.texcoords@,
        spec_resolve(materials, mesh.groups@[g].material_name, default),
    )
}

/// Splits every group of `mesh`, in group order.
pub fn split_mesh(
    mesh: &Mesh,
    normals: &Vec<Vec3>,
    materials: Option<&MaterialTable>,
    default: &Material,
) -> (chunks: Vec<Chunk>)
    requires
        mesh.wf(),
        normals@.len() == mesh.positions@.len(),
        materials matches Some(t) ==> t.wf(),
    ensures
        chunks@.len() == mesh.groups@.len(),
        forall|g: int|
            0 <= g < chunks@.len() ==> #[trigger] is_group_chunk(
                chunks@[g],
                mesh,
                g,
                normals@,
                table_view(materials),
                *default,
            ),
{
    let mut chunks: Vec<Chunk> = Vec::new();
    let mut g: usize = 0;
    while g < mesh.groups.len()
        invariant
            mesh.wf(),
            normals@.len() == mesh.positions@.len(),
            materials matches Some(t) ==> t.wf(),
            g <= mesh.groups@.len(),
            chunks@.len() == g,
            forall|h: int|
                0 <= h < g ==> #[trigger] is_group_chunk(
                    chunks@[h],
                    mesh,
                    h,
                    normals@,
                    table_view(materials),
                    *default,
                ),
        decreases mesh.groups@.len() - g,
    {
        let c = split_group(mesh, g, normals, materials, default);
        let ghost before = chunks@;
        chunks.push(c);
        proof {
            assert forall|h: int| 0 <= h < g + 1 implies #[trigger] is_group_chunk(
                chunks@[h],
                mesh,
                h,
                normals@,
                table_view(materials),
                *default,
            ) by {
                if h < g {
                    assert(chunks@[h] == before[h]);
                } else {
                    assert(chunks@[h] == c);
                }
            }
        }
        g = g + 1;
    }
    chunks
}

impl Chunk {
    /// Whether the chunk is well formed (see `wf`).
    pub fn check(&self) -> (r: bool)
        ensures
            r == self.wf(),
    {
        let n = self.vertices.len();
        if self.normals.len() != n || self.uvs.len() != n {
            return false;
        }
        let mut i: usize = 0;
        while i < self.triangles.len()
            invariant
                n == self.vertices@.len(),
                i <= self.triangles@.len(),
                forall|j: int|
                    0 <= j < i ==> #[trigger] self.triangles@[j].a < n && self.triangles@[j].b < n
                        && self.triangles@[j].c < n,
            decreases self.triangles@.len() - i,
        {
            let t = self.triangles[i];
            if t.a >= n || t.b >= n || t.c >= n {
                assert(!(self.triangles@[i as int].a < n && self.triangles@[i as int].b < n
                    && self.triangles@[i as int].c < n));
                return false;
            }
            i = i + 1;
        }
        true
    }
}

} // verus!
