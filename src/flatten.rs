//! Concatenating chunks into flat vertex attribute arrays and one index
//! array, with each chunk's color channels chosen by its illumination model.

use crate::chunk::{Chunk, LocalTriangle};
use crate::geometry::{black, spec_black, Color, Uv, Vec3, ONE_BITS};
use crate::material::{Illumination, Material};
use vstd::prelude::*;

verus! {

/// The per-vertex attributes, in the order the renderer binds them.
#[derive(Clone, Copy, Debug, PartialEq, Eq, Structural)]
pub enum Attribute {
    Position,
    Normal,
    Uv,
    Ambient,
    Diffuse,
    Specular,
    SpecularExponent,
}

pub open spec fn spec_component_count(a: Attribute) -> nat {
    match a {
        Attribute::Uv => 2,
        Attribute::SpecularExponent => 1,
        _ => 3,
    }
}

/// Number of scalars per vertex of an attribute.
pub fn component_count(a: Attribute) -> (r: u32)
    ensures
        r == spec_component_count(a),
{
    match a {
        Attribute::Uv => 2,
        Attribute::SpecularExponent => 1,
        _ => 3,
    }
}

/// Everything emitted for one vertex.
#[derive(Clone, Copy, Debug, PartialEq, Eq, Structural)]
pub struct VertexRecord {
    pub position: Vec3,
    pub normal: Vec3,
    pub uv: Uv,
    pub ambient: Color,
    pub diffuse: Color,
    pub specular: Color,
    pub exponent: u32,
}

/// The diffuse color emitted under a material: black for ambient-only
/// illumination.
pub open spec fn diffuse_channel(m: Material) -> Color {
    if m.illumination == Illumination::Ambient {
        spec_black()
    } else {
        m.diffuse
    }
}

/// The specular color emitted under a material: black unless the
/// illumination model includes specular light.
pub open spec fn specular_channel(m: Material) -> Color {
    if m.illumination == Illumination::AmbientDiffuseSpecular {
        m.specular
    } else {
        spec_black()
    }
}

/// The specular exponent emitted under a material: 1.0 unless the
/// illumination model includes specular light.
pub open spec fn exponent_channel(m: Material) -> u32 {
    if m.illumination == Illumination::AmbientDiffuseSpecular {
        m.specular_coefficient
    } else {
        ONE_BITS
    }
}

pub open spec fn record_of(c: Chunk, k: int) -> VertexRecord {
    VertexRecord {
        position: c.vertices@[k],
        normal: c.normals@[k],
        uv: c.uvs@[k],
        ambient: c.material.ambient,
        diffuse: diffuse_channel(c.material),
        specular: specular_channel(c.material),
        exponent: exponent_channel(c.material),
    }
}

pub open spec fn chunk_records(c: Chunk) -> Seq<VertexRecord> {
    Seq::new(c.vertices@.len(), |k: int| record_of(c, k))
}

/// The vertices of all chunks, chunk after chunk.
pub open spec fn records(chunks: Seq<Chunk>) -> Seq<VertexRecord>
    decreases chunks.len(),
{
    if chunks.len() == 0 {
        Seq::empty()
    } else {
        records(chunks.drop_last()) + chunk_records(chunks.last())
    }
}

pub open spec fn vertex_total(chunks: Seq<Chunk>) -> nat
    decreases chunks.len(),
{
    if chunks.len() == 0 {
        0
    } else {
        vertex_total(chunks.drop_last()) + chunks.last().vertices@.len()
    }
}

pub open spec fn color_bits(c: Color) -> Seq<u32> {
    seq![c.r, c.g, c.b]
}

pub open spec fn field_bits(r: VertexRecord, a: Attribute) -> Seq<u32> {
    match a {
        Attribute::Position => seq![r.position.x, r.position.y, r.position.z],
        Attribute::Normal => seq![r.normal.x, r.normal.y, r.normal.z],
        Attribute::Uv => seq![r.uv.u, r.uv.v],
        Attribute::Ambient => color_bits(r.ambient),
        Attribute::Diffuse => color_bits(r.diffuse),
        Attribute::Specular => color_bits(r.specular),
        Attribute::SpecularExponent => seq![r.exponent],
    }
}

/// One attribute of a run of vertices, as consecutive scalars.
pub open spec fn flat(rs: Seq<VertexRecord>, a: Attribute) -> Seq<u32>
    decreases rs.len(),
{
    if rs.len() == 0 {
        Seq::empty()
    } else {
        flat(rs.drop_last(), a) + field_bits(rs.last(), a)
    }
}

/// A chunk's triangles as indices into the concatenated vertex arrays,
/// where the chunk's vertices start at `base`.
pub open spec fn triangle_indices(ts: Seq<LocalTriangle>, base: nat) -> Seq<u32>
    decreases ts.len(),
{
    if ts.len() == 0 {
        Seq::empty()
    } else {
        let t = ts.last();
        triangle_indices(ts.drop_last(), base) + seq![
            (base + t.a) as u32,
            (base + t.b) as u32,
            (base + t.c) as u32,
        ]
    }
}

/// The index array of all chunks, each offset by the vertices before it.
pub open spec fn index_stream(chunks: Seq<Chunk>) -> Seq<u32>
    decreases chunks.len(),
{
    if chunks.len() == 0 {
        Seq::empty()
    } else {
        index_stream(chunks.drop_last()) + triangle_indices(
            chunks.last().triangles@,
            vertex_total(chunks.drop_last()),
        )
    }
}

/// The slice of the index array that draws one chunk.
#[derive(Clone, Copy, Debug, PartialEq, Eq, Structural)]
pub struct DrawRange {
    pub first_index: usize,
    pub index_count: usize,
}

/// The flattened buffers of a list of chunks; `ranges[i]` draws chunk `i`.
#[derive(Debug)]
pub struct FlatBuffers {
    pub positions: Vec<u32>,
    pub normals: Vec<u32>,
    pub uvs: Vec<u32>,
    pub ambient: Vec<u32>,
    pub diffuse: Vec<u32>,
    pub specular: Vec<u32>,
    pub exponents: Vec<u32>,
    pub indices: Vec<u32>,
    pub ranges: Vec<DrawRange>,
}

impl FlatBuffers {
    /// The vertex attribute arrays are exactly those of `chunks`.
    pub open spec fn flattens_vertices(&self, chunks: Seq<Chunk>) -> bool {
        let rs = records(chunks);
        &&& self.positions@ == flat(rs, Attribute::Position)
        &&& self.normals@ == flat(rs, Attribute::Normal)
        &&& self.uvs@ == flat(rs, Attribute::Uv)
        &&& self.ambient@ == flat(rs, Attribute::Ambient)
        &&& self.diffuse@ == flat(rs, Attribute::Diffuse)
        &&& self.specular@ == flat(rs, Attribute::Specular)
        &&& self.exponents@ == flat(rs, Attribute::SpecularExponent)
    }

    /// The buffers are exactly those of `chunks`.
    pub open spec fn flattens(&self, chunks: Seq<Chunk>) -> bool {
        let rs = records(chunks);
        &&& self.positions@ == flat(rs, Attribute::Position)
        &&& self.normals@ == flat(rs, Attribute::Normal)
        &&& self.uvs@ == flat(rs, Attribute::Uv)
        &&& self.ambient@ == flat(rs, Attribute::Ambient)
        &&& self.diffuse@ == flat(rs, Attribute::Diffuse)
        &&& self.specular@ == flat(rs, Attribute::Specular)
        &&& self.exponents@ == flat(rs, Attribute::SpecularExponent)
        &&& self.indices@ == index_stream(chunks)
        &&& self.ranges@.len() == chunks.len()
        &&& forall|i: int|
            0 <= i < chunks.len() ==> {
                &&& #[trigger] self.ranges@[i].first_index == index_stream(chunks.take(i)).len()
                &&& self.ranges@[i].index_count == 3 * chunks[i].triangles@.len()
            }
    }
}

fn push3(out: &mut Vec<u32>, x: u32, y: u32, z: u32)
    ensures
        final(out)@ == old(out)@ + seq![x, y, z],
{
    out.push(x);
    out.push(y);
    out.push(z);
    assert(final(out)@ =~= old(out)@ + seq![x, y, z]);
}

fn push2(out: &mut Vec<u32>, x: u32, y: u32)
    ensures
        final(out)@ == old(out)@ + seq![x, y],
{
    out.push(x);
    out.push(y);
    assert(final(out)@ =~= old(out)@ + seq![x, y]);
}

fn push1(out: &mut Vec<u32>, x: u32)
    ensures
        final(out)@ == old(out)@ + seq![x],
{
    out.push(x);
    assert(final(out)@ =~= old(out)@ + seq![x]);
}

/// The channels that a chunk emits for each of its vertices.
fn channels(m: &Material) -> (r: (Color, Color, u32))
    ensures
        r.0 == diffuse_channel(*m),
        r.1 == specular_channel(*m),
        r.2 == exponent_channel(*m),
{
    match m.illumination {
        Illumination::Ambient => (black(), black(), ONE_BITS),
        Illumination::AmbientDiffuse => (m.diffuse, black(), ONE_BITS),
        Illumination::AmbientDiffuseSpecular => (m.diffuse, m.specular, m.specular_coefficient),
    }
}

proof fn lemma_vertex_total_prefix(chunks: Seq<Chunk>, i: int)
    requires
        0 <= i <= chunks.len(),
    ensures
        vertex_total(chunks.take(i)) <= vertex_total(chunks),
    decreases chunks.len(),
{
    if i < chunks.len() {
        assert(chunks.drop_last().take(i) =~= chunks.take(i));
        lemma_vertex_total_prefix(chunks.drop_last(), i);
    } else {
        assert(chunks.take(i) =~= chunks);
    }
}

proof fn lemma_flat_push(rs: Seq<VertexRecord>, r: VertexRecord)
    ensures
        forall|a: Attribute| #[trigger] flat(rs.push(r), a) == flat(rs, a) + field_bits(r, a),
{
    assert(rs.push(r).drop_last() =~= rs);
}

proof fn lemma_indices_push(ts: Seq<LocalTriangle>, t: LocalTriangle, base: nat)
    ensures
        triangle_indices(ts.push(t), base) == triangle_indices(ts, base) + seq![
            (base + t.a) as u32,
            (base + t.b) as u32,
            (base + t.c) as u32,
        ],
{
    assert(ts.push(t).drop_last() =~= ts);
}

proof fn lemma_triangle_indices_len(ts: Seq<LocalTriangle>, base: nat)
    ensures
        triangle_indices(ts, base).len() == 3 * ts.len(),
    decreases ts.len(),
{
    if ts.len() > 0 {
        lemma_triangle_indices_len(ts.drop_last(), base);
    }
}

/// Concatenates the chunks' vertex attributes and offset triangle indices.
pub fn flatten(chunks: &Vec<Chunk>) -> (out: FlatBuffers)
    requires
        forall|i: int| 0 <= i < chunks@.len() ==> #[trigger] chunks@[i].wf(),
        vertex_total(chunks@) <= u32::MAX,
    ensures
        out.flattens(chunks@),
        forall|j: int| 0 <= j < out.indices@.len() ==> #[trigger] out.indices@[j] < vertex_total(chunks@),
{
    let mut out = FlatBuffers {
        positions: Vec::new(),
        normals: Vec::new(),
        uvs: Vec::new(),
        ambient: Vec::new(),
        diffuse: Vec::new(),
        specular: Vec::new(),
        exponents: Vec::new(),
        indices: Vec::new(),
        ranges: Vec::new(),
    };
    let mut indices: Vec<u32> = Vec::new();
    let mut ranges: Vec<DrawRange> = Vec::new();
    let mut base: u32 = 0;
    let mut i: usize = 0;
    while i < chunks.len()
        invariant
            i <= chunks@.len(),
            forall|i: int| 0 <= i < chunks@.len() ==> #[trigger] chunks@[i].wf(),
            vertex_total(chunks@) <= u32::MAX,
            base == vertex_total(chunks@.take(i as int)),
            out.flattens_vertices(chunks@.take(i as int)),
            indices@ == index_stream(chunks@.take(i as int)),
            ranges@.len() == i,
            forall|j: int|
                0 <= j < i ==> {
                    &&& #[trigger] ranges@[j].first_index == index_stream(chunks@.take(j)).len()
                    &&& ranges@[j].index_count == 3 * chunks@[j].triangles@.len()
                },
            forall|j: int| 0 <= j < indices@.len() ==> #[trigger] indices@[j] < base,
        decreases chunks@.len() - i,
    {
        let c = &chunks[i];
        let ghost prefix = chunks@.take(i as int);
        let ghost next = chunks@.take(i + 1);
        proof {
            assert(next.drop_last() =~= prefix);
            assert(next.last() == *c);
            lemma_vertex_total_prefix(chunks@, i + 1);
        }
        let n = c.vertices.len();
        let (diffuse, specular, exponent) = channels(&c.material);
        let ambient = c.material.ambient;
        let ghost done = records(prefix);
        let ghost ranges0 = ranges@;
        let mut k: usize = 0;
        while k < n
            invariant
                i < chunks@.len(),
                c == &chunks@[i as int],
                c.wf(),
                n == c.vertices@.len(),
                k <= n,
                diffuse == diffuse_channel(c.material),
                specular == specular_channel(c.material),
                exponent == exponent_channel(c.material),
                ambient == c.material.ambient,
                out.positions@ == flat(done + chunk_records(*c).take(k as int), Attribute::Position),
                out.normals@ == flat(done + chunk_records(*c).take(k as int), Attribute::Normal),
                out.uvs@ == flat(done + chunk_records(*c).take(k as int), Attribute::Uv),
                out.ambient@ == flat(done + chunk_records(*c).take(k as int), Attribute::Ambient),
                out.diffuse@ == flat(done + chunk_records(*c).take(k as int), Attribute::Diffuse),
                out.specular@ == flat(done + chunk_records(*c).take(k as int), Attribute::Specular),
                out.exponents@ == flat(
                    done + chunk_records(*c).take(k as int),
                    Attribute::SpecularExponent,
                ),
            decreases n - k,
        {
            let p = c.vertices[k];
            let nm = c.normals[k];
            let uv = c.uvs[k];
            let ghost rec = record_of(*c, k as int);
            proof {
                assert((done + chunk_records(*c).take(k + 1)) =~= (done + chunk_records(*c).take(
                    k as int,
                )).push(rec));
                lemma_flat_push(done + chunk_records(*c).take(k as int), rec);
            }
            push3(&mut out.positions, p.x, p.y, p.z);
            push3(&mut out.normals, nm.x, nm.y, nm.z);
            push2(&mut out.uvs, uv.u, uv.v);
            push3(&mut out.ambient, ambient.r, ambient.g, ambient.b);
            push3(&mut out.diffuse, diffuse.r, diffuse.g, diffuse.b);
            push3(&mut out.specular, specular.r, specular.g, specular.b);
            push1(&mut out.exponents, exponent);
            k = k + 1;
        }
        proof {
            assert(chunk_records(*c).take(n as int) =~= chunk_records(*c));
        }
        let first_index = indices.len();
        let mut t: usize = 0;
        while t < c.triangles.len()
            invariant
                i < chunks@.len(),
                c == &chunks@[i as int],
                c.wf(),
                n == c.vertices@.len(),
                t <= c.triangles@.len(),
                base + n <= u32::MAX,
                first_index == index_stream(prefix).len(),
                indices@ == index_stream(prefix) + triangle_indices(
                    c.triangles@.take(t as int),
                    base as nat,
                ),
                forall|j: int| 0 <= j < indices@.len() ==> #[trigger] indices@[j] < base + n,
            decreases c.triangles@.len() - t,
        {
            let tri = c.triangles[t];
            proof {
                assert(c.triangles@.take(t + 1) =~= c.triangles@.take(t as int).push(tri));
                lemma_indices_push(c.triangles@.take(t as int), tri, base as nat);
            }
            let ghost before = indices@;
            push3(
                &mut indices,
                base + tri.a as u32,
                base + tri.b as u32,
                base + tri.c as u32,
            );
            proof {
                assert forall|j: int| 0 <= j < indices@.len() implies #[trigger] indices@[j]
                    < base + n by {
                    if j < before.len() {
                        assert(indices@[j] == before[j]);
                    }
                }
            }
            t = t + 1;
        }
        proof {
            assert(c.triangles@.take(c.triangles@.len() as int) =~= c.triangles@);
        }
        let index_count = indices.len() - first_index;
        ranges.push(DrawRange { first_index, index_count });
        proof {
            lemma_triangle_indices_len(c.triangles@, base as nat);
            assert forall|j: int| 0 <= j < i + 1 implies {
                &&& #[trigger] ranges@[j].first_index == index_stream(chunks@.take(j)).len()
                &&& ranges@[j].index_count == 3 * chunks@[j].triangles@.len()
            } by {
                if j < i {
                    assert(ranges@[j] == ranges0[j]);
                    assert(ranges0[j].first_index == index_stream(chunks@.take(j)).len());
                }
            }
            assert(records(next) == records(prefix) + chunk_records(*c));
            assert(index_stream(next) == index_stream(prefix) + triangle_indices(
                c.triangles@,
                vertex_total(prefix),
            ));
            assert(out.positions@ == flat(records(next), Attribute::Position));
            assert(indices@ == index_stream(next));
        }
        base = base + n as u32;
        i = i + 1;
        assert(forall|j: int|
            0 <= j < i ==> {
                &&& #[trigger] ranges@[j].first_index == index_stream(chunks@.take(j)).len()
                &&& ranges@[j].index_count == 3 * chunks@[j].triangles@.len()
            });
    }
    proof {
        assert(chunks@.take(chunks@.len() as int) =~= chunks@);
    }
    assert(out.flattens_vertices(chunks@));
    out.indices = indices;
    out.ranges = ranges;
    assert(out.flattens_vertices(chunks@));
    assert(out.indices@ == index_stream(chunks@));
    assert forall|j: int| 0 <= j < chunks@.len() implies {
        &&& #[trigger] out.ranges@[j].first_index == index_stream(chunks@.take(j)).len()
        &&& out.ranges@[j].index_count == 3 * chunks@[j].triangles@.len()
    } by {
        assert(out.ranges@[j] == ranges@[j]);
    }
    assert(out.flattens(chunks@));
    out
}

proof fn lemma_records_len(chunks: Seq<Chunk>)
    ensures
        records(chunks).len() == vertex_total(chunks),
    decreases chunks.len(),
{
    if chunks.len() > 0 {
        lemma_records_len(chunks.drop_last());
    }
}

proof fn lemma_records_index(chunks: Seq<Chunk>, i: int, k: int)
    requires
        0 <= i < chunks.len(),
        0 <= k < chunks[i].vertices@.len(),
    ensures
        vertex_total(chunks.take(i)) + k < records(chunks).len(),
        records(chunks)[vertex_total(chunks.take(i)) + k] == record_of(chunks[i], k),
    decreases chunks.len(),
{
    let rest = chunks.drop_last();
    lemma_records_len(chunks);
    lemma_records_len(rest);
    if i < chunks.len() - 1 {
        assert(rest.take(i) =~= chunks.take(i));
        assert(rest[i] == chunks[i]);
        lemma_records_index(rest, i, k);
    } else {
        assert(chunks.take(i) =~= rest);
    }
}

proof fn lemma_flat_len(rs: Seq<VertexRecord>, a: Attribute)
    ensures
        flat(rs, a).len() == spec_component_count(a) * rs.len(),
    decreases rs.len(),
{
    if rs.len() > 0 {
        lemma_flat_len(rs.drop_last(), a);
        assert(spec_component_count(a) * rs.len() == spec_component_count(a) * (rs.len() - 1)
            + spec_component_count(a)) by (nonlinear_arith);
    }
}

proof fn lemma_flat_slice(rs: Seq<VertexRecord>, a: Attribute, g: int)
    requires
        0 <= g < rs.len(),
    ensures
        spec_component_count(a) * g + spec_component_count(a) <= flat(rs, a).len(),
        flat(rs, a).subrange(
            spec_component_count(a) * g,
            spec_component_count(a) * g + spec_component_count(a),
        ) == field_bits(rs[g], a),
    decreases rs.len(),
{
    let c = spec_component_count(a) as int;
    let rest = rs.drop_last();
    lemma_flat_len(rs, a);
    lemma_flat_len(rest, a);
    if g < rs.len() - 1 {
        lemma_flat_slice(rest, a, g);
        assert(flat(rs, a).subrange(c * g, c * g + c) =~= flat(rest, a).subrange(c * g, c * g + c));
    } else {
        assert(c * g == c * (rs.len() - 1));
        assert(flat(rs, a).subrange(c * g, c * g + c) =~= field_bits(rs.last(), a));
    }
}

/// What flattening emits for local vertex `k` of chunk `i`: the vertex's
/// position, normal and texture coordinate.
pub proof fn lemma_emitted_geometry(chunks: Seq<Chunk>, out: FlatBuffers, i: int, k: int)
    requires
        out.flattens_vertices(chunks),
        0 <= i < chunks.len(),
        0 <= k < chunks[i].vertices@.len(),
    ensures
        ({
            let g = vertex_total(chunks.take(i)) + k;
            let c = chunks[i];
            &&& out.positions@.subrange(3 * g, 3 * g + 3) == seq![
                c.vertices@[k].x,
                c.vertices@[k].y,
                c.vertices@[k].z,
            ]
            &&& out.normals@.subrange(3 * g, 3 * g + 3) == seq![
                c.normals@[k].x,
                c.normals@[k].y,
                c.normals@[k].z,
            ]
            &&& out.uvs@.subrange(2 * g, 2 * g + 2) == seq![c.uvs@[k].u, c.uvs@[k].v]
        }),
{
    lemma_emitted_field(chunks, i, k, Attribute::Position);
    lemma_emitted_field(chunks, i, k, Attribute::Normal);
    lemma_emitted_field(chunks, i, k, Attribute::Uv);
}

/// The color channels that flattening emits for local vertex `k` of chunk
/// `i`: the ambient color of its material, and the diffuse color, specular
/// color and specular exponent that the material's illumination model
/// selects. Under ambient-only light diffuse and specular are black; under
/// ambient and diffuse light specular is black and the exponent is 1.0;
/// under ambient, diffuse and specular light all three colors and the
/// exponent are the material's own.
pub proof fn lemma_emitted_channels(chunks: Seq<Chunk>, out: FlatBuffers, i: int, k: int)
    requires
        out.flattens_vertices(chunks),
        0 <= i < chunks.len(),
        0 <= k < chunks[i].vertices@.len(),
    ensures
        ({
            let g = vertex_total(chunks.take(i)) + k;
            let m = chunks[i].material;
            let diffuse = out.diffuse@.subrange(3 * g, 3 * g + 3);
            let specular = out.specular@.subrange(3 * g, 3 * g + 3);
            &&& out.ambient@.subrange(3 * g, 3 * g + 3) == color_bits(m.ambient)
            &&& m.illumination == Illumination::Ambient ==> {
                &&& diffuse == color_bits(spec_black())
                &&& specular == color_bits(spec_black())
                &&& out.exponents@[g] == ONE_BITS
            }
            &&& m.illumination == Illumination::AmbientDiffuse ==> {
                &&& diffuse == color_bits(m.diffuse)
                &&& specular == color_bits(spec_black())
                &&& out.exponents@[g] == ONE_BITS
            }
            &&& m.illumination == Illumination::AmbientDiffuseSpecular ==> {
                &&& diffuse == color_bits(m.diffuse)
                &&& specular == color_bits(m.specular)
                &&& out.exponents@[g] == m.specular_coefficient
            }
        }),
{
    let g = vertex_total(chunks.take(i)) + k;
    let m = chunks[i].material;
    lemma_emitted_color_fields(chunks, out, i, k);
    assert(out.diffuse@.subrange(3 * g, 3 * g + 3) == color_bits(diffuse_channel(m)));
    assert(out.specular@.subrange(3 * g, 3 * g + 3) == color_bits(specular_channel(m)));
    assert(out.exponents@[g] == exponent_channel(m));
}

proof fn lemma_emitted_color_fields(chunks: Seq<Chunk>, out: FlatBuffers, i: int, k: int)
    requires
        out.flattens_vertices(chunks),
        0 <= i < chunks.len(),
        0 <= k < chunks[i].vertices@.len(),
    ensures
        ({
            let g = vertex_total(chunks.take(i)) + k;
            let m = chunks[i].material;
            &&& out.ambient@.subrange(3 * g, 3 * g + 3) == color_bits(m.ambient)
            &&& out.diffuse@.subrange(3 * g, 3 * g + 3) == color_bits(diffuse_channel(m))
            &&& out.specular@.subrange(3 * g, 3 * g + 3) == color_bits(specular_channel(m))
            &&& out.exponents@[g] == exponent_channel(m)
        }),
{
    let g = vertex_total(chunks.take(i)) + k;
    let r = record_of(chunks[i], k);
    let rs = records(chunks);
    lemma_emitted_field(chunks, i, k, Attribute::Ambient);
    lemma_emitted_field(chunks, i, k, Attribute::Diffuse);
    lemma_emitted_field(chunks, i, k, Attribute::Specular);
    lemma_emitted_field(chunks, i, k, Attribute::SpecularExponent);
    assert(flat(rs, Attribute::SpecularExponent).subrange(g, g + 1) == seq![r.exponent]);
    assert(out.exponents@[g] == out.exponents@.subrange(g, g + 1)[0]);
}

proof fn lemma_emitted_field(chunks: Seq<Chunk>, i: int, k: int, a: Attribute)
    requires
        0 <= i < chunks.len(),
        0 <= k < chunks[i].vertices@.len(),
    ensures
        ({
            let g = vertex_total(chunks.take(i)) + k;
            let c = spec_component_count(a) as int;
            &&& 0 <= c * g
            &&& c * g + c <= flat(records(chunks), a).len()
            &&& flat(records(chunks), a).subrange(c * g, c * g + c) == field_bits(
                record_of(chunks[i], k),
                a,
            )
        }),
{
    let g = vertex_total(chunks.take(i)) + k;
    let c = spec_component_count(a) as int;
    lemma_records_index(chunks, i, k);
    lemma_flat_slice(records(chunks), a, g);
    assert(0 <= c * g) by (nonlinear_arith)
        requires
            0 <= c,
            0 <= g,
    ;
}

/// Every index that flattening emits names one of the emitted vertices.
pub proof fn lemma_indices_in_range(chunks: Seq<Chunk>, out: FlatBuffers)
    requires
        out.flattens(chunks),
        forall|i: int| 0 <= i < chunks.len() ==> #[trigger] chunks[i].wf(),
        vertex_total(chunks) <= u32::MAX,
    ensures
        out.positions@.len() == 3 * vertex_total(chunks),
        forall|j: int| 0 <= j < out.indices@.len() ==> #[trigger] out.indices@[j] < vertex_total(chunks),
{
    lemma_records_len(chunks);
    lemma_flat_len(records(chunks), Attribute::Position);
    lemma_index_stream_bound(chunks);
}

proof fn lemma_triangle_indices_bound(ts: Seq<LocalTriangle>, base: nat, n: nat)
    requires
        base + n <= u32::MAX,
        forall|t: int| 0 <= t < ts.len() ==> #[trigger] ts[t].a < n && ts[t].b < n && ts[t].c < n,
    ensures
        forall|j: int|
            0 <= j < triangle_indices(ts, base).len() ==> #[trigger] triangle_indices(ts, base)[j]
                < base + n,
    decreases ts.len(),
{
    if ts.len() > 0 {
        let rest = ts.drop_last();
        assert forall|t: int| 0 <= t < rest.len() implies #[trigger] rest[t].a < n && rest[t].b < n
            && rest[t].c < n by {
            assert(rest[t] == ts[t]);
        }
        lemma_triangle_indices_bound(rest, base, n);
        assert(ts.last() == ts[ts.len() - 1]);
        let a = triangle_indices(rest, base);
        let t = ts.last();
        let b = seq![(base + t.a) as u32, (base + t.b) as u32, (base + t.c) as u32];
        assert forall|j: int|
            0 <= j < triangle_indices(ts, base).len() implies #[trigger] triangle_indices(ts, base)[j]
                < base + n by {
            if j < a.len() {
                assert(triangle_indices(ts, base)[j] == a[j]);
            } else {
                assert(triangle_indices(ts, base)[j] == b[j - a.len()]);
            }
        }
    }
}

proof fn lemma_index_stream_bound(chunks: Seq<Chunk>)
    requires
        forall|i: int| 0 <= i < chunks.len() ==> #[trigger] chunks[i].wf(),
        vertex_total(chunks) <= u32::MAX,
    ensures
        forall|j: int|
            0 <= j < index_stream(chunks).len() ==> #[trigger] index_stream(chunks)[j]
                < vertex_total(chunks),
    decreases chunks.len(),
{
    if chunks.len() > 0 {
        let rest = chunks.drop_last();
        assert forall|i: int| 0 <= i < rest.len() implies #[trigger] rest[i].wf() by {
            assert(rest[i] == chunks[i]);
        }
        lemma_index_stream_bound(rest);
        let last = chunks.last();
        assert(chunks[chunks.len() - 1].wf());
        lemma_triangle_indices_bound(last.triangles@, vertex_total(rest), last.vertices@.len());
        let a = index_stream(rest);
        let b = triangle_indices(last.triangles@, vertex_total(rest));
        assert forall|j: int|
            0 <= j < index_stream(chunks).len() implies #[trigger] index_stream(chunks)[j]
                < vertex_total(chunks) by {
            if j < a.len() {
                assert(index_stream(chunks)[j] == a[j]);
            } else {
                assert(index_stream(chunks)[j] == b[j - a.len()]);
            }
        }
    }
}

/// `flatten` for any list of chunks: nothing when a chunk is ill formed
/// or the chunks hold more vertices than 32-bit indices can address.
pub fn try_flatten(chunks: &Vec<Chunk>) -> (r: Option<FlatBuffers>)
    ensures
        r is Some <==> (forall|i: int| 0 <= i < chunks@.len() ==> #[trigger] chunks@[i].wf())
            && vertex_total(chunks@) <= u32::MAX,
        r matches Some(out) ==> out.flattens(chunks@),
{
    let mut total: u64 = 0;
    let mut i: usize = 0;
    while i < chunks.len()
        invariant
            i <= chunks@.len(),
            total == vertex_total(chunks@.take(i as int)),
            total <= u32::MAX,
            forall|j: int| 0 <= j < i ==> #[trigger] chunks@[j].wf(),
        decreases chunks@.len() - i,
    {
        let ghost next = chunks@.take(i + 1);
        proof {
            assert(next.drop_last() =~= chunks@.take(i as int));
            assert(next.last() == chunks@[i as int]);
        }
        if !chunks[i].check() {
            return None;
        }
        let n = chunks[i].vertices.len();
        if n as u64 > u32::MAX as u64 - total {
            proof {
                lemma_vertex_total_prefix(chunks@, i + 1);
            }
            return None;
        }
        total = total + n as u64;
        i = i + 1;
    }
    proof {
        assert(chunks@.take(chunks@.len() as int) =~= chunks@);
    }
    Some(flatten(chunks))
}

} // verus!
