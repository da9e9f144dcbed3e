use terrain_generator::chunk::{split_group, split_mesh, Chunk, LocalTriangle};
use terrain_generator::flatten::{component_count, flatten, try_flatten, Attribute, DrawRange};
use terrain_generator::geometry::{Color, Uv, Vec3};
use terrain_generator::material::{default_material, Illumination, Material, MaterialTable};
use terrain_generator::mesh::{Corner, Group, Mesh, Primitive};
use terrain_generator::normals::incident_triangles;
use terrain_generator::texture::{Rgba8, TextureSource};

fn bits(x: f32) -> u32 {
    x.to_bits()
}

fn v3(x: f32, y: f32, z: f32) -> Vec3 {
    Vec3 { x: bits(x), y: bits(y), z: bits(z) }
}

fn rgb(r: f32, g: f32, b: f32) -> Color {
    Color { r: bits(r), g: bits(g), b: bits(b) }
}

fn corner(p: usize) -> Corner {
    Corner { position: p, texcoord: None, normal: None }
}

fn tc(p: usize, t: usize) -> Corner {
    Corner { position: p, texcoord: Some(t), normal: None }
}

fn tri(a: usize, b: usize, c: usize) -> Primitive {
    Primitive::Triangle(corner(a), corner(b), corner(c))
}

fn material(name: &str, illumination: Illumination) -> Material {
    Material {
        name: name.to_string(),
        ambient: rgb(1.0, 0.0, 0.0),
        diffuse: rgb(0.0, 1.0, 0.0),
        specular: rgb(0.0, 0.0, 1.0),
        specular_coefficient: bits(32.0),
        illumination,
        texture_map: None,
    }
}

fn quad_mesh(material_name: Option<&str>) -> Mesh {
    Mesh {
        positions: vec![
            v3(0.0, 0.0, 0.0),
            v3(1.0, 0.0, 0.0),
            v3(1.0, 1.0, 0.0),
            v3(0.0, 1.0, 0.0),
        ],
        texcoords: vec![],
        groups: vec![Group {
            material_name: material_name.map(|s| s.to_string()),
            primitives: vec![tri(0, 1, 2), tri(0, 2, 3)],
        }],
    }
}

fn up_normals(n: usize) -> Vec<Vec3> {
    vec![v3(0.0, 0.0, 1.0); n]
}

fn f(b: &[u32]) -> Vec<f32> {
    b.iter().map(|x| f32::from_bits(*x)).collect()
}

#[test]
fn quad_with_ambient_material_flattens_to_four_vertices() {
    let mesh = quad_mesh(Some("red"));
    mesh.check().unwrap();
    let mut red = material("red", Illumination::Ambient);
    red.ambient = rgb(1.0, 0.0, 0.0);
    let table = MaterialTable::from_materials(vec![red]);
    let default = default_material();
    let normals = up_normals(4);
    let chunks = split_mesh(&mesh, &normals, Some(&table), &default);
    assert_eq!(chunks.len(), 1);
    assert_eq!(chunks[0].vertices.len(), 4);
    let out = flatten(&chunks);
    assert_eq!(out.positions.len(), 12);
    assert_eq!(out.indices.len(), 6);
    assert_eq!(out.indices.len() / 3, 2);
    assert!(out.indices.iter().all(|i| *i < 4));
    assert_eq!(out.ambient.len(), 12);
    for k in 0..4 {
        assert_eq!(f(&out.ambient[3 * k..3 * k + 3]), vec![1.0, 0.0, 0.0]);
        assert_eq!(f(&out.diffuse[3 * k..3 * k + 3]), vec![0.0, 0.0, 0.0]);
        assert_eq!(f(&out.specular[3 * k..3 * k + 3]), vec![0.0, 0.0, 0.0]);
        assert_eq!(f32::from_bits(out.exponents[k]), 1.0);
    }
    assert_eq!(out.ranges, vec![DrawRange { first_index: 0, index_count: 6 }]);
}

#[test]
fn shared_vertices_are_numbered_once_in_first_use_order() {
    let mesh = quad_mesh(None);
    let default = default_material();
    let chunk = split_group(&mesh, 0, &up_normals(4), None, &default);
    assert_eq!(chunk.sources, vec![0, 1, 2, 3]);
    assert_eq!(
        chunk.triangles,
        vec![LocalTriangle { a: 0, b: 1, c: 2 }, LocalTriangle { a: 0, b: 2, c: 3 }]
    );
    assert_eq!(chunk.vertices[2], v3(1.0, 1.0, 0.0));
}

#[test]
fn chunk_vertex_count_is_distinct_positions_of_its_group() {
    let mesh = Mesh {
        positions: (0..10).map(|i| v3(i as f32, 0.0, 0.0)).collect(),
        texcoords: vec![],
        groups: vec![
            Group { material_name: None, primitives: vec![tri(7, 3, 9), tri(9, 3, 5), tri(5, 7, 9)] },
            Group { material_name: None, primitives: vec![tri(1, 2, 3)] },
        ],
    };
    mesh.check().unwrap();
    let default = default_material();
    let chunks = split_mesh(&mesh, &up_normals(10), None, &default);
    assert_eq!(chunks[0].sources, vec![7, 3, 9, 5]);
    assert_eq!(chunks[0].vertices.len(), 4);
    assert_eq!(chunks[0].vertices[0], v3(7.0, 0.0, 0.0));
    assert_eq!(
        chunks[0].triangles,
        vec![
            LocalTriangle { a: 0, b: 1, c: 2 },
            LocalTriangle { a: 2, b: 1, c: 3 },
            LocalTriangle { a: 3, b: 0, c: 2 },
        ]
    );
    assert_eq!(chunks[1].sources, vec![1, 2, 3]);
}

#[test]
fn indices_of_later_chunks_are_offset() {
    let mesh = Mesh {
        positions: (0..6).map(|i| v3(i as f32, 0.0, 0.0)).collect(),
        texcoords: vec![],
        groups: vec![
            Group { material_name: None, primitives: vec![tri(0, 1, 2)] },
            Group { material_name: None, primitives: vec![tri(3, 4, 5), tri(5, 4, 2)] },
        ],
    };
    let default = default_material();
    let chunks = split_mesh(&mesh, &up_normals(6), None, &default);
    let out = flatten(&chunks);
    assert_eq!(out.indices, vec![0, 1, 2, 3, 4, 5, 5, 4, 6]);
    assert_eq!(out.positions.len(), 3 * 7);
    assert!(out.indices.iter().all(|i| (*i as usize) < 7));
    assert_eq!(
        out.ranges,
        vec![
            DrawRange { first_index: 0, index_count: 3 },
            DrawRange { first_index: 3, index_count: 6 },
        ]
    );
    assert_eq!(f(&out.positions[18..21]), vec![2.0, 0.0, 0.0]);
}

#[test]
fn illumination_model_selects_channels() {
    let default = default_material();
    for (model, diffuse, specular, exponent) in [
        (Illumination::Ambient, vec![0.0, 0.0, 0.0], vec![0.0, 0.0, 0.0], 1.0),
        (Illumination::AmbientDiffuse, vec![0.0, 1.0, 0.0], vec![0.0, 0.0, 0.0], 1.0),
        (Illumination::AmbientDiffuseSpecular, vec![0.0, 1.0, 0.0], vec![0.0, 0.0, 1.0], 32.0),
    ] {
        let table = MaterialTable::from_materials(vec![material("m", model)]);
        let mesh = quad_mesh(Some("m"));
        let chunks = split_mesh(&mesh, &up_normals(4), Some(&table), &default);
        let out = flatten(&chunks);
        for k in 0..4 {
            assert_eq!(f(&out.ambient[3 * k..3 * k + 3]), vec![1.0, 0.0, 0.0]);
            assert_eq!(f(&out.diffuse[3 * k..3 * k + 3]), diffuse);
            assert_eq!(f(&out.specular[3 * k..3 * k + 3]), specular);
            assert_eq!(f32::from_bits(out.exponents[k]), exponent);
        }
    }
}

#[test]
fn missing_material_falls_back_to_default() {
    let default = default_material();
    let table = MaterialTable::from_materials(vec![material("other", Illumination::Ambient)]);
    for (name, materials) in [
        (Some("absent"), Some(&table)),
        (None, Some(&table)),
        (Some("other"), None),
    ] {
        let mesh = quad_mesh(name);
        let chunk = split_group(&mesh, 0, &up_normals(4), materials, &default);
        assert_eq!(chunk.material.name, "default material");
        assert_eq!(chunk.material.ambient, rgb(0.5, 0.5, 0.5));
        assert_eq!(chunk.material.diffuse, rgb(0.5, 0.5, 0.5));
        assert_eq!(chunk.material.specular, rgb(1.0, 1.0, 1.0));
        assert_eq!(chunk.material.illumination, Illumination::AmbientDiffuse);
        assert_eq!(chunk.material.texture_map, None);
        assert_eq!(chunk.texture, TextureSource::Solid(Rgba8 { r: 127, g: 127, b: 127, a: 255 }));
    }
}

#[test]
fn untextured_material_gets_zero_uvs_and_solid_texture() {
    let mut m = material("m", Illumination::AmbientDiffuse);
    m.diffuse = rgb(0.2, 0.4, 0.6);
    let table = MaterialTable::from_materials(vec![m]);
    let mut mesh = quad_mesh(Some("m"));
    mesh.texcoords = vec![Uv { u: bits(0.25), v: bits(0.75) }];
    mesh.groups[0].primitives = vec![Primitive::Triangle(tc(0, 0), tc(1, 0), tc(2, 0))];
    let default = default_material();
    let chunk = split_group(&mesh, 0, &up_normals(4), Some(&table), &default);
    assert_eq!(chunk.uvs, vec![Uv { u: 0, v: 0 }; 3]);
    assert_eq!(chunk.texture, TextureSource::Solid(Rgba8 { r: 51, g: 102, b: 153, a: 255 }));
}

#[test]
fn textured_material_takes_uv_of_first_corner() {
    let mut m = material("m", Illumination::AmbientDiffuse);
    m.texture_map = Some("stone.png".to_string());
    let table = MaterialTable::from_materials(vec![m]);
    let mut mesh = quad_mesh(Some("m"));
    mesh.texcoords = vec![
        Uv { u: bits(0.0), v: bits(0.0) },
        Uv { u: bits(1.0), v: bits(0.0) },
        Uv { u: bits(1.0), v: bits(1.0) },
        Uv { u: bits(0.5), v: bits(0.5) },
    ];
    mesh.groups[0].primitives = vec![
        Primitive::Triangle(tc(0, 0), tc(1, 1), tc(2, 2)),
        Primitive::Triangle(tc(0, 3), tc(2, 3), corner(3)),
    ];
    mesh.check().unwrap();
    let default = default_material();
    let chunk = split_group(&mesh, 0, &up_normals(4), Some(&table), &default);
    assert_eq!(
        chunk.uvs,
        vec![
            Uv { u: bits(0.0), v: bits(0.0) },
            Uv { u: bits(1.0), v: bits(0.0) },
            Uv { u: bits(1.0), v: bits(1.0) },
            Uv { u: 0, v: 0 },
        ]
    );
    assert_eq!(chunk.texture, TextureSource::File("stone.png".to_string()));
}

#[test]
fn normals_follow_source_positions() {
    let mesh = Mesh {
        positions: (0..5).map(|i| v3(i as f32, 0.0, 0.0)).collect(),
        texcoords: vec![],
        groups: vec![Group { material_name: None, primitives: vec![tri(4, 2, 3)] }],
    };
    let normals: Vec<Vec3> = (0..5).map(|i| v3(0.0, i as f32, 0.0)).collect();
    let default = default_material();
    let chunk = split_group(&mesh, 0, &normals, None, &default);
    assert_eq!(chunk.normals, vec![v3(0.0, 4.0, 0.0), v3(0.0, 2.0, 0.0), v3(0.0, 3.0, 0.0)]);
}

#[test]
fn incident_triangles_lists_each_touching_corner() {
    let mesh = Mesh {
        positions: (0..5).map(|i| v3(i as f32, 0.0, 0.0)).collect(),
        texcoords: vec![],
        groups: vec![
            Group { material_name: None, primitives: vec![tri(0, 1, 2)] },
            Group { material_name: Some("x".to_string()), primitives: vec![tri(0, 2, 3), tri(3, 3, 0)] },
        ],
    };
    let r = incident_triangles(&mesh);
    assert_eq!(r.len(), 5);
    assert_eq!(r[0], vec![(0, 1, 2), (0, 2, 3), (3, 3, 0)]);
    assert_eq!(r[1], vec![(0, 1, 2)]);
    assert_eq!(r[2], vec![(0, 1, 2), (0, 2, 3)]);
    assert_eq!(r[3], vec![(0, 2, 3), (3, 3, 0), (3, 3, 0)]);
    assert_eq!(r[4], vec![]);
}

#[test]
fn incident_triangles_do_not_depend_on_face_order() {
    let faces = vec![tri(0, 1, 2), tri(0, 2, 3), tri(1, 3, 2), tri(3, 0, 1)];
    let mut reordered = faces.clone();
    reordered.reverse();
    reordered.swap(0, 2);
    let make = |fs: Vec<Primitive>| Mesh {
        positions: (0..4).map(|i| v3(i as f32, 0.0, 0.0)).collect(),
        texcoords: vec![],
        groups: vec![Group { material_name: None, primitives: fs }],
    };
    let a = incident_triangles(&make(faces));
    let b = incident_triangles(&make(reordered));
    for v in 0..4 {
        let mut x = a[v].clone();
        let mut y = b[v].clone();
        x.sort();
        y.sort();
        assert_eq!(x, y);
    }
}

#[test]
fn component_counts() {
    assert_eq!(component_count(Attribute::Position), 3);
    assert_eq!(component_count(Attribute::Normal), 3);
    assert_eq!(component_count(Attribute::Uv), 2);
    assert_eq!(component_count(Attribute::Ambient), 3);
    assert_eq!(component_count(Attribute::Diffuse), 3);
    assert_eq!(component_count(Attribute::Specular), 3);
    assert_eq!(component_count(Attribute::SpecularExponent), 1);
}

#[test]
fn try_flatten_refuses_ill_formed_chunk() {
    let default = default_material();
    let good = split_mesh(&quad_mesh(None), &up_normals(4), None, &default);
    assert!(try_flatten(&good).is_some());
    let bad = Chunk {
        material: default_material(),
        sources: vec![0],
        vertices: vec![v3(0.0, 0.0, 0.0)],
        normals: vec![v3(0.0, 0.0, 1.0)],
        uvs: vec![Uv { u: 0, v: 0 }],
        triangles: vec![LocalTriangle { a: 0, b: 0, c: 1 }],
        texture: TextureSource::Solid(Rgba8 { r: 0, g: 0, b: 0, a: 255 }),
    };
    assert!(try_flatten(&vec![bad]).is_none());
    assert!(try_flatten(&vec![]).is_some());
}
