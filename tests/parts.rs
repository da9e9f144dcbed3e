use terrain_generator::controls::{plan_moves, HeldKeys, Step, TranslateDirection};
use terrain_generator::geometry::{black, channel_byte, origin_uv, Color, Uv};
use terrain_generator::material::{
    default_material, resolve_material, Illumination, Material, MaterialTable,
};
use terrain_generator::mesh::{Corner, Group, Mesh, MeshError, Primitive};
use terrain_generator::texture::{solid_pixel, texture_for, Rgba8, TextureSource};

fn corner(p: usize) -> Corner {
    Corner { position: p, texcoord: None, normal: None }
}

fn named(name: &str, ambient: f32) -> Material {
    let c = Color { r: ambient.to_bits(), g: 0, b: 0 };
    Material {
        name: name.to_string(),
        ambient: c,
        diffuse: c,
        specular: c,
        specular_coefficient: 0,
        illumination: Illumination::Ambient,
        texture_map: None,
    }
}

#[test]
fn channel_byte_scales_and_saturates() {
    assert_eq!(channel_byte(0.2f32.to_bits()), 51);
    assert_eq!(channel_byte(0.4f32.to_bits()), 102);
    assert_eq!(channel_byte(0.6f32.to_bits()), 153);
    assert_eq!(channel_byte(0.5f32.to_bits()), 127);
    assert_eq!(channel_byte(0.0f32.to_bits()), 0);
    assert_eq!(channel_byte((-0.0f32).to_bits()), 0);
    assert_eq!(channel_byte((-0.5f32).to_bits()), 0);
    assert_eq!(channel_byte(1.0f32.to_bits()), 255);
    assert_eq!(channel_byte(7.5f32.to_bits()), 255);
    assert_eq!(channel_byte(f32::INFINITY.to_bits()), 255);
    assert_eq!(channel_byte(f32::NAN.to_bits()), 0);
    assert_eq!(channel_byte(f32::MIN_POSITIVE.to_bits()), 0);
    assert_eq!(channel_byte(0.999f32.to_bits()), 254);
    assert_eq!(channel_byte(0.004f32.to_bits()), 1);
}

#[test]
fn channel_byte_agrees_with_float_cast() {
    let mut x = 0.0f32;
    while x < 1.5 {
        assert_eq!(channel_byte(x.to_bits()), (x as f64 * 255.0) as u8, "at {}", x);
        x += 0.0007;
    }
}

#[test]
fn solid_texture_from_diffuse_color() {
    let c = Color { r: 0.2f32.to_bits(), g: 0.4f32.to_bits(), b: 0.6f32.to_bits() };
    assert_eq!(solid_pixel(c), Rgba8 { r: 51, g: 102, b: 153, a: 255 });
    let mut m = named("m", 0.0);
    m.diffuse = c;
    assert_eq!(texture_for(&m), TextureSource::Solid(Rgba8 { r: 51, g: 102, b: 153, a: 255 }));
    m.texture_map = Some("wood.jpg".to_string());
    assert_eq!(texture_for(&m), TextureSource::File("wood.jpg".to_string()));
}

#[test]
fn default_material_values() {
    let m = default_material();
    assert_eq!(m.name, "default material");
    assert_eq!(f32::from_bits(m.ambient.r), 0.5);
    assert_eq!(f32::from_bits(m.ambient.g), 0.5);
    assert_eq!(f32::from_bits(m.ambient.b), 0.5);
    assert_eq!(f32::from_bits(m.diffuse.g), 0.5);
    assert_eq!(f32::from_bits(m.specular.b), 1.0);
    assert_eq!(f32::from_bits(m.specular_coefficient), 0.0);
    assert_eq!(m.illumination, Illumination::AmbientDiffuse);
    assert_eq!(m.texture_map, None);
}

#[test]
fn table_keeps_last_material_of_a_name() {
    let table = MaterialTable::from_materials(vec![named("a", 0.1), named("b", 0.2), named("a", 0.3)]);
    let a = table.get(&"a".to_string()).unwrap();
    assert_eq!(f32::from_bits(a.ambient.r), 0.3);
    let b = table.get(&"b".to_string()).unwrap();
    assert_eq!(f32::from_bits(b.ambient.r), 0.2);
    assert!(table.get(&"c".to_string()).is_none());
}

#[test]
fn resolve_material_uses_table_then_default() {
    let table = MaterialTable::from_materials(vec![named("a", 0.1)]);
    let default = default_material();
    let hit = resolve_material(Some(&table), &Some("a".to_string()), &default);
    assert_eq!(hit.name, "a");
    let miss = resolve_material(Some(&table), &Some("z".to_string()), &default);
    assert_eq!(miss.name, "default material");
    assert_eq!(miss.ambient, default.ambient);
    let unnamed = resolve_material(Some(&table), &None, &default);
    assert_eq!(unnamed.illumination, Illumination::AmbientDiffuse);
    let no_table = resolve_material(None, &Some("a".to_string()), &default);
    assert_eq!(no_table.name, "default material");
}

#[test]
fn duplicate_copies_every_field() {
    let mut m = named("m", 0.7);
    m.texture_map = Some("t.png".to_string());
    let d = m.duplicate();
    assert_eq!(d.name, "m");
    assert_eq!(d.ambient, m.ambient);
    assert_eq!(d.texture_map, Some("t.png".to_string()));
}

fn one_group(primitives: Vec<Primitive>, texcoords: usize) -> Mesh {
    Mesh {
        positions: vec![terrain_generator::geometry::Vec3 { x: 0, y: 0, z: 0 }; 3],
        texcoords: vec![Uv { u: 0, v: 0 }; texcoords],
        groups: vec![
            Group { material_name: None, primitives: vec![Primitive::Triangle(corner(0), corner(1), corner(2))] },
            Group { material_name: None, primitives },
        ],
    }
}

#[test]
fn mesh_check_accepts_triangles() {
    let t = Corner { position: 2, texcoord: Some(0), normal: Some(5) };
    assert_eq!(one_group(vec![Primitive::Triangle(corner(0), corner(1), t)], 1).check(), Ok(()));
    assert_eq!(one_group(vec![], 0).check(), Ok(()));
}

#[test]
fn mesh_check_rejects_non_triangles() {
    let m = one_group(vec![Primitive::Triangle(corner(0), corner(1), corner(2)), Primitive::Line(corner(0), corner(1))], 0);
    assert_eq!(m.check(), Err(MeshError::NotATriangle { group: 1, primitive: 1 }));
    let p = one_group(vec![Primitive::Point(corner(0))], 0);
    assert_eq!(p.check(), Err(MeshError::NotATriangle { group: 1, primitive: 0 }));
}

#[test]
fn mesh_check_rejects_bad_indices() {
    let m = one_group(vec![Primitive::Triangle(corner(0), corner(3), corner(2))], 0);
    assert_eq!(m.check(), Err(MeshError::PositionOutOfRange { group: 1, primitive: 0 }));
    let t = Corner { position: 2, texcoord: Some(1), normal: None };
    let n = one_group(vec![Primitive::Triangle(corner(0), corner(1), t)], 1);
    assert_eq!(n.check(), Err(MeshError::TexcoordOutOfRange { group: 1, primitive: 0 }));
}

#[test]
fn constant_values() {
    assert_eq!(black(), Color { r: 0, g: 0, b: 0 });
    assert_eq!(origin_uv(), Uv { u: 0, v: 0 });
}

#[test]
fn held_keys_plan_steps() {
    let none = HeldKeys {
        forward: false,
        backward: false,
        left: false,
        right: false,
        rise: false,
        sink: false,
        left_shift: false,
        right_shift: false,
    };
    let p = plan_moves(&none);
    assert!(!p.fast);
    assert!(p.steps.is_empty());
    let all = HeldKeys {
        forward: true,
        backward: true,
        left: true,
        right: true,
        rise: true,
        sink: true,
        left_shift: false,
        right_shift: true,
    };
    let p = plan_moves(&all);
    assert!(p.fast);
    assert_eq!(
        p.steps,
        vec![
            Step { direction: TranslateDirection::Forward, reverse: false },
            Step { direction: TranslateDirection::Forward, reverse: true },
            Step { direction: TranslateDirection::Side, reverse: true },
            Step { direction: TranslateDirection::Side, reverse: false },
            Step { direction: TranslateDirection::Altitude, reverse: false },
            Step { direction: TranslateDirection::Altitude, reverse: true },
        ]
    );
    let strafe = HeldKeys { left: true, left_shift: true, ..none };
    let p = plan_moves(&strafe);
    assert!(p.fast);
    assert_eq!(p.steps, vec![Step { direction: TranslateDirection::Side, reverse: true }]);
}
