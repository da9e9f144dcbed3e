//! Materials, the name-keyed material table and the fallback rule.

use crate::geometry::{Color, HALF_BITS, ONE_BITS, ZERO_BITS};
use vstd::prelude::*;

verus! {

/// Which of a material's color channels the renderer is to use.
#[derive(Clone, Copy, Debug, PartialEq, Eq, Structural)]
pub enum Illumination {
    Ambient,
    AmbientDiffuse,
    AmbientDiffuseSpecular,
}

/// A named surface description.
#[derive(Debug)]
pub struct Material {
    pub name: String,
    pub ambient: Color,
    pub diffuse: Color,
    pub specular: Color,
    /// Specular exponent (single-precision bit pattern).
    pub specular_coefficient: u32,
    pub illumination: Illumination,
    /// Image file of the diffuse texture, relative to the asset's directory.
    pub texture_map: Option<String>,
}

impl Material {
    /// A field-by-field copy.
    pub fn duplicate(&self) -> (r: Material)
        ensures
            r == *self,
    {
        let texture_map = match &self.texture_map {
            Some(path) => Some(path.clone()),
            None => None,
        };
        Material {
            name: self.name.clone(),
            ambient: self.ambient,
            diffuse: self.diffuse,
            specular: self.specular,
            specular_coefficient: self.specular_coefficient,
            illumination: self.illumination,
            texture_map,
        }
    }
}

/// The material of groups that name none, or name one the table lacks:
/// mid-gray ambient and diffuse, white specular, ambient+diffuse
/// illumination, no texture.
pub open spec fn is_default_material(m: Material) -> bool {
    &&& m.name@ == "default material"@
    &&& m.ambient == Color { r: HALF_BITS, g: HALF_BITS, b: HALF_BITS }
    &&& m.diffuse == Color { r: HALF_BITS, g: HALF_BITS, b: HALF_BITS }
    &&& m.specular == Color { r: ONE_BITS, g: ONE_BITS, b: ONE_BITS }
    &&& m.specular_coefficient == ZERO_BITS
    &&& m.illumination == Illumination::AmbientDiffuse
    &&& m.texture_map.is_none()
}

/// Builds the default material.
pub fn default_material() -> (m: Material)
    ensures
        is_default_material(m),
{
    let gray = Color { r: HALF_BITS, g: HALF_BITS, b: HALF_BITS };
    Material {
        name: "default material".to_owned(),
        ambient: gray,
        diffuse: gray,
        specular: Color { r: ONE_BITS, g: ONE_BITS, b: ONE_BITS },
        specular_coefficient: ZERO_BITS,
        illumination: Illumination::AmbientDiffuse,
        texture_map: None,
    }
}

/// The table that a list of materials describes: each name maps to the
/// last material of the list that carries it.
pub open spec fn table_of(list: Seq<Material>) -> Map<Seq<char>, Material>
    decreases list.len(),
{
    if list.len() == 0 {
        Map::empty()
    } else {
        table_of(list.drop_last()).insert(list.last().name@, list.last())
    }
}

pub open spec fn names_unique(entries: Seq<Material>) -> bool {
    forall|i: int, j: int|
        0 <= i < entries.len() && 0 <= j < entries.len() && i != j ==> entries[i].name@
            != entries[j].name@
}

/// Materials looked up by name.
pub struct MaterialTable {
    entries: Vec<Material>,
}

impl View for MaterialTable {
    type V = Map<Seq<char>, Material>;

    closed spec fn view(&self) -> Map<Seq<char>, Material> {
        table_of(self.entries@)
    }
}

proof fn lemma_table_of_unique(entries: Seq<Material>, i: int)
    requires
        names_unique(entries),
        0 <= i < entries.len(),
    ensures
        table_of(entries).contains_key(entries[i].name@),
        table_of(entries)[entries[i].name@] == entries[i],
    decreases entries.len(),
{
    if i < entries.len() - 1 {
        lemma_table_of_unique(entries.drop_last(), i);
    }
}

proof fn lemma_table_of_absent(entries: Seq<Material>, name: Seq<char>)
    requires
        forall|i: int| 0 <= i < entries.len() ==> entries[i].name@ != name,
    ensures
        !table_of(entries).contains_key(name),
    decreases entries.len(),
{
    if entries.len() > 0 {
        lemma_table_of_absent(entries.drop_last(), name);
    }
}

proof fn lemma_table_of_update(entries: Seq<Material>, i: int, m: Material)
    requires
        names_unique(entries),
        0 <= i < entries.len(),
        entries[i].name@ == m.name@,
    ensures
        table_of(entries.update(i, m)) == table_of(entries).insert(m.name@, m),
    decreases entries.len(),
{
    let updated = entries.update(i, m);
    if i == entries.len() - 1 {
        assert(updated.drop_last() =~= entries.drop_last());
        if entries.len() > 1 {
            lemma_table_of_unique(entries.drop_last(), 0);
        }
        assert(table_of(updated) =~= table_of(entries).insert(m.name@, m));
    } else {
        assert(updated.drop_last() =~= entries.drop_last().update(i, m));
        lemma_table_of_update(entries.drop_last(), i, m);
        assert(table_of(updated) =~= table_of(entries).insert(m.name@, m));
    }
}

impl MaterialTable {
    pub closed spec fn wf(&self) -> bool {
        names_unique(self.entries@)
    }

    /// Index of the entry named `name`, if any.
    fn position_of(&self, name: &String) -> (r: Option<usize>)
        requires
            self.wf(),
        ensures
            match r {
                Some(i) => i < self.entries@.len() && self.entries@[i as int].name@ == name@,
                None => forall|i: int|
                    0 <= i < self.entries@.len() ==> self.entries@[i].name@ != name@,
            },
    {
        let mut i: usize = 0;
        while i < self.entries.len()
            invariant
                i <= self.entries@.len(),
                forall|j: int| 0 <= j < i ==> self.entries@[j].name@ != name@,
            decreases self.entries@.len() - i,
        {
            if self.entries[i].name == *name {
                return Some(i);
            }
            i = i + 1;
        }
        None
    }

    /// Builds the table from a material library's list; where two
    /// materials share a name, the later one is kept.
    pub fn from_materials(list: Vec<Material>) -> (t: MaterialTable)
        ensures
            t.wf(),
            t@ == table_of(list@),
    {
        let mut t = MaterialTable { entries: Vec::new() };
        let mut rest = list;
        let ghost all = rest@;
        while rest.len() > 0
            invariant
                t.wf(),
                rest@.len() <= all.len(),
                rest@ == all.skip(all.len() - rest@.len()),
                t@ == table_of(all.take(all.len() - rest@.len())),
            decreases rest@.len(),
        {
            let ghost k = all.len() - rest@.len();
            let m = rest.remove(0);
            assert(m == all[k]);
            assert(all.take(k + 1).drop_last() =~= all.take(k));
            assert(all.take(k + 1).last() == m);
            assert(rest@ =~= all.skip(k + 1));
            match t.position_of(&m.name) {
                Some(i) => {
                    proof {
                        lemma_table_of_update(t.entries@, i as int, m);
                    }
                    t.entries.set(i, m);
                },
                None => {
                    let ghost before = t.entries@;
                    t.entries.push(m);
                    assert(t.entries@.drop_last() =~= before);
                },
            }
        }
        assert(all.take(all.len() as int) =~= all);
        t
    }

    /// The material named `name`, if the table holds one.
    pub fn get(&self, name: &String) -> (r: Option<&Material>)
        requires
            self.wf(),
        ensures
            match r {
                Some(m) => self@.contains_key(name@) && *m == self@[name@],
                None => !self@.contains_key(name@),
            },
    {
        match self.position_of(name) {
            Some(i) => {
                proof {
                    lemma_table_of_unique(self.entries@, i as int);
                }
                Some(&self.entries[i])
            },
            None => {
                proof {
                    lemma_table_of_absent(self.entries@, name@);
                }
                None
            },
        }
    }
}

/// The material a group resolves to: the table's entry for the group's
/// material name when both exist, the default material otherwise.
pub open spec fn spec_resolve(
    table: Option<Map<Seq<char>, Material>>,
    name: Option<String>,
    default: Material,
) -> Material {
    match (table, name) {
        (Some(t), Some(n)) => if t.contains_key(n@) {
            t[n@]
        } else {
            default
        },
        _ => default,
    }
}

/// A group that names no material, or one the table lacks (or that has no
/// table to look in), gets the default material: mid-gray ambient and
/// diffuse, ambient+diffuse illumination.
pub proof fn lemma_default_fallback(
    table: Option<Map<Seq<char>, Material>>,
    name: Option<String>,
    default: Material,
)
    requires
        is_default_material(default),
        (name is None) || (table is None) || !table.unwrap().contains_key(name.unwrap()@),
    ensures
        is_default_material(spec_resolve(table, name, default)),
        spec_resolve(table, name, default).ambient == (Color { r: HALF_BITS, g: HALF_BITS, b: HALF_BITS }),
        spec_resolve(table, name, default).diffuse == (Color { r: HALF_BITS, g: HALF_BITS, b: HALF_BITS }),
        spec_resolve(table, name, default).illumination == Illumination::AmbientDiffuse,
{
}

/// The contents of an optional table.
pub open spec fn table_view(t: Option<&MaterialTable>) -> Option<Map<Seq<char>, Material>> {
    match t {
        Some(t) => Some(t@),
        None => None,
    }
}

/// Resolves a group's material, falling back silently to `default`.
pub fn resolve_material(
    table: Option<&MaterialTable>,
    name: &Option<String>,
    default: &Material,
) -> (r: Material)
    requires
        table matches Some(t) ==> t.wf(),
    ensures
        r == spec_resolve(
            table_view(table),
            *name,
            *default,
        ),
{
    match (table, name) {
        (Some(t), Some(n)) => match t.get(n) {
            Some(m) => m.duplicate(),
            None => default.duplicate(),
        },
        _ => default.duplicate(),
    }
}

} // verus!
