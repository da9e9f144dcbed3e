//! Which triangles touch each mesh position: the input of smooth-normal
//! estimation. A vertex's smooth normal is the normalized sum of the face
//! normals of the triangles listed for it, so the lists fix the normals.

use crate::mesh::{Group, Mesh, Primitive};
use multimap::MultiMap;
use vstd::prelude::*;

verus! {

broadcast use vstd::seq_lib::group_to_multiset_ensures;

/// A triangle as the positions of its three corners, in corner order.
pub type TriangleKey = (usize, usize, usize);

#[verifier::external_type_specification]
#[verifier::external_body]
#[verifier::reject_recursive_types(K)]
#[verifier::reject_recursive_types(V)]
#[verifier::reject_recursive_types(S)]
pub struct ExMultiMap<K, V, S>(MultiMap<K, V, S>);

/// What a multimap from positions to triangles holds: for each key, its
/// values in order of insertion.
pub uninterp spec fn incidence_contents(m: MultiMap<usize, TriangleKey>) -> Map<
    usize,
    Seq<TriangleKey>,
>;

/// Relies on `MultiMap::new`: the map starts empty.
#[verifier::external_body]
fn incidence_new() -> (r: MultiMap<usize, TriangleKey>)
    ensures
        incidence_contents(r).dom() == Set::<usize>::empty(),
{
    MultiMap::new()
}

/// Relies on `MultiMap::insert`: the value is appended to the key's list,
/// which is created holding just the value when the key is absent.
#[verifier::external_body]
fn incidence_insert(m: &mut MultiMap<usize, TriangleKey>, k: usize, v: TriangleKey)
    ensures
        incidence_contents(*final(m)) == incidence_contents(*old(m)).insert(
            k,
            if incidence_contents(*old(m)).contains_key(k) {
                incidence_contents(*old(m))[k].push(v)
            } else {
                seq![v]
            },
        ),
{
    m.insert(k, v)
}

/// Relies on `MultiMap::get_vec`: the key's list, or nothing when the key
/// is absent (copied out of the map).
#[verifier::external_body]
fn incidence_get(m: &MultiMap<usize, TriangleKey>, k: usize) -> (r: Option<Vec<TriangleKey>>)
    ensures
        match r {
            Some(v) => incidence_contents(*m).contains_key(k) && v@ == incidence_contents(*m)[k],
            None => !incidence_contents(*m).contains_key(k),
        },
{
    m.get_vec(&k).cloned()
}

pub open spec fn triangle_key(p: Primitive) -> TriangleKey {
    match p {
        Primitive::Triangle(a, b, c) => (a.position, b.position, c.position),
        _ => (0, 0, 0),
    }
}

/// The triangle `p`, once for each of its corners that lies at `v`.
pub open spec fn hits(p: Primitive, v: usize) -> Seq<TriangleKey> {
    match p {
        Primitive::Triangle(a, b, c) => {
            let t = triangle_key(p);
            (if a.position == v {
                seq![t]
            } else {
                Seq::empty()
            }) + (if b.position == v {
                seq![t]
            } else {
                Seq::empty()
            }) + (if c.position == v {
                seq![t]
            } else {
                Seq::empty()
            })
        },
        _ => Seq::empty(),
    }
}

/// The triangles of `faces` that touch position `v`, once per touching
/// corner, in face order.
pub open spec fn incident(faces: Seq<Primitive>, v: usize) -> Seq<TriangleKey>
    decreases faces.len(),
{
    if faces.len() == 0 {
        Seq::empty()
    } else {
        incident(faces.drop_last(), v) + hits(faces.last(), v)
    }
}

/// The faces of all groups, group after group.
pub open spec fn all_faces(groups: Seq<Group>) -> Seq<Primitive>
    decreases groups.len(),
{
    if groups.len() == 0 {
        Seq::empty()
    } else {
        all_faces(groups.drop_last()) + groups.last().primitives@
    }
}

spec fn listed(m: Map<usize, Seq<TriangleKey>>, v: usize) -> Seq<TriangleKey> {
    if m.contains_key(v) {
        m[v]
    } else {
        Seq::empty()
    }
}

/// For each mesh position, the triangles of the whole mesh (all groups)
/// that touch it, once per touching corner, in face order. Positions that
/// no triangle touches get an empty list.
pub fn incident_triangles(mesh: &Mesh) -> (r: Vec<Vec<TriangleKey>>)
    requires
        mesh.wf(),
    ensures
        r@.len() == mesh.positions@.len(),
        forall|v: int|
            0 <= v < r@.len() ==> #[trigger] r@[v]@ == incident(
                all_faces(mesh.groups@),
                v as usize,
            ),
{
    let mut m = incidence_new();
    let mut g: usize = 0;
    while g < mesh.groups.len()
        invariant
            g <= mesh.groups@.len(),
            forall|v: usize|
                #[trigger] listed(incidence_contents(m), v) == incident(
                    all_faces(mesh.groups@.take(g as int)),
                    v,
                ),
        decreases mesh.groups@.len() - g,
    {
        let faces = &mesh.groups[g].primitives;
        let ghost done = all_faces(mesh.groups@.take(g as int));
        let mut i: usize = 0;
        while i < faces.len()
            invariant
                g < mesh.groups@.len(),
                faces == &mesh.groups@[g as int].primitives,
                i <= faces@.len(),
                forall|v: usize|
                    #[trigger] listed(incidence_contents(m), v) == incident(
                        done + faces@.take(i as int),
                        v,
                    ),
            decreases faces@.len() - i,
        {
            let ghost before = done + faces@.take(i as int);
            let ghost m0 = incidence_contents(m);
            assert((done + faces@.take(i + 1)).drop_last() =~= before);
            assert((done + faces@.take(i + 1)).last() == faces@[i as int]);
            match faces[i] {
                Primitive::Triangle(a, b, c) => {
                    let key = (a.position, b.position, c.position);
                    incidence_insert(&mut m, a.position, key);
                    let ghost m1 = incidence_contents(m);
                    incidence_insert(&mut m, b.position, key);
                    let ghost m2 = incidence_contents(m);
                    incidence_insert(&mut m, c.position, key);
                    assert forall|v: usize|
                        #[trigger] listed(incidence_contents(m), v) == incident(
                            done + faces@.take(i + 1),
                            v,
                        ) by {
                        assert(listed(m0, v) == incident(before, v));
                        assert(listed(incidence_contents(m), v) =~= listed(m0, v) + hits(
                            faces@[i as int],
                            v,
                        ));
                    }
                },
                _ => {
                    assert forall|v: usize|
                        #[trigger] listed(incidence_contents(m), v) == incident(
                            done + faces@.take(i + 1),
                            v,
                        ) by {
                        assert(listed(m0, v) == incident(before, v));
                        assert(incident(done + faces@.take(i + 1), v) =~= incident(before, v));
                    }
                },
            }
            i = i + 1;
        }
        proof {
            assert(faces@.take(faces@.len() as int) =~= faces@);
            assert(mesh.groups@.take(g + 1).drop_last() =~= mesh.groups@.take(g as int));
            assert(mesh.groups@.take(g + 1).last() == mesh.groups@[g as int]);
        }
        g = g + 1;
    }
    proof {
        assert(mesh.groups@.take(mesh.groups@.len() as int) =~= mesh.groups@);
    }
    let mut r: Vec<Vec<TriangleKey>> = Vec::new();
    let mut v: usize = 0;
    while v < mesh.positions.len()
        invariant
            v <= mesh.positions@.len(),
            r@.len() == v,
            forall|v: usize|
                #[trigger] listed(incidence_contents(m), v) == incident(all_faces(mesh.groups@), v),
            forall|u: int| 0 <= u < v ==> #[trigger] r@[u]@ == incident(all_faces(mesh.groups@), u as usize),
        decreases mesh.positions@.len() - v,
    {
        assert(listed(incidence_contents(m), v) == incident(all_faces(mesh.groups@), v));
        match incidence_get(&m, v) {
            Some(list) => r.push(list),
            None => r.push(Vec::new()),
        }
        v = v + 1;
    }
    r
}

proof fn lemma_incident_remove(faces: Seq<Primitive>, i: int, v: usize)
    requires
        0 <= i < faces.len(),
    ensures
        incident(faces, v).to_multiset() == incident(faces.remove(i), v).to_multiset().add(
            hits(faces[i], v).to_multiset(),
        ),
    decreases faces.len(),
{
    broadcast use vstd::seq_lib::lemma_multiset_commutative;
    broadcast use vstd::multiset::group_multiset_axioms;

    if i == faces.len() - 1 {
        assert(faces.remove(i) =~= faces.drop_last());
    } else {
        let rest = faces.drop_last();
        lemma_incident_remove(rest, i, v);
        assert(faces.remove(i).drop_last() =~= rest.remove(i));
        assert(faces.remove(i).last() == faces.last());
        assert(rest[i] == faces[i]);
        let a = incident(rest.remove(i), v).to_multiset();
        let b = hits(faces[i], v).to_multiset();
        let c = hits(faces.last(), v).to_multiset();
        assert(a.add(b).add(c) =~= a.add(c).add(b));
    }
}

/// Smooth normals do not depend on the order of the faces: whatever the
/// order, each position is touched by the same triangles, the same number
/// of times.
pub proof fn lemma_incidence_order_independent(f1: Seq<Primitive>, f2: Seq<Primitive>, v: usize)
    requires
        f1.to_multiset() == f2.to_multiset(),
    ensures
        incident(f1, v).to_multiset() == incident(f2, v).to_multiset(),
    decreases f1.len(),
{
    broadcast use vstd::seq_lib::lemma_multiset_commutative;
    broadcast use vstd::multiset::group_multiset_axioms;

    if f1.len() == 0 {
        assert(f2.to_multiset().len() == 0);
        assert(f2.len() == 0);
        assert(f2 =~= f1);
    } else {
        let x = f1.last();
        assert(f1 =~= f1.drop_last().push(x));
        assert(f2.to_multiset().count(x) > 0);
        assert(f2.contains(x));
        let i = choose|i: int| 0 <= i < f2.len() && f2[i] == x;
        assert(f2.remove(i).to_multiset() == f2.to_multiset().remove(x));
        assert(f1.drop_last().to_multiset() =~= f1.to_multiset().remove(x));
        lemma_incidence_order_independent(f1.drop_last(), f2.remove(i), v);
        lemma_incident_remove(f2, i, v);
    }
}

} // verus!
