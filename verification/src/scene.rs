//! What the extractor reads of a loaded scene, and the order in which it
//! visits the scene's primitives.
//!
//! A scene declares meshes, and each mesh declares primitives. A mesh or a
//! primitive whose data cannot be resolved is passed over; this stops neither
//! its siblings nor the rest of the scene.

use vstd::prelude::*;

verus! {

/// One mesh of a loaded scene.
#[derive(Clone, Debug, PartialEq, Eq)]
pub struct MeshOutline {
    /// `None` where the mesh itself cannot be resolved. Else, for each of its
    /// primitives in declared order, whether the primitive's raw buffer can
    /// be resolved.
    pub primitives: Option<Vec<bool>>,
}

/// A loaded scene: its meshes in declared order.
#[derive(Clone, Debug, PartialEq, Eq)]
pub struct SceneOutline {
    pub meshes: Vec<MeshOutline>,
}

/// A primitive of a scene, by the index of its mesh and its own index in
/// that mesh.
#[derive(Clone, Copy, Debug, PartialEq, Eq)]
pub struct PrimitiveRef {
    pub mesh: usize,
    pub primitive: usize,
}

/// Whether the scene has a primitive `primitive` in a mesh `mesh`, both
/// resolved.
pub open spec fn extractable(scene: SceneOutline, mesh: int, primitive: int) -> bool {
    &&& 0 <= mesh < scene.meshes@.len()
    &&& scene.meshes@[mesh].primitives matches Some(flags)
    &&& 0 <= primitive < flags@.len()
    &&& flags@[primitive]
}

/// Whether `(mesh_a, primitive_a)` comes before `(mesh_b, primitive_b)` in
/// declared order.
pub open spec fn declared_before(mesh_a: int, primitive_a: int, mesh_b: int, primitive_b: int)
    -> bool {
    mesh_a < mesh_b || (mesh_a == mesh_b && primitive_a < primitive_b)
}

/// Whether `refs` holds the primitive `primitive` of mesh `mesh`.
pub open spec fn listed(refs: Seq<PrimitiveRef>, mesh: int, primitive: int) -> bool {
    exists|k: int|
        0 <= k < refs.len() && (#[trigger] refs[k]).mesh == mesh && refs[k].primitive == primitive
}

/// Whether `refs` is the extraction of `scene`: every resolved primitive of
/// every resolved mesh, once, in declared order, and nothing else.
pub open spec fn is_extraction(scene: SceneOutline, refs: Seq<PrimitiveRef>) -> bool {
    &&& forall|k: int|
        0 <= k < refs.len() ==> extractable(
            scene,
            (#[trigger] refs[k]).mesh as int,
            refs[k].primitive as int,
        )
    &&& forall|k: int, l: int|
        0 <= k < l < refs.len() ==> declared_before(
            (#[trigger] refs[k]).mesh as int,
            refs[k].primitive as int,
            (#[trigger] refs[l]).mesh as int,
            refs[l].primitive as int,
        )
    &&& forall|mesh: int, primitive: int| #[trigger]
        extractable(scene, mesh, primitive) ==> listed(refs, mesh, primitive)
}

/// Whether everything extractable that comes before `(mesh, primitive)` is
/// in `refs`, and nothing in `refs` comes at or after it.
spec fn extracted_up_to(scene: SceneOutline, refs: Seq<PrimitiveRef>, mesh: int, primitive: int)
    -> bool {
    &&& forall|k: int|
        0 <= k < refs.len() ==> extractable(
            scene,
            (#[trigger] refs[k]).mesh as int,
            refs[k].primitive as int,
        ) && declared_before(refs[k].mesh as int, refs[k].primitive as int, mesh, primitive)
    &&& forall|k: int, l: int|
        0 <= k < l < refs.len() ==> declared_before(
            (#[trigger] refs[k]).mesh as int,
            refs[k].primitive as int,
            (#[trigger] refs[l]).mesh as int,
            refs[l].primitive as int,
        )
    &&& forall|m: int, p: int| #[trigger]
        extractable(scene, m, p) && declared_before(m, p, mesh, primitive) ==> listed(refs, m, p)
}

/// A further reference at the end keeps what was listed.
proof fn lemma_push_keeps_listed(refs: Seq<PrimitiveRef>, next: PrimitiveRef, m: int, p: int)
    requires
        listed(refs, m, p) || (next.mesh == m && next.primitive == p),
    ensures
        listed(refs.push(next), m, p),
{
    let longer = refs.push(next);
    if listed(refs, m, p) {
        let k = choose|k: int|
            0 <= k < refs.len() && (#[trigger] refs[k]).mesh == m && refs[k].primitive == p;
        assert(longer[k] == refs[k]);
    } else {
        assert(longer[refs.len() as int] == next);
    }
}

/// The primitives of `scene` that can be converted, in declared order:
/// meshes in the order of the scene, and in each mesh its primitives in the
/// order of the mesh. What cannot be resolved is left out.
pub fn extract(scene: &SceneOutline) -> (refs: Vec<PrimitiveRef>)
    ensures
        is_extraction(*scene, refs@),
{
    let mut refs: Vec<PrimitiveRef> = Vec::new();
    let mut m: usize = 0;
    while m < scene.meshes.len()
        invariant
            m <= scene.meshes@.len(),
            extracted_up_to(*scene, refs@, m as int, 0),
        decreases scene.meshes@.len() - m,
    {
        match &scene.meshes[m].primitives {
            Some(flags) => {
                let mut p: usize = 0;
                while p < flags.len()
                    invariant
                        m < scene.meshes@.len(),
                        scene.meshes@[m as int].primitives == Some(*flags),
                        p <= flags@.len(),
                        extracted_up_to(*scene, refs@, m as int, p as int),
                    decreases flags@.len() - p,
                {
                    if flags[p] {
                        let next = PrimitiveRef { mesh: m, primitive: p };
                        let ghost before = refs@;
                        refs.push(next);
                        proof {
                            assert forall|mm: int, pp: int| #[trigger]
                                extractable(*scene, mm, pp) && declared_before(
                                    mm,
                                    pp,
                                    m as int,
                                    p + 1,
                                ) implies listed(refs@, mm, pp) by {
                                if declared_before(mm, pp, m as int, p as int) {
                                    assert(listed(before, mm, pp));
                                }
                                lemma_push_keeps_listed(before, next, mm, pp);
                            }
                        }
                    }
                    p = p + 1;
                }
            },
            None => {},
        }
        m = m + 1;
    }
    refs
}

} // verus!
