//! Vertex attributes of a raw mesh, and the stripping that the meshlet codec
//! asks for.
//!
//! The codec takes a triangle mesh with positions, normals and the first set
//! of texture coordinates, and nothing else. The other attributes that a
//! scene file may give a mesh are taken off before the mesh is handed over.

use bevy::render::mesh::Mesh;
use vstd::prelude::*;

verus! {

/// A mesh of the engine: vertex attributes keyed by their id, and an index
/// buffer. Its contents are not visible here; `attribute_ids` names the part
/// of them that this module speaks of.
#[verifier::external_type_specification]
#[verifier::external_body]
pub struct ExMesh(bevy::render::mesh::Mesh);

/// The ids of the vertex attributes that `mesh` holds data for: the keys of
/// the engine's attribute map, which `Mesh::attributes` walks and
/// `Mesh::contains_attribute` asks for.
pub uninterp spec fn attribute_ids(mesh: Mesh) -> Set<u64>;

/// The vertex attributes that the engine defines.
#[derive(Clone, Copy, Debug, PartialEq, Eq, Structural)]
pub enum VertexAttribute {
    Position,
    Normal,
    Uv0,
    Uv1,
    Tangent,
    Color,
    JointWeight,
    JointIndex,
}

impl VertexAttribute {
    /// The id under which the engine stores the attribute in a mesh.
    pub open spec fn id(self) -> u64 {
        match self {
            VertexAttribute::Position => 0,
            VertexAttribute::Normal => 1,
            VertexAttribute::Uv0 => 2,
            VertexAttribute::Uv1 => 3,
            VertexAttribute::Tangent => 4,
            VertexAttribute::Color => 5,
            VertexAttribute::JointWeight => 6,
            VertexAttribute::JointIndex => 7,
        }
    }

    /// Whether the codec takes the attribute.
    pub open spec fn supported(self) -> bool {
        self == VertexAttribute::Position || self == VertexAttribute::Normal || self
            == VertexAttribute::Uv0
    }

    /// Whether the codec takes the attribute.
    pub fn is_supported(self) -> (r: bool)
        ensures
            r == self.supported(),
    {
        match self {
            VertexAttribute::Position | VertexAttribute::Normal | VertexAttribute::Uv0 => true,
            _ => false,
        }
    }
}

/// The ids of the attributes that the codec does not take: secondary texture
/// coordinates, tangent, vertex colour, joint weight and joint index.
pub open spec fn unsupported_ids() -> Set<u64> {
    set![3u64, 4u64, 5u64, 6u64, 7u64]
}

/// The ids that the codec takes.
pub open spec fn codec_ids() -> Set<u64> {
    set![0u64, 1u64, 2u64]
}

/// What is left of a set of attribute ids once the unsupported ones are gone.
pub open spec fn stripped(ids: Set<u64>) -> Set<u64> {
    ids.difference(unsupported_ids())
}

/// Calls `Clone::clone` of the engine's mesh, which copies every field. The
/// copy is taken to be the same mesh.
#[verifier::external_body]
fn duplicate(mesh: &Mesh) -> (copy: Mesh)
    ensures
        copy == *mesh,
{
    mesh.clone()
}

/// Calls `Mesh::with_removed_attribute` with the engine's constant for
/// `attribute`. The engine removes the entry with that attribute's id from the
/// mesh's attribute map and touches nothing else; where the map has no such
/// entry the mesh comes back as it was.
#[verifier::external_body]
fn without_attribute(mesh: Mesh, attribute: VertexAttribute) -> (rest: Mesh)
    ensures
        attribute_ids(rest) == attribute_ids(mesh).remove(attribute.id()),
        !attribute_ids(mesh).contains(attribute.id()) ==> rest == mesh,
{
    match attribute {
        VertexAttribute::Position => mesh.with_removed_attribute(Mesh::ATTRIBUTE_POSITION),
        VertexAttribute::Normal => mesh.with_removed_attribute(Mesh::ATTRIBUTE_NORMAL),
        VertexAttribute::Uv0 => mesh.with_removed_attribute(Mesh::ATTRIBUTE_UV_0),
        VertexAttribute::Uv1 => mesh.with_removed_attribute(Mesh::ATTRIBUTE_UV_1),
        VertexAttribute::Tangent => mesh.with_removed_attribute(Mesh::ATTRIBUTE_TANGENT),
        VertexAttribute::Color => mesh.with_removed_attribute(Mesh::ATTRIBUTE_COLOR),
        VertexAttribute::JointWeight => mesh.with_removed_attribute(Mesh::ATTRIBUTE_JOINT_WEIGHT),
        VertexAttribute::JointIndex => mesh.with_removed_attribute(Mesh::ATTRIBUTE_JOINT_INDEX),
    }
}

/// A copy of `mesh` without the attributes that the codec does not take.
/// Every other attribute stays. A mesh that holds none of the unsupported
/// attributes comes back unchanged.
pub fn strip_unsupported(mesh: &Mesh) -> (out: Mesh)
    ensures
        attribute_ids(out) == stripped(attribute_ids(*mesh)),
        stripped(attribute_ids(*mesh)) == attribute_ids(*mesh) ==> out == *mesh,
{
    let copy = duplicate(mesh);
    let a = without_attribute(copy, VertexAttribute::Tangent);
    let b = without_attribute(a, VertexAttribute::Color);
    let c = without_attribute(b, VertexAttribute::JointIndex);
    let d = without_attribute(c, VertexAttribute::JointWeight);
    let out = without_attribute(d, VertexAttribute::Uv1);
    proof {
        let ids = attribute_ids(*mesh);
        assert(attribute_ids(out) =~= stripped(ids));
        if stripped(ids) == ids {
            assert(!ids.contains(4u64) && !ids.contains(5u64) && !ids.contains(7u64)
                && !ids.contains(6u64) && !ids.contains(3u64)) by {
                assert(unsupported_ids().contains(3u64));
                assert(unsupported_ids().contains(4u64));
                assert(unsupported_ids().contains(5u64));
                assert(unsupported_ids().contains(6u64));
                assert(unsupported_ids().contains(7u64));
            }
        }
    }
    out
}

/// Stripping is idempotent: nothing unsupported is left after one pass, so a
/// second pass removes nothing.
pub proof fn lemma_strip_idempotent(ids: Set<u64>)
    ensures
        stripped(stripped(ids)) == stripped(ids),
        stripped(ids).disjoint(unsupported_ids()),
        stripped(ids).subset_of(ids),
{
    assert(stripped(stripped(ids)) =~= stripped(ids));
}

/// Of the attributes that the engine defines, stripping leaves only those
/// that the codec takes.
pub proof fn lemma_stripped_is_codec_ready(ids: Set<u64>)
    requires
        forall|id: u64| ids.contains(id) ==> id <= 7,
    ensures
        stripped(ids).subset_of(codec_ids()),
{
    assert forall|id: u64| stripped(ids).contains(id) implies codec_ids().contains(id) by {
        assert(ids.contains(id));
        assert(!unsupported_ids().contains(id));
        assert(id == 0 || id == 1 || id == 2);
    }
}

} // verus!
