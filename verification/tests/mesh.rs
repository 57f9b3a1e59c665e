use bevy::asset::RenderAssetUsages;
use bevy::pbr::experimental::meshlet::{MeshToMeshletMeshConversionError, MeshletMesh};
use bevy::render::mesh::{Mesh, PrimitiveTopology, VertexAttributeValues};
use meshlet_pipeline::config::SIMPLIFICATION_LEVEL;
use meshlet_pipeline::mesh::{strip_unsupported, VertexAttribute};

fn triangle() -> Mesh {
    let mut mesh = Mesh::new(PrimitiveTopology::TriangleList, RenderAssetUsages::default());
    mesh.insert_attribute(
        Mesh::ATTRIBUTE_POSITION,
        vec![[0.0f32, 0.0, 0.0], [1.0, 0.0, 0.0], [0.0, 1.0, 0.0]],
    );
    mesh.insert_attribute(Mesh::ATTRIBUTE_NORMAL, vec![[0.0f32, 0.0, 1.0]; 3]);
    mesh.insert_attribute(Mesh::ATTRIBUTE_UV_0, vec![[0.0f32, 0.0], [1.0, 0.0], [0.0, 1.0]]);
    mesh
}

fn with_everything() -> Mesh {
    let mut mesh = triangle();
    mesh.insert_attribute(Mesh::ATTRIBUTE_UV_1, vec![[0.5f32, 0.5]; 3]);
    mesh.insert_attribute(Mesh::ATTRIBUTE_TANGENT, vec![[1.0f32, 0.0, 0.0, 1.0]; 3]);
    mesh.insert_attribute(Mesh::ATTRIBUTE_COLOR, vec![[1.0f32, 1.0, 1.0, 1.0]; 3]);
    mesh.insert_attribute(Mesh::ATTRIBUTE_JOINT_WEIGHT, vec![[1.0f32, 0.0, 0.0, 0.0]; 3]);
    mesh.insert_attribute(
        Mesh::ATTRIBUTE_JOINT_INDEX,
        VertexAttributeValues::Uint16x4(vec![[0u16, 0, 0, 0]; 3]),
    );
    mesh
}

fn attribute_ids(mesh: &Mesh) -> Vec<String> {
    mesh.attributes().map(|(attribute, _)| String::from(attribute.name)).collect()
}

#[test]
fn the_codec_takes_position_normal_and_first_uv() {
    assert!(VertexAttribute::Position.is_supported());
    assert!(VertexAttribute::Normal.is_supported());
    assert!(VertexAttribute::Uv0.is_supported());
    assert!(!VertexAttribute::Uv1.is_supported());
    assert!(!VertexAttribute::Tangent.is_supported());
    assert!(!VertexAttribute::Color.is_supported());
    assert!(!VertexAttribute::JointWeight.is_supported());
    assert!(!VertexAttribute::JointIndex.is_supported());
}

#[test]
fn stripping_removes_every_unsupported_attribute() {
    let stripped = strip_unsupported(&with_everything());
    assert!(stripped.contains_attribute(Mesh::ATTRIBUTE_POSITION));
    assert!(stripped.contains_attribute(Mesh::ATTRIBUTE_NORMAL));
    assert!(stripped.contains_attribute(Mesh::ATTRIBUTE_UV_0));
    assert!(!stripped.contains_attribute(Mesh::ATTRIBUTE_UV_1));
    assert!(!stripped.contains_attribute(Mesh::ATTRIBUTE_TANGENT));
    assert!(!stripped.contains_attribute(Mesh::ATTRIBUTE_COLOR));
    assert!(!stripped.contains_attribute(Mesh::ATTRIBUTE_JOINT_WEIGHT));
    assert!(!stripped.contains_attribute(Mesh::ATTRIBUTE_JOINT_INDEX));
    assert_eq!(
        attribute_ids(&stripped),
        vec![String::from("Vertex_Position"), String::from("Vertex_Normal"), String::from("Vertex_Uv")]
    );
}

#[test]
fn stripping_works_on_a_copy() {
    let whole = with_everything();
    let _ = strip_unsupported(&whole);
    assert_eq!(attribute_ids(&whole).len(), 8);
    assert!(whole.contains_attribute(Mesh::ATTRIBUTE_TANGENT));
}

#[test]
fn stripping_keeps_the_data_of_what_stays() {
    let whole = with_everything();
    let stripped = strip_unsupported(&whole);
    let before = whole.attribute(Mesh::ATTRIBUTE_POSITION).unwrap().as_float3().unwrap().to_vec();
    let after = stripped.attribute(Mesh::ATTRIBUTE_POSITION).unwrap().as_float3().unwrap().to_vec();
    assert_eq!(before, after);
    assert_eq!(stripped.primitive_topology(), PrimitiveTopology::TriangleList);
    assert_eq!(stripped.count_vertices(), 3);
}

#[test]
fn stripping_is_idempotent() {
    let once = strip_unsupported(&with_everything());
    let twice = strip_unsupported(&once);
    assert_eq!(attribute_ids(&once), attribute_ids(&twice));
    assert_eq!(
        once.attribute(Mesh::ATTRIBUTE_UV_0).unwrap().get_bytes(),
        twice.attribute(Mesh::ATTRIBUTE_UV_0).unwrap().get_bytes()
    );
}

#[test]
fn stripping_a_bare_mesh_changes_nothing() {
    let bare = triangle();
    let stripped = strip_unsupported(&bare);
    assert_eq!(attribute_ids(&bare), attribute_ids(&stripped));
    let empty = Mesh::new(PrimitiveTopology::TriangleList, RenderAssetUsages::default());
    assert!(attribute_ids(&strip_unsupported(&empty)).is_empty());
}

#[test]
fn the_codec_refuses_the_unstripped_mesh_for_its_attributes() {
    let result = MeshletMesh::from_mesh(&with_everything(), SIMPLIFICATION_LEVEL);
    assert!(matches!(result, Err(MeshToMeshletMeshConversionError::WrongMeshVertexAttributes)));
}

#[test]
fn the_codec_has_no_quarrel_with_the_attributes_of_the_stripped_mesh() {
    let stripped = strip_unsupported(&with_everything());
    let result = MeshletMesh::from_mesh(&stripped, SIMPLIFICATION_LEVEL);
    assert!(matches!(result, Err(MeshToMeshletMeshConversionError::MeshMissingIndices)));
}
