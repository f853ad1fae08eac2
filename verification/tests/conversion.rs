use deadlocked::dlms::MeshAsset;
use deadlocked::glb::{accessor_components, accessor_layout, glb_well_framed, parse_glb};
use deadlocked::gltf::{
    decimal_string, gltf_to_dlms, AccessorRows, GltfDoc, GltfMesh, GltfNode, GltfPrimitive, GltfSkin,
};

fn rows_f32(rows: &[&[f32]]) -> AccessorRows {
    AccessorRows {
        floats: rows.iter().map(|r| r.iter().map(|v| v.to_bits()).collect()).collect(),
        shorts: rows.iter().map(|r| r.iter().map(|&v| v as u16).collect()).collect(),
        ints: rows.iter().map(|r| r.iter().map(|&v| v as u32).collect()).collect(),
    }
}

fn rows_int(rows: &[&[u32]]) -> AccessorRows {
    AccessorRows {
        floats: rows.iter().map(|r| r.iter().map(|&v| (v as f32).to_bits()).collect()).collect(),
        shorts: rows.iter().map(|r| r.iter().map(|&v| v as u16).collect()).collect(),
        ints: rows.iter().map(|r| r.to_vec()).collect(),
    }
}

const IDENTITY: [f32; 16] = [
    1.0, 0.0, 0.0, 0.0, 0.0, 1.0, 0.0, 0.0, 0.0, 0.0, 1.0, 0.0, 0.0, 0.0, 0.0, 1.0,
];

fn node(name: Option<&str>, mesh: Option<u64>, skin: Option<u64>) -> GltfNode {
    GltfNode { name: name.map(str::to_string), mesh, skin, children: vec![] }
}

fn prim(position: Option<u64>) -> GltfPrimitive {
    GltfPrimitive { position, normal: None, texcoord: None, joints: None, weights: None, indices: None }
}

fn mesh(name: &str, primitives: Option<Vec<GltfPrimitive>>) -> GltfMesh {
    GltfMesh { name: Some(name.to_string()), primitives }
}

#[test]
fn rejects_mismatched_joint_order_between_submeshes() {
    let accessors = vec![
        Some(rows_f32(&[&IDENTITY, &IDENTITY])),
        Some(rows_f32(&[&[0.0, 0.0, 0.0]])),
    ];
    let doc = GltfDoc {
        meshes: Some(vec![
            mesh("thirdperson_body_a", Some(vec![prim(Some(1))])),
            mesh("thirdperson_body_b", Some(vec![prim(Some(1))])),
        ]),
        skins: Some(vec![
            GltfSkin { joints: Some(vec![2, 3]), inverse_bind_matrices: Some(0) },
            GltfSkin { joints: Some(vec![3, 2]), inverse_bind_matrices: Some(0) },
        ]),
        nodes: Some(vec![
            node(None, Some(0), Some(0)),
            node(None, Some(1), Some(1)),
            node(Some("root"), None, None),
            node(Some("child"), None, None),
        ]),
    };
    let err = gltf_to_dlms(&doc, &accessors)
        .expect("conversion runs")
        .expect_err("mismatched joint order must be rejected");
    assert!(err.contains("joint order mismatch"), "got: {err}");
    assert_eq!(
        err,
        "joint order mismatch in thirdperson_body_b: submeshes do not share one skeleton as assumed"
    );
}

fn push_u32(out: &mut Vec<u8>, v: u32) {
    out.extend_from_slice(&v.to_le_bytes());
}

fn push_str(out: &mut Vec<u8>, s: &str) {
    push_u32(out, s.len() as u32);
    out.extend_from_slice(s.as_bytes());
}

fn push_f32s(out: &mut Vec<u8>, vs: &[f32]) {
    for v in vs {
        out.extend_from_slice(&v.to_le_bytes());
    }
}

#[test]
fn converts_a_skinned_primitive_into_dlms_bytes() {
    let name = "agents/models/test/test.vmdl_c.thirdperson_body_test";
    let accessors = vec![
        Some(rows_f32(&[&[0.0, 0.0, 0.0], &[1.0, 0.0, 0.0], &[0.0, 1.0, 0.0]])),
        Some(rows_f32(&[&[0.0, 0.0, 1.0], &[0.0, 0.0, 1.0], &[0.0, 0.0, 1.0]])),
        Some(rows_f32(&[&[0.0, 0.0], &[1.0, 0.0], &[0.0, 1.0]])),
        Some(rows_int(&[&[0, 1, 0, 0], &[0, 1, 0, 0], &[0, 1, 0, 0]])),
        Some(rows_f32(&[&[0.5, 0.5, 0.0, 0.0], &[0.5, 0.5, 0.0, 0.0], &[0.5, 0.5, 0.0, 0.0]])),
        Some(rows_int(&[&[0], &[1], &[2]])),
        Some(rows_f32(&[&IDENTITY, &IDENTITY])),
    ];
    let doc = GltfDoc {
        meshes: Some(vec![mesh(
            name,
            Some(vec![GltfPrimitive {
                position: Some(0),
                normal: Some(1),
                texcoord: Some(2),
                joints: Some(3),
                weights: Some(4),
                indices: Some(5),
            }]),
        )]),
        skins: Some(vec![GltfSkin { joints: Some(vec![1, 2]), inverse_bind_matrices: Some(6) }]),
        nodes: Some(vec![
            node(None, Some(0), Some(0)),
            node(Some("root"), None, None),
            node(Some("child"), None, None),
        ]),
    };
    let bytes = gltf_to_dlms(&doc, &accessors).unwrap().unwrap();

    let mut expected = b"DLMS".to_vec();
    push_u32(&mut expected, 4);
    push_u32(&mut expected, 2);
    for joint in ["root", "child"] {
        push_str(&mut expected, joint);
        push_f32s(&mut expected, &IDENTITY);
    }
    expected.extend_from_slice(&(-1i32).to_le_bytes());
    expected.extend_from_slice(&(-1i32).to_le_bytes());
    push_u32(&mut expected, 1);
    push_str(&mut expected, name);
    push_u32(&mut expected, 3);
    push_u32(&mut expected, 3);
    push_f32s(&mut expected, &[0.0, 0.0, 0.0, 1.0, 0.0, 0.0, 0.0, 1.0, 0.0]);
    push_f32s(&mut expected, &[0.0, 0.0, 1.0, 0.0, 0.0, 1.0, 0.0, 0.0, 1.0]);
    push_f32s(&mut expected, &[0.0, 0.0, 1.0, 0.0, 0.0, 1.0]);
    for _ in 0..3 {
        for j in [0u16, 1, 0, 0] {
            expected.extend_from_slice(&j.to_le_bytes());
        }
    }
    for _ in 0..3 {
        push_f32s(&mut expected, &[0.5, 0.5, 0.0, 0.0]);
    }
    for i in [0u32, 1, 2] {
        push_u32(&mut expected, i);
    }
    assert_eq!(bytes, expected);
}

#[test]
fn missing_attributes_get_defaults_and_unnamed_joints_their_index() {
    let accessors = vec![Some(rows_f32(&[&[1.0, 2.0, 3.0], &[4.0, 5.0, 6.0]]))];
    let doc = GltfDoc {
        meshes: Some(vec![mesh("x_thirdperson_default_gloves", Some(vec![prim(Some(0))]))]),
        skins: Some(vec![GltfSkin { joints: Some(vec![1]), inverse_bind_matrices: None }]),
        nodes: Some(vec![node(None, Some(0), Some(0)), node(None, None, None)]),
    };
    let bytes = gltf_to_dlms(&doc, &accessors).unwrap().unwrap();
    let mut expected = b"DLMS".to_vec();
    push_u32(&mut expected, 4);
    push_u32(&mut expected, 1);
    push_str(&mut expected, "joint_1");
    push_f32s(&mut expected, &IDENTITY);
    expected.extend_from_slice(&(-1i32).to_le_bytes());
    push_u32(&mut expected, 1);
    push_str(&mut expected, "x_thirdperson_default_gloves");
    push_u32(&mut expected, 2);
    push_u32(&mut expected, 2);
    push_f32s(&mut expected, &[1.0, 2.0, 3.0, 4.0, 5.0, 6.0]);
    push_f32s(&mut expected, &[0.0, 0.0, 1.0, 0.0, 0.0, 1.0]);
    push_f32s(&mut expected, &[0.0, 0.0, 0.0, 0.0]);
    expected.extend_from_slice(&[0u8; 16]);
    push_f32s(&mut expected, &[1.0, 0.0, 0.0, 0.0, 1.0, 0.0, 0.0, 0.0]);
    push_u32(&mut expected, 0);
    push_u32(&mut expected, 1);
    assert_eq!(bytes, expected);
}

#[test]
fn conversion_errors_name_the_first_problem() {
    let accessors = vec![Some(rows_f32(&[&[0.0, 0.0, 0.0]]))];
    let skins = Some(vec![GltfSkin { joints: Some(vec![]), inverse_bind_matrices: None }]);
    let nodes = Some(vec![node(None, Some(0), Some(0))]);
    let run = |meshes: Option<Vec<GltfMesh>>, nodes: Option<Vec<GltfNode>>, skins: Option<Vec<GltfSkin>>| {
        gltf_to_dlms(&GltfDoc { meshes, nodes, skins }, &accessors).unwrap().unwrap_err()
    };
    assert_eq!(run(None, nodes.clone(), skins.clone()), "glb has no meshes");
    assert_eq!(run(Some(vec![]), None, skins.clone()), "glb has no nodes");
    assert_eq!(run(Some(vec![]), nodes.clone(), None), "glb has no skins");
    assert_eq!(
        run(Some(vec![mesh("other", Some(vec![prim(Some(0))]))]), nodes.clone(), skins.clone()),
        "no thirdperson_body/gloves submeshes with a skin found"
    );
    assert_eq!(
        run(Some(vec![mesh("thirdperson_body", None)]), nodes.clone(), skins.clone()),
        "mesh has no primitives"
    );
    assert_eq!(
        run(Some(vec![mesh("thirdperson_body", Some(vec![prim(None)]))]), nodes.clone(), skins.clone()),
        "primitive missing POSITION"
    );
    assert_eq!(
        run(Some(vec![mesh("thirdperson_body", Some(vec![]))]), nodes.clone(), skins.clone()),
        "no thirdperson_body/gloves submeshes found"
    );
}

#[test]
fn conversion_stops_where_the_document_is_incomplete() {
    let accessors = vec![Some(rows_f32(&[&[0.0, 0.0]]))];
    let doc = |joints: Option<Vec<u64>>, position: u64| GltfDoc {
        meshes: Some(vec![mesh("thirdperson_body", Some(vec![prim(Some(position))]))]),
        skins: Some(vec![GltfSkin { joints, inverse_bind_matrices: None }]),
        nodes: Some(vec![node(None, Some(0), Some(0))]),
    };
    assert!(gltf_to_dlms(&doc(None, 0), &accessors).is_none());
    assert!(gltf_to_dlms(&doc(Some(vec![5]), 0), &accessors).is_none());
    assert!(gltf_to_dlms(&doc(Some(vec![]), 3), &accessors).is_none());
    // positions with two values per row cannot be written
    assert!(gltf_to_dlms(&doc(Some(vec![]), 0), &accessors).is_none());
}

#[test]
fn decimal_text_of_numbers() {
    assert_eq!(decimal_string(0), "0");
    assert_eq!(decimal_string(7), "7");
    assert_eq!(decimal_string(1234567890), "1234567890");
    assert_eq!(decimal_string(u64::MAX), "18446744073709551615");
}

/// a minimal synthetic .glb: a 1-triangle "thirdperson_body_test" mesh
/// skinned to a 2-joint skeleton, with a mesh node using mesh and skin and
/// separate joint nodes; returns the file and its accessors as
/// (byte offset, count, component type, components per row)
fn synthetic_glb() -> (Vec<u8>, Vec<(usize, usize, u64, usize)>) {
    let mut bin = Vec::new();
    let push_f32 = |bin: &mut Vec<u8>, values: &[f32]| -> (usize, usize) {
        let start = bin.len();
        for v in values {
            bin.extend_from_slice(&v.to_le_bytes());
        }
        (start, bin.len() - start)
    };
    let (positions_off, positions_len) =
        push_f32(&mut bin, &[0.0, 0.0, 0.0, 1.0, 0.0, 0.0, 0.0, 1.0, 0.0]);
    let (normals_off, normals_len) = push_f32(&mut bin, &[0.0, 0.0, 1.0, 0.0, 0.0, 1.0, 0.0, 0.0, 1.0]);
    let (uvs_off, uvs_len) = push_f32(&mut bin, &[0.0, 0.0, 1.0, 0.0, 0.0, 1.0]);
    let joints_off = bin.len();
    for joint in [0u16, 1, 0, 0, 0, 1, 0, 0, 0, 1, 0, 0] {
        bin.extend_from_slice(&joint.to_le_bytes());
    }
    let joints_len = bin.len() - joints_off;
    let (weights_off, weights_len) =
        push_f32(&mut bin, &[0.5, 0.5, 0.0, 0.0, 0.5, 0.5, 0.0, 0.0, 0.5, 0.5, 0.0, 0.0]);
    let indices_off = bin.len();
    for i in [0u32, 1, 2] {
        bin.extend_from_slice(&i.to_le_bytes());
    }
    let indices_len = bin.len() - indices_off;
    let (inv_bind_off, inv_bind_len) = {
        let mut both = IDENTITY.to_vec();
        both.extend_from_slice(&IDENTITY);
        push_f32(&mut bin, &both)
    };
    let views = [
        (positions_off, positions_len),
        (normals_off, normals_len),
        (uvs_off, uvs_len),
        (joints_off, joints_len),
        (weights_off, weights_len),
        (indices_off, indices_len),
        (inv_bind_off, inv_bind_len),
    ];
    let buffer_views: Vec<String> = views
        .iter()
        .map(|(off, len)| format!("{{\"buffer\":0,\"byteOffset\":{off},\"byteLength\":{len}}}"))
        .collect();
    let json = format!(
        "{{\"asset\":{{\"version\":\"2.0\"}},\"buffers\":[{{\"byteLength\":{}}}],\"bufferViews\":[{}],\
         \"accessors\":[{{\"bufferView\":0,\"componentType\":5126,\"count\":3,\"type\":\"VEC3\"}},\
         {{\"bufferView\":1,\"componentType\":5126,\"count\":3,\"type\":\"VEC3\"}},\
         {{\"bufferView\":2,\"componentType\":5126,\"count\":3,\"type\":\"VEC2\"}},\
         {{\"bufferView\":3,\"componentType\":5123,\"count\":3,\"type\":\"VEC4\"}},\
         {{\"bufferView\":4,\"componentType\":5126,\"count\":3,\"type\":\"VEC4\"}},\
         {{\"bufferView\":5,\"componentType\":5125,\"count\":3,\"type\":\"SCALAR\"}},\
         {{\"bufferView\":6,\"componentType\":5126,\"count\":2,\"type\":\"MAT4\"}}],\
         \"meshes\":[{{\"name\":\"agents/models/test/test.vmdl_c.thirdperson_body_test\",\
         \"primitives\":[{{\"attributes\":{{\"POSITION\":0,\"NORMAL\":1,\"TEXCOORD_0\":2,\
         \"JOINTS_0\":3,\"WEIGHTS_0\":4}},\"indices\":5}}]}}],\
         \"skins\":[{{\"joints\":[1,2],\"inverseBindMatrices\":6}}],\
         \"nodes\":[{{\"mesh\":0,\"skin\":0}},{{\"name\":\"root\"}},{{\"name\":\"child\"}}]}}",
        bin.len(),
        buffer_views.join(",")
    );
    let json_bytes = json.into_bytes();
    let mut glb = Vec::new();
    glb.extend_from_slice(b"glTF");
    glb.extend_from_slice(&2u32.to_le_bytes());
    let total_len = 12 + 8 + json_bytes.len() + 8 + bin.len();
    glb.extend_from_slice(&(total_len as u32).to_le_bytes());
    glb.extend_from_slice(&(json_bytes.len() as u32).to_le_bytes());
    glb.extend_from_slice(b"JSON");
    glb.extend_from_slice(&json_bytes);
    glb.extend_from_slice(&(bin.len() as u32).to_le_bytes());
    glb.extend_from_slice(b"BIN\0");
    glb.extend_from_slice(&bin);
    let accessors = vec![
        (positions_off, 3, 5126, 3),
        (normals_off, 3, 5126, 3),
        (uvs_off, 3, 5126, 2),
        (joints_off, 3, 5123, 4),
        (weights_off, 3, 5126, 4),
        (indices_off, 3, 5125, 1),
        (inv_bind_off, 2, 5126, 16),
    ];
    (glb, accessors)
}

/// the raw components of an accessor, decoded as the converter writes them
fn decode(bin: &[u8], (off, count, component_type, n_comp): (usize, usize, u64, usize)) -> AccessorRows {
    let size = if component_type == 5123 { 2 } else { 4 };
    let raw = accessor_components(bin, off, n_comp * size, count, n_comp, component_type).unwrap();
    let values: Vec<Vec<f64>> = raw
        .iter()
        .map(|r| {
            r.iter()
                .map(|&v| if component_type == 5126 { f32::from_bits(v) as f64 } else { v as f64 })
                .collect()
        })
        .collect();
    AccessorRows {
        floats: values.iter().map(|r| r.iter().map(|&v| (v as f32).to_bits()).collect()).collect(),
        shorts: values.iter().map(|r| r.iter().map(|&v| v as u16).collect()).collect(),
        ints: values.iter().map(|r| r.iter().map(|&v| v as u32).collect()).collect(),
    }
}

#[test]
fn converts_synthetic_glb_and_round_trips_through_the_loader() {
    let (glb_bytes, accessors) = synthetic_glb();
    assert!(glb_well_framed(&glb_bytes));
    let glb = parse_glb(&glb_bytes).expect("conversion failed");
    assert_eq!(glb.json["skins"][0]["joints"][1].as_u64(), Some(2));
    let decoded: Vec<Option<AccessorRows>> = accessors.iter().map(|&a| Some(decode(&glb.bin, a))).collect();
    let doc = GltfDoc {
        meshes: Some(vec![GltfMesh {
            name: glb.json["meshes"][0]["name"].as_str().map(str::to_string),
            primitives: Some(vec![GltfPrimitive {
                position: Some(0),
                normal: Some(1),
                texcoord: Some(2),
                joints: Some(3),
                weights: Some(4),
                indices: Some(5),
            }]),
        }]),
        skins: Some(vec![GltfSkin { joints: Some(vec![1, 2]), inverse_bind_matrices: Some(6) }]),
        nodes: Some(vec![
            node(None, Some(0), Some(0)),
            node(Some("root"), None, None),
            node(Some("child"), None, None),
        ]),
    };
    let dlms = gltf_to_dlms(&doc, &decoded).unwrap().expect("conversion failed");

    let asset = MeshAsset::load(&dlms).expect("failed to parse own dlms output");
    assert_eq!(asset.joint_names, vec!["root", "child"]);
    assert_eq!(asset.inverse_bind.len(), 2);
    assert_eq!(asset.submeshes.len(), 1);

    let body = &asset.submeshes[0];
    assert_eq!(body.positions.len(), 3);
    assert_eq!(body.indices, vec![0, 1, 2]);
    assert_eq!(body.joint_indices[0], [0, 1, 0, 0]);
    assert_eq!(body.joint_weights[0].map(f32::from_bits), [0.5, 0.5, 0.0, 0.0]);
}

#[test]
fn parents_follow_the_joint_nodes_children() {
    let accessors = vec![Some(rows_f32(&[&[0.0, 0.0, 0.0]]))];
    let mut root = node(Some("root"), None, None);
    root.children = vec![3];
    let mut mid = node(Some("mid"), None, None);
    mid.children = vec![1];
    let doc = GltfDoc {
        meshes: Some(vec![mesh("thirdperson_body", Some(vec![prim(Some(0))]))]),
        skins: Some(vec![GltfSkin { joints: Some(vec![2, 3, 1]), inverse_bind_matrices: None }]),
        nodes: Some(vec![node(None, Some(0), Some(0)), node(Some("leaf"), None, None), root, mid]),
    };
    let dlms = gltf_to_dlms(&doc, &accessors).unwrap().unwrap();
    let asset = MeshAsset::load(&dlms).unwrap();
    assert_eq!(asset.joint_names, vec!["root", "mid", "leaf"]);
    assert_eq!(asset.parent_indices, vec![-1, 0, 1]);
}

#[test]
fn accessor_components_read_rows_and_stop_at_the_buffer_end() {
    let bin: Vec<u8> = vec![1, 0, 2, 0, 0xff, 0xff, 9, 9];
    assert_eq!(accessor_components(&bin, 0, 4, 2, 2, 5123), Some(vec![vec![1, 2], vec![0xffff, 0x0909]]));
    assert_eq!(accessor_components(&bin, 2, 4, 2, 1, 5121), Some(vec![vec![2], vec![9]]));
    assert_eq!(accessor_components(&bin, 4, 4, 1, 1, 5125), Some(vec![vec![0x0909_ffff]]));
    assert_eq!(accessor_components(&bin, 0, 4, 3, 1, 5123), None);
    assert_eq!(accessor_components(&bin, 0, usize::MAX, 2, 1, 5120), None);
    assert_eq!(accessor_components(&bin, 0, 4, 0, 1, 5126), Some(vec![]));
}

#[test]
fn accessor_layout_defaults_and_limits() {
    assert_eq!(accessor_layout(None, None, None, 3, 4), Some((0, 12)));
    assert_eq!(accessor_layout(Some(16), Some(8), None, 4, 2), Some((24, 8)));
    assert_eq!(accessor_layout(Some(16), None, Some(32), 3, 4), Some((16, 32)));
    assert_eq!(accessor_layout(Some(u64::MAX), Some(1), None, 1, 4), None);
}
