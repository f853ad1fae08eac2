use deadlocked::dlms::{Cursor, DlmsError, MeshAsset};

/// hand-built DLMS v4 buffer: 2 joints, 1 triangle
fn synthetic_dlms() -> Vec<u8> {
    let mut out = Vec::new();
    out.extend_from_slice(b"DLMS");
    out.extend_from_slice(&4u32.to_le_bytes());

    let joints = ["root", "child"];
    out.extend_from_slice(&(joints.len() as u32).to_le_bytes());
    for name in joints {
        out.extend_from_slice(&(name.len() as u32).to_le_bytes());
        out.extend_from_slice(name.as_bytes());
        for i in 0..16 {
            let v: f32 = if i % 5 == 0 { 1.0 } else { 0.0 };
            out.extend_from_slice(&v.to_le_bytes());
        }
    }
    for parent in [-1i32, 0] {
        out.extend_from_slice(&parent.to_le_bytes());
    }

    out.extend_from_slice(&1u32.to_le_bytes());
    let name = "test_submesh";
    out.extend_from_slice(&(name.len() as u32).to_le_bytes());
    out.extend_from_slice(name.as_bytes());
    out.extend_from_slice(&3u32.to_le_bytes());
    out.extend_from_slice(&3u32.to_le_bytes());

    let positions = [[0.0, 0.0, 0.0], [1.0, 0.0, 0.0], [0.0, 1.0, 0.0]];
    for p in positions {
        for v in p {
            out.extend_from_slice(&(v as f32).to_le_bytes());
        }
    }
    for _ in 0..3 {
        out.extend_from_slice(&0.0f32.to_le_bytes());
        out.extend_from_slice(&0.0f32.to_le_bytes());
        out.extend_from_slice(&1.0f32.to_le_bytes());
    }
    for _ in 0..3 {
        out.extend_from_slice(&0.0f32.to_le_bytes());
        out.extend_from_slice(&0.0f32.to_le_bytes());
    }
    for _ in 0..3 {
        for joint in [0u16, 1, 0, 0] {
            out.extend_from_slice(&joint.to_le_bytes());
        }
    }
    for _ in 0..3 {
        for weight in [0.5f32, 0.5, 0.0, 0.0] {
            out.extend_from_slice(&weight.to_le_bytes());
        }
    }
    for i in [0u32, 1, 2] {
        out.extend_from_slice(&i.to_le_bytes());
    }

    out
}

#[test]
fn parses_synthetic_mesh() {
    let data = synthetic_dlms();
    let asset = MeshAsset::load(&data).expect("failed to parse dlms");
    assert_eq!(asset.joint_names, vec!["root", "child"]);
    assert_eq!(asset.inverse_bind.len(), 2);
    assert_eq!(asset.parent_indices, vec![-1, 0]);
    assert_eq!(asset.submeshes.len(), 1);

    let body = &asset.submeshes[0];
    assert_eq!(body.positions.len(), body.normals.len());
    assert_eq!(body.positions.len(), body.uvs.len());
    assert_eq!(body.positions.len(), body.joint_indices.len());
    assert_eq!(body.positions.len(), body.joint_weights.len());
    assert!(body.indices.iter().all(|&i| (i as usize) < body.positions.len()));
    for weights in &body.joint_weights {
        let sum: f32 = weights.iter().map(|&w| f32::from_bits(w)).sum();
        assert!((sum - 1.0).abs() < 0.01, "weights should sum to ~1.0, got {sum}");
    }
    for indices in &body.joint_indices {
        for &j in indices {
            assert!((j as usize) < asset.joint_names.len());
        }
    }
}

#[test]
fn synthetic_mesh_values_are_exact() {
    let asset = MeshAsset::load(&synthetic_dlms()).expect("failed to parse dlms");
    let body = &asset.submeshes[0];
    assert_eq!(body.name, "test_submesh");
    assert_eq!(f32::from_bits(body.positions[1][0]), 1.0);
    assert_eq!(f32::from_bits(body.normals[2][2]), 1.0);
    assert_eq!(body.joint_indices[0], [0, 1, 0, 0]);
    assert_eq!(body.indices, vec![0, 1, 2]);
    assert_eq!(f32::from_bits(asset.inverse_bind[0][0]), 1.0);
    assert_eq!(f32::from_bits(asset.inverse_bind[0][1]), 0.0);
}

#[test]
fn dlms_errors() {
    let mut data = synthetic_dlms();
    assert!(matches!(MeshAsset::load(&data[..10]), Err(DlmsError::Truncated)));
    assert!(matches!(MeshAsset::load(b"DLM"), Err(DlmsError::Truncated)));
    data[0] = b'X';
    assert!(matches!(MeshAsset::load(&data), Err(DlmsError::BadMagic)));
    let mut v3 = synthetic_dlms();
    v3[4] = 3;
    assert!(matches!(MeshAsset::load(&v3), Err(DlmsError::UnsupportedVersion(3))));
    let mut bad_name = synthetic_dlms();
    bad_name[16] = 0xFF;
    assert!(matches!(MeshAsset::load(&bad_name), Err(DlmsError::InvalidUtf8(_))));
}

#[test]
fn dlms_error_messages() {
    let data = synthetic_dlms();
    let message = |d: &[u8]| MeshAsset::load(d).err().unwrap().message();
    assert_eq!(message(&data[..10]), "dlms truncated");
    let mut bad_magic = data.clone();
    bad_magic[0] = b'X';
    assert_eq!(message(&bad_magic), "bad dlms magic");
    let mut v3 = data.clone();
    v3[4] = 3;
    assert_eq!(message(&v3), "unsupported dlms version 3");
    let mut bad_name = data.clone();
    bad_name[16] = 0xFF;
    assert_eq!(message(&bad_name), "invalid utf-8 sequence of 1 bytes from index 0");
    assert_eq!(DlmsError::UnsupportedVersion(4294967295).message(), "unsupported dlms version 4294967295");
}

#[test]
fn cursor_reads_little_endian_values() {
    let data = [1u8, 0, 0, 0, 0xFE, 0xFF, 0xFF, 0xFF, 2, 1, 3, 0, 0, 0, b'a', b'b', b'c'];
    let mut c = Cursor::new(&data);
    assert_eq!(c.u32(), Ok(1));
    assert_eq!(c.i32(), Ok(-2));
    assert_eq!(c.u16(), Ok(0x0102));
    assert_eq!(c.string(), Ok("abc".to_string()));
    assert_eq!(c.u16(), Err(DlmsError::Truncated));
}
