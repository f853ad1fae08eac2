use std::collections::HashSet;

use deadlocked::bones::{Bones, ChickenBones};
use deadlocked::bvh::{
    leaf_shapes, mesh_triangles, shape_enabled, shape_kind, usable_body, valid_body_count,
    valid_vector, BvhNode, ShapeKind, MAX_VECTOR_ITEMS,
};
use deadlocked::maps::{
    batch_size, bvh_file_name, extraction_due, face_triangles, geometry_kind, use_cached_bvh, GeometryKind, is_map_vpk, map_name, needs_reparse, parse_build_number,
    world_physics_path,
};
use deadlocked::mesh_state::resolve_visibility_sources;
use deadlocked::minimap::{map_calibration, map_image_name};

fn player_bones() -> HashSet<usize> {
    Bones::all().iter().map(|bone| bone.u64() as usize).collect()
}

#[test]
fn named_bones_resolve_to_themselves() {
    let parents = vec![-1i32, -1];
    assert_eq!(resolve_visibility_sources(&parents, &player_bones())[1], 1);
}

#[test]
fn unnamed_joint_inherits_nearest_named_ancestor() {
    let mut parents = vec![-1i32; 24];
    parents[1] = 0;
    parents[15] = 1;
    parents[8] = 15;
    parents[23] = 8;

    let sources = resolve_visibility_sources(&parents, &player_bones());
    assert_eq!(sources[1], 1, "Hip is named, resolves to itself");
    assert_eq!(sources[15], 15, "RightHand is named, resolves to itself");
    assert_eq!(sources[8], 15, "inherits RightHand");
    assert_eq!(sources[23], 15, "inherits RightHand through the chain");
}

#[test]
fn joint_with_no_named_ancestor_falls_back_to_itself() {
    let parents = vec![-1i32, 0];
    let sources = resolve_visibility_sources(&parents, &player_bones());
    assert_eq!(sources[0], 0);
    assert_eq!(sources[1], 1, "no named ancestor, falls back to default-visible");
}

#[test]
fn cyclic_parent_chains_end() {
    let named: HashSet<usize> = [5usize].into_iter().collect();
    let parents = vec![1i32, 0, 7];
    let sources = resolve_visibility_sources(&parents, &named);
    assert_eq!(sources, vec![0, 1, 2]);
    let parents = vec![5i32];
    assert_eq!(resolve_visibility_sources(&parents, &named), vec![5]);
}

#[test]
fn bone_indices() {
    assert_eq!(Bones::Head.u64(), 7);
    assert_eq!(Bones::RightFoot.u64(), 22);
    assert_eq!(Bones::all().len(), 19);
    assert_eq!(Bones::Head.hitbox_index(), 0);
    assert_eq!(Bones::connections().len(), 18);
    let all = Bones::all();
    let indices: HashSet<u64> = all.iter().map(|b| b.u64()).collect();
    assert_eq!(indices.len(), all.len());
    let _ = ChickenBones::connections();
}

#[test]
fn map_packages_and_names() {
    assert!(is_map_vpk("de_dust2.vpk"));
    assert!(is_map_vpk("ar_shoots.vpk"));
    assert!(!is_map_vpk("de_dust2_vanity.vpk"));
    assert!(!is_map_vpk("lobby_mapveto.vpk"));
    assert!(!is_map_vpk("de_dust2.vpk.bak"));
    assert_eq!(map_name("de_dust2.vpk"), "de_dust2");
    assert_eq!(map_name("de_x.vpk.vpk"), "de_x");
    assert_eq!(map_name("cs_é.vpkz"), "cs_éz");
    assert_eq!(map_name("plain"), "plain");
}

#[test]
fn build_numbers_and_reparse() {
    assert_eq!(parse_build_number(" 12345\n"), 12345);
    assert_eq!(parse_build_number("+7"), 7);
    assert_eq!(parse_build_number("\u{3000}42\u{a0}"), 42);
    assert_eq!(parse_build_number("abc"), 0);
    assert_eq!(parse_build_number(""), 0);
    assert_eq!(parse_build_number("18446744073709551616"), 0);
    assert_eq!(parse_build_number("18446744073709551615"), u64::MAX);
    assert!(needs_reparse(true, 1, 1));
    assert!(needs_reparse(false, 1, 2));
    assert!(!needs_reparse(false, 3, 3));
    assert_eq!(batch_size(0), 1);
    assert_eq!(batch_size(1), 1);
    assert_eq!(batch_size(9), 4);
}

#[test]
fn faces_become_fans() {
    let hull = [0, 1, 2, 3, -1, 4, 5, -1, 0, 1, 9, -1, 2, 3, 4];
    assert_eq!(
        face_triangles(&hull, true, 6),
        vec![(0, 1, 2), (0, 2, 3), (2, 3, 4)]
    );
    let phys = [0, 1, 2, 3, 4, -5, 5, 4, 3, 1];
    assert_eq!(face_triangles(&phys, false, 6), vec![(0, 1, 2), (5, 4, 3)]);
    assert!(face_triangles(&[], true, 3).is_empty());
}

#[test]
fn physics_world_checks() {
    assert!(valid_vector(0, 0));
    assert!(!valid_vector(1, 0));
    assert!(valid_vector(3, 8));
    assert!(!valid_vector(-1, 8));
    assert!(!valid_vector(MAX_VECTOR_ITEMS as i32 + 1, 8));
    assert!(valid_body_count(1));
    assert!(!valid_body_count(0));
    assert!(usable_body(2, 0, 4, 4, 8));
    assert!(!usable_body(1, 0, 4, 4, 8));
    assert!(!usable_body(2, 4, 4, 4, 8));
    assert!(!usable_body(2, 0, 4, 5, 8));
    assert!(!usable_body(2, 0, 4, 4, 0));
    assert_eq!(shape_kind("12CRnMeshShape"), Some(ShapeKind::Mesh));
    assert_eq!(shape_kind("12CRnHullShape"), Some(ShapeKind::Hull));
    assert_eq!(shape_kind("12CRnSphereShape"), None);
    assert!(shape_enabled(3));
    assert!(!shape_enabled(2));
}

#[test]
fn tree_walk_finds_each_new_leaf_shape_once() {
    let leaf = |shape| BvhNode { left: -1, right: -1, shape };
    let nodes = vec![
        BvhNode { left: 1, right: 2, shape: 0 },
        leaf(0xA0),
        BvhNode { left: 3, right: 4, shape: 0 },
        leaf(0xB0),
        leaf(0xA0),
    ];
    let mut seen = HashSet::new();
    let shapes = leaf_shapes(&nodes, 0, &mut seen);
    assert_eq!(shapes, vec![0xA0, 0xB0]);
    assert_eq!(seen.len(), 2);
    assert!(leaf_shapes(&nodes, 0, &mut seen).is_empty());
    let mut fresh = HashSet::new();
    assert_eq!(leaf_shapes(&nodes, 2, &mut fresh), vec![0xA0, 0xB0]);
    assert!(leaf_shapes(&nodes, 9, &mut HashSet::new()).is_empty());
    let cyclic = vec![BvhNode { left: 0, right: 1, shape: 0 }, leaf(0)];
    assert!(leaf_shapes(&cyclic, 0, &mut HashSet::new()).is_empty());
}

#[test]
fn mesh_triangles_keep_valid_indices() {
    let tris = vec![[0, 1, 2], [0, -1, 2], [3, 1, 2], [2, 1, 0]];
    assert_eq!(mesh_triangles(&tris, 3), vec![(0, 1, 2), (2, 1, 0)]);
}

#[test]
fn radar_images() {
    assert_eq!(map_image_name("de_dust2"), Some("de_dust2"));
    assert_eq!(map_image_name("de_ancient_v2"), Some("de_ancient"));
    assert_eq!(map_image_name("de_overpass_2v2"), Some("de_overpass"));
    assert_eq!(map_image_name("de_unknown"), None);
}

#[test]
fn map_calibrations_hold_the_radar_placement() {
    let dust2 = map_calibration("de_dust2").unwrap();
    assert_eq!(f32::from_bits(dust2.pos_x), -2476.0);
    assert_eq!(f32::from_bits(dust2.pos_y), 3239.0);
    assert_eq!(f32::from_bits(dust2.scale), 4.4);
    let shelter = map_calibration("cs_shelter").unwrap();
    assert_eq!(f32::from_bits(shelter.pos_x), -3448.7712);
    assert_eq!(f32::from_bits(shelter.scale), 3.311857);
    assert_eq!(map_calibration("de_ancient_v2"), map_calibration("de_ancient"));
    assert_eq!(f32::from_bits(map_calibration("de_dust").unwrap().scale), 6.0);
    assert_eq!(map_calibration("de_unknown"), None);
}

#[test]
fn cursor_reads_joints_and_weights() {
    let mut data = vec![1u8, 0, 2, 0, 3, 0, 0, 1];
    data.extend_from_slice(&1.0f32.to_le_bytes());
    data.extend_from_slice(&0.5f32.to_le_bytes());
    data.extend_from_slice(&0.25f32.to_le_bytes());
    data.extend_from_slice(&0.0f32.to_le_bytes());
    let mut c = deadlocked::dlms::Cursor::new(&data);
    assert_eq!(c.joint4().ok(), Some([1, 2, 3, 256]));
    let w = c.weight4().ok().unwrap();
    assert_eq!(w.map(f32::from_bits), [1.0, 0.5, 0.25, 0.0]);
    assert!(c.joint4().is_err());
}

#[test]
fn map_extraction_targets_the_collision_model() {
    assert_eq!(world_physics_path("de_dust2"), "maps/de_dust2/world_physics.vmdl_c");
    assert!(extraction_due(false, false));
    assert!(extraction_due(true, true));
    assert!(!extraction_due(true, false));
}

#[test]
fn map_geometry_files_are_sorted_by_name() {
    assert_eq!(bvh_file_name("de_dust2"), "de_dust2.bvh");
    assert!(use_cached_bvh(true, false));
    assert!(!use_cached_bvh(true, true));
    assert!(!use_cached_bvh(false, false));
    assert_eq!(geometry_kind("world_physics_hull_0.dmx"), Some(GeometryKind::Hull));
    assert_eq!(geometry_kind("world_physics_phys_3.dmx"), Some(GeometryKind::Phys));
    assert_eq!(geometry_kind("world_physics.vmdl"), None);
}
