use deadlocked::signatures::{
    apply_op, check_op, default_rip_len, default_rip_offset, default_true,
    detect_map_name_offset, merge_manifest, module_base, op_read, parse_pattern, resolve,
    resolve_kind, scan_image, store_global, validate_local_player, Globals, LibraryOffsets,
    Manifest, ModuleCache, Operation, ResolveKind, Signature, Variant, CLIENT_LIB, SCHEMA_LIB,
};

fn variant(pattern: &str) -> Variant {
    Variant { pattern: pattern.to_string(), match_offset: 0, operations: vec![Operation::Read] }
}

fn signature(name: &str, module: &str, required: bool, patterns: &[&str]) -> Signature {
    Signature {
        name: name.to_string(),
        module: module.to_string(),
        required,
        variants: patterns.iter().map(|p| variant(p)).collect(),
    }
}

fn libraries() -> LibraryOffsets {
    LibraryOffsets { client: 0x1000, engine: 2, tier0: 3, input: 4, sdl: 5, schema: 0x9000 }
}

#[test]
fn pattern_tokens_become_bytes_and_mask() {
    assert_eq!(
        parse_pattern("48 8B ?? 05 ?"),
        Some((vec![0x48, 0x8B, 0, 0x05, 0], vec![0xFF, 0xFF, 0, 0xFF, 0]))
    );
    assert_eq!(parse_pattern("  e8\t?? \n"), Some((vec![0xE8, 0], vec![0xFF, 0])));
    assert_eq!(parse_pattern("4 123 ab"), Some((vec![0xAB], vec![0xFF])));
}

#[test]
fn patterns_without_bytes_or_with_bad_hex_fail() {
    assert_eq!(parse_pattern(""), None);
    assert_eq!(parse_pattern("4 123"), None);
    assert_eq!(parse_pattern("48 GG"), None);
}

#[test]
fn manifest_defaults() {
    assert!(default_true());
    assert_eq!(default_rip_offset(), 3);
    assert_eq!(default_rip_len(), 7);
}

#[test]
fn overlay_variants_come_first_and_new_signatures_are_appended() {
    let mut base = Manifest {
        signatures: vec![
            signature("a", CLIENT_LIB, true, &["01"]),
            signature("b", CLIENT_LIB, true, &["02"]),
        ],
    };
    let overlay = Manifest {
        signatures: vec![
            signature("a", SCHEMA_LIB, false, &["10", "11"]),
            signature("c", CLIENT_LIB, false, &["03"]),
        ],
    };
    merge_manifest(&mut base, overlay);
    assert_eq!(base.signatures.len(), 3);
    let a = &base.signatures[0];
    assert_eq!(a.name, "a");
    assert_eq!(a.module, CLIENT_LIB);
    assert!(a.required);
    let patterns: Vec<&str> = a.variants.iter().map(|v| v.pattern.as_str()).collect();
    assert_eq!(patterns, vec!["10", "11", "01"]);
    assert_eq!(base.signatures[1].name, "b");
    assert_eq!(base.signatures[2].name, "c");
}

#[test]
fn scan_finds_the_first_masked_match() {
    let image = [0x90u8, 0x48, 0x8B, 0x05, 0x48, 0x8B, 0x07];
    assert_eq!(scan_image(&image, &[0x48, 0x8B, 0], &[0xFF, 0xFF, 0]), Some(1));
    assert_eq!(scan_image(&image, &[0x48, 0x8B, 0x07], &[0xFF, 0xFF, 0xFF]), Some(4));
    assert_eq!(scan_image(&image, &[0xCC], &[0xFF]), None);

    let mut cache = ModuleCache::new();
    assert!(!cache.contains(0x4000));
    assert!(cache.needs_dump(0x4000));
    cache.insert(0x4000, image.to_vec());
    assert!(cache.contains(0x4000));
    assert!(!cache.needs_dump(0x4000));
    cache.insert(0x9000, vec![0xCC]);
    assert!(!cache.needs_dump(0x4000));
    assert!(cache.needs_dump(0x5000));
    assert_eq!(cache.scan("8B ?? 48", 0x4000), Some(0x4002));
    assert_eq!(cache.scan("CC", 0x4000), None);
    assert_eq!(cache.scan("", 0x4000), None);
}

#[test]
fn operations_transform_the_address() {
    let rip = Operation::Rip { offset: 3, len: 7 };
    assert!(check_op(0x1000, rip));
    assert_eq!(op_read(0x1000, rip), Some((0x1003, 4)));
    assert_eq!(apply_op(0x1000, rip, &0x10i32.to_le_bytes()), 0x1017);
    assert_eq!(apply_op(0x1000, rip, &(-0x20i32).to_le_bytes()), 0x0FE7);
    let add = Operation::Add { value: 8 };
    assert_eq!(op_read(0x10, add), None);
    assert_eq!(apply_op(u64::MAX, add, &[]), 7);
    let slice = Operation::Slice { start: 2, end: 4 };
    assert_eq!(op_read(0x10, slice), Some((0x12, 2)));
    assert_eq!(apply_op(0x10, slice, &[0x34, 0x12]), 0x1234);
    assert!(!check_op(0, Operation::Slice { start: 4, end: 2 }));
    assert!(!check_op(u64::MAX, rip));
    assert_eq!(apply_op(0, Operation::Read, &0xDEADu64.to_le_bytes()), 0xDEAD);
}

#[test]
fn local_player_validation() {
    assert!(validate_local_player(0, 5, "\u{1}"));
    assert!(validate_local_player(1, 0, "\u{1}"));
    assert!(validate_local_player(1, 2, ""));
    assert!(validate_local_player(1, 2, "Some Player"));
    assert!(!validate_local_player(1, 2, "tab\tname"));
    assert!(!validate_local_player(1, 2, &"x".repeat(64)));
    assert!(validate_local_player(1, 2, &"x".repeat(63)));
}

#[test]
fn map_name_offset_detection() {
    assert_eq!(detect_map_name_offset(0, None, Some("de_dust2")), 0x1C8);
    assert_eq!(detect_map_name_offset(1, Some("de_dust2"), Some("cs_office")), 0x1C8);
    assert_eq!(detect_map_name_offset(1, Some("menu"), Some("ar_shoots")), 0x198);
    assert_eq!(detect_map_name_offset(1, None, Some("cs_italy")), 0x198);
    assert_eq!(detect_map_name_offset(1, Some("x"), None), 0x1C8);
}

#[test]
fn library_bases_and_resolution_kinds() {
    let libs = libraries();
    assert_eq!(module_base(&libs, CLIENT_LIB), Some(0x1000));
    assert_eq!(module_base(&libs, SCHEMA_LIB), Some(0x9000));
    assert_eq!(module_base(&libs, "libengine2.so"), None);
    assert_eq!(resolve_kind(&signature("local_player", CLIENT_LIB, false, &[])), ResolveKind::LocalPlayer);
    assert_eq!(resolve_kind(&signature("view_matrix", CLIENT_LIB, false, &[])), ResolveKind::ViewMatrix);
    assert_eq!(resolve_kind(&signature("x", CLIENT_LIB, true, &[])), ResolveKind::Required);
    assert_eq!(resolve_kind(&signature("x", CLIENT_LIB, false, &[])), ResolveKind::Optional);
}

#[test]
fn resolution_fills_the_globals() {
    let manifest = Manifest {
        signatures: vec![
            signature("schema_system", SCHEMA_LIB, true, &["01"]),
            signature("local_player", CLIENT_LIB, true, &["02"]),
            signature("global_vars", CLIENT_LIB, true, &["03"]),
            signature("sensitivity", CLIENT_LIB, false, &["04"]),
            signature("entity_system", CLIENT_LIB, true, &["05"]),
        ],
    };
    let outcomes = vec![Some(0x50), Some(0x60), Some(0x70), None, Some(0x80)];
    let resolved = resolve(&manifest, &libraries(), &outcomes, 0x198).expect("resolves");
    let g = resolved.globals;
    assert_eq!(g.direct.local_player, 0x60);
    assert_eq!(g.direct.global_vars, 0x70);
    assert_eq!(g.direct.global_vars_map_name, 0x198);
    assert_eq!(g.sensitivity, 0);
    assert_eq!(g.entity_system, 0x80);
    assert_eq!(g.direct.view_matrix, 0);

    let failed_required = vec![Some(0x50), None, Some(0x70), None, Some(0x80)];
    assert!(resolve(&manifest, &libraries(), &failed_required, 0x1C8).is_none());
    let failed_schema = vec![None, Some(0x60), Some(0x70), None, Some(0x80)];
    assert!(resolve(&manifest, &libraries(), &failed_schema, 0x1C8).is_none());

    let unknown_module = Manifest {
        signatures: vec![
            signature("schema_system", SCHEMA_LIB, true, &[]),
            signature("planted_c4", "libengine2.so", false, &[]),
        ],
    };
    assert!(resolve(&unknown_module, &libraries(), &vec![Some(1), Some(2)], 0).is_none());
    let no_schema = Manifest { signatures: vec![signature("local_player", CLIENT_LIB, true, &[])] };
    assert!(resolve(&no_schema, &libraries(), &vec![Some(1)], 0).is_none());
}

#[test]
fn storing_globals_by_name() {
    let mut g = Globals::default();
    store_global(&mut g, "view_matrix", 7, 0x1C8);
    store_global(&mut g, "planted_c4", 8, 0x1C8);
    store_global(&mut g, "vphys_world", 9, 0x1C8);
    store_global(&mut g, "something_else", 10, 0x1C8);
    assert_eq!(g.direct.view_matrix, 7);
    assert_eq!(g.direct.planted_c4, 8);
    assert_eq!(g.direct.vphys_world, 9);
    assert_eq!(g.direct.global_vars_map_name, 0);
    assert_eq!(g.entity_system, 0);
}
