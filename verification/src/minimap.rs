//! The radar images of the maps and where they sit in the world.

use vstd::prelude::*;
use crate::text::str_eq;

verus! {

/// The radar image a map is drawn with, by file stem; variants of a map
/// share its image.
pub open spec fn spec_map_image(name: Seq<char>) -> Option<Seq<char>> {
    if name == "ar_baggage"@ {
        Some("ar_baggage"@)
    } else if name == "ar_baggage_lower"@ {
        Some("ar_baggage_lower"@)
    } else if name == "ar_shoots"@ {
        Some("ar_shoots"@)
    } else if name == "ar_shoots_night"@ {
        Some("ar_shoots_night"@)
    } else if name == "cs_italy"@ {
        Some("cs_italy"@)
    } else if name == "cs_office"@ {
        Some("cs_office"@)
    } else if name == "de_ancient"@ {
        Some("de_ancient"@)
    } else if name == "de_ancient_night"@ {
        Some("de_ancient_night"@)
    } else if name == "de_ancient_v1"@ {
        Some("de_ancient_v1"@)
    } else if name == "de_anubis"@ {
        Some("de_anubis"@)
    } else if name == "de_cache"@ {
        Some("de_cache"@)
    } else if name == "de_dust2"@ {
        Some("de_dust2"@)
    } else if name == "de_inferno"@ {
        Some("de_inferno"@)
    } else if name == "de_mirage"@ {
        Some("de_mirage"@)
    } else if name == "de_nuke"@ {
        Some("de_nuke"@)
    } else if name == "de_nuke_lower"@ {
        Some("de_nuke_lower"@)
    } else if name == "de_overpass"@ {
        Some("de_overpass"@)
    } else if name == "de_train"@ {
        Some("de_train"@)
    } else if name == "de_train_lower"@ {
        Some("de_train_lower"@)
    } else if name == "de_vertigo"@ {
        Some("de_vertigo"@)
    } else if name == "de_vertigo_lower"@ {
        Some("de_vertigo_lower"@)
    } else if name == "de_ancient_v2"@ {
        Some("de_ancient"@)
    } else if name == "de_inferno_s2"@ {
        Some("de_inferno"@)
    } else if name == "de_overpass_2v2"@ {
        Some("de_overpass"@)
    } else {
        None
    }
}

/// The stem of the radar image of a map, when there is one.
pub fn map_image_name(name: &str) -> (r: Option<&'static str>)
    ensures
        match r {
            Some(s) => spec_map_image(name@) == Some(s@),
            None => spec_map_image(name@) is None,
        },
{
    if str_eq(name, "ar_baggage") {
        Some("ar_baggage")
    } else if str_eq(name, "ar_baggage_lower") {
        Some("ar_baggage_lower")
    } else if str_eq(name, "ar_shoots") {
        Some("ar_shoots")
    } else if str_eq(name, "ar_shoots_night") {
        Some("ar_shoots_night")
    } else if str_eq(name, "cs_italy") {
        Some("cs_italy")
    } else if str_eq(name, "cs_office") {
        Some("cs_office")
    } else if str_eq(name, "de_ancient") {
        Some("de_ancient")
    } else if str_eq(name, "de_ancient_night") {
        Some("de_ancient_night")
    } else if str_eq(name, "de_ancient_v1") {
        Some("de_ancient_v1")
    } else if str_eq(name, "de_anubis") {
        Some("de_anubis")
    } else if str_eq(name, "de_cache") {
        Some("de_cache")
    } else if str_eq(name, "de_dust2") {
        Some("de_dust2")
    } else if str_eq(name, "de_inferno") {
        Some("de_inferno")
    } else if str_eq(name, "de_mirage") {
        Some("de_mirage")
    } else if str_eq(name, "de_nuke") {
        Some("de_nuke")
    } else if str_eq(name, "de_nuke_lower") {
        Some("de_nuke_lower")
    } else if str_eq(name, "de_overpass") {
        Some("de_overpass")
    } else if str_eq(name, "de_train") {
        Some("de_train")
    } else if str_eq(name, "de_train_lower") {
        Some("de_train_lower")
    } else if str_eq(name, "de_vertigo") {
        Some("de_vertigo")
    } else if str_eq(name, "de_vertigo_lower") {
        Some("de_vertigo_lower")
    } else if str_eq(name, "de_ancient_v2") {
        Some("de_ancient")
    } else if str_eq(name, "de_inferno_s2") {
        Some("de_inferno")
    } else if str_eq(name, "de_overpass_2v2") {
        Some("de_overpass")
    } else {
        None
    }
}


/// Where a map's radar image sits in the world: the bit patterns of the
/// `f32` world coordinates of its top left corner and of its scale, in world
/// units per image pixel.
#[derive(Debug, Clone, Copy, PartialEq, Eq, Structural)]
pub struct MapCalibration {
    pub pos_x: u32,
    pub pos_y: u32,
    pub scale: u32,
}

/// The calibration of the radar image of a map, by map name.
pub open spec fn spec_map_calibration(name: Seq<char>) -> Option<MapCalibration> {
    if name == "ar_baggage"@ || name == "ar_baggage_lower"@ {
        Some(MapCalibration { pos_x: 0xc4a48000, pos_y: 0x44a10000, scale: 0x40227ffe })
    } else if name == "ar_shoots"@ || name == "ar_shoots_night"@ {
        Some(MapCalibration { pos_x: 0xc4ab0000, pos_y: 0x44f40000, scale: 0x402c0000 })
    } else if name == "cs_italy"@ {
        Some(MapCalibration { pos_x: 0xc5257000, pos_y: 0x45220000, scale: 0x40933333 })
    } else if name == "cs_office"@ {
        Some(MapCalibration { pos_x: 0xc4e5c000, pos_y: 0x44e84000, scale: 0x40833333 })
    } else if name == "de_ancient"@ || name == "de_ancient_night"@ || name == "de_ancient_v1"@ || name == "de_ancient_v2"@ {
        Some(MapCalibration { pos_x: 0xc5389000, pos_y: 0x45074000, scale: 0x40a00000 })
    } else if name == "de_anubis"@ {
        Some(MapCalibration { pos_x: 0xc52ec000, pos_y: 0x45500000, scale: 0x40a70a3d })
    } else if name == "de_cache"@ {
        Some(MapCalibration { pos_x: 0xc4fa0000, pos_y: 0x454b2000, scale: 0x40b00000 })
    } else if name == "de_dust"@ {
        Some(MapCalibration { pos_x: 0xc5322000, pos_y: 0x457e9000, scale: 0x40c00000 })
    } else if name == "de_dust2"@ {
        Some(MapCalibration { pos_x: 0xc51ac000, pos_y: 0x454a7000, scale: 0x408ccccd })
    } else if name == "de_inferno"@ || name == "de_inferno_s2"@ {
        Some(MapCalibration { pos_x: 0xc5027000, pos_y: 0x4571e000, scale: 0x409ccccd })
    } else if name == "de_mirage"@ {
        Some(MapCalibration { pos_x: 0xc549e000, pos_y: 0x44d62000, scale: 0x40a00000 })
    } else if name == "de_nuke"@ || name == "de_nuke_lower"@ {
        Some(MapCalibration { pos_x: 0xc557d000, pos_y: 0x45347000, scale: 0x40e00000 })
    } else if name == "de_overpass"@ || name == "de_overpass_2v2"@ {
        Some(MapCalibration { pos_x: 0xc596f800, pos_y: 0x44dea000, scale: 0x40a66666 })
    } else if name == "de_train"@ || name == "de_train_lower"@ {
        Some(MapCalibration { pos_x: 0xc5104000, pos_y: 0x4501e000, scale: 0x4082a060 })
    } else if name == "de_vertigo"@ || name == "de_vertigo_lower"@ {
        Some(MapCalibration { pos_x: 0xc5460000, pos_y: 0x44dc4000, scale: 0x40800000 })
    } else if name == "cs_shelter"@ {
        Some(MapCalibration { pos_x: 0xc5578c57, pos_y: 0x456dd52a, scale: 0x4053f577 })
    } else if name == "de_boulder"@ {
        Some(MapCalibration { pos_x: 0xc54c97de, pos_y: 0x45372388, scale: 0x403657e1 })
    } else if name == "de_debris"@ {
        Some(MapCalibration { pos_x: 0xc53c73d4, pos_y: 0x453673d4, scale: 0x3ff8e7a7 })
    } else if name == "de_eldorado"@ {
        Some(MapCalibration { pos_x: 0xc55dcae7, pos_y: 0x4520b2e8, scale: 0x400432e7 })
    } else if name == "de_fachwerk"@ {
        Some(MapCalibration { pos_x: 0xc510713a, pos_y: 0x4533a9ed, scale: 0x40237139 })
    } else if name == "de_poseidon"@ {
        Some(MapCalibration { pos_x: 0xc482cc9e, pos_y: 0x4491cc9d, scale: 0x4040cc9d })
    } else {
        None
    }
}

/// The calibration of a map's radar image, when it is known.
pub fn map_calibration(name: &str) -> (r: Option<MapCalibration>)
    ensures
        r == spec_map_calibration(name@),
{
    if str_eq(name, "ar_baggage") || str_eq(name, "ar_baggage_lower") {
        Some(MapCalibration { pos_x: 0xc4a48000, pos_y: 0x44a10000, scale: 0x40227ffe })
    } else if str_eq(name, "ar_shoots") || str_eq(name, "ar_shoots_night") {
        Some(MapCalibration { pos_x: 0xc4ab0000, pos_y: 0x44f40000, scale: 0x402c0000 })
    } else if str_eq(name, "cs_italy") {
        Some(MapCalibration { pos_x: 0xc5257000, pos_y: 0x45220000, scale: 0x40933333 })
    } else if str_eq(name, "cs_office") {
        Some(MapCalibration { pos_x: 0xc4e5c000, pos_y: 0x44e84000, scale: 0x40833333 })
    } else if str_eq(name, "de_ancient") || str_eq(name, "de_ancient_night") || str_eq(name, "de_ancient_v1") || str_eq(name, "de_ancient_v2") {
        Some(MapCalibration { pos_x: 0xc5389000, pos_y: 0x45074000, scale: 0x40a00000 })
    } else if str_eq(name, "de_anubis") {
        Some(MapCalibration { pos_x: 0xc52ec000, pos_y: 0x45500000, scale: 0x40a70a3d })
    } else if str_eq(name, "de_cache") {
        Some(MapCalibration { pos_x: 0xc4fa0000, pos_y: 0x454b2000, scale: 0x40b00000 })
    } else if str_eq(name, "de_dust") {
        Some(MapCalibration { pos_x: 0xc5322000, pos_y: 0x457e9000, scale: 0x40c00000 })
    } else if str_eq(name, "de_dust2") {
        Some(MapCalibration { pos_x: 0xc51ac000, pos_y: 0x454a7000, scale: 0x408ccccd })
    } else if str_eq(name, "de_inferno") || str_eq(name, "de_inferno_s2") {
        Some(MapCalibration { pos_x: 0xc5027000, pos_y: 0x4571e000, scale: 0x409ccccd })
    } else if str_eq(name, "de_mirage") {
        Some(MapCalibration { pos_x: 0xc549e000, pos_y: 0x44d62000, scale: 0x40a00000 })
    } else if str_eq(name, "de_nuke") || str_eq(name, "de_nuke_lower") {
        Some(MapCalibration { pos_x: 0xc557d000, pos_y: 0x45347000, scale: 0x40e00000 })
    } else if str_eq(name, "de_overpass") || str_eq(name, "de_overpass_2v2") {
        Some(MapCalibration { pos_x: 0xc596f800, pos_y: 0x44dea000, scale: 0x40a66666 })
    } else if str_eq(name, "de_train") || str_eq(name, "de_train_lower") {
        Some(MapCalibration { pos_x: 0xc5104000, pos_y: 0x4501e000, scale: 0x4082a060 })
    } else if str_eq(name, "de_vertigo") || str_eq(name, "de_vertigo_lower") {
        Some(MapCalibration { pos_x: 0xc5460000, pos_y: 0x44dc4000, scale: 0x40800000 })
    } else if str_eq(name, "cs_shelter") {
        Some(MapCalibration { pos_x: 0xc5578c57, pos_y: 0x456dd52a, scale: 0x4053f577 })
    } else if str_eq(name, "de_boulder") {
        Some(MapCalibration { pos_x: 0xc54c97de, pos_y: 0x45372388, scale: 0x403657e1 })
    } else if str_eq(name, "de_debris") {
        Some(MapCalibration { pos_x: 0xc53c73d4, pos_y: 0x453673d4, scale: 0x3ff8e7a7 })
    } else if str_eq(name, "de_eldorado") {
        Some(MapCalibration { pos_x: 0xc55dcae7, pos_y: 0x4520b2e8, scale: 0x400432e7 })
    } else if str_eq(name, "de_fachwerk") {
        Some(MapCalibration { pos_x: 0xc510713a, pos_y: 0x4533a9ed, scale: 0x40237139 })
    } else if str_eq(name, "de_poseidon") {
        Some(MapCalibration { pos_x: 0xc482cc9e, pos_y: 0x4491cc9d, scale: 0x4040cc9d })
    } else {
        None
    }
}

/// The maps whose calibration is known but for which no radar image is
/// shipped.
pub open spec fn calibrated_without_image(name: Seq<char>) -> bool {
    name == "de_dust"@ || name == "cs_shelter"@ || name == "de_boulder"@ || name == "de_debris"@ || name
        == "de_eldorado"@ || name == "de_fachwerk"@ || name == "de_poseidon"@
}

#[verifier::rlimit(100)]
#[verifier::spinoff_prover]
proof fn lemma_variant_images()
    ensures
        spec_map_image("de_ancient_v2"@) == Some("de_ancient"@),
        spec_map_image("de_ancient"@) == Some("de_ancient"@),
        spec_map_calibration("de_ancient_v2"@) == spec_map_calibration("de_ancient"@),
        spec_map_image("de_inferno_s2"@) == Some("de_inferno"@),
        spec_map_image("de_inferno"@) == Some("de_inferno"@),
        spec_map_calibration("de_inferno_s2"@) == spec_map_calibration("de_inferno"@),
        spec_map_image("de_overpass_2v2"@) == Some("de_overpass"@),
        spec_map_image("de_overpass"@) == Some("de_overpass"@),
        spec_map_calibration("de_overpass_2v2"@) == spec_map_calibration("de_overpass"@),
{
    reveal_strlit("ar_baggage");
    reveal_strlit("ar_baggage_lower");
    reveal_strlit("ar_shoots");
    reveal_strlit("ar_shoots_night");
    reveal_strlit("cs_italy");
    reveal_strlit("cs_office");
    reveal_strlit("de_ancient");
    reveal_strlit("de_ancient_night");
    reveal_strlit("de_ancient_v1");
    reveal_strlit("de_ancient_v2");
    reveal_strlit("de_anubis");
    reveal_strlit("de_cache");
    reveal_strlit("de_dust");
    reveal_strlit("de_dust2");
    reveal_strlit("de_inferno");
    reveal_strlit("de_inferno_s2");
    reveal_strlit("de_mirage");
    reveal_strlit("de_nuke");
    reveal_strlit("de_nuke_lower");
    reveal_strlit("de_overpass");
    reveal_strlit("de_overpass_2v2");
    reveal_strlit("de_train");
    reveal_strlit("de_train_lower");
    reveal_strlit("de_vertigo");
    reveal_strlit("de_vertigo_lower");
    assert("de_ancient_v2"@[12] != "de_ancient_v1"@[12]);
    assert("de_ancient_v2"@[3] != "de_inferno_s2"@[3]);
    assert("de_ancient_v2"@[3] != "de_nuke_lower"@[3]);
    assert("de_ancient"@[0] != "ar_baggage"@[0]);
    assert("de_ancient"@[3] != "de_inferno"@[3]);
    assert("de_ancient"@[3] != "de_vertigo"@[3]);
    assert("de_inferno_s2"@[3] != "de_ancient_v1"@[3]);
    assert("de_inferno_s2"@[3] != "de_ancient_v2"@[3]);
    assert("de_inferno_s2"@[3] != "de_nuke_lower"@[3]);
    assert("de_inferno"@[0] != "ar_baggage"@[0]);
    assert("de_inferno"@[3] != "de_ancient"@[3]);
    assert("de_inferno"@[3] != "de_vertigo"@[3]);
    assert("de_overpass_2v2"@[0] != "ar_shoots_night"@[0]);
    assert("ar_baggage"@.len() == 10);
    assert("ar_baggage_lower"@.len() == 16);
    assert("ar_shoots"@.len() == 9);
    assert("ar_shoots_night"@.len() == 15);
    assert("cs_italy"@.len() == 8);
    assert("cs_office"@.len() == 9);
    assert("de_ancient"@.len() == 10);
    assert("de_ancient_night"@.len() == 16);
    assert("de_ancient_v1"@.len() == 13);
    assert("de_ancient_v2"@.len() == 13);
    assert("de_anubis"@.len() == 9);
    assert("de_cache"@.len() == 8);
    assert("de_dust"@.len() == 7);
    assert("de_dust2"@.len() == 8);
    assert("de_inferno"@.len() == 10);
    assert("de_inferno_s2"@.len() == 13);
    assert("de_mirage"@.len() == 9);
    assert("de_nuke"@.len() == 7);
    assert("de_nuke_lower"@.len() == 13);
    assert("de_overpass"@.len() == 11);
    assert("de_overpass_2v2"@.len() == 15);
    assert("de_train"@.len() == 8);
    assert("de_train_lower"@.len() == 14);
    assert("de_vertigo"@.len() == 10);
    assert("de_vertigo_lower"@.len() == 16);
}

/// Every map with a known calibration has a radar image, apart from the few
/// shipped without one; every map with a radar image has a calibration; and
/// a map drawn with another map's image (a variant) shares that map's
/// calibration, the image map being drawn with itself.
#[verifier::rlimit(100)]
#[verifier::spinoff_prover]
pub proof fn lemma_images_match_calibrations(name: Seq<char>)
    ensures
        spec_map_calibration(name) is Some && !calibrated_without_image(name) ==> spec_map_image(name) is Some,
        spec_map_image(name) is Some ==> spec_map_calibration(name) is Some,
        spec_map_image(name) matches Some(s) ==> spec_map_image(s) == Some(s) && spec_map_calibration(s)
            == spec_map_calibration(name),
{
    reveal_strlit("ar_baggage");
    reveal_strlit("ar_baggage_lower");
    reveal_strlit("ar_shoots");
    reveal_strlit("ar_shoots_night");
    reveal_strlit("cs_italy");
    reveal_strlit("cs_office");
    reveal_strlit("de_ancient");
    reveal_strlit("de_ancient_night");
    reveal_strlit("de_ancient_v1");
    reveal_strlit("de_ancient_v2");
    reveal_strlit("de_anubis");
    reveal_strlit("de_cache");
    reveal_strlit("de_dust");
    reveal_strlit("de_dust2");
    reveal_strlit("de_inferno");
    reveal_strlit("de_inferno_s2");
    reveal_strlit("de_mirage");
    reveal_strlit("de_nuke");
    reveal_strlit("de_nuke_lower");
    reveal_strlit("de_overpass");
    reveal_strlit("de_overpass_2v2");
    reveal_strlit("de_train");
    reveal_strlit("de_train_lower");
    reveal_strlit("de_vertigo");
    reveal_strlit("de_vertigo_lower");
    reveal_strlit("cs_shelter");
    reveal_strlit("de_boulder");
    reveal_strlit("de_debris");
    reveal_strlit("de_eldorado");
    reveal_strlit("de_fachwerk");
    reveal_strlit("de_poseidon");
    if spec_map_image(name) is Some {
        if name == "de_ancient_v2"@ || name == "de_inferno_s2"@ || name == "de_overpass_2v2"@ {
            lemma_variant_images();
        } else {
            assert(spec_map_image(name) == Some(name));
        }
    }
}

} // verus!
