use deadlocked::agents::{
    agent_index, agent_index_from_json, agent_index_json, agent_mesh_file, agent_models, compiled_model_path, model_stem, parse_agent_table, FALLBACK_AGENT_CT,
};
use deadlocked::messages::{vrf_cli_url, ReleaseAsset};
use std::collections::HashMap;

#[test]
fn parses_agent_table_with_duplicate_items_blocks() {
    let text = r#"
"items_game"
{
    "items"
    {
        "100"
        {
            "name" "customplayer_ctm_fbi"
            "model_player" "agents/models/ctm_fbi/ctm_fbi.vmdl"
        }
        "101"
        {
            "name" "some_glove"
            "model_player" "agents/models/shared/arms/glove_sporty/glove_sporty.vmdl"
        }
    }
    "items"
    {
        "200"
        {
            "name" "customplayer_tm_phoenix"
            "model_player" "agents/models/tm_phoenix/tm_phoenix.vmdl"
        }
    }
}
"#;
    let table = parse_agent_table(text);
    assert_eq!(table.len(), 2);
    assert_eq!(
        table.get(&100).map(String::as_str),
        Some("agents/models/ctm_fbi/ctm_fbi.vmdl")
    );
    assert_eq!(
        table.get(&200).map(String::as_str),
        Some("agents/models/tm_phoenix/tm_phoenix.vmdl")
    );
    assert!(
        !table.contains_key(&101),
        "glove entries must be filtered out"
    );
}

#[test]
fn agent_table_of_text_without_items_game_is_empty() {
    assert!(parse_agent_table("\"other\" { \"items\" { } }").is_empty());
    assert!(parse_agent_table("").is_empty());
}

#[test]
fn agent_table_skips_non_numeric_and_non_agent_entries() {
    let text = r#""items_game" { "items" {
        "abc" { "model_player" "agents/models/a/a.vmdl" }
        "70000" { "model_player" "agents/models/b/b.vmdl" }
        "7" { "model_player" "weapons/models/c.vmdl" }
        "8" { "name" "no model" }
        "+9" { "model_player" "agents/models/d/d.vmdl" }
    } }"#;
    let table = parse_agent_table(text);
    assert_eq!(table.len(), 1);
    assert_eq!(table.get(&9).map(String::as_str), Some("agents/models/d/d.vmdl"));
}

#[test]
fn model_stem_takes_file_stem_or_falls_back() {
    assert_eq!(model_stem("agents/models/ctm_fbi/ctm_fbi.vmdl"), "ctm_fbi");
    assert_eq!(model_stem(""), FALLBACK_AGENT_CT);
    assert_eq!(model_stem("tm_phoenix"), "tm_phoenix");
}

#[test]
fn agent_index_maps_def_indices_to_stems() {
    let mut table = HashMap::new();
    table.insert(4619u16, "agents/models/ctm_fbi/ctm_fbi_variantb.vmdl".to_string());
    table.insert(5105u16, "agents/models/tm_leet/tm_leet_varianta.vmdl".to_string());
    table.insert(7u16, "".to_string());
    let index = agent_index(&table);
    assert_eq!(index.len(), 3);
    assert_eq!(index[&4619], "ctm_fbi_variantb");
    assert_eq!(index[&5105], "tm_leet_varianta");
    assert_eq!(index[&7], FALLBACK_AGENT_CT);
}

#[test]
fn agent_files_are_named_after_their_models() {
    assert_eq!(agent_mesh_file("tm_leet_varianta"), "player_model_tm_leet_varianta.dlms");
    assert_eq!(
        compiled_model_path("agents/models/tm_leet/tm_leet_varianta.vmdl"),
        "agents/models/tm_leet/tm_leet_varianta.vmdl_c"
    );
}

#[test]
fn vrf_cli_asset_is_found_by_name() {
    let asset = |name: &str, url: &str| ReleaseAsset {
        name: name.to_string(),
        browser_download_url: url.to_string(),
    };
    let assets = vec![
        asset("cli-windows-x64.zip", "w"),
        asset("cli-linux-x64.zip", "l1"),
        asset("cli-linux-x64.zip", "l2"),
    ];
    assert_eq!(vrf_cli_url(&assets), Some("l1".to_string()));
    assert_eq!(vrf_cli_url(&assets[..1].to_vec()), None);
}

#[test]
fn agent_index_reads_back_from_its_json() {
    let mut index = HashMap::new();
    index.insert(5036u16, "tm_phoenix".to_string());
    index.insert(4619u16, "ctm_st6_variante".to_string());
    let text = agent_index_json(&index).unwrap();
    assert_eq!(agent_index_from_json(&text), index);
    let read = agent_index_from_json("{\"5036\":\"tm_phoenix\"}");
    assert_eq!(read.get(&5036).map(String::as_str), Some("tm_phoenix"));
    assert_eq!(read.len(), 1);
    assert!(agent_index_from_json("not json").is_empty());
    assert!(agent_index_from_json("{\"x\":\"tm_phoenix\"}").is_empty());
}

#[test]
fn agent_models_lists_each_model_once() {
    let mut table = HashMap::new();
    assert_eq!(agent_models(&table), Err("no agent entries found in items_game.txt".to_string()));
    table.insert(100u16, "agents/models/ctm_fbi/ctm_fbi.vmdl".to_string());
    table.insert(101u16, "agents/models/ctm_fbi/ctm_fbi.vmdl".to_string());
    table.insert(200u16, "agents/models/tm_phoenix/tm_phoenix.vmdl".to_string());
    let mut models = agent_models(&table).unwrap();
    models.sort();
    assert_eq!(
        models,
        vec![
            "agents/models/ctm_fbi/ctm_fbi.vmdl".to_string(),
            "agents/models/tm_phoenix/tm_phoenix.vmdl".to_string(),
        ]
    );
}
