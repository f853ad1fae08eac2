//! Verified core of the deadlocked toolkit: parsers for the text and binary
//! formats it reads, signature patterns, and the small decision functions
//! around them.

pub mod text;
pub mod le;
pub mod keyvalues;
pub mod agents;
pub mod dlms;
pub mod signatures;
pub mod bones;
pub mod esp_config;
pub mod player_config;
pub mod messages;
pub mod entities;
pub mod counter_strafe;
pub mod gui;
pub mod audio;
pub mod maps;
pub mod bvh;
pub mod steam;
pub mod glb;
pub mod gamescope;
pub mod keyboard;
pub mod offsets;
pub mod minimap;
pub mod binary;
pub mod mesh_state;
pub mod triggerbot;
pub mod bhop;
pub mod sessions;
pub mod radar;
pub mod targeting;
pub mod weapon_class;
pub mod kwin;
pub mod session_id;
pub mod game_data;
pub mod gltf;
pub mod mesh_round_trip;
