//! Offsets into the game's objects and globals, zero until resolved.

use vstd::prelude::*;

verus! {

#[derive(Debug, Clone, Copy, Default, PartialEq, Eq, Structural)]
pub struct LibraryOffsets {
    /// `client.dll base address`
    pub client: u64,
    /// `engine.dll base address`
    pub engine: u64,
    /// `tier0.dll base address`
    pub tier0: u64,
    /// `inputsystem.dll base address`
    pub input: u64,
    /// `SDL3.dll base address`
    pub sdl: u64,
    /// `schemasystem.dll base address`
    pub schema: u64,
}

#[derive(Debug, Clone, Copy, Default, PartialEq, Eq, Structural)]
pub struct InterfaceOffsets {
    /// `CCSPlayerResource`
    pub resource: u64,
    /// `CGameEntitySystem`
    pub entity: u64,
    /// `ICvar`
    pub cvar: u64,
    /// `IInputSystem`
    pub input: u64,
}

#[derive(Debug, Clone, Copy, Default, PartialEq, Eq, Structural)]
pub struct DirectOffsets {
    /// `LocalPlayer controller pointer`
    pub local_player: u64,
    /// `Global button state`
    pub button_state: u64,
    /// `View-matrix array`
    pub view_matrix: u64,
    /// `SDL_Window *`
    pub sdl_window: u64,
    /// `C_PlantedC4 entity list`
    pub planted_c4: u64,
    /// `CGlobalVarsBase`
    pub global_vars: u64,
}

#[derive(Debug, Clone, Copy, Default, PartialEq, Eq, Structural)]
pub struct ConvarOffsets {
    /// `mp_teammates_are_enemies`
    pub ffa: u64,
    /// `sensitivity`
    pub sensitivity: u64,
}

#[derive(Debug, Clone, Copy, Default, PartialEq, Eq, Structural)]
pub struct PlayerControllerOffsets {
    /// `m_steamID`
    pub steam_id: u64,
    /// `m_iszPlayerName`
    pub name: u64,
    /// `m_hPawn`
    pub pawn: u64,
    /// `m_iDesiredFOV`
    pub desired_fov: u64,
    /// `m_hOwnerEntity`
    pub owner_entity: u64,
    /// `m_iCompTeammateColor`
    pub color: u64,
}

#[derive(Debug, Clone, Copy, Default, PartialEq, Eq, Structural)]
pub struct PawnOffsets {
    /// `m_iHealth`
    pub health: u64,
    /// `m_ArmorValue`
    pub armor: u64,
    /// `m_iTeamNum`
    pub team: u64,
    /// `m_lifeState`
    pub life_state: u64,
    /// `m_pClippingWeapon`
    pub weapon: u64,
    /// `m_flFOVSensitivityAdjust`
    pub fov_multiplier: u64,
    /// `m_pGameSceneNode`
    pub game_scene_node: u64,
    /// `m_vecViewOffset`
    pub eye_offset: u64,
    /// `m_angEyeAngles`
    pub eye_angles: u64,
    /// `m_vecAbsVelocity`
    pub velocity: u64,
    /// `m_aimPunchCache`
    pub aim_punch_cache: u64,
    /// `m_iShotsFired`
    pub shots_fired: u64,
    /// `v_angle`
    pub view_angles: u64,
    /// `m_entitySpottedState`
    pub spotted_state: u64,
    /// `m_iIDEntIndex`
    pub crosshair_entity: u64,
    /// `m_bIsScoped`
    pub is_scoped: u64,
    /// `m_flFlashMaxAlpha`
    pub flash_alpha: u64,
    /// `m_flFlashDuration`
    pub flash_duration: u64,
    /// `m_bGunGameImmunity`
    pub deathmatch_immunity: u64,
    /// `m_pCameraServices`
    pub camera_services: u64,
    /// `m_pItemServices`
    pub item_services: u64,
    /// `m_pWeaponServices`
    pub weapon_services: u64,
    /// `m_pObserverServices`
    pub observer_services: u64,
}

#[derive(Debug, Clone, Copy, Default, PartialEq, Eq, Structural)]
pub struct GameSceneNodeOffsets {
    /// `m_bDormant`
    pub dormant: u64,
    /// `m_vecAbsOrigin`
    pub origin: u64,
    /// `m_modelState`
    pub model_state: u64,
}

#[derive(Debug, Clone, Copy, Default, PartialEq, Eq, Structural)]
pub struct SkeletonInstanceOffsets {
    /// `m_skeletonInstance`
    pub skeleton_instance: u64,
}

#[derive(Debug, Clone, Copy, Default, PartialEq, Eq, Structural)]
pub struct SmokeOffsets {
    /// `m_bDidSmokeEffect`
    pub did_smoke_effect: u64,
    /// `m_vSmokeColor`
    pub smoke_color: u64,
}

#[derive(Debug, Clone, Copy, Default, PartialEq, Eq, Structural)]
pub struct MolotovOffsets {
    /// `m_bIsIncGrenade`
    pub is_incendiary: u64,
}

#[derive(Debug, Clone, Copy, Default, PartialEq, Eq, Structural)]
pub struct InfernoOffsets {
    /// `m_bFireIsBurning`
    pub is_burning: u64,
    /// `m_fireCount`
    pub fire_count: u64,
    /// `m_firePositions`
    pub fire_positions: u64,
}

#[derive(Debug, Clone, Copy, Default, PartialEq, Eq, Structural)]
pub struct SpottedStateOffsets {
    /// `m_bSpotted`
    pub spotted: u64,
    /// `m_bSpottedByMask`
    pub mask: u64,
}

#[derive(Debug, Clone, Copy, Default, PartialEq, Eq, Structural)]
pub struct CameraServicesOffsets {
    /// `m_iFOV`
    pub fov: u64,
}

#[derive(Debug, Clone, Copy, Default, PartialEq, Eq, Structural)]
pub struct ItemServicesOffsets {
    /// `m_bHasDefuser`
    pub has_defuser: u64,
    /// `m_bHasHelmet`
    pub has_helmet: u64,
}

#[derive(Debug, Clone, Copy, Default, PartialEq, Eq, Structural)]
pub struct WeaponServicesOffsets {
    /// `m_hMyWeapons`
    pub weapons: u64,
}

#[derive(Debug, Clone, Copy, Default, PartialEq, Eq, Structural)]
pub struct ObserverServicesOffsets {
    /// `m_hObserverTarget`
    pub target: u64,
}

#[derive(Debug, Clone, Copy, Default, PartialEq, Eq, Structural)]
pub struct WeaponOffsets {
    /// `m_AttributeManager`
    pub attribute_manager: u64,
    /// `m_Item`
    pub item: u64,
    /// `m_iItemDefinitionIndex`
    pub item_definition_index: u64,
}

#[derive(Debug, Clone, Copy, Default, PartialEq, Eq, Structural)]
pub struct PlantedC4Offsets {
    /// `m_bBombTicking`
    pub is_ticking: u64,
    /// `m_flC4Blow`
    pub blow_time: u64,
    /// `m_bBeingDefused`
    pub being_defused: u64,
    /// `m_bBombDefused`
    pub is_defused: u64,
    /// `m_bHasExploded`
    pub has_exploded: u64,
    /// `m_flDefuseCountDown`
    pub defuse_time_left: u64,
}

#[derive(Debug, Clone, Copy, Default, PartialEq, Eq, Structural)]
pub struct EntityIdentityOffsets {
    /// `sizeof(CEntityIdentity)`
    pub size: i32,
}

/// Every offset the game thread uses.
#[derive(Debug, Clone, Copy, Default, PartialEq, Eq, Structural)]
pub struct Offsets {
    pub library: LibraryOffsets,
    pub interface: InterfaceOffsets,
    pub direct: DirectOffsets,
    pub convar: ConvarOffsets,
    pub controller: PlayerControllerOffsets,
    pub pawn: PawnOffsets,
    pub game_scene_node: GameSceneNodeOffsets,
    pub skeleton: SkeletonInstanceOffsets,
    pub smoke: SmokeOffsets,
    pub molotov: MolotovOffsets,
    pub inferno: InfernoOffsets,
    pub spotted_state: SpottedStateOffsets,
    pub camera_services: CameraServicesOffsets,
    pub item_services: ItemServicesOffsets,
    pub weapon_services: WeaponServicesOffsets,
    pub observer_services: ObserverServicesOffsets,
    pub weapon: WeaponOffsets,
    pub planted_c4: PlantedC4Offsets,
    pub entity_identity: EntityIdentityOffsets,
}

} // verus!
