//! Skeleton bone indices of players and chickens.

use vstd::prelude::*;

verus! {

/// A player skeleton bone; its number is the bone's index in the skeleton.
#[derive(Debug, Clone, Copy, PartialEq, Eq, Hash, Structural)]
pub enum Bones {
    Hip,
    Spine1,
    Spine2,
    Spine3,
    Spine4,
    Neck,
    Head,
    LeftShoulder,
    LeftElbow,
    LeftHand,
    RightShoulder,
    RightElbow,
    RightHand,
    LeftHip,
    LeftKnee,
    LeftFoot,
    RightHip,
    RightKnee,
    RightFoot,
}

/// The skeleton index of a player bone.
pub open spec fn bone_index(b: Bones) -> u64 {
    match b {
        Bones::Hip => 1,
        Bones::Spine1 => 2,
        Bones::Spine2 => 3,
        Bones::Spine3 => 4,
        Bones::Spine4 => 5,
        Bones::Neck => 6,
        Bones::Head => 7,
        Bones::LeftShoulder => 9,
        Bones::LeftElbow => 10,
        Bones::LeftHand => 11,
        Bones::RightShoulder => 13,
        Bones::RightElbow => 14,
        Bones::RightHand => 15,
        Bones::LeftHip => 17,
        Bones::LeftKnee => 18,
        Bones::LeftFoot => 19,
        Bones::RightHip => 20,
        Bones::RightKnee => 21,
        Bones::RightFoot => 22,
    }
}

/// The bone of each entry of the hitbox table, in table order.
pub open spec fn hitbox_bone(i: int) -> Bones {
    if i == 0 {
        Bones::Head
    } else if i == 1 {
        Bones::Neck
    } else if i == 2 {
        Bones::Hip
    } else if i == 3 {
        Bones::Spine1
    } else if i == 4 {
        Bones::Spine2
    } else if i == 5 {
        Bones::Spine3
    } else if i == 6 {
        Bones::Spine4
    } else if i == 7 {
        Bones::LeftHip
    } else if i == 8 {
        Bones::RightHip
    } else if i == 9 {
        Bones::LeftKnee
    } else if i == 10 {
        Bones::RightKnee
    } else if i == 11 {
        Bones::LeftFoot
    } else if i == 12 {
        Bones::RightFoot
    } else if i == 13 {
        Bones::LeftHand
    } else if i == 14 {
        Bones::RightHand
    } else if i == 15 {
        Bones::LeftShoulder
    } else if i == 16 {
        Bones::LeftElbow
    } else if i == 17 {
        Bones::RightShoulder
    } else {
        Bones::RightElbow
    }
}

/// The number of entries in the hitbox table.
pub const HITBOX_COUNT: usize = 19;

impl Bones {
    /// The bone's index in the skeleton.
    pub fn u64(self) -> (r: u64)
        ensures
            r == bone_index(self),
    {
        match self {
            Bones::Hip => 1,
            Bones::Spine1 => 2,
            Bones::Spine2 => 3,
            Bones::Spine3 => 4,
            Bones::Spine4 => 5,
            Bones::Neck => 6,
            Bones::Head => 7,
            Bones::LeftShoulder => 9,
            Bones::LeftElbow => 10,
            Bones::LeftHand => 11,
            Bones::RightShoulder => 13,
            Bones::RightElbow => 14,
            Bones::RightHand => 15,
            Bones::LeftHip => 17,
            Bones::LeftKnee => 18,
            Bones::LeftFoot => 19,
            Bones::RightHip => 20,
            Bones::RightKnee => 21,
            Bones::RightFoot => 22,
        }
    }

    /// The position of the bone's entry in the hitbox table; every bone
    /// has exactly one.
    pub fn hitbox_index(self) -> (r: usize)
        ensures
            r < HITBOX_COUNT,
            hitbox_bone(r as int) == self,
            forall|i: int| 0 <= i < HITBOX_COUNT && hitbox_bone(i) == self ==> i == r,
    {
        match self {
            Bones::Head => 0,
            Bones::Neck => 1,
            Bones::Hip => 2,
            Bones::Spine1 => 3,
            Bones::Spine2 => 4,
            Bones::Spine3 => 5,
            Bones::Spine4 => 6,
            Bones::LeftHip => 7,
            Bones::RightHip => 8,
            Bones::LeftKnee => 9,
            Bones::RightKnee => 10,
            Bones::LeftFoot => 11,
            Bones::RightFoot => 12,
            Bones::LeftHand => 13,
            Bones::RightHand => 14,
            Bones::LeftShoulder => 15,
            Bones::LeftElbow => 16,
            Bones::RightShoulder => 17,
            Bones::RightElbow => 18,
        }
    }

    /// Every bone, in declaration order.
    pub fn all() -> (r: Vec<Bones>)
        ensures
            r@.len() == 19,
            forall|b: Bones| r@.contains(b),
    {
        let r = vec![
            Bones::Hip,
            Bones::Spine1,
            Bones::Spine2,
            Bones::Spine3,
            Bones::Spine4,
            Bones::Neck,
            Bones::Head,
            Bones::LeftShoulder,
            Bones::LeftElbow,
            Bones::LeftHand,
            Bones::RightShoulder,
            Bones::RightElbow,
            Bones::RightHand,
            Bones::LeftHip,
            Bones::LeftKnee,
            Bones::LeftFoot,
            Bones::RightHip,
            Bones::RightKnee,
            Bones::RightFoot,
        ];
        assert forall|b: Bones| r@.contains(b) by {
            let i: int = match b {
                Bones::Hip => 0,
                Bones::Spine1 => 1,
                Bones::Spine2 => 2,
                Bones::Spine3 => 3,
                Bones::Spine4 => 4,
                Bones::Neck => 5,
                Bones::Head => 6,
                Bones::LeftShoulder => 7,
                Bones::LeftElbow => 8,
                Bones::LeftHand => 9,
                Bones::RightShoulder => 10,
                Bones::RightElbow => 11,
                Bones::RightHand => 12,
                Bones::LeftHip => 13,
                Bones::LeftKnee => 14,
                Bones::LeftFoot => 15,
                Bones::RightHip => 16,
                Bones::RightKnee => 17,
                Bones::RightFoot => 18,
            };
            assert(r@[i] == b);
        }
        r
    }

    /// The pairs of bones joined in the drawn skeleton.
    pub fn connections() -> (r: Vec<(Bones, Bones)>)
        ensures
            r@.len() == 18,
    {
        vec![
            (Bones::Hip, Bones::Spine1),
            (Bones::Spine1, Bones::Spine2),
            (Bones::Spine2, Bones::Spine3),
            (Bones::Spine3, Bones::Spine4),
            (Bones::Spine4, Bones::Neck),
            (Bones::Neck, Bones::Head),
            (Bones::Neck, Bones::LeftShoulder),
            (Bones::LeftShoulder, Bones::LeftElbow),
            (Bones::LeftElbow, Bones::LeftHand),
            (Bones::Neck, Bones::RightShoulder),
            (Bones::RightShoulder, Bones::RightElbow),
            (Bones::RightElbow, Bones::RightHand),
            (Bones::Hip, Bones::LeftHip),
            (Bones::LeftHip, Bones::LeftKnee),
            (Bones::LeftKnee, Bones::LeftFoot),
            (Bones::Hip, Bones::RightHip),
            (Bones::RightHip, Bones::RightKnee),
            (Bones::RightKnee, Bones::RightFoot),
        ]
    }
}

/// Distinct bones have distinct skeleton indices, all below 32.
pub proof fn lemma_bone_indices_distinct(a: Bones, b: Bones)
    ensures
        bone_index(a) < 32,
        bone_index(a) == bone_index(b) ==> a == b,
{
}

/// A chicken skeleton bone; its number is the bone's index in the skeleton.
#[derive(Debug, Clone, Copy, PartialEq, Eq, Hash, Structural)]
pub enum ChickenBones {
    Pelvis,
    Spine0,
    Spine1,
    Neck0,
    Neck1,
    Neck2,
    Head,
    ClavL,
    Wing0L,
    Wing1L,
    Wing2L,
    ClavR,
    Wing0R,
    Wing1R,
    Wing2R,
    Leg0L,
    Leg1L,
    Leg2L,
    FootL,
    Leg0R,
    Leg1R,
    Leg2R,
    FootR,
}

/// The skeleton index of a chicken bone.
pub open spec fn chicken_bone_index(b: ChickenBones) -> usize {
    match b {
        ChickenBones::Pelvis => 2,
        ChickenBones::Spine0 => 3,
        ChickenBones::Spine1 => 4,
        ChickenBones::Neck0 => 9,
        ChickenBones::Neck1 => 10,
        ChickenBones::Neck2 => 11,
        ChickenBones::Head => 12,
        ChickenBones::ClavL => 5,
        ChickenBones::Wing0L => 6,
        ChickenBones::Wing1L => 7,
        ChickenBones::Wing2L => 8,
        ChickenBones::ClavR => 24,
        ChickenBones::Wing0R => 25,
        ChickenBones::Wing1R => 26,
        ChickenBones::Wing2R => 27,
        ChickenBones::Leg0L => 30,
        ChickenBones::Leg1L => 31,
        ChickenBones::Leg2L => 32,
        ChickenBones::FootL => 33,
        ChickenBones::Leg0R => 41,
        ChickenBones::Leg1R => 42,
        ChickenBones::Leg2R => 43,
        ChickenBones::FootR => 44,
    }
}

impl ChickenBones {
    /// The bone's index in the chicken skeleton.
    pub fn usize(self) -> (r: usize)
        ensures
            r == chicken_bone_index(self),
    {
        match self {
            ChickenBones::Pelvis => 2,
            ChickenBones::Spine0 => 3,
            ChickenBones::Spine1 => 4,
            ChickenBones::Neck0 => 9,
            ChickenBones::Neck1 => 10,
            ChickenBones::Neck2 => 11,
            ChickenBones::Head => 12,
            ChickenBones::ClavL => 5,
            ChickenBones::Wing0L => 6,
            ChickenBones::Wing1L => 7,
            ChickenBones::Wing2L => 8,
            ChickenBones::ClavR => 24,
            ChickenBones::Wing0R => 25,
            ChickenBones::Wing1R => 26,
            ChickenBones::Wing2R => 27,
            ChickenBones::Leg0L => 30,
            ChickenBones::Leg1L => 31,
            ChickenBones::Leg2L => 32,
            ChickenBones::FootL => 33,
            ChickenBones::Leg0R => 41,
            ChickenBones::Leg1R => 42,
            ChickenBones::Leg2R => 43,
            ChickenBones::FootR => 44,
        }
    }

    /// The pairs of bones joined in the drawn chicken skeleton.
    pub fn connections() -> (r: Vec<(ChickenBones, ChickenBones)>)
        ensures
            r@.len() == 22,
    {
        vec![
            (ChickenBones::Pelvis, ChickenBones::Spine0),
            (ChickenBones::Spine0, ChickenBones::Spine1),
            (ChickenBones::Spine1, ChickenBones::Neck0),
            (ChickenBones::Neck0, ChickenBones::Neck1),
            (ChickenBones::Neck1, ChickenBones::Neck2),
            (ChickenBones::Neck2, ChickenBones::Head),
            (ChickenBones::Spine1, ChickenBones::ClavL),
            (ChickenBones::ClavL, ChickenBones::Wing0L),
            (ChickenBones::Wing0L, ChickenBones::Wing1L),
            (ChickenBones::Wing1L, ChickenBones::Wing2L),
            (ChickenBones::Spine1, ChickenBones::ClavR),
            (ChickenBones::ClavR, ChickenBones::Wing0R),
            (ChickenBones::Wing0R, ChickenBones::Wing1R),
            (ChickenBones::Wing1R, ChickenBones::Wing2R),
            (ChickenBones::Pelvis, ChickenBones::Leg0L),
            (ChickenBones::Leg0L, ChickenBones::Leg1L),
            (ChickenBones::Leg1L, ChickenBones::Leg2L),
            (ChickenBones::Leg2L, ChickenBones::FootL),
            (ChickenBones::Pelvis, ChickenBones::Leg0R),
            (ChickenBones::Leg0R, ChickenBones::Leg1R),
            (ChickenBones::Leg1R, ChickenBones::Leg2R),
            (ChickenBones::Leg2R, ChickenBones::FootR),
        ]
    }
}

/// Distinct chicken bones have distinct skeleton indices.
pub proof fn lemma_chicken_bone_indices_distinct(a: ChickenBones, b: ChickenBones)
    ensures
        chicken_bone_index(a) == chicken_bone_index(b) ==> a == b,
{
}

} // verus!
