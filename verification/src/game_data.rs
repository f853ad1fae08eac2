//! How the per-frame game data is assembled: which players are listed as
//! friendlies or enemies, who is spectating, and which toggles the overlay
//! shows as active. The caller reads the game's memory.

use vstd::prelude::*;
use crate::entities::KeyMode;

verus! {

/// The team number (`m_iTeamNum`) of the Terrorists.
pub const TEAM_T: u8 = 2;

/// The team number of the Counter-Terrorists.
pub const TEAM_CT: u8 = 3;

/// Whether the local player is on a playing team; on any other team
/// (unassigned, spectator) there is no game to show and the frame's data
/// says it is not in game.
pub fn on_playing_team(team: u8) -> (r: bool)
    ensures
        r == (team == TEAM_T || team == TEAM_CT),
{
    team == TEAM_T || team == TEAM_CT
}

/// How a player appears in the frame's data.
#[derive(Debug, Clone, Copy, PartialEq, Eq, Structural)]
pub enum PlayerRole {
    /// Left out: the player the local player is spectating.
    Skipped,
    Friendly,
    Enemy,
}

/// A player by its pawn and whether it is on the local player's team.
#[derive(Debug, Clone, Copy, PartialEq, Eq, Structural)]
pub struct PlayerSlot {
    pub pawn: u64,
    pub same_team: bool,
}

/// The spectated pawn is left out; teammates are friendlies unless everyone
/// is an enemy; the others are enemies.
pub open spec fn spec_player_role(p: PlayerSlot, spectated: Option<u64>, ffa: bool) -> PlayerRole {
    if spectated == Some(p.pawn) {
        PlayerRole::Skipped
    } else if !ffa && p.same_team {
        PlayerRole::Friendly
    } else {
        PlayerRole::Enemy
    }
}

/// The role of each player, in order.
pub fn player_roles(players: &[PlayerSlot], spectated: Option<u64>, ffa: bool) -> (r: Vec<PlayerRole>)
    ensures
        r@.len() == players@.len(),
        forall|i: int| 0 <= i < players@.len() ==> #[trigger] r@[i] == spec_player_role(players@[i], spectated, ffa),
{
    let mut out: Vec<PlayerRole> = Vec::new();
    let mut k: usize = 0;
    while k < players.len()
        invariant
            k <= players@.len(),
            out@.len() == k,
            forall|i: int| 0 <= i < k ==> #[trigger] out@[i] == spec_player_role(players@[i], spectated, ffa),
        decreases players@.len() - k,
    {
        let p = players[k];
        let skip = match spectated {
            Some(s) => s == p.pawn,
            None => false,
        };
        let role = if skip {
            PlayerRole::Skipped
        } else if !ffa && p.same_team {
            PlayerRole::Friendly
        } else {
            PlayerRole::Enemy
        };
        out.push(role);
        k += 1;
    }
    out
}

/// The indices of the dead players who spectate `pawn`, in order.
pub open spec fn spectators_of(targets: Seq<Option<u64>>, pawn: u64) -> Seq<usize>
    decreases targets.len(),
{
    if targets.len() == 0 {
        Seq::empty()
    } else {
        let rest = spectators_of(targets.drop_last(), pawn);
        if targets.last() == Some(pawn) {
            rest.push((targets.len() - 1) as usize)
        } else {
            rest
        }
    }
}

/// Lists the dead players whose spectator target is `pawn`, by index; each
/// entry of `targets` is the pawn a dead player spectates, if any.
pub fn spectators(targets: &[Option<u64>], pawn: u64) -> (r: Vec<usize>)
    ensures
        r@ == spectators_of(targets@, pawn),
{
    let mut out: Vec<usize> = Vec::new();
    let mut k: usize = 0;
    while k < targets.len()
        invariant
            k <= targets@.len(),
            out@ == spectators_of(targets@.subrange(0, k as int), pawn),
        decreases targets@.len() - k,
    {
        assert(targets@.subrange(0, k + 1).drop_last() =~= targets@.subrange(0, k as int));
        if targets[k] == Some(pawn) {
            out.push(k);
        }
        k += 1;
    }
    assert(targets@.subrange(0, k as int) =~= targets@);
    out
}

/// Whether the overlay shows a feature's toggle as on: only in toggle mode,
/// and only while it is toggled on.
pub fn toggle_shown(mode: KeyMode, active: bool) -> (r: bool)
    ensures
        r == (mode == KeyMode::Toggle && active),
{
    match mode {
        KeyMode::Toggle => active,
        KeyMode::Hold => false,
    }
}

} // verus!
