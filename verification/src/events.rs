//! What the engine consumes and produces each tick.
//!
//! Inbound frames are decoded by the codec and handed to the engine as
//! `ClientEvent`s; a position or angle carries both the wire bit patterns of
//! its floats (for rebroadcast) and their fixed-point value (for the
//! simulation). Outbound traffic is a list of `Broadcast`s: an abstract
//! server message plus its recipients; the rim encodes them with the codec
//! and writes them to the transports.

use vstd::prelude::*;

verus! {

#[derive(Clone, Copy)]
pub enum ClientEvent {
    NewPos { x_bits: u32, y_bits: u32, x: i64, y: i64 },
    NewAngle { angle_bits: u32, aim_x: i64, aim_y: i64 },
    TakeWeapon,
    TriggerPulled,
    TriggerReleased,
    ToggleReady,
    Other,
}

/// One player's inbound traffic for one tick: the frames drained from its
/// transport, oldest first, and whether the transport reported closure.
pub struct PlayerInput {
    pub closed: bool,
    pub events: Vec<ClientEvent>,
}

pub enum Target {
    All,
    AllExcept(usize),
    One(usize),
}

pub enum ServerMsg {
    PlayerList { names: Vec<String> },
    ToggleReady { player_i: usize, ready: bool },
    StartGame { player_i: usize, x: i64, y: i64 },
    NewPos { player_i: usize, x_bits: u32, y_bits: u32 },
    NewAngle { player_i: usize, angle_bits: u32 },
    WeaponSpawn { weapon_type: usize, x: i64, y: i64 },
    RemoveWeapon { weapon_i: usize },
    AssignWeapon { player_i: usize, weapon_type: usize },
    NewProjectile { projectile_type: usize, x: i64, y: i64, vel_x: i64, vel_y: i64 },
    DestroyProjectile { projectile_i: usize },
    ProjectileExplosion { projectile_type: usize, x: i64, y: i64 },
    UpdateHealth { health: i64 },
    RemoveAmmo,
    KillPlayer { player_i: usize },
    RespawnPlayer { player_i: usize, x: i64, y: i64 },
    GameOverStats { kills_deaths: Vec<(i32, i32)> },
}

pub struct Broadcast {
    pub target: Target,
    pub msg: ServerMsg,
}

} // verus!
