//! Player state and its mutation helpers.
//!
//! Coordinates and the aim vector are fixed-point with 10000 units to the
//! pixel; health is fixed-point with 1000 units to one health point. The aim
//! is kept both as the wire bit pattern of the reported angle (for
//! rebroadcast) and as a unit direction vector (for firing).

use vstd::prelude::*;
use crate::weapon::Weapon;

verus! {

pub struct Player {
    pub name: String,

    pub weapon_type: Option<usize>,
    pub ammo: i32,

    pub x_last: i64,
    pub y_last: i64,
    pub x: i64,
    pub y: i64,
    pub x_new: i64,
    pub y_new: i64,

    pub vel_y: i64,
    pub angle_bits: u32,
    pub aim_x: i64,
    pub aim_y: i64,
    pub ready: bool,
    pub jumps: i32,
    pub health: i64,
    pub trigger_pulled: bool,
    pub ticks_since_last_fire: i32,

    pub alive: bool,
    /// Milliseconds until a dead player respawns.
    pub time_to_respawn: i32,

    pub kills: i32,
    pub deaths: i32,
}

impl Player {
    pub const PLAYER_HEIGHT: u32 = 64;
    pub const PLAYER_WIDTH: u32 = 24;

    pub const AIR_JUMPS: i32 = 3;

    /// Full health, in thousandths of a health point.
    pub const MAX_HEALTH: i64 = 10000;

    /// Milliseconds between death and respawn.
    pub const TIME_TO_RESPAWN: i32 = 5000;

    /// Largest coordinate magnitude the engine stores, in fixed-point units.
    pub const POS_CAP: i64 = 1_000_000_000_000;

    /// Magnitude of a unit aim component, in fixed-point units.
    pub const AIM_ONE: i64 = 10000;

    /// Largest velocity magnitude, in fixed-point units per millisecond.
    pub const VEL_CAP: i64 = 1_000_000_000_000;

    pub open spec fn wf(self) -> bool {
        &&& -Self::POS_CAP <= self.x <= Self::POS_CAP
        &&& -Self::POS_CAP <= self.y <= Self::POS_CAP
        &&& -Self::POS_CAP <= self.x_last <= Self::POS_CAP
        &&& -Self::POS_CAP <= self.y_last <= Self::POS_CAP
        &&& -Self::POS_CAP <= self.x_new <= Self::POS_CAP
        &&& -Self::POS_CAP <= self.y_new <= Self::POS_CAP
        &&& -Self::VEL_CAP <= self.vel_y <= Self::VEL_CAP
        &&& -Self::AIM_ONE <= self.aim_x <= Self::AIM_ONE
        &&& -Self::AIM_ONE <= self.aim_y <= Self::AIM_ONE
        &&& -10_000_000 <= self.health <= Self::MAX_HEALTH
        &&& (self.alive ==> self.health >= 0)
        &&& 0 <= self.ammo <= 1000
        &&& (self.weapon_type matches Some(w) ==> w < Weapon::WEAPON_TYPE_COUNT)
        &&& -1 <= self.ticks_since_last_fire <= 1000
        &&& -100000 <= self.time_to_respawn <= Self::TIME_TO_RESPAWN
        &&& 0 <= self.kills
        &&& 0 <= self.deaths
    }

    /// What a fresh lobby player looks like, apart from its name: default
    /// spawn point, full health, not ready, unarmed.
    pub open spec fn spec_is_new(p: Player, name: Seq<char>) -> bool {
        &&& p.name@ == name
        &&& p.weapon_type is None
        &&& p.ammo == 0
        &&& p.x == 8_000_000 && p.y == 4_200_000
        &&& p.x_last == 8_000_000 && p.y_last == 4_200_000
        &&& p.x_new == 8_000_000 && p.y_new == 4_200_000
        &&& p.vel_y == 0
        &&& p.angle_bits == 0 && p.aim_x == Self::AIM_ONE && p.aim_y == 0
        &&& !p.ready
        &&& p.jumps == Self::AIR_JUMPS
        &&& p.health == Self::MAX_HEALTH
        &&& !p.trigger_pulled
        &&& p.ticks_since_last_fire == -1
        &&& p.alive
        &&& p.time_to_respawn == 0
        &&& p.kills == 0 && p.deaths == 0
    }

    /// A fresh lobby player: default spawn point, full health, not ready,
    /// unarmed.
    pub fn new(name: String) -> (r: Player)
        ensures
            r.wf(),
            r.name == name,
            Self::spec_is_new(r, name@),
    {
        Player {
            name,
            weapon_type: None,
            ammo: 0,
            x_last: 8_000_000,
            y_last: 4_200_000,
            x: 8_000_000,
            y: 4_200_000,
            x_new: 8_000_000,
            y_new: 4_200_000,
            vel_y: 0,
            angle_bits: 0,
            aim_x: Self::AIM_ONE,
            aim_y: 0,
            ready: false,
            jumps: Self::AIR_JUMPS,
            health: Self::MAX_HEALTH,
            trigger_pulled: false,
            ticks_since_last_fire: -1,
            alive: true,
            time_to_respawn: 0,
            kills: 0,
            deaths: 0,
        }
    }

    /// Arms the player: a full magazine for the picked-up weapon and a reset
    /// fire cooldown; everything else is untouched.
    pub fn assign_weapon(&mut self, weapon_type: usize)
        requires
            weapon_type < Weapon::WEAPON_TYPE_COUNT,
        ensures
            *final(self) == (Player {
                weapon_type: Some(weapon_type),
                ammo: Weapon::spec_ammo_count(weapon_type as int),
                ticks_since_last_fire: (-1) as i32,
                ..*old(self)
            }),
    {
        self.weapon_type = Some(weapon_type);
        self.ammo = Weapon::weapon_type_of(weapon_type).ammo_count;
        self.ticks_since_last_fire = -1;
    }

    /// Records a death: disarms the player, counts the death, and starts the
    /// respawn countdown. The death counter stops at its type's maximum
    /// rather than wrap.
    pub fn kill(&mut self)
        ensures
            *final(self) == (Player {
                alive: false,
                ammo: 0,
                weapon_type: None,
                deaths: (if old(self).deaths < i32::MAX { (old(self).deaths + 1) as i32 } else {
                    old(self).deaths
                }),
                time_to_respawn: Self::TIME_TO_RESPAWN,
                ..*old(self)
            }),
    {
        self.alive = false;
        self.ammo = 0;
        self.weapon_type = None;

        if self.deaths < i32::MAX {
            self.deaths = self.deaths + 1;
        }

        self.time_to_respawn = Self::TIME_TO_RESPAWN;
    }

    /// Brings a dead player back at the given spot with full health.
    pub fn respawn(&mut self, x: i64, y: i64)
        ensures
            *final(self) == (Player {
                alive: true,
                health: Self::MAX_HEALTH,
                x_last: x,
                y_last: y,
                x: x,
                y: y,
                x_new: x,
                y_new: y,
                ..*old(self)
            }),
    {
        self.alive = true;
        self.health = Self::MAX_HEALTH;
        self.x_last = x;
        self.y_last = y;
        self.x = x;
        self.y = y;
        self.x_new = x;
        self.y_new = y;
    }
}

} // verus!
