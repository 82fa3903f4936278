//! Ground weapons and the static weapon catalog.
//!
//! Coordinates are fixed-point: 10000 units to the pixel.

use vstd::prelude::*;

verus! {

pub struct Weapon {
    pub weapon_type: usize,
    pub x: i64,
    pub y: i64,
}

pub struct WeaponType {
    pub name: &'static str,
    /// Server ticks that must elapse between fires.
    pub ticks_per_fire: i32,
    pub ammo_count: i32,
    pub projectile_type: usize,
}

impl Weapon {
    /// Muzzle offset of a fired projectile, in pixels.
    pub const WEAPON_WIDTH: u32 = 42;

    /// Number of weapon kinds in the catalog.
    pub const WEAPON_TYPE_COUNT: usize = 2;

    pub const TYPE_MINIGUN: usize = 0;
    pub const TYPE_GLAUNCHER: usize = 1;

    pub open spec fn spec_ticks_per_fire(t: int) -> i32 {
        if t == 1 { 25 } else { 0 }
    }

    pub open spec fn spec_ammo_count(t: int) -> i32 {
        if t == 1 { 10 } else { 50 }
    }

    pub open spec fn spec_weapon_projectile_type(t: int) -> usize {
        if t == 1 { 1 } else { 0 }
    }

    /// The catalog entry for a weapon kind: the minigun fires bullets every
    /// tick with 50 rounds; the grenade launcher fires grenades every 25
    /// ticks with 10 rounds.
    pub fn weapon_type_of(t: usize) -> (r: WeaponType)
        requires
            t < Self::WEAPON_TYPE_COUNT,
        ensures
            r.ticks_per_fire == Self::spec_ticks_per_fire(t as int),
            r.ammo_count == Self::spec_ammo_count(t as int),
            r.projectile_type == Self::spec_weapon_projectile_type(t as int),
            r.projectile_type < 2,
    {
        if t == 1 {
            WeaponType {
                name: "glauncher",
                ticks_per_fire: 25,
                ammo_count: 10,
                projectile_type: 1,
            }
        } else {
            WeaponType {
                name: "minigun",
                ticks_per_fire: 0,
                ammo_count: 50,
                projectile_type: 0,
            }
        }
    }

    /// Largest coordinate magnitude a ground weapon can sit at, in
    /// fixed-point units (the engine's coordinate cap).
    pub const WEAPON_POS_CAP: i64 = 1_000_000_000_000;

    pub open spec fn wf(self) -> bool {
        &&& self.weapon_type < Self::WEAPON_TYPE_COUNT
        &&& -Self::WEAPON_POS_CAP <= self.x <= Self::WEAPON_POS_CAP
        &&& -Self::WEAPON_POS_CAP <= self.y <= Self::WEAPON_POS_CAP
    }

    pub fn new(weapon_type: usize, x: i64, y: i64) -> (r: Weapon)
        ensures
            r.weapon_type == weapon_type,
            r.x == x,
            r.y == y,
    {
        Weapon { weapon_type, x, y }
    }
}

} // verus!
