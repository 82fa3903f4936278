//! The per-tick engine: input application, combat, projectile physics,
//! respawns and weapon spawning for one match.
//!
//! Each public function advances one tick-sized piece of the simulation and
//! appends the broadcasts it owes to `out`. The timer loop, the transports
//! and the float conversions live outside the library; the engine is a
//! deterministic function of its inputs and the drawn random values.

use vstd::prelude::*;
use crate::client::Client;
use crate::collision_system::CollisionSystem;
use crate::events::{Broadcast, ClientEvent, PlayerInput, ServerMsg, Target};
use crate::game_match::GameMatch;
use crate::player::Player;
use crate::projectile::Projectile;
use crate::rng::rand_below;
use crate::server_tick::ServerTick;
use crate::terrain::TerrainMap;
use crate::vel_system::VelSystem;
use crate::weapon::Weapon;

verus! {

pub struct Engine {}

/// The mutable world of one match's Main phase.
pub struct GameState {
    pub players: Vec<Player>,
    pub projectiles: Vec<Projectile>,
    pub ground_weapons: Vec<Weapon>,
    pub ticks_since_weapon_spawn: i32,
    pub ticks_alive: i32,
    pub map: TerrainMap,
}

pub enum MainTickOutcome {
    Continue,
    Won,
    AllDisconnected,
    TimedOut,
}

pub enum LobbyOutcome {
    Waiting,
    Ready,
    TimedOut,
}

/// Where one projectile's tick of sub-steps ends: it flew them all
/// untouched, left the map margin, or struck solid terrain or a player —
/// carrying its state at that moment.
pub enum FlightEnd {
    Flew(Projectile),
    WentOut(Projectile),
    Struck(Projectile),
}

impl GameState {
    pub open spec fn wf(self) -> bool {
        &&& forall|i: int| 0 <= i < self.players@.len() ==> (#[trigger] self.players@[i]).wf()
        &&& forall|j: int| 0 <= j < self.projectiles@.len()
            ==> Engine::spec_projectile_in_flight(#[trigger] self.projectiles@[j],
            self.players@.len() as int)
        &&& forall|k: int| 0 <= k < self.ground_weapons@.len()
            ==> (#[trigger] self.ground_weapons@[k]).wf()
        &&& self.map.wf()
        &&& 0 <= self.ticks_alive <= Engine::TIMEOUT + 1
        &&& -1 <= self.ticks_since_weapon_spawn <= Engine::WEAPONS_SPAWN_TICKS + 1
    }
}

impl Engine {
    /// Spawn new ground weapons every 30 seconds of ticks.
    pub const WEAPONS_SPAWN_TICKS: i32 = 1500;
    pub const SPAWN_WEAPONS_COUNT: usize = 10;
    /// Pickup reach, in fixed-point units (20 pixels).
    pub const PICKUP_RANGE: i64 = 200_000;
    pub const KILLS_TO_WIN_GAME: i32 = 5;

    /// Projectile sub-steps per tick, against tunneling.
    pub const PROJECTILE_INTERP_RATE: i32 = 10;

    /// Ticks before a phase times out (30 minutes).
    pub const TIMEOUT: i32 = 90000;

    /// How many random columns a spawn-point search tries before giving up
    /// for this tick.
    pub const SPAWN_ATTEMPTS: u32 = 100;

    /// A counter bumped by one, stopping at its type's maximum rather than
    /// wrap.
    pub open spec fn spec_bump_i32(c: i32) -> i32 {
        if c < i32::MAX {
            (c + 1) as i32
        } else {
            c
        }
    }

    /// A reported coordinate, clamped to the engine's coordinate cap.
    pub open spec fn spec_clamp_pos(v: int) -> i64 {
        if v > Player::POS_CAP {
            Player::POS_CAP
        } else if v < -Player::POS_CAP {
            (-Player::POS_CAP) as i64
        } else {
            v as i64
        }
    }

    /// A reported aim component, clamped to one fixed-point unit.
    pub open spec fn spec_clamp_aim(v: int) -> i64 {
        if v > Player::AIM_ONE {
            Player::AIM_ONE
        } else if v < -Player::AIM_ONE {
            (-Player::AIM_ONE) as i64
        } else {
            v as i64
        }
    }

    fn clamp_pos(v: i64) -> (r: i64)
        ensures
            r == Self::spec_clamp_pos(v as int),
    {
        if v > Player::POS_CAP {
            Player::POS_CAP
        } else if v < -Player::POS_CAP {
            -Player::POS_CAP
        } else {
            v
        }
    }

    fn clamp_aim(v: i64) -> (r: i64)
        ensures
            r == Self::spec_clamp_aim(v as int),
    {
        if v > Player::AIM_ONE {
            Player::AIM_ONE
        } else if v < -Player::AIM_ONE {
            -Player::AIM_ONE
        } else {
            v
        }
    }

    /// A player record after being killed: disarmed, death counted, respawn
    /// countdown started.
    pub open spec fn spec_kill_player(p: Player) -> Player {
        Player {
            alive: false,
            ammo: 0,
            weapon_type: None,
            deaths: Self::spec_bump_i32(p.deaths),
            time_to_respawn: Player::TIME_TO_RESPAWN,
            ..p
        }
    }

    /// The player list after a death: a kill credited to the projectile's
    /// owner — unless the owner killed themself — and the victim killed.
    pub open spec fn spec_apply_death(players: Seq<Player>, k: int, owner: Option<int>) -> Seq<
        Player,
    > {
        let mid = (match owner {
            Some(o) => if o != k {
                players.update(o, (Player {
                    kills: Self::spec_bump_i32(players[o].kills),
                    ..players[o]
                }))
            } else {
                players
            },
            None => players,
        });
        mid.update(k, Self::spec_kill_player(mid[k]))
    }

    /// Law: a death marks exactly the victim — disarmed, ammo gone, death
    /// counted, respawn countdown started — and leaves its kills, health,
    /// position and name untouched.
    pub proof fn lemma_death_victim(players: Seq<Player>, k: int, owner: Option<int>)
        requires
            0 <= k < players.len(),
            (owner matches Some(o) ==> 0 <= o < players.len()),
        ensures
            ({
                let r = Self::spec_apply_death(players, k, owner);
                &&& r.len() == players.len()
                &&& !r[k].alive
                &&& r[k].ammo == 0
                &&& r[k].weapon_type is None
                &&& r[k].deaths == Self::spec_bump_i32(players[k].deaths)
                &&& r[k].time_to_respawn == Player::TIME_TO_RESPAWN
                &&& r[k].kills == players[k].kills
                &&& r[k].health == players[k].health
                &&& r[k].x == players[k].x
                &&& r[k].y == players[k].y
                &&& r[k].name == players[k].name
            }),
    {
    }

    /// Law: the kill is credited exactly once, to the projectile's owner,
    /// and only when the owner is another player; on a self-kill or an
    /// ownerless death no kill counter changes anywhere.
    pub proof fn lemma_death_credit(players: Seq<Player>, k: int, owner: Option<int>)
        requires
            0 <= k < players.len(),
            (owner matches Some(o) ==> 0 <= o < players.len()),
        ensures
            ({
                let r = Self::spec_apply_death(players, k, owner);
                forall|j: int| 0 <= j < players.len() ==> (#[trigger] r[j]).kills == (
                if owner == Some(j) && j != k {
                    Self::spec_bump_i32(players[j].kills)
                } else {
                    players[j].kills
                })
            }),
    {
    }

    /// Kills a player: credits the shooter (never for a self-kill), applies
    /// the death to the victim, and broadcasts the kill to everyone.
    pub fn handle_player_death(
        players: &mut Vec<Player>,
        killed_player_i: usize,
        projectile_owner: Option<usize>,
        out: &mut Vec<Broadcast>,
    )
        requires
            killed_player_i < old(players)@.len(),
            (projectile_owner matches Some(o) ==> o < old(players)@.len()),
        ensures
            final(players)@ == Self::spec_apply_death(
                old(players)@,
                killed_player_i as int,
                (match projectile_owner {
                    Some(o) => Some(o as int),
                    None => None,
                }),
            ),
            final(out)@ == old(out)@.push(Broadcast {
                target: Target::All,
                msg: ServerMsg::KillPlayer { player_i: killed_player_i },
            }),
    {
        if let Some(o) = projectile_owner {
            if o != killed_player_i {
                if players[o].kills < i32::MAX {
                    players[o].kills = players[o].kills + 1;
                }
            }
        }

        players[killed_player_i].kill();

        out.push(Broadcast {
            target: Target::All,
            msg: ServerMsg::KillPlayer { player_i: killed_player_i },
        });
    }

    /// Applies a reported position (clamped to the coordinate cap), forwards
    /// it to every other client, and treats a position outside the map
    /// margin as a death with no killer.
    pub fn handle_pos_update(
        x_bits: u32,
        y_bits: u32,
        x: i64,
        y: i64,
        players: &mut Vec<Player>,
        player_i: usize,
        map: &TerrainMap,
        out: &mut Vec<Broadcast>,
    )
        requires
            player_i < old(players)@.len(),
        ensures
            ({
                let cx = Self::spec_clamp_pos(x as int);
                let cy = Self::spec_clamp_pos(y as int);
                let moved = old(players)@.update(player_i as int, (Player {
                    x: cx,
                    y: cy,
                    ..old(players)@[player_i as int]
                }));
                let dead = CollisionSystem::spec_oob(cx as int, cy as int,
                    map.spec_width() as int, map.spec_height() as int);
                let fwd = Broadcast {
                    target: Target::AllExcept(player_i),
                    msg: ServerMsg::NewPos { player_i, x_bits, y_bits },
                };
                if dead {
                    &&& final(players)@ == Self::spec_apply_death(moved, player_i as int,
                        None)
                    &&& final(out)@ == old(out)@.push(fwd).push(Broadcast {
                        target: Target::All,
                        msg: ServerMsg::KillPlayer { player_i },
                    })
                } else {
                    &&& final(players)@ == moved
                    &&& final(out)@ == old(out)@.push(fwd)
                }
            }),
    {
        let cx = Self::clamp_pos(x);
        let cy = Self::clamp_pos(y);

        players[player_i].x = cx;
        players[player_i].y = cy;

        out.push(Broadcast {
            target: Target::AllExcept(player_i),
            msg: ServerMsg::NewPos { player_i, x_bits, y_bits },
        });

        if CollisionSystem::player_oob(&players[player_i], map) {
            Self::handle_player_death(players, player_i, None, out);
        }
    }

    /// Applies a reported aim angle (direction clamped to unit components)
    /// and forwards it to every other client.
    pub fn handle_angle_update(
        angle_bits: u32,
        aim_x: i64,
        aim_y: i64,
        players: &mut Vec<Player>,
        player_i: usize,
        out: &mut Vec<Broadcast>,
    )
        requires
            player_i < old(players)@.len(),
        ensures
            final(players)@ == old(players)@.update(player_i as int, (Player {
                angle_bits: angle_bits,
                aim_x: Self::spec_clamp_aim(aim_x as int),
                aim_y: Self::spec_clamp_aim(aim_y as int),
                ..old(players)@[player_i as int]
            })),
            final(out)@ == old(out)@.push(Broadcast {
                target: Target::AllExcept(player_i),
                msg: ServerMsg::NewAngle { player_i, angle_bits },
            }),
    {
        players[player_i].angle_bits = angle_bits;
        players[player_i].aim_x = Self::clamp_aim(aim_x);
        players[player_i].aim_y = Self::clamp_aim(aim_y);

        out.push(Broadcast {
            target: Target::AllExcept(player_i),
            msg: ServerMsg::NewAngle { player_i, angle_bits },
        });
    }

    // +----------------+
    // | Weapon pickup  |
    // +----------------+

    /// Within pickup reach of a ground weapon on both axes.
    pub open spec fn spec_weapon_in_range(p: Player, w: Weapon) -> bool {
        &&& -Self::PICKUP_RANGE < p.x - w.x < Self::PICKUP_RANGE
        &&& -Self::PICKUP_RANGE < p.y - w.y < Self::PICKUP_RANGE
    }

    /// Index of the first ground weapon within reach, scanning from `from`.
    pub open spec fn spec_first_weapon_in_range(p: Player, ws: Seq<Weapon>, from: int) -> Option<
        int,
    >
        decreases ws.len() - from,
    {
        if from < 0 || from >= ws.len() {
            None
        } else if Self::spec_weapon_in_range(p, ws[from]) {
            Some(from)
        } else {
            Self::spec_first_weapon_in_range(p, ws, from + 1)
        }
    }

    /// Picks up the first ground weapon within reach, if any: the weapon
    /// leaves the ground (later indices shift down one), the player is armed
    /// with it, and its removal and assignment are broadcast.
    pub fn handle_take_weapon(
        players: &mut Vec<Player>,
        player_i: usize,
        ground_weapons: &mut Vec<Weapon>,
        out: &mut Vec<Broadcast>,
    )
        requires
            player_i < old(players)@.len(),
            old(players)@[player_i as int].wf(),
            forall|j: int| 0 <= j < old(ground_weapons)@.len()
                ==> (#[trigger] old(ground_weapons)@[j]).wf(),
        ensures
            (match Self::spec_first_weapon_in_range(
                old(players)@[player_i as int],
                old(ground_weapons)@,
                0,
            ) {
                Some(k) => {
                    let wt = old(ground_weapons)@[k].weapon_type;
                    &&& 0 <= k < old(ground_weapons)@.len()
                    &&& final(ground_weapons)@ == old(ground_weapons)@.remove(k)
                    &&& final(players)@ == old(players)@.update(player_i as int, (Player {
                        weapon_type: Some(wt),
                        ammo: Weapon::spec_ammo_count(wt as int),
                        ticks_since_last_fire: (-1) as i32,
                        ..old(players)@[player_i as int]
                    }))
                    &&& final(out)@ == old(out)@.push(Broadcast {
                        target: Target::All,
                        msg: ServerMsg::RemoveWeapon { weapon_i: k as usize },
                    }).push(Broadcast {
                        target: Target::All,
                        msg: ServerMsg::AssignWeapon { player_i, weapon_type: wt },
                    })
                },
                None => {
                    &&& final(ground_weapons)@ == old(ground_weapons)@
                    &&& final(players)@ == old(players)@
                    &&& final(out)@ == old(out)@
                },
            }),
    {
        let n = ground_weapons.len();
        let mut weapon_i: usize = 0;

        while weapon_i < n
            invariant
                weapon_i <= n,
                n == ground_weapons@.len(),
                player_i < players@.len(),
                *players == *old(players),
                *ground_weapons == *old(ground_weapons),
                *out == *old(out),
                players@[player_i as int].wf(),
                forall|j: int| 0 <= j < ground_weapons@.len()
                    ==> (#[trigger] ground_weapons@[j]).wf(),
                Self::spec_first_weapon_in_range(players@[player_i as int], ground_weapons@, 0)
                    == Self::spec_first_weapon_in_range(players@[player_i as int],
                    ground_weapons@, weapon_i as int),
            decreases n - weapon_i,
        {
            let dx = players[player_i].x - ground_weapons[weapon_i].x;
            let dy = players[player_i].y - ground_weapons[weapon_i].y;

            if dx < Self::PICKUP_RANGE && dx > -Self::PICKUP_RANGE && dy < Self::PICKUP_RANGE
                && dy > -Self::PICKUP_RANGE {
                let weapon_type = ground_weapons[weapon_i].weapon_type;

                ground_weapons.remove(weapon_i);

                out.push(Broadcast {
                    target: Target::All,
                    msg: ServerMsg::RemoveWeapon { weapon_i },
                });
                out.push(Broadcast {
                    target: Target::All,
                    msg: ServerMsg::AssignWeapon { player_i, weapon_type },
                });

                players[player_i].assign_weapon(weapon_type);

                return;
            }

            weapon_i = weapon_i + 1;
        }
    }

    // +--------+
    // | Firing |
    // +--------+

    /// A velocity component from an aim component and an initial speed:
    /// opposite the aim, scaled back to units per millisecond.
    pub open spec fn spec_fire_vel(aim: int, init_vel: int) -> int {
        if aim >= 0 {
            -((aim * init_vel) / 10000)
        } else {
            ((-aim) * init_vel) / 10000
        }
    }

    /// The projectile a player fires at its current position and aim.
    pub open spec fn spec_fired_projectile(p: Player, player_i: int) -> Projectile {
        let wt = p.weapon_type->Some_0 as int;
        let pt = Weapon::spec_weapon_projectile_type(wt);
        let iv = Projectile::spec_init_vel(pt as int) as int;
        Projectile {
            projectile_type: pt,
            x: (p.x - p.aim_x * 42) as i64,
            y: (p.y - p.aim_y * 42) as i64,
            vel_x: Self::spec_fire_vel(p.aim_x as int, iv) as i64,
            vel_y: Self::spec_fire_vel(p.aim_y as int, iv) as i64,
            owner: player_i as usize,
        }
    }

    /// Whether a player fires this tick: armed, past the fire cooldown,
    /// trigger pulled, and ammo left.
    pub open spec fn spec_fires(p: Player) -> bool {
        &&& p.weapon_type is Some
        &&& !(p.ticks_since_last_fire > -1 && p.ticks_since_last_fire
            <= Weapon::spec_ticks_per_fire(p.weapon_type->Some_0 as int))
        &&& p.trigger_pulled
        &&& p.ammo > 0
    }

    /// Whether a player is only counting down its fire cooldown this tick.
    pub open spec fn spec_cooling_down(p: Player) -> bool {
        &&& p.weapon_type is Some
        &&& p.ticks_since_last_fire > -1
        &&& p.ticks_since_last_fire <= Weapon::spec_ticks_per_fire(p.weapon_type->Some_0 as int)
    }

    /// One player's firing step. A player with no ammo never spawns a
    /// projectile, whatever the trigger state; a firing player spends one
    /// round, resets the cooldown, and the new projectile is broadcast to
    /// all with an ammo notice to the shooter alone.
    pub fn fire_weapon_step(
        players: &mut Vec<Player>,
        player_i: usize,
        projectiles: &mut Vec<Projectile>,
        out: &mut Vec<Broadcast>,
    )
        requires
            player_i < old(players)@.len(),
            old(players)@[player_i as int].wf(),
        ensures
            final(players)@.len() == old(players)@.len(),
            forall|i: int| 0 <= i < old(players)@.len() && i != player_i
                ==> final(players)@[i] == old(players)@[i],
            final(players)@[player_i as int].wf(),
            ({
                let p = old(players)@[player_i as int];
                if Self::spec_cooling_down(p) {
                    &&& final(players)@ == old(players)@.update(player_i as int, (Player {
                        ticks_since_last_fire: (p.ticks_since_last_fire + 1) as i32,
                        ..p
                    }))
                    &&& final(projectiles)@ == old(projectiles)@
                    &&& final(out)@ == old(out)@
                } else if Self::spec_fires(p) {
                    let proj = Self::spec_fired_projectile(p, player_i as int);
                    &&& final(players)@ == old(players)@.update(player_i as int, (Player {
                        ticks_since_last_fire: 0 as i32,
                        ammo: (p.ammo - 1) as i32,
                        ..p
                    }))
                    &&& final(projectiles)@ == old(projectiles)@.push(proj)
                    &&& final(out)@ == old(out)@.push(Broadcast {
                        target: Target::All,
                        msg: ServerMsg::NewProjectile {
                            projectile_type: proj.projectile_type,
                            x: proj.x,
                            y: proj.y,
                            vel_x: proj.vel_x,
                            vel_y: proj.vel_y,
                        },
                    }).push(Broadcast {
                        target: Target::One(player_i),
                        msg: ServerMsg::RemoveAmmo,
                    })
                } else {
                    &&& final(players)@ == old(players)@
                    &&& final(projectiles)@ == old(projectiles)@
                    &&& final(out)@ == old(out)@
                }
            }),
    {
        let weapon_type = match players[player_i].weapon_type {
            Some(wt) => wt,
            None => {
                return;
            },
        };

        let ticks_per_fire = Weapon::weapon_type_of(weapon_type).ticks_per_fire;

        if players[player_i].ticks_since_last_fire > -1
            && players[player_i].ticks_since_last_fire <= ticks_per_fire {
            players[player_i].ticks_since_last_fire = players[player_i].ticks_since_last_fire + 1;
            return;
        }

        if !players[player_i].trigger_pulled {
            return;
        }

        if players[player_i].ammo <= 0 {
            return;
        }

        let projectile_type = Weapon::weapon_type_of(weapon_type).projectile_type;
        let init_vel = Projectile::projectile_type_of(projectile_type).init_vel;

        let aim_x = players[player_i].aim_x;
        let aim_y = players[player_i].aim_y;

        proof {
            crate::vel_system::lemma_product_bounded(aim_x as int, init_vel as int, 10000, 17000);
            crate::vel_system::lemma_product_bounded(aim_y as int, init_vel as int, 10000, 17000);
            crate::vel_system::lemma_product_bounded(-(aim_x as int), init_vel as int, 10000,
                17000);
            crate::vel_system::lemma_product_bounded(-(aim_y as int), init_vel as int, 10000,
                17000);
        }

        let vel_x = if aim_x >= 0 {
            -((aim_x * init_vel) / 10000)
        } else {
            ((-aim_x) * init_vel) / 10000
        };
        let vel_y = if aim_y >= 0 {
            -((aim_y * init_vel) / 10000)
        } else {
            ((-aim_y) * init_vel) / 10000
        };

        let init_x = players[player_i].x - aim_x * 42;
        let init_y = players[player_i].y - aim_y * 42;

        let new_projectile = Projectile {
            projectile_type,
            x: init_x,
            y: init_y,
            vel_x,
            vel_y,
            owner: player_i,
        };

        out.push(Broadcast {
            target: Target::All,
            msg: ServerMsg::NewProjectile {
                projectile_type: new_projectile.projectile_type,
                x: new_projectile.x,
                y: new_projectile.y,
                vel_x: new_projectile.vel_x,
                vel_y: new_projectile.vel_y,
            },
        });
        out.push(Broadcast {
            target: Target::One(player_i),
            msg: ServerMsg::RemoveAmmo,
        });

        projectiles.push(new_projectile);

        players[player_i].ticks_since_last_fire = 0;
        players[player_i].ammo = players[player_i].ammo - 1;
    }

    /// One player's firing-pass transition: cooldown counting, a fired
    /// round, or no change.
    pub open spec fn spec_fire_step_player(p: Player) -> Player {
        if Self::spec_cooling_down(p) {
            Player { ticks_since_last_fire: (p.ticks_since_last_fire + 1) as i32, ..p }
        } else if Self::spec_fires(p) {
            Player { ticks_since_last_fire: 0 as i32, ammo: (p.ammo - 1) as i32, ..p }
        } else {
            p
        }
    }

    /// The whole firing pass, player by player.
    pub open spec fn spec_fire_pass(players: Seq<Player>) -> Seq<Player> {
        Seq::new(players.len(), |i: int| Self::spec_fire_step_player(players[i]))
    }

    /// The projectiles one firing pass appends: one per firing player, in
    /// player order.
    pub open spec fn spec_fired_projectiles(players: Seq<Player>, upto: int) -> Seq<Projectile>
        decreases upto,
    {
        if upto <= 0 {
            Seq::empty()
        } else {
            Self::spec_fired_projectiles(players, upto - 1) + (if Self::spec_fires(
                players[upto - 1],
            ) {
                seq![Self::spec_fired_projectile(players[upto - 1], upto - 1)]
            } else {
                Seq::empty()
            })
        }
    }

    /// The broadcasts one firing pass owes: per firing player in order, its
    /// new projectile to everyone and an ammo notice to the shooter alone.
    pub open spec fn spec_fire_msgs(players: Seq<Player>, upto: int) -> Seq<Broadcast>
        decreases upto,
    {
        if upto <= 0 {
            Seq::empty()
        } else {
            Self::spec_fire_msgs(players, upto - 1) + (if Self::spec_fires(players[upto - 1]) {
                let proj = Self::spec_fired_projectile(players[upto - 1], upto - 1);
                seq![
                    Broadcast {
                        target: Target::All,
                        msg: ServerMsg::NewProjectile {
                            projectile_type: proj.projectile_type,
                            x: proj.x,
                            y: proj.y,
                            vel_x: proj.vel_x,
                            vel_y: proj.vel_y,
                        },
                    },
                    Broadcast {
                        target: Target::One((upto - 1) as usize),
                        msg: ServerMsg::RemoveAmmo,
                    },
                ]
            } else {
                Seq::empty()
            })
        }
    }

    /// One firing pass over all players. A projectile is appended exactly
    /// for each player that fires this tick — armed, cooled down, trigger
    /// pulled and, above all, ammo left: a player with no ammo never spawns
    /// a projectile, whatever its trigger state — and each firing is
    /// broadcast: the projectile to everyone, an ammo notice to the shooter.
    pub fn handle_weapons(
        players: &mut Vec<Player>,
        projectiles: &mut Vec<Projectile>,
        out: &mut Vec<Broadcast>,
    )
        requires
            forall|i: int| 0 <= i < old(players)@.len() ==> (#[trigger] old(players)@[i]).wf(),
        ensures
            final(players)@.len() == old(players)@.len(),
            forall|i: int| 0 <= i < old(players)@.len() ==> (#[trigger] final(players)@[i]).wf(),
            forall|i: int| 0 <= i < old(players)@.len() ==> final(players)@[i] == ({
                let p = #[trigger] old(players)@[i];
                if Self::spec_cooling_down(p) {
                    Player { ticks_since_last_fire: (p.ticks_since_last_fire + 1) as i32, ..p }
                } else if Self::spec_fires(p) {
                    Player { ticks_since_last_fire: 0 as i32, ammo: (p.ammo - 1) as i32, ..p }
                } else {
                    p
                }
            }),
            old(projectiles)@.len() <= final(projectiles)@.len(),
            forall|j: int| 0 <= j < old(projectiles)@.len()
                ==> final(projectiles)@[j] == old(projectiles)@[j],
            forall|j: int| old(projectiles)@.len() <= j < final(projectiles)@.len() ==> ({
                let pr = #[trigger] final(projectiles)@[j];
                &&& pr.owner < old(players)@.len()
                &&& Self::spec_fires(old(players)@[pr.owner as int])
                &&& pr == Self::spec_fired_projectile(old(players)@[pr.owner as int],
                    pr.owner as int)
            }),
            final(players)@ == Self::spec_fire_pass(old(players)@),
            final(projectiles)@ == old(projectiles)@ + Self::spec_fired_projectiles(
                old(players)@,
                old(players)@.len() as int,
            ),
            final(out)@ == old(out)@ + Self::spec_fire_msgs(old(players)@,
                old(players)@.len() as int),
            old(out)@.is_prefix_of(final(out)@),
    {
        let n = players.len();
        let mut player_i: usize = 0;

        while player_i < n
            invariant
                player_i <= n,
                n == players@.len(),
                n == old(players)@.len(),
                forall|i: int| 0 <= i < n ==> (#[trigger] players@[i]).wf(),
                forall|i: int| player_i <= i < n ==> players@[i] == old(players)@[i],
                forall|i: int| 0 <= i < player_i ==> players@[i] == ({
                    let p = #[trigger] old(players)@[i];
                    if Self::spec_cooling_down(p) {
                        Player {
                            ticks_since_last_fire: (p.ticks_since_last_fire + 1) as i32,
                            ..p
                        }
                    } else if Self::spec_fires(p) {
                        Player { ticks_since_last_fire: 0 as i32, ammo: (p.ammo - 1) as i32, ..p }
                    } else {
                        p
                    }
                }),
                old(projectiles)@.len() <= projectiles@.len(),
                forall|j: int| 0 <= j < old(projectiles)@.len()
                    ==> projectiles@[j] == old(projectiles)@[j],
                forall|j: int| old(projectiles)@.len() <= j < projectiles@.len() ==> ({
                    let pr = #[trigger] projectiles@[j];
                    &&& pr.owner < n
                    &&& Self::spec_fires(old(players)@[pr.owner as int])
                    &&& pr == Self::spec_fired_projectile(old(players)@[pr.owner as int],
                        pr.owner as int)
                }),
                projectiles@ == old(projectiles)@ + Self::spec_fired_projectiles(old(players)@,
                    player_i as int),
                out@ == old(out)@ + Self::spec_fire_msgs(old(players)@, player_i as int),
                old(out)@.is_prefix_of(out@),
            decreases n - player_i,
        {
            Self::fire_weapon_step(players, player_i, projectiles, out);

            proof {
                assert(projectiles@ =~= old(projectiles)@ + Self::spec_fired_projectiles(
                    old(players)@,
                    player_i as int + 1,
                ));
                assert(out@ =~= old(out)@ + Self::spec_fire_msgs(old(players)@,
                    player_i as int + 1));
            }

            player_i = player_i + 1;
        }

        proof {
            assert(players@ =~= Self::spec_fire_pass(old(players)@));
        }
    }

    // +--------------------+
    // | Explosion damage   |
    // +--------------------+

    /// How many of the first `upto` footprint pixels fall inside the box of
    /// a player standing at (x, y).
    pub open spec fn spec_overlap_count(pixels: Seq<(i32, i32)>, x: int, y: int, upto: int) -> int
        decreases upto,
    {
        if upto <= 0 {
            0
        } else {
            Self::spec_overlap_count(pixels, x, y, upto - 1) + (if ({
                let px = pixels[upto - 1].0 as int * 10000;
                let py = pixels[upto - 1].1 as int * 10000;
                px < x + 120000 && px > x - 120000 && py < y + 320000 && py > y - 320000
            }) {
                1int
            } else {
                0int
            })
        }
    }

    proof fn lemma_overlap_count_bounds(pixels: Seq<(i32, i32)>, x: int, y: int, upto: int)
        requires
            0 <= upto <= pixels.len(),
        ensures
            0 <= Self::spec_overlap_count(pixels, x, y, upto) <= upto,
        decreases upto,
    {
        if upto > 0 {
            Self::lemma_overlap_count_bounds(pixels, x, y, upto - 1);
        }
    }

    /// The overlapping pixels that actually deal damage: damage is applied
    /// pixel by pixel only while the player lives, so it stops at the pixel
    /// whose hit takes health below zero.
    pub open spec fn spec_applied_pixels(p: Player, d: int, ov: int) -> int {
        let need = p.health as int / d + 1;
        if ov >= need {
            need
        } else {
            ov
        }
    }

    /// A player after one explosion's damage: the per-pixel damage for each
    /// overlapping footprint pixel while still alive; the killing pixel is
    /// the last one applied.
    pub open spec fn spec_damaged_player(p: Player, d: int, ov: int) -> Player {
        if p.alive && ov > 0 && d > 0 {
            let h = p.health - d * Self::spec_applied_pixels(p, d, ov);
            if h < 0 {
                Self::spec_kill_player(Player { health: h as i64, ..p })
            } else {
                Player { health: h as i64, ..p }
            }
        } else {
            p
        }
    }

    /// Whether this explosion kills the player: it overlaps at least the
    /// pixels needed to take health below zero.
    pub open spec fn spec_dies(p: Player, d: int, ov: int) -> bool {
        p.alive && ov > 0 && d > 0 && ov >= p.health as int / d + 1
    }

    /// The player list after an explosion has been applied to the first
    /// `upto` players, in index order: each takes its overlap damage, and
    /// each death credits the projectile's owner — never for a self-kill.
    pub open spec fn spec_apply_explosion(
        players: Seq<Player>,
        pixels: Seq<(i32, i32)>,
        d: int,
        owner: int,
        upto: int,
    ) -> Seq<Player>
        decreases upto,
    {
        if upto <= 0 {
            players
        } else {
            let prev = Self::spec_apply_explosion(players, pixels, d, owner, upto - 1);
            let i = upto - 1;
            let ov = Self::spec_overlap_count(pixels, players[i].x as int, players[i].y as int,
                pixels.len() as int);
            let updated = prev.update(i, Self::spec_damaged_player(prev[i], d, ov));
            if Self::spec_dies(prev[i], d, ov) && owner != i {
                updated.update(owner, (Player {
                    kills: Self::spec_bump_i32(updated[owner].kills),
                    ..updated[owner]
                }))
            } else {
                updated
            }
        }
    }

    /// The kill broadcasts an explosion owes, in victim order.
    pub open spec fn spec_explosion_kill_msgs(
        players: Seq<Player>,
        pixels: Seq<(i32, i32)>,
        d: int,
        owner: int,
        upto: int,
    ) -> Seq<Broadcast>
        decreases upto,
    {
        if upto <= 0 {
            Seq::empty()
        } else {
            let i = upto - 1;
            let prev = Self::spec_apply_explosion(players, pixels, d, owner, i);
            let ov = Self::spec_overlap_count(pixels, players[i].x as int, players[i].y as int,
                pixels.len() as int);
            Self::spec_explosion_kill_msgs(players, pixels, d, owner, i) + (if Self::spec_dies(
                prev[i],
                d,
                ov,
            ) {
                seq![
                    Broadcast {
                        target: Target::All,
                        msg: ServerMsg::KillPlayer { player_i: i as usize },
                    },
                ]
            } else {
                Seq::empty()
            })
        }
    }

    /// The pixels an explosion of this projectile covers: the single centre
    /// pixel for the minimum radius, the circle fill otherwise.
    pub open spec fn spec_explosion_pixels(p: Projectile) -> Seq<(i32, i32)> {
        let radius = Projectile::spec_damage_radius(p.projectile_type as int) as int;
        let px = p.x as int / 10000;
        let py = p.y as int / 10000;
        if radius <= 1 {
            seq![((px as i32), (py as i32))]
        } else {
            Projectile::spec_footprint(radius, px, py)
        }
    }

    proof fn lemma_push_contains<T>(s: Seq<T>, x: T, y: T)
        ensures
            s.push(x).contains(y) <==> (s.contains(y) || x == y),
    {
        if s.push(x).contains(y) {
            let i = choose|i: int| 0 <= i < s.push(x).len() && s.push(x)[i] == y;
            if i < s.len() {
                assert(s[i] == y);
            }
        }
        if s.contains(y) {
            let i = choose|i: int| 0 <= i < s.len() && s[i] == y;
            assert(s.push(x)[i] == y);
        }
        if x == y {
            assert(s.push(x)[s.len() as int] == y);
        }
    }

    /// Applying an explosion to the first `upto` players leaves every later
    /// player untouched — except that the owner may have gathered kills —
    /// and never changes the list's length.
    proof fn lemma_apply_explosion_frame(
        players: Seq<Player>,
        pixels: Seq<(i32, i32)>,
        d: int,
        owner: int,
        upto: int,
    )
        requires
            0 <= upto <= players.len(),
            0 <= owner < players.len(),
        ensures
            ({
                let r = Self::spec_apply_explosion(players, pixels, d, owner, upto);
                &&& r.len() == players.len()
                &&& forall|j: int| upto <= j < players.len() && j != owner
                    ==> r[j] == players[j]
                &&& upto <= owner ==> r[owner] == (Player {
                    kills: r[owner].kills,
                    ..players[owner]
                })
            }),
        decreases upto,
    {
        if upto > 0 {
            Self::lemma_apply_explosion_frame(players, pixels, d, owner, upto - 1);
        }
    }

    /// Resolves one explosion: every living player overlapped by the
    /// footprint takes the per-pixel damage for each overlapping pixel,
    /// applied only while the player lives — the killing pixel is the last
    /// one applied — crediting the owner unless they killed themself;
    /// overlapped terrain pixels are carved out; and the kill notices, one
    /// explosion, one projectile destruction and one health update per
    /// damaged player are broadcast, in that order.
    pub fn handle_projectile_damage(
        players: &mut Vec<Player>,
        projectile: &Projectile,
        projectile_i: usize,
        map: &mut TerrainMap,
        out: &mut Vec<Broadcast>,
    )
        requires
            old(map).wf(),
            projectile.projectile_type < Projectile::PROJECTILE_TYPE_COUNT,
            0 <= projectile.x <= 1_000_000_000,
            0 <= projectile.y <= 1_000_000_000,
            projectile.owner < old(players)@.len(),
            forall|i: int| 0 <= i < old(players)@.len() ==> (#[trigger] old(players)@[i]).wf(),
        ensures
            final(players)@.len() == old(players)@.len(),
            forall|i: int| 0 <= i < old(players)@.len() ==> (#[trigger] final(players)@[i]).wf(),
            final(map).wf(),
            final(map).spec_width() == old(map).spec_width(),
            final(map).spec_height() == old(map).spec_height(),
            ({
                let pixels = Self::spec_explosion_pixels(*projectile);
                let d = Projectile::spec_damage(projectile.projectile_type as int) as int;
                let owner = projectile.owner as int;
                let len = old(players)@.len() as int;
                &&& final(players)@ == Self::spec_apply_explosion(old(players)@, pixels, d,
                    owner, len)
                &&& (forall|a: int, b: int| #[trigger] final(map).solid(a, b) == (old(map).solid(
                    a,
                    b,
                ) && !pixels.contains((((a as i32), (b as i32))))))
                &&& final(out)@ == old(out)@ + Self::spec_explosion_kill_msgs(old(players)@,
                    pixels, d, owner, len) + seq![
                    Broadcast {
                        target: Target::All,
                        msg: ServerMsg::ProjectileExplosion {
                            projectile_type: projectile.projectile_type,
                            x: projectile.x,
                            y: projectile.y,
                        },
                    },
                    Broadcast {
                        target: Target::All,
                        msg: ServerMsg::DestroyProjectile { projectile_i },
                    },
                ] + Self::spec_explosion_health_msgs(old(players)@, final(players)@, pixels, len)
            }),
    {
        let destroy_pixels = projectile.draw_explosion();
        let ghost pixels = destroy_pixels@;
        let damage = Projectile::projectile_type_of(projectile.projectile_type).damage;
        let owner = projectile.owner;
        let n = players.len();
        let npix = destroy_pixels.len();

        proof {
            let radius = Projectile::spec_damage_radius(projectile.projectile_type as int) as int;
            let cpx = projectile.x as int / 10000;
            let cpy = projectile.y as int / 10000;
            if radius > 1 {
                Projectile::lemma_footprint_len(radius, cpx, cpy);
                assert(radius == 40);
                assert(pixels.len() <= 81 * 82);
            } else {
                assert(pixels.len() == 1);
            }
            assert(npix <= 6724);
        }

        // Overlap counts and pre-damage liveness, before anything mutates.
        let mut overlaps: Vec<i64> = Vec::new();
        let mut alive0: Vec<bool> = Vec::new();
        let mut i: usize = 0;

        while i < n
            invariant
                i <= n,
                n == players@.len(),
                *players == *old(players),
                overlaps@.len() == i,
                alive0@.len() == i,
                npix == pixels.len(),
                npix <= 6724,
                destroy_pixels@ == pixels,
                forall|k: int| 0 <= k < n ==> (#[trigger] players@[k]).wf(),
                forall|k: int| 0 <= k < i ==> #[trigger] overlaps@[k] == Self::spec_overlap_count(
                    pixels, players@[k].x as int, players@[k].y as int, pixels.len() as int)
                    && 0 <= overlaps@[k] <= pixels.len(),
                forall|k: int| 0 <= k < i ==> #[trigger] alive0@[k] == players@[k].alive,
            decreases n - i,
        {
            let mut count: i64 = 0;
            let mut j: usize = 0;

            while j < npix
                invariant
                    j <= npix,
                    npix <= 6724,
                    i < n,
                    n == players@.len(),
                    npix == destroy_pixels@.len(),
                    destroy_pixels@ == pixels,
                    players@[i as int].wf(),
                    count == Self::spec_overlap_count(pixels, players@[i as int].x as int,
                        players@[i as int].y as int, j as int),
                    0 <= count <= j,
                decreases npix - j,
            {
                let (pxx, pyy) = destroy_pixels[j];

                if CollisionSystem::point_collide_player((pxx as i64) * 10000, (pyy as i64)
                    * 10000, &players[i]) {
                    count = count + 1;
                }

                j = j + 1;
            }

            overlaps.push(count);
            alive0.push(players[i].alive);
            i = i + 1;
        }

        // Damage pass, in player order; deaths credit the owner at once.
        let ghost old_players = players@;
        let ghost dd = Projectile::spec_damage(projectile.projectile_type as int) as int;
        let ghost ow = owner as int;
        let mut i2: usize = 0;

        while i2 < n
            invariant
                i2 <= n,
                n == old_players.len(),
                players@.len() == n,
                owner < n,
                ow == owner as int,
                npix == pixels.len(),
                npix <= 6724,
                destroy_pixels@ == pixels,
                overlaps@.len() == n,
                alive0@.len() == n,
                1 <= damage <= 300,
                damage == dd,
                forall|k: int| 0 <= k < n ==> #[trigger] overlaps@[k] == Self::spec_overlap_count(
                    pixels, old_players[k].x as int, old_players[k].y as int, pixels.len() as int)
                    && 0 <= overlaps@[k] <= pixels.len(),
                forall|k: int| 0 <= k < n ==> #[trigger] alive0@[k] == old_players[k].alive,
                forall|k: int| 0 <= k < n ==> (#[trigger] old_players[k]).wf(),
                forall|k: int| 0 <= k < n ==> (#[trigger] players@[k]).wf(),
                players@ == Self::spec_apply_explosion(old_players, pixels, dd, ow, i2 as int),
                out@ == old(out)@ + Self::spec_explosion_kill_msgs(old_players, pixels, dd, ow,
                    i2 as int),
            decreases n - i2,
        {
            proof {
                Self::lemma_apply_explosion_frame(old_players, pixels, dd, ow, i2 as int);
            }

            let ghost prev = players@;
            let ghost ov = overlaps@[i2 as int] as int;

            if players[i2].alive && overlaps[i2] > 0 {
                let need = players[i2].health / damage + 1;
                let applied = if overlaps[i2] < need {
                    overlaps[i2]
                } else {
                    need
                };

                proof {
                    let h = players@[i2 as int].health as int;
                    let dmg = damage as int;
                    let q = h / dmg;
                    assert(0 <= q <= h && dmg * q <= h && h < dmg * (q + 1))
                        by (nonlinear_arith)
                        requires
                            h >= 0,
                            1 <= dmg,
                            q == h / dmg,
                    ;
                    if ov < q + 1 {
                        assert(dmg * ov <= dmg * q) by (nonlinear_arith)
                            requires
                                0 <= ov <= q,
                                0 <= dmg,
                        ;
                    }
                    crate::vel_system::lemma_product_bounded(dmg, applied as int, 300, 10001);
                }

                let total = damage * applied;
                players[i2].health = players[i2].health - total;

                if players[i2].health < 0 {
                    if owner != i2 {
                        if players[owner].kills < i32::MAX {
                            players[owner].kills = players[owner].kills + 1;
                        }
                    }

                    players[i2].kill();

                    out.push(Broadcast {
                        target: Target::All,
                        msg: ServerMsg::KillPlayer { player_i: i2 },
                    });
                }
            }

            proof {
                let step = Self::spec_apply_explosion(old_players, pixels, dd, ow, i2 as int + 1);
                let damaged = Self::spec_damaged_player(prev[i2 as int], dd, ov);
                let updated = prev.update(i2 as int, damaged);

                if Self::spec_dies(prev[i2 as int], dd, ov) && ow != i2 as int {
                    assert(players@ =~= updated.update(ow, (Player {
                        kills: Self::spec_bump_i32(updated[ow].kills),
                        ..updated[ow]
                    })));
                } else {
                    assert(players@ =~= updated);
                }

                assert(players@ =~= step);

                let kmsgs = Self::spec_explosion_kill_msgs(old_players, pixels, dd, ow,
                    i2 as int + 1);
                assert(out@ =~= old(out)@ + kmsgs);
            }

            i2 = i2 + 1;
        }

        // One explosion and one destruction notice for everyone.
        let ghost finals = players@;
        let ghost kill_msgs = Self::spec_explosion_kill_msgs(old_players, pixels, dd, ow,
            n as int);

        out.push(Broadcast {
            target: Target::All,
            msg: ServerMsg::ProjectileExplosion {
                projectile_type: projectile.projectile_type,
                x: projectile.x,
                y: projectile.y,
            },
        });
        out.push(Broadcast {
            target: Target::All,
            msg: ServerMsg::DestroyProjectile { projectile_i },
        });

        let ghost mid_msgs = seq![
            Broadcast {
                target: Target::All,
                msg: ServerMsg::ProjectileExplosion {
                    projectile_type: projectile.projectile_type,
                    x: projectile.x,
                    y: projectile.y,
                },
            },
            Broadcast { target: Target::All, msg: ServerMsg::DestroyProjectile { projectile_i } },
        ];

        proof {
            assert(out@ =~= old(out)@ + kill_msgs + mid_msgs);
        }

        // One health update to each damaged player, in index order.
        let mut i3: usize = 0;

        while i3 < n
            invariant
                i3 <= n,
                n == old_players.len(),
                players@ == finals,
                players@.len() == n,
                npix == pixels.len(),
                destroy_pixels@ == pixels,
                overlaps@.len() == n,
                alive0@.len() == n,
                forall|k: int| 0 <= k < n ==> #[trigger] overlaps@[k] == Self::spec_overlap_count(
                    pixels, old_players[k].x as int, old_players[k].y as int, pixels.len() as int)
                    && 0 <= overlaps@[k] <= pixels.len(),
                forall|k: int| 0 <= k < n ==> #[trigger] alive0@[k] == old_players[k].alive,
                out@ == old(out)@ + kill_msgs + mid_msgs + Self::spec_explosion_health_msgs(
                    old_players, finals, pixels, i3 as int),
            decreases n - i3,
        {
            if alive0[i3] && overlaps[i3] > 0 {
                out.push(Broadcast {
                    target: Target::One(i3),
                    msg: ServerMsg::UpdateHealth { health: players[i3].health },
                });
            }

            proof {
                assert(out@ =~= old(out)@ + kill_msgs + mid_msgs
                    + Self::spec_explosion_health_msgs(old_players, finals, pixels,
                    i3 as int + 1));
            }

            i3 = i3 + 1;
        }

        // Carve the footprint out of the terrain.
        let mut k: usize = 0;

        while k < npix
            invariant
                k <= npix,
                npix == pixels.len(),
                destroy_pixels@ == pixels,
                map.wf(),
                map.spec_width() == old(map).spec_width(),
                map.spec_height() == old(map).spec_height(),
                forall|a: int, b: int| #[trigger] map.solid(a, b) == (old(map).solid(a, b)
                    && !pixels.take(k as int).contains((((a as i32), (b as i32))))),
            decreases npix - k,
        {
            let (pxx, pyy) = destroy_pixels[k];
            let ghost map_before = *map;

            proof {
                assert(pixels.take(k as int + 1) =~= pixels.take(k as int).push(
                    pixels[k as int]));
            }

            if pxx >= 0 && pyy >= 0 && (pxx as u32) < map.width() && (pyy as u32) < map.height() {
                map.clear_pixel(pxx as u32, pyy as u32);

                proof {
                    assert forall|a: int, b: int| #[trigger] map.solid(a, b) == (old(map).solid(
                        a,
                        b,
                    ) && !pixels.take(k as int + 1).contains((((a as i32), (b as i32))))) by {
                        let p = ((a as i32), (b as i32));
                        Self::lemma_push_contains(pixels.take(k as int), pixels[k as int], p);

                        map.lemma_solid_in_bounds(a, b);
                        old(map).lemma_solid_in_bounds(a, b);
                        map_before.lemma_solid_in_bounds(a, b);
                        map.lemma_wf_dims();

                        if 0 <= a < map.spec_width() && 0 <= b < map.spec_height() {
                            if a == pxx as int && b == pyy as int {
                                assert(p == pixels[k as int]);
                                assert(!map.solid(a, b));
                            } else {
                                assert(map.solid(a, b) == map_before.solid(a, b));
                                if p == pixels[k as int] {
                                    assert(a == pxx as int && b == pyy as int);
                                }
                            }
                        } else {
                            assert(!map.solid(a, b));
                            assert(!old(map).solid(a, b));
                        }
                    }
                }
            } else {
                proof {
                    assert forall|a: int, b: int| #[trigger] map.solid(a, b) == (old(map).solid(
                        a,
                        b,
                    ) && !pixels.take(k as int + 1).contains((((a as i32), (b as i32))))) by {
                        let p = ((a as i32), (b as i32));
                        Self::lemma_push_contains(pixels.take(k as int), pixels[k as int], p);

                        old(map).lemma_solid_in_bounds(a, b);
                        map.lemma_wf_dims();

                        if old(map).solid(a, b) {
                            assert(0 <= a < map.spec_width() && 0 <= b < map.spec_height());
                            if p == pixels[k as int] {
                                assert(pxx as int == a && pyy as int == b);
                                assert(pxx >= 0 && pyy >= 0);
                                assert((pxx as u32) < map.spec_width());
                                assert((pyy as u32) < map.spec_height());
                                assert(false);
                            }
                        }
                    }
                }
            }

            k = k + 1;
        }

        proof {
            assert(pixels.take(npix as int) =~= pixels);
            assert forall|a: int, b: int| #[trigger] map.solid(a, b) == (old(map).solid(a, b)
                && !pixels.contains((((a as i32), (b as i32))))) by {
            }
        }
    }

    /// A projectile the engine is still flying: catalogued type, a live
    /// owner index, coordinates within the engine's range, bullet-speed
    /// horizontal velocity and a vertical velocity no faster than anything
    /// that could still be over the map.
    pub open spec fn spec_projectile_in_flight(p: Projectile, num_players: int) -> bool {
        &&& p.projectile_type < Projectile::PROJECTILE_TYPE_COUNT
        &&& (p.owner as int) < num_players
        &&& -1_100_000_000_000 <= p.x <= 1_100_000_000_000
        &&& -1_100_000_000_000 <= p.y <= 1_100_000_000_000
        &&& -20_000 <= p.vel_x <= 20_000
        &&& -330_000_024 <= p.vel_y <= 330_000_024
    }

    /// How many broadcasts in a list destroy a projectile.
    pub open spec fn spec_count_destroy_msgs(msgs: Seq<Broadcast>) -> int
        decreases msgs.len(),
    {
        if msgs.len() == 0 {
            0
        } else {
            Self::spec_count_destroy_msgs(msgs.drop_last()) + (if msgs.last().msg
                matches ServerMsg::DestroyProjectile { .. } {
                1int
            } else {
                0int
            })
        }
    }

    proof fn lemma_count_destroy_push(s: Seq<Broadcast>, m: Broadcast)
        ensures
            Self::spec_count_destroy_msgs(s.push(m)) == Self::spec_count_destroy_msgs(s) + (
            if m.msg matches ServerMsg::DestroyProjectile { .. } {
                1int
            } else {
                0int
            }),
    {
        assert(s.push(m).drop_last() =~= s);
        assert(s.push(m).last() == m);
    }

    proof fn lemma_count_destroy_concat(a: Seq<Broadcast>, b: Seq<Broadcast>)
        ensures
            Self::spec_count_destroy_msgs(a + b) == Self::spec_count_destroy_msgs(a)
                + Self::spec_count_destroy_msgs(b),
        decreases b.len(),
    {
        if b.len() == 0 {
            assert(a + b =~= a);
        } else {
            assert((a + b).drop_last() =~= a + b.drop_last());
            assert((a + b).last() == b.last());
            Self::lemma_count_destroy_concat(a, b.drop_last());
        }
    }

    proof fn lemma_count_destroy_kill_msgs(
        players: Seq<Player>,
        pixels: Seq<(i32, i32)>,
        d: int,
        owner: int,
        upto: int,
    )
        ensures
            Self::spec_count_destroy_msgs(Self::spec_explosion_kill_msgs(players, pixels, d,
                owner, upto)) == 0,
        decreases upto,
    {
        assert(Self::spec_count_destroy_msgs(Seq::<Broadcast>::empty()) == 0);

        if upto > 0 {
            Self::lemma_count_destroy_kill_msgs(players, pixels, d, owner, upto - 1);
            let i = upto - 1;
            let prev = Self::spec_apply_explosion(players, pixels, d, owner, i);
            let ov = Self::spec_overlap_count(pixels, players[i].x as int, players[i].y as int,
                pixels.len() as int);
            let block: Seq<Broadcast> = if Self::spec_dies(prev[i], d, ov) {
                seq![
                    Broadcast {
                        target: Target::All,
                        msg: ServerMsg::KillPlayer { player_i: i as usize },
                    },
                ]
            } else {
                Seq::empty()
            };
            assert(Self::spec_explosion_kill_msgs(players, pixels, d, owner, upto)
                == Self::spec_explosion_kill_msgs(players, pixels, d, owner, i) + block);
            Self::lemma_count_destroy_concat(Self::spec_explosion_kill_msgs(players, pixels, d,
                owner, i), block);
            if block.len() == 1 {
                assert(block.drop_last() =~= Seq::<Broadcast>::empty());
                assert(Self::spec_count_destroy_msgs(block) == 0);
            }
        }
    }

    proof fn lemma_count_destroy_health_msgs(
        players: Seq<Player>,
        finals: Seq<Player>,
        pixels: Seq<(i32, i32)>,
        upto: int,
    )
        ensures
            Self::spec_count_destroy_msgs(Self::spec_explosion_health_msgs(players, finals,
                pixels, upto)) == 0,
        decreases upto,
    {
        assert(Self::spec_count_destroy_msgs(Seq::<Broadcast>::empty()) == 0);

        if upto > 0 {
            Self::lemma_count_destroy_health_msgs(players, finals, pixels, upto - 1);
            let i = upto - 1;
            let ov = Self::spec_overlap_count(pixels, players[i].x as int, players[i].y as int,
                pixels.len() as int);
            let block: Seq<Broadcast> = if players[i].alive && ov > 0 {
                seq![
                    Broadcast {
                        target: Target::One(i as usize),
                        msg: ServerMsg::UpdateHealth { health: finals[i].health },
                    },
                ]
            } else {
                Seq::empty()
            };
            assert(Self::spec_explosion_health_msgs(players, finals, pixels, upto)
                == Self::spec_explosion_health_msgs(players, finals, pixels, i) + block);
            Self::lemma_count_destroy_concat(Self::spec_explosion_health_msgs(players, finals,
                pixels, i), block);
            if block.len() == 1 {
                assert(block.drop_last() =~= Seq::<Broadcast>::empty());
                assert(Self::spec_count_destroy_msgs(block) == 0);
            }
        }
    }

    /// One sub-step of flight: two milliseconds of semi-implicit
    /// integration.
    pub open spec fn spec_substep(p: Projectile) -> Projectile {
        Projectile {
            x: (p.x + 2 * p.vel_x) as i64,
            y: (p.y + (p.vel_y + 12) * 2) as i64,
            vel_y: (p.vel_y + 24) as i64,
            ..p
        }
    }

    /// One projectile's tick of sub-steps against fixed players and
    /// terrain: each sub-step moves it, then the first of leaving the map
    /// margin, landing on a solid pixel, or entering a player's box ends
    /// the flight there.
    pub open spec fn spec_flight(
        p: Projectile,
        players: Seq<Player>,
        w: int,
        h: int,
        solid: Set<(int, int)>,
        sub: int,
    ) -> FlightEnd
        decreases Self::PROJECTILE_INTERP_RATE - sub,
    {
        if sub >= Self::PROJECTILE_INTERP_RATE {
            FlightEnd::Flew(p)
        } else {
            let q = Self::spec_substep(p);
            if CollisionSystem::spec_oob(q.x as int, q.y as int, w, h) {
                FlightEnd::WentOut(q)
            } else if solid.contains((q.x as int / 10000, q.y as int / 10000)) {
                FlightEnd::Struck(q)
            } else if exists|k: int|
                0 <= k < players.len() && CollisionSystem::spec_point_collide_player(
                    q.x as int,
                    q.y as int,
                    #[trigger] players[k],
                ) {
                FlightEnd::Struck(q)
            } else {
                Self::spec_flight(q, players, w, h, solid, sub + 1)
            }
        }
    }

    /// The whole pass, interpreted projectile by projectile: each flies its
    /// sub-steps against the players and the terrain as they stand at its
    /// turn; an untouched one is kept, one that left the map leaves only a
    /// destroy notice, and a strike resolves its explosion — damage,
    /// carving, traffic — before the next projectile flies. `cur` is the
    /// live list index the next removal notice would carry.
    pub open spec fn spec_tick_flight(
        players: Seq<Player>,
        w: int,
        h: int,
        solid: Set<(int, int)>,
        origs: Seq<Projectile>,
        m: int,
        cur: int,
    ) -> (Seq<Player>, Set<(int, int)>, Seq<Broadcast>, Seq<Projectile>)
        decreases origs.len() - m,
    {
        if m < 0 || m >= origs.len() {
            (players, solid, Seq::empty(), Seq::empty())
        } else {
            match Self::spec_flight(origs[m], players, w, h, solid, 0) {
                FlightEnd::Flew(q) => {
                    let rest = Self::spec_tick_flight(players, w, h, solid, origs, m + 1,
                        cur + 1);
                    (rest.0, rest.1, rest.2, seq![q] + rest.3)
                },
                FlightEnd::WentOut(q) => {
                    let rest = Self::spec_tick_flight(players, w, h, solid, origs, m + 1, cur);
                    (
                        rest.0,
                        rest.1,
                        seq![
                            Broadcast {
                                target: Target::All,
                                msg: ServerMsg::DestroyProjectile { projectile_i: cur as usize },
                            },
                        ] + rest.2,
                        rest.3,
                    )
                },
                FlightEnd::Struck(q) => {
                    let pixels = Self::spec_explosion_pixels(q);
                    let d = Projectile::spec_damage(q.projectile_type as int) as int;
                    let owner = q.owner as int;
                    let n = players.len() as int;
                    let players2 = Self::spec_apply_explosion(players, pixels, d, owner, n);
                    let solid2 = Set::new(|t: (int, int)|
                        solid.contains(t) && !pixels.contains((((t.0 as i32), (t.1 as i32)))));
                    let msgs = Self::spec_explosion_kill_msgs(players, pixels, d, owner, n)
                        + seq![
                        Broadcast {
                            target: Target::All,
                            msg: ServerMsg::ProjectileExplosion {
                                projectile_type: q.projectile_type,
                                x: q.x,
                                y: q.y,
                            },
                        },
                        Broadcast {
                            target: Target::All,
                            msg: ServerMsg::DestroyProjectile { projectile_i: cur as usize },
                        },
                    ] + Self::spec_explosion_health_msgs(players, players2, pixels, n);
                    let rest = Self::spec_tick_flight(players2, w, h, solid2, origs, m + 1, cur);
                    (rest.0, rest.1, msgs + rest.2, rest.3)
                },
            }
        }
    }

    /// A projectile after one full tick of sub-steps without collision:
    /// the horizontal position advances by a tick of constant horizontal
    /// velocity, and the vertical motion integrates a tick of gravity in
    /// semi-implicit half-steps.
    pub open spec fn spec_flown(p: Projectile) -> Projectile {
        Projectile {
            x: (p.x + 20 * p.vel_x) as i64,
            y: (p.y + 20 * p.vel_y + 2400) as i64,
            vel_y: (p.vel_y + 240) as i64,
            ..p
        }
    }

    /// Advances every projectile by one tick of sub-steps: each sub-step
    /// integrates gravity and velocity, then destroys the projectile on the
    /// first of leaving the map margin (silently, with a destroy notice),
    /// hitting solid terrain (with an explosion), or entering a player's box
    /// (with an explosion). Surviving projectiles stay in flight; the
    /// returned witness names each survivor's index in the incoming list.
    #[verifier::rlimit(100)]
    pub fn handle_projectiles(
        players: &mut Vec<Player>,
        projectiles: &mut Vec<Projectile>,
        map: &mut TerrainMap,
        out: &mut Vec<Broadcast>,
    ) -> (kept: Ghost<Seq<int>>)
        requires
            old(map).wf(),
            forall|i: int| 0 <= i < old(players)@.len() ==> (#[trigger] old(players)@[i]).wf(),
            forall|j: int| 0 <= j < old(projectiles)@.len()
                ==> Self::spec_projectile_in_flight(#[trigger] old(projectiles)@[j],
                old(players)@.len() as int),
        ensures
            final(players)@.len() == old(players)@.len(),
            forall|i: int| 0 <= i < old(players)@.len() ==> (#[trigger] final(players)@[i]).wf(),
            final(map).wf(),
            final(map).spec_width() == old(map).spec_width(),
            final(map).spec_height() == old(map).spec_height(),
            final(projectiles)@.len() <= old(projectiles)@.len(),
            forall|j: int| 0 <= j < final(projectiles)@.len()
                ==> Self::spec_projectile_in_flight(#[trigger] final(projectiles)@[j],
                old(players)@.len() as int),
            // the witness lists each survivor's original index, strictly
            // increasing: the survivors are the originals that hit nothing,
            // in order, none skipped past its place, none doubled — and each
            // survivor is its original flown one full uncollided tick
            kept@.len() == final(projectiles)@.len(),
            forall|j: int| 0 <= j < kept@.len() ==> j <= #[trigger] kept@[j] < old(
                projectiles,
            )@.len(),
            forall|j: int| 0 < j < kept@.len() ==> kept@[j - 1] < #[trigger] kept@[j],
            forall|j: int| 0 <= j < kept@.len() ==> final(projectiles)@[j] == Self::spec_flown(
                old(projectiles)@[#[trigger] kept@[j]],
            ),
            // every removal is announced: exactly one projectile-destruction
            // broadcast per removed projectile, whether it left the map or
            // exploded
            Self::spec_count_destroy_msgs(final(out)@.skip(old(out)@.len() as int)) == old(
                projectiles,
            )@.len() - final(projectiles)@.len(),
            old(out)@.is_prefix_of(final(out)@),
            // the whole pass equals the flight interpretation: a projectile
            // is removed exactly when some sub-step of its flight leaves the
            // map or strikes terrain or a player as they stand at its turn,
            // an untouched one is kept, and the players, the carved terrain
            // and the appended traffic are precisely the interpretation's
            ({
                let r = Self::spec_tick_flight(old(players)@, old(map).spec_width() as int,
                    old(map).spec_height() as int, old(map).solid_set(), old(projectiles)@, 0,
                    0);
                &&& final(players)@ == r.0
                &&& final(map).solid_set() == r.1
                &&& final(out)@ == old(out)@ + r.2
                &&& final(projectiles)@ == r.3
            }),
    {
        let n_players = players.len();
        let ghost mut kept_idx: Seq<int> = Seq::empty();

        proof {
            assert(out@.skip(old(out)@.len() as int) =~= Seq::<Broadcast>::empty());
            let full = Self::spec_tick_flight(old(players)@, old(map).spec_width() as int,
                old(map).spec_height() as int, old(map).solid_set(), old(projectiles)@, 0, 0);
            assert(projectiles@.take(0) =~= Seq::<Projectile>::empty());
            assert(Seq::<Projectile>::empty() + full.3 =~= full.3);
            assert(Seq::<Broadcast>::empty() + full.2 =~= full.2);
        }

        let mut i: usize = 0;

        while i < projectiles.len()
            invariant
                n_players == players@.len(),
                n_players == old(players)@.len(),
                forall|k: int| 0 <= k < n_players ==> (#[trigger] players@[k]).wf(),
                map.wf(),
                map.spec_width() == old(map).spec_width(),
                map.spec_height() == old(map).spec_height(),
                i <= projectiles@.len(),
                projectiles@.len() <= old(projectiles)@.len(),
                forall|j: int| 0 <= j < projectiles@.len()
                    ==> Self::spec_projectile_in_flight(#[trigger] projectiles@[j],
                    n_players as int),
                kept_idx.len() == i,
                forall|j: int| 0 <= j < i ==> j <= #[trigger] kept_idx[j],
                forall|j: int| 0 <= j < i ==> #[trigger] kept_idx[j] < i + old(
                    projectiles,
                )@.len() - projectiles@.len(),
                forall|j: int| 0 < j < i ==> kept_idx[j - 1] < #[trigger] kept_idx[j],
                forall|j: int| 0 <= j < i ==> projectiles@[j] == Self::spec_flown(
                    old(projectiles)@[#[trigger] kept_idx[j]],
                ),
                forall|j: int| i <= j < projectiles@.len() ==> #[trigger] projectiles@[j] == old(
                    projectiles,
                )@[j + old(projectiles)@.len() - projectiles@.len()],
                Self::spec_count_destroy_msgs(out@.skip(old(out)@.len() as int)) == old(
                    projectiles,
                )@.len() - projectiles@.len(),
                old(out)@.is_prefix_of(out@),
                ({
                    let w0 = old(map).spec_width() as int;
                    let h0 = old(map).spec_height() as int;
                    let m = i as int + old(projectiles)@.len() - projectiles@.len();
                    let full = Self::spec_tick_flight(old(players)@, w0, h0,
                        old(map).solid_set(), old(projectiles)@, 0, 0);
                    let rest = Self::spec_tick_flight(players@, w0, h0, map.solid_set(),
                        old(projectiles)@, m, i as int);
                    &&& full.0 == rest.0
                    &&& full.1 == rest.1
                    &&& full.2 == out@.skip(old(out)@.len() as int) + rest.2
                    &&& full.3 == projectiles@.take(i as int) + rest.3
                }),
            decreases projectiles@.len() - i,
        {
            let mut flying = true;
            let mut sub: i32 = 0;
            let ghost len_at = projectiles@.len();
            let ghost entry = projectiles@[i as int];

            proof {
                assert(2 * 0 * entry.vel_x == 0) by (nonlinear_arith);
                assert(2 * 0 * entry.vel_y == 0) by (nonlinear_arith);
                assert(24 * 0 * 0 == 0) by (nonlinear_arith);
            }

            while sub < Self::PROJECTILE_INTERP_RATE && flying
                invariant
                    0 <= sub <= Self::PROJECTILE_INTERP_RATE,
                    i < projectiles@.len(),
                    n_players == players@.len(),
                    n_players == old(players)@.len(),
                    forall|k: int| 0 <= k < n_players ==> (#[trigger] players@[k]).wf(),
                    map.wf(),
                    map.spec_width() == old(map).spec_width(),
                    map.spec_height() == old(map).spec_height(),
                    projectiles@.len() <= old(projectiles)@.len(),
                    projectiles@.len() == len_at,
                    forall|j: int| 0 <= j < projectiles@.len() && j != i
                        ==> Self::spec_projectile_in_flight(#[trigger] projectiles@[j],
                        n_players as int),
                    entry == old(projectiles)@[i + old(projectiles)@.len() - len_at],
                    Self::spec_projectile_in_flight(entry, n_players as int),
                    kept_idx.len() == i,
                    forall|j: int| 0 <= j < i ==> j <= #[trigger] kept_idx[j],
                    forall|j: int| 0 <= j < i ==> #[trigger] kept_idx[j] < i + old(
                        projectiles,
                    )@.len() - len_at,
                    forall|j: int| 0 < j < i ==> kept_idx[j - 1] < #[trigger] kept_idx[j],
                    forall|j: int| 0 <= j < i ==> projectiles@[j] == Self::spec_flown(
                        old(projectiles)@[#[trigger] kept_idx[j]],
                    ),
                    forall|j: int| i < j < projectiles@.len() ==> #[trigger] projectiles@[j]
                        == old(projectiles)@[j + old(projectiles)@.len() - len_at],
                    Self::spec_count_destroy_msgs(out@.skip(old(out)@.len() as int)) == old(
                        projectiles,
                    )@.len() - len_at + (if flying {
                        0int
                    } else {
                        1int
                    }),
                    ({
                        let w0 = old(map).spec_width() as int;
                        let h0 = old(map).spec_height() as int;
                        let m = i as int + old(projectiles)@.len() - len_at;
                        let full = Self::spec_tick_flight(old(players)@, w0, h0,
                            old(map).solid_set(), old(projectiles)@, 0, 0);
                        if flying {
                            let rest = Self::spec_tick_flight(players@, w0, h0,
                                map.solid_set(), old(projectiles)@, m, i as int);
                            &&& full.0 == rest.0
                            &&& full.1 == rest.1
                            &&& full.2 == out@.skip(old(out)@.len() as int) + rest.2
                            &&& full.3 == projectiles@.take(i as int) + rest.3
                            &&& Self::spec_flight(entry, players@, w0, h0, map.solid_set(), 0)
                                == Self::spec_flight(projectiles@[i as int], players@, w0, h0,
                                map.solid_set(), sub as int)
                        } else {
                            let rest = Self::spec_tick_flight(players@, w0, h0,
                                map.solid_set(), old(projectiles)@, m + 1, i as int);
                            &&& full.0 == rest.0
                            &&& full.1 == rest.1
                            &&& full.2 == out@.skip(old(out)@.len() as int) + rest.2
                            &&& full.3 == projectiles@.take(i as int) + rest.3
                        }
                    }),
                    (flying ==> projectiles@[i as int] == (Projectile {
                        x: (entry.x + 2 * sub * entry.vel_x) as i64,
                        y: (entry.y + 2 * sub * entry.vel_y + 24 * sub * sub) as i64,
                        vel_y: (entry.vel_y + 24 * sub) as i64,
                        ..entry
                    })),
                    ({
                        let p = projectiles@[i as int];
                        &&& p.projectile_type < Projectile::PROJECTILE_TYPE_COUNT
                        &&& (p.owner as int) < n_players as int
                        &&& -20_000 <= p.vel_x <= 20_000
                        &&& -1_100_000_000_000 - 40_000 * sub <= p.x <= 1_100_000_000_000
                            + 40_000 * sub
                        &&& -1_100_000_000_000 - 660_001_000 * sub <= p.y <= 1_100_000_000_000
                            + 660_001_000 * sub
                        &&& (flying ==> -330_000_024 - 24 * sub <= p.vel_y <= 330_000_024 + 24
                            * sub)
                        &&& (flying && sub >= 1 ==> !CollisionSystem::spec_oob(p.x as int,
                            p.y as int, map.spec_width() as int, map.spec_height() as int))
                        &&& (flying && sub >= 2 ==> -327_670_012 <= p.vel_y <= 327_670_012)
                    }),
                    old(out)@.is_prefix_of(out@),
                decreases Self::PROJECTILE_INTERP_RATE - sub,
            {
                let ghost y_before = projectiles@[i as int].y;
                let ghost vel_before = projectiles@[i as int].vel_y;
                let ghost sub_before = sub;
                let ghost list_before = projectiles@;

                VelSystem::update_projectile(&mut projectiles[i], 2);

                proof {
                    let s0 = sub_before as int;
                    assert(-400_000 <= 2 * s0 * entry.vel_x <= 400_000
                        && -400_000 <= 2 * (s0 + 1) * entry.vel_x <= 400_000)
                        by (nonlinear_arith)
                        requires
                            0 <= s0 < 10,
                            -20_000 <= entry.vel_x <= 20_000,
                    ;
                    assert(-7_000_000_000 <= 2 * s0 * entry.vel_y <= 7_000_000_000
                        && -7_000_000_000 <= 2 * (s0 + 1) * entry.vel_y <= 7_000_000_000)
                        by (nonlinear_arith)
                        requires
                            0 <= s0 < 10,
                            -330_000_024 <= entry.vel_y <= 330_000_024,
                    ;
                    assert(0 <= 24 * s0 * s0 <= 2400 && 0 <= 24 * (s0 + 1) * (s0 + 1) <= 2400)
                        by (nonlinear_arith)
                        requires
                            0 <= s0 < 10,
                    ;
                    assert(2 * (s0 + 1) * entry.vel_x == 2 * s0 * entry.vel_x + 2
                        * entry.vel_x) by (nonlinear_arith);
                    assert(2 * (s0 + 1) * entry.vel_y + 24 * (s0 + 1) * (s0 + 1) == 2 * s0
                        * entry.vel_y + 24 * s0 * s0 + (entry.vel_y + 24 * s0 + 12)
                        * 2) by (nonlinear_arith);
                    assert(24 * (s0 + 1) == 24 * s0 + 24);
                    assert(projectiles@[i as int] == Self::spec_substep(list_before[i as int]));
                }

                if CollisionSystem::projectile_oob(&projectiles[i], map) {
                    let ghost out_pre = out@;

                    out.push(Broadcast {
                        target: Target::All,
                        msg: ServerMsg::DestroyProjectile { projectile_i: i },
                    });
                    flying = false;

                    proof {
                        let base = old(out)@.len() as int;
                        let notice = Broadcast {
                            target: Target::All,
                            msg: ServerMsg::DestroyProjectile { projectile_i: i },
                        };
                        assert(out@.skip(base) =~= out_pre.skip(base).push(notice));
                        Self::lemma_count_destroy_push(out_pre.skip(base), notice);

                        // this projectile's turn ends by leaving the map
                        let w0 = old(map).spec_width() as int;
                        let h0 = old(map).spec_height() as int;
                        let m = i as int + old(projectiles)@.len() - len_at;
                        let sset = map.solid_set();
                        let q = projectiles@[i as int];
                        let p0 = list_before[i as int];

                        assert(Self::spec_flight(p0, players@, w0, h0, sset,
                            sub_before as int) == FlightEnd::WentOut(q));
                        assert(Self::spec_flight(entry, players@, w0, h0, sset, 0)
                            == FlightEnd::WentOut(q));

                        let full = Self::spec_tick_flight(old(players)@, w0, h0,
                            old(map).solid_set(), old(projectiles)@, 0, 0);
                        let rest = Self::spec_tick_flight(players@, w0, h0, sset,
                            old(projectiles)@, m, i as int);
                        let rest2 = Self::spec_tick_flight(players@, w0, h0, sset,
                            old(projectiles)@, m + 1, i as int);

                        assert(old(projectiles)@[m] == entry);
                        assert((i as int) as usize == i);
                        assert(rest.2 == seq![notice] + rest2.2);
                        assert(out_pre.skip(base) + (seq![notice] + rest2.2)
                            =~= out@.skip(base) + rest2.2);
                    }
                } else {
                    proof {
                        map.lemma_wf_dims();
                        // the sub-step kept the projectile on the map; if it
                        // started on the map too, the move spanned at most
                        // the map's height, which bounds the velocity
                        if sub_before >= 1 {
                            let h = map.spec_height() as int;
                            let ynow = projectiles@[i as int].y as int;
                            assert(ynow == y_before + (vel_before + 12) * 2);
                            assert(2 * 10000 <= y_before && y_before < (h - 2) * 10000);
                            assert(2 * 10000 <= ynow && ynow < (h - 2) * 10000);
                            assert(-655_340_000 <= (vel_before + 12) * 2
                                <= 655_340_000);
                            assert(-327_670_012 <= vel_before + 24 <= 327_670_012);
                        }
                    }

                    let on_solid = CollisionSystem::projectile_collide_map(&projectiles[i],
                        map);
                    let mut hit = false;
                    let mut player_i: usize = 0;

                    if !on_solid {
                        while player_i < n_players && !hit
                            invariant
                                player_i <= n_players,
                                n_players == players@.len(),
                                i < projectiles@.len(),
                                forall|k: int| 0 <= k < n_players
                                    ==> (#[trigger] players@[k]).wf(),
                                !hit ==> forall|k: int| 0 <= k < player_i
                                    ==> !CollisionSystem::spec_point_collide_player(
                                    projectiles@[i as int].x as int,
                                    projectiles@[i as int].y as int, #[trigger] players@[k]),
                                hit ==> player_i < n_players
                                    && CollisionSystem::spec_point_collide_player(
                                    projectiles@[i as int].x as int,
                                    projectiles@[i as int].y as int,
                                    players@[player_i as int]),
                            decreases n_players - player_i + (if hit { 0int } else { 1int }),
                        {
                            if CollisionSystem::point_collide_player(projectiles[i].x,
                                projectiles[i].y, &players[player_i]) {
                                hit = true;
                            } else {
                                player_i = player_i + 1;
                            }
                        }
                    }

                    if on_solid || hit {
                        let pr = projectiles[i];
                        let ghost out_pre = out@;
                        let ghost players_pre = players@;
                        let ghost map_before = *map;
                        Self::handle_projectile_damage(players, &pr, i, map, out);
                        flying = false;

                        proof {
                            let base = old(out)@.len() as int;
                            let pixels = Self::spec_explosion_pixels(pr);
                            let dmg = Projectile::spec_damage(pr.projectile_type as int) as int;
                            let ownr = pr.owner as int;
                            let nn = players_pre.len() as int;
                            let killm = Self::spec_explosion_kill_msgs(players_pre, pixels, dmg,
                                ownr, nn);
                            let healthm = Self::spec_explosion_health_msgs(players_pre,
                                players@, pixels, nn);
                            let pairm = seq![
                                Broadcast {
                                    target: Target::All,
                                    msg: ServerMsg::ProjectileExplosion {
                                        projectile_type: pr.projectile_type,
                                        x: pr.x,
                                        y: pr.y,
                                    },
                                },
                                Broadcast {
                                    target: Target::All,
                                    msg: ServerMsg::DestroyProjectile { projectile_i: i },
                                },
                            ];
                            assert(out@ == out_pre + killm + pairm + healthm);
                            assert(out@.skip(base) =~= out_pre.skip(base) + killm + pairm
                                + healthm);
                            Self::lemma_count_destroy_kill_msgs(players_pre, pixels, dmg, ownr,
                                nn);
                            Self::lemma_count_destroy_health_msgs(players_pre, players@, pixels,
                                nn);
                            assert(Self::spec_count_destroy_msgs(pairm) == 1) by {
                                assert(Self::spec_count_destroy_msgs(Seq::<Broadcast>::empty())
                                    == 0);
                                assert(pairm.drop_last() =~= seq![pairm[0]]);
                                assert(seq![pairm[0]].drop_last()
                                    =~= Seq::<Broadcast>::empty());
                                assert(Self::spec_count_destroy_msgs(seq![pairm[0]]) == 0);
                            };
                            Self::lemma_count_destroy_concat(out_pre.skip(base), killm);
                            Self::lemma_count_destroy_concat(out_pre.skip(base) + killm, pairm);
                            Self::lemma_count_destroy_concat(out_pre.skip(base) + killm + pairm,
                                healthm);
                            assert(out_pre.skip(base) + killm + pairm + healthm
                                =~= ((out_pre.skip(base) + killm) + pairm) + healthm);

                            // this projectile's turn ends by striking — solid
                            // terrain or a player's box, whichever the
                            // sub-step found
                            let w0 = old(map).spec_width() as int;
                            let h0 = old(map).spec_height() as int;
                            let m = i as int + old(projectiles)@.len() - len_at;
                            let solid_pre = map_before.solid_set();
                            let q = pr;
                            let p0 = list_before[i as int];

                            assert(!CollisionSystem::spec_oob(q.x as int, q.y as int, w0, h0));

                            if on_solid {
                                assert(solid_pre.contains((q.x as int / 10000,
                                    q.y as int / 10000))) by {
                                    map_before.lemma_solid_set(q.x as int / 10000,
                                        q.y as int / 10000);
                                };
                            } else {
                                assert(!solid_pre.contains((q.x as int / 10000,
                                    q.y as int / 10000))) by {
                                    map_before.lemma_solid_set(q.x as int / 10000,
                                        q.y as int / 10000);
                                };
                                assert(exists|k: int| 0 <= k < players_pre.len()
                                    && CollisionSystem::spec_point_collide_player(q.x as int,
                                    q.y as int, #[trigger] players_pre[k])) by {
                                    assert(CollisionSystem::spec_point_collide_player(
                                        q.x as int, q.y as int,
                                        players_pre[player_i as int]));
                                };
                            }

                            assert(Self::spec_flight(p0, players_pre, w0, h0, solid_pre,
                                sub_before as int) == FlightEnd::Struck(q));
                            assert(Self::spec_flight(entry, players_pre, w0, h0, solid_pre, 0)
                                == FlightEnd::Struck(q));

                            let full = Self::spec_tick_flight(old(players)@, w0, h0,
                                old(map).solid_set(), old(projectiles)@, 0, 0);
                            let rest = Self::spec_tick_flight(players_pre, w0, h0, solid_pre,
                                old(projectiles)@, m, i as int);
                            let players2 = Self::spec_apply_explosion(players_pre, pixels, dmg,
                                ownr, nn);
                            let solid2 = Set::new(|t: (int, int)|
                                solid_pre.contains(t) && !pixels.contains((((t.0 as i32),
                                (t.1 as i32)))));
                            let rest2 = Self::spec_tick_flight(players2, w0, h0, solid2,
                                old(projectiles)@, m + 1, i as int);

                            assert(old(projectiles)@[m] == entry);
                            assert((i as int) as usize == i);
                            assert(players@ == players2);
                            assert(map.solid_set() =~= solid2) by {
                                assert forall|t: (int, int)| map.solid_set().contains(t)
                                    == solid2.contains(t) by {
                                    map.lemma_solid_set(t.0, t.1);
                                    map_before.lemma_solid_set(t.0, t.1);
                                }
                            };
                            assert(map.solid_set() == solid2);
                            assert(rest.0 == rest2.0 && rest.1 == rest2.1 && rest.3 == rest2.3
                                && rest.2 == (killm + pairm + healthm) + rest2.2);
                            assert(out_pre.skip(base) + ((killm + pairm + healthm) + rest2.2)
                                =~= (out@.skip(base)) + rest2.2);
                        }
                    } else {
                        proof {
                            let w0 = old(map).spec_width() as int;
                            let h0 = old(map).spec_height() as int;
                            let q = projectiles@[i as int];
                            let p0 = list_before[i as int];
                            let sset = map.solid_set();

                            assert(!sset.contains((q.x as int / 10000,
                                q.y as int / 10000))) by {
                                map.lemma_solid_set(q.x as int / 10000, q.y as int / 10000);
                            };
                            assert(!(exists|k: int| 0 <= k < players@.len()
                                && CollisionSystem::spec_point_collide_player(q.x as int,
                                q.y as int, #[trigger] players@[k])));
                            assert(Self::spec_flight(p0, players@, w0, h0, sset,
                                sub_before as int) == Self::spec_flight(q, players@, w0, h0,
                                sset, sub_before as int + 1));
                        }
                    }
                }

                proof {
                    assert forall|j: int| 0 <= j < i implies projectiles@[j] == Self::spec_flown(
                        old(projectiles)@[#[trigger] kept_idx[j]],
                    ) by {
                        assert(projectiles@[j] == list_before[j]);
                    }

                    assert forall|j: int| i < j < projectiles@.len()
                        implies #[trigger] projectiles@[j] == old(projectiles)@[j + old(
                        projectiles,
                    )@.len() - len_at] by {
                        assert(projectiles@[j] == list_before[j]);
                    }
                }

                sub = sub + 1;
            }

            if !flying {
                let ghost before = projectiles@;
                projectiles.remove(i);

                proof {
                    assert forall|j: int| 0 <= j < projectiles@.len()
                        implies Self::spec_projectile_in_flight(#[trigger] projectiles@[j],
                        n_players as int) by {
                        if j < i {
                            assert(projectiles@[j] == before[j]);
                        } else {
                            assert(projectiles@[j] == before[j + 1]);
                        }
                    }

                    assert forall|j: int| 0 <= j < i implies projectiles@[j] == Self::spec_flown(
                        old(projectiles)@[#[trigger] kept_idx[j]],
                    ) by {
                        assert(projectiles@[j] == before[j]);
                    }

                    assert forall|j: int| i <= j < projectiles@.len()
                        implies #[trigger] projectiles@[j] == old(projectiles)@[j + old(
                        projectiles,
                    )@.len() - projectiles@.len()] by {
                        assert(projectiles@[j] == before[j + 1]);
                        assert(before[j + 1] == old(projectiles)@[j + 1 + old(
                            projectiles,
                        )@.len() - before.len()]);
                    }

                    assert(projectiles@.take(i as int) =~= before.take(i as int));
                }
            } else {
                proof {
                    map.lemma_wf_dims();
                    assert(Self::spec_projectile_in_flight(projectiles@[i as int],
                        n_players as int));
                    assert(2 * 10 * entry.vel_x == 20 * entry.vel_x) by (nonlinear_arith);
                    assert(2 * 10 * entry.vel_y == 20 * entry.vel_y) by (nonlinear_arith);
                    assert(24 * 10 * 10 == 2400) by (nonlinear_arith);
                    assert(projectiles@[i as int] == Self::spec_flown(entry));

                    let orig = i as int + old(projectiles)@.len() - len_at;
                    assert(entry == old(projectiles)@[orig]);
                    kept_idx = kept_idx.push(orig);
                    assert(kept_idx[i as int] == orig);

                    // the fold keeps this projectile as its flown self
                    let w0 = old(map).spec_width() as int;
                    let h0 = old(map).spec_height() as int;
                    let sset = map.solid_set();
                    let q = projectiles@[i as int];
                    let full = Self::spec_tick_flight(old(players)@, w0, h0,
                        old(map).solid_set(), old(projectiles)@, 0, 0);
                    let rest = Self::spec_tick_flight(players@, w0, h0, sset,
                        old(projectiles)@, orig, i as int);
                    let rest2 = Self::spec_tick_flight(players@, w0, h0, sset,
                        old(projectiles)@, orig + 1, i as int + 1);

                    assert(Self::spec_flight(q, players@, w0, h0, sset, 10)
                        == FlightEnd::Flew(q));
                    assert(Self::spec_flight(entry, players@, w0, h0, sset, 0)
                        == FlightEnd::Flew(q));
                    assert(rest.3 == seq![q] + rest2.3);
                    assert(projectiles@.take(i as int + 1) =~= projectiles@.take(i as int)
                        + seq![q]);
                    assert(projectiles@.take(i as int) + (seq![q] + rest2.3)
                        =~= projectiles@.take(i as int + 1) + rest2.3);
                }
                i = i + 1;
            }
        }

        Ghost(kept_idx)
    }

    // +--------------------+
    // | Spawn positioning  |
    // +--------------------+

    /// A valid ground spawn point, in fixed-point units on whole pixels:
    /// the pixel one player half-height below the spot is the first solid
    /// pixel of its column's surface.
    pub open spec fn spec_ground_pos(map: TerrainMap, x: i64, y: i64) -> bool {
        let px = x as int / 10000;
        let py = y as int / 10000;
        &&& 0 <= x
        &&& 0 <= y
        &&& x % 10000 == 0
        &&& y % 10000 == 0
        &&& px < map.spec_width()
        &&& !map.solid(px, py + 32)
        &&& map.solid(px, py + 33)
    }

    /// The first solid row of column `x` at or below row `y`, if any.
    pub open spec fn spec_first_solid_below(map: TerrainMap, x: int, y: int) -> Option<int>
        decreases map.spec_height() - y,
    {
        if y < 0 || y >= map.spec_height() {
            None
        } else if map.solid(x, y) {
            Some(y)
        } else {
            Self::spec_first_solid_below(map, x, y + 1)
        }
    }

    /// Where the upward walk from row `y` of column `x` stops: the first
    /// non-solid row on the way up, or the top of the map.
    pub open spec fn spec_walk_up(map: TerrainMap, x: int, y: int) -> int
        decreases y,
    {
        if y <= 0 {
            0
        } else if map.solid(x, y) {
            Self::spec_walk_up(map, x, y - 1)
        } else {
            y
        }
    }

    /// What the spawn scan yields for a drawn column and row: the first
    /// solid pixel at or below the row is found, the walk up leaves the
    /// solid run at the surface, and the spot stands one player half-height
    /// above it — `None` exactly when the column holds no ground below the
    /// row, the run reaches the map's top, or the surface leaves no room.
    pub open spec fn spec_ground_scan(map: TerrainMap, x: int, y: int) -> Option<(i64, i64)> {
        match Self::spec_first_solid_below(map, x, y) {
            None => None,
            Some(ys) => {
                let top = Self::spec_walk_up(map, x, ys);
                if !map.solid(x, top) && top >= 32 {
                    Some((((x * 10000) as i64), (((top - 32) * 10000) as i64)))
                } else {
                    None
                }
            },
        }
    }

    /// One deterministic spawn scan for a drawn column and row, exactly as
    /// the spec-level scan says: the drawn values fully determine the
    /// result, and every yielded spot is a valid ground position.
    pub fn ground_scan(map: &TerrainMap, x: u32, y: u32) -> (r: Option<(i64, i64)>)
        requires
            map.wf(),
            x < map.spec_width(),
            y < map.spec_height(),
        ensures
            r == Self::spec_ground_scan(*map, x as int, y as int),
            (r matches Some(p) ==> Self::spec_ground_pos(*map, p.0, p.1)
                && 0 <= p.0 <= 660_000_000 && 0 <= p.1 <= 660_000_000),
    {
        let w = map.width();
        let h = map.height();

        proof { map.lemma_wf_dims(); }

        let mut row = y;
        let mut found = false;

        // Find the ground below the drawn spot.
        while row < h && !found
            invariant
                map.wf(),
                w == map.spec_width(),
                h == map.spec_height(),
                x < w,
                y <= row <= h,
                Self::spec_first_solid_below(*map, x as int, y as int)
                    == Self::spec_first_solid_below(*map, x as int, row as int),
                found ==> row < h && map.solid(x as int, row as int),
            decreases h - row + (if found { 0int } else { 1int }),
        {
            if map.solid_at(x, row) {
                found = true;
            } else {
                row = row + 1;
            }
        }

        if !found {
            return None;
        }

        let ghost row_init = row;

        // Walk up to the first empty pixel above the solid run.
        while row > 0 && map.solid_at(x, row)
            invariant
                map.wf(),
                w == map.spec_width(),
                h == map.spec_height(),
                x < w,
                row <= row_init,
                row_init < h,
                row < row_init ==> map.solid(x as int, row as int + 1),
                row == row_init ==> map.solid(x as int, row as int),
                Self::spec_walk_up(*map, x as int, row_init as int)
                    == Self::spec_walk_up(*map, x as int, row as int),
            decreases row,
        {
            row = row - 1;
        }

        proof {
            assert(Self::spec_walk_up(*map, x as int, row as int) == row as int);
        }

        if row >= 32 {
            if !map.solid_at(x, row) {
                let rx: i64 = (x as i64) * 10000;
                let ry: i64 = ((row - 32) as i64) * 10000;

                proof {
                    assert(rx as int / 10000 == x as int) by (nonlinear_arith)
                        requires
                            rx == (x as int) * 10000,
                            0 <= x as int,
                    ;
                    assert(ry as int / 10000 == row as int - 32) by (nonlinear_arith)
                        requires
                            ry == (row as int - 32) * 10000,
                            32 <= row as int,
                    ;
                    assert(rx as int % 10000 == 0) by (nonlinear_arith)
                        requires
                            rx == (x as int) * 10000,
                    ;
                    assert(ry as int % 10000 == 0) by (nonlinear_arith)
                        requires
                            ry == (row as int - 32) * 10000,
                    ;
                }

                return Some((rx, ry));
            }
        }

        None
    }

    /// Searches for a spawn point: draws a random column and row, runs the
    /// deterministic scan on them, and retries with fresh draws up to the
    /// attempt budget. Every returned spot is the scan of some in-range
    /// draw, hence a valid ground position; `None` means every drawn pair
    /// scanned to nothing.
    pub fn get_rand_pos(map: &TerrainMap, attempts: u32) -> (r: Option<(i64, i64)>)
        requires
            map.wf(),
        ensures
            (r matches Some(p) ==> Self::spec_ground_pos(*map, p.0, p.1)
                && 0 <= p.0 <= 660_000_000 && 0 <= p.1 <= 660_000_000
                && (exists|cx: int, cy: int|
                    0 <= cx < map.spec_width() && 0 <= cy < map.spec_height()
                        && #[trigger] Self::spec_ground_scan(*map, cx, cy) == Some(p))),
    {
        let w = map.width();
        let h = map.height();

        proof { map.lemma_wf_dims(); }

        let mut attempt: u32 = 0;

        while attempt < attempts
            invariant
                map.wf(),
                w == map.spec_width(),
                h == map.spec_height(),
                1 <= w <= 65536,
                1 <= h <= 65536,
            decreases attempts - attempt,
        {
            let x = rand_below(w);
            let y = rand_below(h);

            match Self::ground_scan(map, x, y) {
                Some(p) => {
                    proof {
                        assert(Self::spec_ground_scan(*map, x as int, y as int) == Some(p));
                    }
                    return Some(p);
                },
                None => {},
            }

            attempt = attempt + 1;
        }

        None
    }

    /// The respawn notices one countdown pass owes: one per player brought
    /// back, in player order, carrying its new position.
    pub open spec fn spec_respawn_msgs(
        old_players: Seq<Player>,
        finals: Seq<Player>,
        upto: int,
    ) -> Seq<Broadcast>
        decreases upto,
    {
        if upto <= 0 {
            Seq::empty()
        } else {
            Self::spec_respawn_msgs(old_players, finals, upto - 1) + (if !old_players[upto
                - 1].alive && finals[upto - 1].alive {
                seq![
                    Broadcast {
                        target: Target::All,
                        msg: ServerMsg::RespawnPlayer {
                            player_i: (upto - 1) as usize,
                            x: finals[upto - 1].x,
                            y: finals[upto - 1].y,
                        },
                    },
                ]
            } else {
                Seq::empty()
            })
        }
    }

    proof fn lemma_respawn_msgs_prefix_agree(
        old_players: Seq<Player>,
        a: Seq<Player>,
        b: Seq<Player>,
        upto: int,
    )
        requires
            0 <= upto <= a.len(),
            upto <= b.len(),
            forall|k: int| 0 <= k < upto ==> a[k] == b[k],
        ensures
            Self::spec_respawn_msgs(old_players, a, upto) == Self::spec_respawn_msgs(
                old_players,
                b,
                upto,
            ),
        decreases upto,
    {
        if upto > 0 {
            Self::lemma_respawn_msgs_prefix_agree(old_players, a, b, upto - 1);
        }
    }

    /// Counts down dead players' respawn timers; an elapsed timer brings
    /// the player back at a fresh ground spot with full health, broadcast to
    /// everyone — or, if no spot was found this tick, leaves the player dead
    /// to retry next tick; living players are untouched and trigger no
    /// message.
    pub fn handle_player_respawns(
        players: &mut Vec<Player>,
        map: &TerrainMap,
        out: &mut Vec<Broadcast>,
    )
        requires
            map.wf(),
            forall|i: int| 0 <= i < old(players)@.len() ==> (#[trigger] old(players)@[i]).wf(),
        ensures
            final(players)@.len() == old(players)@.len(),
            forall|i: int| 0 <= i < old(players)@.len() ==> (#[trigger] final(players)@[i]).wf(),
            forall|i: int| 0 <= i < old(players)@.len() ==> ({
                let p = #[trigger] old(players)@[i];
                let q = final(players)@[i];
                if p.alive {
                    q == p
                } else {
                    let t = (if p.time_to_respawn >= -99980 {
                        (p.time_to_respawn - ServerTick::SERVER_TICK) as i32
                    } else {
                        p.time_to_respawn
                    });
                    if t > 0 {
                        q == (Player { time_to_respawn: t, ..p })
                    } else {
                        (q == (Player { time_to_respawn: t, ..p })) || (q == (Player {
                            alive: true,
                            health: Player::MAX_HEALTH,
                            x_last: q.x,
                            y_last: q.y,
                            x: q.x,
                            y: q.y,
                            x_new: q.x,
                            y_new: q.y,
                            time_to_respawn: t,
                            ..p
                        }) && Self::spec_ground_pos(*map, q.x, q.y))
                    }
                }
            }),
            final(out)@ == old(out)@ + Self::spec_respawn_msgs(old(players)@, final(players)@,
                old(players)@.len() as int),
            old(out)@.is_prefix_of(final(out)@),
    {
        let n = players.len();
        let mut player_i: usize = 0;

        while player_i < n
            invariant
                player_i <= n,
                n == players@.len(),
                n == old(players)@.len(),
                out@ == old(out)@ + Self::spec_respawn_msgs(old(players)@, players@,
                    player_i as int),
                map.wf(),
                forall|i: int| 0 <= i < n ==> (#[trigger] players@[i]).wf(),
                forall|i: int| player_i <= i < n ==> players@[i] == old(players)@[i],
                forall|i: int| 0 <= i < player_i ==> ({
                    let p = #[trigger] old(players)@[i];
                    let q = players@[i];
                    if p.alive {
                        q == p
                    } else {
                        let t = (if p.time_to_respawn >= -99980 {
                        (p.time_to_respawn - ServerTick::SERVER_TICK) as i32
                    } else {
                        p.time_to_respawn
                    });
                        if t > 0 {
                            q == (Player { time_to_respawn: t, ..p })
                        } else {
                            (q == (Player { time_to_respawn: t, ..p })) || (q == (Player {
                                alive: true,
                                health: Player::MAX_HEALTH,
                                x_last: q.x,
                                y_last: q.y,
                                x: q.x,
                                y: q.y,
                                x_new: q.x,
                                y_new: q.y,
                                time_to_respawn: t,
                                ..p
                            }) && Self::spec_ground_pos(*map, q.x, q.y))
                        }
                    }
                }),
                old(out)@.is_prefix_of(out@),
            decreases n - player_i,
        {
            let ghost players_at_head = players@;

            if !players[player_i].alive {
                // the countdown stops well below zero rather than wrap
                if players[player_i].time_to_respawn >= -99980 {
                    players[player_i].time_to_respawn = players[player_i].time_to_respawn
                        - ServerTick::SERVER_TICK;
                }

                if players[player_i].time_to_respawn <= 0 {
                    match Self::get_rand_pos(map, Self::SPAWN_ATTEMPTS) {
                        Some((x, y)) => {
                            players[player_i].respawn(x, y);

                            out.push(Broadcast {
                                target: Target::All,
                                msg: ServerMsg::RespawnPlayer { player_i, x, y },
                            });
                        },
                        None => {},
                    }
                }
            }

            proof {
                Self::lemma_respawn_msgs_prefix_agree(old(players)@, players_at_head, players@,
                    player_i as int);
                assert(out@ =~= old(out)@ + Self::spec_respawn_msgs(old(players)@, players@,
                    player_i as int + 1));
            }

            player_i = player_i + 1;
        }

        proof {
            Self::lemma_respawn_msgs_prefix_agree(old(players)@, players@, final(players)@,
                n as int);
        }
    }

    /// The spawn notices one weapon batch owes: one per weapon appended at
    /// or after index `from`, in order.
    pub open spec fn spec_weapon_spawn_msgs(ws: Seq<Weapon>, from: int) -> Seq<Broadcast>
        decreases ws.len() - from,
    {
        if from < 0 || from >= ws.len() {
            Seq::empty()
        } else {
            seq![
                Broadcast {
                    target: Target::All,
                    msg: ServerMsg::WeaponSpawn {
                        weapon_type: ws[from].weapon_type,
                        x: ws[from].x,
                        y: ws[from].y,
                    },
                },
            ] + Self::spec_weapon_spawn_msgs(ws, from + 1)
        }
    }

    proof fn lemma_weapon_spawn_msgs_push(ws: Seq<Weapon>, w: Weapon, from: int)
        requires
            0 <= from <= ws.len(),
        ensures
            Self::spec_weapon_spawn_msgs(ws.push(w), from) =~= Self::spec_weapon_spawn_msgs(
                ws,
                from,
            ) + seq![
                Broadcast {
                    target: Target::All,
                    msg: ServerMsg::WeaponSpawn { weapon_type: w.weapon_type, x: w.x, y: w.y },
                },
            ],
        decreases ws.len() - from,
    {
        let tag = seq![
            Broadcast {
                target: Target::All,
                msg: ServerMsg::WeaponSpawn { weapon_type: w.weapon_type, x: w.x, y: w.y },
            },
        ];

        if from < ws.len() {
            assert(ws.push(w)[from] == ws[from]);
            Self::lemma_weapon_spawn_msgs_push(ws, w, from + 1);
            assert(Self::spec_weapon_spawn_msgs(ws.push(w), from) =~= Self::spec_weapon_spawn_msgs(
                ws,
                from,
            ) + tag);
        } else {
            assert(ws.push(w)[from] == w);
            assert(Self::spec_weapon_spawn_msgs(ws.push(w), from + 1)
                =~= Seq::<Broadcast>::empty());
            assert(Self::spec_weapon_spawn_msgs(ws.push(w), from) =~= tag);
            assert(Self::spec_weapon_spawn_msgs(ws, from) =~= Seq::<Broadcast>::empty());
        }
    }

    /// Spawns a batch of ground weapons of random kinds at fresh ground
    /// spots, broadcasting each, while the ground holds at most the hard
    /// cap of weapons.
    pub fn handle_weapon_spawns(
        ground_weapons: &mut Vec<Weapon>,
        map: &TerrainMap,
        out: &mut Vec<Broadcast>,
    )
        requires
            map.wf(),
            forall|j: int| 0 <= j < old(ground_weapons)@.len()
                ==> (#[trigger] old(ground_weapons)@[j]).wf(),
        ensures
            old(ground_weapons)@.len() <= final(ground_weapons)@.len()
                <= old(ground_weapons)@.len() + Self::SPAWN_WEAPONS_COUNT,
            forall|j: int| 0 <= j < old(ground_weapons)@.len()
                ==> final(ground_weapons)@[j] == old(ground_weapons)@[j],
            forall|j: int| 0 <= j < final(ground_weapons)@.len()
                ==> (#[trigger] final(ground_weapons)@[j]).wf(),
            forall|j: int| old(ground_weapons)@.len() <= j < final(ground_weapons)@.len() ==> ({
                let w = #[trigger] final(ground_weapons)@[j];
                Self::spec_ground_pos(*map, w.x, w.y)
            }),
            old(ground_weapons)@.len() > 255 ==> final(ground_weapons)@ == old(
                ground_weapons,
            )@ && final(out)@ == old(out)@,
            old(ground_weapons)@.len() <= 255 ==> final(ground_weapons)@.len() <= 256,
            final(out)@ == old(out)@ + Self::spec_weapon_spawn_msgs(final(ground_weapons)@,
                old(ground_weapons)@.len() as int),
            old(out)@.is_prefix_of(final(out)@),
    {
        let mut c: usize = 0;

        while c < Self::SPAWN_WEAPONS_COUNT
            invariant
                c <= Self::SPAWN_WEAPONS_COUNT,
                map.wf(),
                old(ground_weapons)@.len() <= ground_weapons@.len() <= old(
                    ground_weapons,
                )@.len() + c,
                forall|j: int| 0 <= j < old(ground_weapons)@.len()
                    ==> ground_weapons@[j] == old(ground_weapons)@[j],
                forall|j: int| 0 <= j < ground_weapons@.len()
                    ==> (#[trigger] ground_weapons@[j]).wf(),
                forall|j: int| old(ground_weapons)@.len() <= j < ground_weapons@.len() ==> ({
                    let w = #[trigger] ground_weapons@[j];
                    Self::spec_ground_pos(*map, w.x, w.y)
                }),
                c > 0 ==> ground_weapons@.len() <= 256,
                old(ground_weapons)@.len() > 255 ==> ground_weapons@ == old(ground_weapons)@
                    && out@ == old(out)@,
                out@ == old(out)@ + Self::spec_weapon_spawn_msgs(ground_weapons@,
                    old(ground_weapons)@.len() as int),
                old(out)@.is_prefix_of(out@),
            decreases Self::SPAWN_WEAPONS_COUNT - c,
        {
            if ground_weapons.len() > 255 {
                return;
            }

            match Self::get_rand_pos(map, Self::SPAWN_ATTEMPTS) {
                Some((x, y)) => {
                    let weapon_type = rand_below(2) as usize;
                    let new_weapon = Weapon::new(weapon_type, x, y);
                    let ghost before = ground_weapons@;

                    ground_weapons.push(new_weapon);

                    out.push(Broadcast {
                        target: Target::All,
                        msg: ServerMsg::WeaponSpawn { weapon_type, x, y },
                    });

                    proof {
                        Self::lemma_weapon_spawn_msgs_push(before, new_weapon,
                            old(ground_weapons)@.len() as int);
                        assert(out@ =~= old(out)@ + Self::spec_weapon_spawn_msgs(
                            ground_weapons@, old(ground_weapons)@.len() as int));
                    }
                },
                None => {},
            }

            c = c + 1;
        }
    }

    // +------------------+
    // | Input application |
    // +------------------+

    /// How many broadcasts in a list forward a position.
    pub open spec fn spec_count_pos_msgs(msgs: Seq<Broadcast>) -> int
        decreases msgs.len(),
    {
        if msgs.len() == 0 {
            0
        } else {
            Self::spec_count_pos_msgs(msgs.drop_last()) + (if msgs.last().msg
                matches ServerMsg::NewPos { .. } {
                1int
            } else {
                0int
            })
        }
    }

    /// How many broadcasts in a list forward an angle.
    pub open spec fn spec_count_angle_msgs(msgs: Seq<Broadcast>) -> int
        decreases msgs.len(),
    {
        if msgs.len() == 0 {
            0
        } else {
            Self::spec_count_angle_msgs(msgs.drop_last()) + (if msgs.last().msg
                matches ServerMsg::NewAngle { .. } {
                1int
            } else {
                0int
            })
        }
    }

    proof fn lemma_count_msgs_push(s: Seq<Broadcast>, m: Broadcast)
        ensures
            Self::spec_count_pos_msgs(s.push(m)) == Self::spec_count_pos_msgs(s) + (if m.msg
                matches ServerMsg::NewPos { .. } {
                1int
            } else {
                0int
            }),
            Self::spec_count_angle_msgs(s.push(m)) == Self::spec_count_angle_msgs(s) + (if m.msg
                matches ServerMsg::NewAngle { .. } {
                1int
            } else {
                0int
            }),
    {
        assert(s.push(m).drop_last() =~= s);
        assert(s.push(m).last() == m);
    }

    /// The newest queued position report, if any: later reports supersede
    /// earlier ones within a tick.
    pub open spec fn spec_last_pos_event(events: Seq<ClientEvent>) -> Option<(u32, u32, i64, i64)>
        decreases events.len(),
    {
        if events.len() == 0 {
            None
        } else {
            match events.last() {
                ClientEvent::NewPos { x_bits, y_bits, x, y } => Some((x_bits, y_bits, x, y)),
                _ => Self::spec_last_pos_event(events.drop_last()),
            }
        }
    }

    /// The newest queued angle report, if any.
    pub open spec fn spec_last_angle_event(events: Seq<ClientEvent>) -> Option<(u32, i64, i64)>
        decreases events.len(),
    {
        if events.len() == 0 {
            None
        } else {
            match events.last() {
                ClientEvent::NewAngle { angle_bits, aim_x, aim_y } => Some((
                    angle_bits,
                    aim_x,
                    aim_y,
                )),
                _ => Self::spec_last_angle_event(events.drop_last()),
            }
        }
    }

    /// The trigger state the tick settles on: trigger events are applied
    /// newest first, so the oldest queued one is applied last and wins.
    pub open spec fn spec_settled_trigger(events: Seq<ClientEvent>) -> Option<bool>
        decreases events.len(),
    {
        if events.len() == 0 {
            None
        } else {
            match events[0] {
                ClientEvent::TriggerPulled => Some(true),
                ClientEvent::TriggerReleased => Some(false),
                _ => Self::spec_settled_trigger(events.drop_first()),
            }
        }
    }

    /// The tick's whole input stage: each connected client's drained events
    /// applied in client order, a closed or absent client leaving no trace.
    pub open spec fn spec_all_inputs_applied(
        players: Seq<Player>,
        clients: Seq<Client>,
        inputs: Seq<PlayerInput>,
        weapons: Seq<Weapon>,
        w: int,
        h: int,
        pi: int,
    ) -> (Seq<Player>, Seq<Weapon>, Seq<Broadcast>)
        decreases inputs.len() - pi,
    {
        if pi < 0 || pi >= inputs.len() {
            (players, weapons, Seq::empty())
        } else if pi < clients.len() && clients[pi].connected {
            let step = Self::spec_apply_events(players, pi, inputs[pi].events@,
                inputs[pi].events@.len() as int, weapons, w, h, false, false);
            let rest = Self::spec_all_inputs_applied(step.0, clients, inputs, step.1, w, h,
                pi + 1);
            (rest.0, rest.1, step.2 + rest.2)
        } else {
            Self::spec_all_inputs_applied(players, clients, inputs, weapons, w, h, pi + 1)
        }
    }

    /// One player's drained events, interpreted newest first from position
    /// `idx` down, with the two at-most-once flags: each event updates the
    /// player (and, for pickups, the ground weapons) and prepends its owed
    /// broadcasts, exactly as the tick applies them.
    pub open spec fn spec_apply_events(
        players: Seq<Player>,
        player_i: int,
        events: Seq<ClientEvent>,
        idx: int,
        weapons: Seq<Weapon>,
        w: int,
        h: int,
        set_pos: bool,
        set_angle: bool,
    ) -> (Seq<Player>, Seq<Weapon>, Seq<Broadcast>)
        decreases idx,
    {
        if idx <= 0 {
            (players, weapons, Seq::empty())
        } else {
            let j = idx - 1;
            match events[j] {
                ClientEvent::NewPos { x_bits, y_bits, x, y } => {
                    if set_pos {
                        Self::spec_apply_events(players, player_i, events, j, weapons, w, h,
                            set_pos, set_angle)
                    } else {
                        let cx = Self::spec_clamp_pos(x as int);
                        let cy = Self::spec_clamp_pos(y as int);
                        let moved = players.update(player_i, (Player {
                            x: cx,
                            y: cy,
                            ..players[player_i]
                        }));
                        let fwd = Broadcast {
                            target: Target::AllExcept(player_i as usize),
                            msg: ServerMsg::NewPos {
                                player_i: player_i as usize,
                                x_bits,
                                y_bits,
                            },
                        };
                        if CollisionSystem::spec_oob(cx as int, cy as int, w, h) {
                            let dead = Self::spec_apply_death(moved, player_i, None);
                            let rest = Self::spec_apply_events(dead, player_i, events, j,
                                weapons, w, h, true, set_angle);
                            (rest.0, rest.1, seq![
                                fwd,
                                Broadcast {
                                    target: Target::All,
                                    msg: ServerMsg::KillPlayer { player_i: player_i as usize },
                                },
                            ] + rest.2)
                        } else {
                            let rest = Self::spec_apply_events(moved, player_i, events, j,
                                weapons, w, h, true, set_angle);
                            (rest.0, rest.1, seq![fwd] + rest.2)
                        }
                    }
                },
                ClientEvent::NewAngle { angle_bits, aim_x, aim_y } => {
                    if set_angle {
                        Self::spec_apply_events(players, player_i, events, j, weapons, w, h,
                            set_pos, set_angle)
                    } else {
                        let turned = players.update(player_i, (Player {
                            angle_bits: angle_bits,
                            aim_x: Self::spec_clamp_aim(aim_x as int),
                            aim_y: Self::spec_clamp_aim(aim_y as int),
                            ..players[player_i]
                        }));
                        let rest = Self::spec_apply_events(turned, player_i, events, j,
                            weapons, w, h, set_pos, true);
                        (rest.0, rest.1, seq![
                            Broadcast {
                                target: Target::AllExcept(player_i as usize),
                                msg: ServerMsg::NewAngle {
                                    player_i: player_i as usize,
                                    angle_bits,
                                },
                            },
                        ] + rest.2)
                    }
                },
                ClientEvent::TakeWeapon => {
                    match Self::spec_first_weapon_in_range(players[player_i], weapons, 0) {
                        Some(k) => {
                            let wt = weapons[k].weapon_type;
                            let armed = players.update(player_i, (Player {
                                weapon_type: Some(wt),
                                ammo: Weapon::spec_ammo_count(wt as int),
                                ticks_since_last_fire: (-1) as i32,
                                ..players[player_i]
                            }));
                            let rest = Self::spec_apply_events(armed, player_i, events, j,
                                weapons.remove(k), w, h, set_pos, set_angle);
                            (rest.0, rest.1, seq![
                                Broadcast {
                                    target: Target::All,
                                    msg: ServerMsg::RemoveWeapon { weapon_i: k as usize },
                                },
                                Broadcast {
                                    target: Target::All,
                                    msg: ServerMsg::AssignWeapon {
                                        player_i: player_i as usize,
                                        weapon_type: wt,
                                    },
                                },
                            ] + rest.2)
                        },
                        None => Self::spec_apply_events(players, player_i, events, j, weapons,
                            w, h, set_pos, set_angle),
                    }
                },
                ClientEvent::TriggerPulled => {
                    let pulled = players.update(player_i, (Player {
                        trigger_pulled: true,
                        ..players[player_i]
                    }));
                    Self::spec_apply_events(pulled, player_i, events, j, weapons, w, h,
                        set_pos, set_angle)
                },
                ClientEvent::TriggerReleased => {
                    let released = players.update(player_i, (Player {
                        trigger_pulled: false,
                        ..players[player_i]
                    }));
                    Self::spec_apply_events(released, player_i, events, j, weapons, w, h,
                        set_pos, set_angle)
                },
                ClientEvent::ToggleReady => Self::spec_apply_events(players, player_i, events,
                    j, weapons, w, h, set_pos, set_angle),
                ClientEvent::Other => Self::spec_apply_events(players, player_i, events, j,
                    weapons, w, h, set_pos, set_angle),
            }
        }
    }

    /// Applies one player's drained events for the tick, newest first: at
    /// most one position update and one angle update take effect — the
    /// newest each — while weapon pickups and trigger changes apply for
    /// every occurrence; the whole application equals the event
    /// interpretation.
    #[verifier::rlimit(100)]
    pub fn apply_player_events(
        players: &mut Vec<Player>,
        player_i: usize,
        events: &Vec<ClientEvent>,
        ground_weapons: &mut Vec<Weapon>,
        map: &TerrainMap,
        out: &mut Vec<Broadcast>,
    )
        requires
            player_i < old(players)@.len(),
            map.wf(),
            forall|i: int| 0 <= i < old(players)@.len() ==> (#[trigger] old(players)@[i]).wf(),
            forall|j: int| 0 <= j < old(ground_weapons)@.len()
                ==> (#[trigger] old(ground_weapons)@[j]).wf(),
        ensures
            final(players)@.len() == old(players)@.len(),
            forall|i: int| 0 <= i < old(players)@.len() ==> (#[trigger] final(players)@[i]).wf(),
            final(ground_weapons)@.len() <= old(ground_weapons)@.len(),
            forall|j: int| 0 <= j < final(ground_weapons)@.len()
                ==> (#[trigger] final(ground_weapons)@[j]).wf(),
            old(out)@.is_prefix_of(final(out)@),
            // only the newest queued position report takes effect
            (match Self::spec_last_pos_event(events@) {
                Some(e) => final(players)@[player_i as int].x == Self::spec_clamp_pos(e.2 as int)
                    && final(players)@[player_i as int].y == Self::spec_clamp_pos(e.3 as int),
                None => final(players)@[player_i as int].x == old(players)@[player_i as int].x
                    && final(players)@[player_i as int].y == old(players)@[player_i as int].y,
            }),
            // only the newest queued angle report takes effect
            (match Self::spec_last_angle_event(events@) {
                Some(e) => final(players)@[player_i as int].angle_bits == e.0
                    && final(players)@[player_i as int].aim_x == Self::spec_clamp_aim(e.1 as int)
                    && final(players)@[player_i as int].aim_y == Self::spec_clamp_aim(e.2 as int),
                None => final(players)@[player_i as int].angle_bits == old(
                    players,
                )@[player_i as int].angle_bits && final(players)@[player_i as int].aim_x == old(
                    players,
                )@[player_i as int].aim_x && final(players)@[player_i as int].aim_y == old(
                    players,
                )@[player_i as int].aim_y,
            }),
            // the oldest queued trigger change settles the trigger
            (match Self::spec_settled_trigger(events@) {
                Some(v) => final(players)@[player_i as int].trigger_pulled == v,
                None => final(players)@[player_i as int].trigger_pulled == old(
                    players,
                )@[player_i as int].trigger_pulled,
            }),
            // other players are untouched
            forall|i: int| 0 <= i < old(players)@.len() && i != player_i
                ==> final(players)@[i] == old(players)@[i],
            // the whole application equals the event interpretation: state
            // and appended traffic are a function of the queued events
            ({
                let r = Self::spec_apply_events(old(players)@, player_i as int, events@,
                    events@.len() as int, old(ground_weapons)@, map.spec_width() as int,
                    map.spec_height() as int, false, false);
                &&& final(players)@ == r.0
                &&& final(ground_weapons)@ == r.1
                &&& final(out)@ == old(out)@ + r.2
            }),
            // with no pickup queued and no position update applied, the held
            // weapon and its ammo are untouched
            (!events@.contains(ClientEvent::TakeWeapon) && Self::spec_last_pos_event(events@)
                is None) ==> final(players)@[player_i as int].weapon_type == old(
                players,
            )@[player_i as int].weapon_type && final(players)@[player_i as int].ammo == old(
                players,
            )@[player_i as int].ammo,
            // a superseded update triggers no broadcast: exactly one position
            // forward when some position event is applied, none otherwise —
            // and the same for angles
            Self::spec_count_pos_msgs(final(out)@.skip(old(out)@.len() as int)) == (
            match Self::spec_last_pos_event(events@) {
                Some(_) => 1int,
                None => 0int,
            }),
            Self::spec_count_angle_msgs(final(out)@.skip(old(out)@.len() as int)) == (
            match Self::spec_last_angle_event(events@) {
                Some(_) => 1int,
                None => 0int,
            }),
    {
        let mut set_pos = false;
        let mut set_angle = false;
        let mut idx = events.len();

        proof {
            assert(events@.take(events@.len() as int) =~= events@);
            assert(events@.skip(events@.len() as int) =~= Seq::<ClientEvent>::empty());
            assert(out@.skip(old(out)@.len() as int) =~= Seq::<Broadcast>::empty());
            let full = Self::spec_apply_events(old(players)@, player_i as int, events@,
                events@.len() as int, old(ground_weapons)@, map.spec_width() as int,
                map.spec_height() as int, false, false);
            assert(Seq::<Broadcast>::empty() + full.2 =~= full.2);
        }

        while idx > 0
            invariant
                idx <= events@.len(),
                player_i < players@.len(),
                players@.len() == old(players)@.len(),
                map.wf(),
                forall|i: int| 0 <= i < players@.len() ==> (#[trigger] players@[i]).wf(),
                ground_weapons@.len() <= old(ground_weapons)@.len(),
                forall|j: int| 0 <= j < ground_weapons@.len()
                    ==> (#[trigger] ground_weapons@[j]).wf(),
                old(out)@.is_prefix_of(out@),
                forall|i: int| 0 <= i < players@.len() && i != player_i
                    ==> players@[i] == old(players)@[i],
                (if set_pos {
                    match Self::spec_last_pos_event(events@) {
                        Some(e) => players@[player_i as int].x == Self::spec_clamp_pos(e.2 as int)
                            && players@[player_i as int].y == Self::spec_clamp_pos(e.3 as int),
                        None => false,
                    }
                } else {
                    Self::spec_last_pos_event(events@) == Self::spec_last_pos_event(
                        events@.take(idx as int),
                    ) && players@[player_i as int].x == old(players)@[player_i as int].x
                        && players@[player_i as int].y == old(players)@[player_i as int].y
                }),
                (if set_angle {
                    match Self::spec_last_angle_event(events@) {
                        Some(e) => players@[player_i as int].angle_bits == e.0
                            && players@[player_i as int].aim_x == Self::spec_clamp_aim(e.1 as int)
                            && players@[player_i as int].aim_y == Self::spec_clamp_aim(
                            e.2 as int,
                        ),
                        None => false,
                    }
                } else {
                    Self::spec_last_angle_event(events@) == Self::spec_last_angle_event(
                        events@.take(idx as int),
                    ) && players@[player_i as int].angle_bits == old(
                        players,
                    )@[player_i as int].angle_bits && players@[player_i as int].aim_x == old(
                        players,
                    )@[player_i as int].aim_x && players@[player_i as int].aim_y == old(
                        players,
                    )@[player_i as int].aim_y
                }),
                (match Self::spec_settled_trigger(events@.skip(idx as int)) {
                    Some(v) => players@[player_i as int].trigger_pulled == v,
                    None => players@[player_i as int].trigger_pulled == old(
                        players,
                    )@[player_i as int].trigger_pulled,
                }),
                Self::spec_count_pos_msgs(out@.skip(old(out)@.len() as int)) == (if set_pos {
                    1int
                } else {
                    0int
                }),
                Self::spec_count_angle_msgs(out@.skip(old(out)@.len() as int)) == (if set_angle {
                    1int
                } else {
                    0int
                }),
                ((!events@.skip(idx as int).contains(ClientEvent::TakeWeapon) && !set_pos)
                    ==> players@[player_i as int].weapon_type == old(
                    players,
                )@[player_i as int].weapon_type && players@[player_i as int].ammo == old(
                    players,
                )@[player_i as int].ammo),
                ({
                    let w0 = map.spec_width() as int;
                    let h0 = map.spec_height() as int;
                    let full = Self::spec_apply_events(old(players)@, player_i as int, events@,
                        events@.len() as int, old(ground_weapons)@, w0, h0, false, false);
                    let rest = Self::spec_apply_events(players@, player_i as int, events@,
                        idx as int, ground_weapons@, w0, h0, set_pos, set_angle);
                    &&& full.0 == rest.0
                    &&& full.1 == rest.1
                    &&& full.2 == out@.skip(old(out)@.len() as int) + rest.2
                }),
            decreases idx,
        {
            idx = idx - 1;

            proof {
                assert(events@.take(idx as int + 1).last() == events@[idx as int]);
                assert(events@.take(idx as int + 1).drop_last() =~= events@.take(idx as int));
                assert(events@.skip(idx as int)[0] == events@[idx as int]);
                assert(events@.skip(idx as int).drop_first() =~= events@.skip(idx as int + 1));
                assert(events@.skip(idx as int).contains(ClientEvent::TakeWeapon)
                    || !events@.skip(idx as int + 1).contains(ClientEvent::TakeWeapon)) by {
                    if events@.skip(idx as int + 1).contains(ClientEvent::TakeWeapon) {
                        let k = choose|k: int|
                            0 <= k < events@.skip(idx as int + 1).len() && #[trigger] events@.skip(
                                idx as int + 1,
                            )[k] == ClientEvent::TakeWeapon;
                        assert(events@.skip(idx as int)[k + 1] == ClientEvent::TakeWeapon);
                    }
                };
            }

            match events[idx] {
                ClientEvent::NewPos { x_bits, y_bits, x, y } => {
                    if !set_pos {
                        let ghost out_pre = out@;
                        Self::handle_pos_update(x_bits, y_bits, x, y, players, player_i, map,
                            out);
                        set_pos = true;

                        proof {
                            let base = old(out)@.len() as int;
                            let fwd = Broadcast {
                                target: Target::AllExcept(player_i),
                                msg: ServerMsg::NewPos { player_i, x_bits, y_bits },
                            };
                            let notice = Broadcast {
                                target: Target::All,
                                msg: ServerMsg::KillPlayer { player_i },
                            };
                            if out@ == out_pre.push(fwd) {
                                assert(out@.skip(base) =~= out_pre.skip(base).push(fwd));
                                Self::lemma_count_msgs_push(out_pre.skip(base), fwd);
                            } else {
                                assert(out@ == out_pre.push(fwd).push(notice));
                                assert(out@.skip(base) =~= out_pre.skip(base).push(fwd).push(
                                    notice));
                                Self::lemma_count_msgs_push(out_pre.skip(base), fwd);
                                Self::lemma_count_msgs_push(out_pre.skip(base).push(fwd),
                                    notice);
                            }
                        }
                    }
                },
                ClientEvent::NewAngle { angle_bits, aim_x, aim_y } => {
                    if !set_angle {
                        let ghost out_pre = out@;
                        Self::handle_angle_update(angle_bits, aim_x, aim_y, players, player_i,
                            out);
                        set_angle = true;

                        proof {
                            let base = old(out)@.len() as int;
                            let fwd = Broadcast {
                                target: Target::AllExcept(player_i),
                                msg: ServerMsg::NewAngle { player_i, angle_bits },
                            };
                            assert(out@ == out_pre.push(fwd));
                            assert(out@.skip(base) =~= out_pre.skip(base).push(fwd));
                            Self::lemma_count_msgs_push(out_pre.skip(base), fwd);
                        }
                    }
                },
                ClientEvent::TakeWeapon => {
                    proof {
                        assert(events@.skip(idx as int).contains(ClientEvent::TakeWeapon)) by {
                            assert(events@.skip(idx as int)[0] == ClientEvent::TakeWeapon);
                        };
                    }
                    let ghost out_pre = out@;
                    let ghost players_pre = players@;
                    let ghost weapons_pre = ground_weapons@;
                    Self::handle_take_weapon(players, player_i, ground_weapons, out);

                    proof {
                        let base = old(out)@.len() as int;
                        match Self::spec_first_weapon_in_range(players_pre[player_i as int],
                            weapons_pre, 0) {
                            Some(k) => {
                                let m1 = Broadcast {
                                    target: Target::All,
                                    msg: ServerMsg::RemoveWeapon { weapon_i: k as usize },
                                };
                                let m2 = Broadcast {
                                    target: Target::All,
                                    msg: ServerMsg::AssignWeapon {
                                        player_i,
                                        weapon_type: weapons_pre[k].weapon_type,
                                    },
                                };
                                assert(out@ == out_pre.push(m1).push(m2));
                                assert(out@.skip(base) =~= out_pre.skip(base).push(m1).push(
                                    m2));
                                Self::lemma_count_msgs_push(out_pre.skip(base), m1);
                                Self::lemma_count_msgs_push(out_pre.skip(base).push(m1), m2);
                            },
                            None => {},
                        }
                    }
                },
                ClientEvent::TriggerPulled => {
                    players[player_i].trigger_pulled = true;
                },
                ClientEvent::TriggerReleased => {
                    players[player_i].trigger_pulled = false;
                },
                ClientEvent::ToggleReady => {},
                ClientEvent::Other => {},
            }
        }

        proof {
            assert(events@.take(0) =~= Seq::<ClientEvent>::empty());
            assert(events@.skip(0) =~= events@);
        }
    }

    // +-------+
    // | Lobby |
    // +-------+

    /// A player's readiness after the join phase: carried over, or false for
    /// a freshly joined player.
    pub open spec fn spec_joined_ready(old_players: Seq<Player>, i: int) -> bool {
        if i < old_players.len() {
            old_players[i].ready
        } else {
            false
        }
    }

    /// Whether client `i` queued a ready-toggle this tick.
    pub open spec fn spec_toggled(inputs: Seq<Option<ClientEvent>>, i: int) -> bool {
        0 <= i < inputs.len() && (inputs[i] matches Some(ClientEvent::ToggleReady))
    }

    /// The toggle broadcasts a lobby tick owes, in client order.
    pub open spec fn spec_lobby_toggle_msgs(
        old_players: Seq<Player>,
        inputs: Seq<Option<ClientEvent>>,
        upto: int,
    ) -> Seq<Broadcast>
        decreases upto,
    {
        if upto <= 0 {
            Seq::empty()
        } else {
            Self::spec_lobby_toggle_msgs(old_players, inputs, upto - 1) + (if Self::spec_toggled(
                inputs,
                upto - 1,
            ) {
                seq![
                    Broadcast {
                        target: Target::All,
                        msg: ServerMsg::ToggleReady {
                            player_i: (upto - 1) as usize,
                            ready: !Self::spec_joined_ready(old_players, upto - 1),
                        },
                    },
                ]
            } else {
                Seq::empty()
            })
        }
    }

    /// One lobby tick: instantiates a player for every newly joined client
    /// and broadcasts the updated roster; applies at most one queued
    /// ready-toggle per client, broadcasting each; then reports that the
    /// match can start — some players exist and every one is ready — or
    /// that the lobby's tick budget ran out, or that it goes on waiting.
    pub fn lobby_tick(
        game_match: &mut GameMatch,
        players: &mut Vec<Player>,
        inputs: &Vec<Option<ClientEvent>>,
        ticks_alive: &mut i32,
        out: &mut Vec<Broadcast>,
    ) -> (r: LobbyOutcome)
        requires
            old(players)@.len() <= old(game_match).clients@.len(),
            inputs@.len() == old(game_match).clients@.len(),
            forall|i: int| 0 <= i < old(players)@.len() ==> (#[trigger] old(players)@[i]).wf(),
        ensures
            *final(game_match) == *old(game_match),
            final(players)@.len() == old(game_match).clients@.len(),
            forall|i: int| 0 <= i < final(players)@.len()
                ==> (#[trigger] final(players)@[i]).wf(),
            forall|i: int| 0 <= i < final(players)@.len() ==> ({
                let toggled = Self::spec_toggled(inputs@, i);
                let q = #[trigger] final(players)@[i];
                &&& (i < old(players)@.len() ==> q == (Player {
                    ready: (if toggled {
                        !old(players)@[i].ready
                    } else {
                        old(players)@[i].ready
                    }),
                    ..old(players)@[i]
                }))
                &&& (i >= old(players)@.len() ==> Player::spec_is_new((Player {
                    ready: false,
                    ..q
                }), old(game_match).clients@[i].name@) && q.ready == toggled)
            }),
            ({
                let all_ready = final(players)@.len() >= 1 && (forall|i: int|
                    0 <= i < final(players)@.len() ==> (#[trigger] final(players)@[i]).ready);
                &&& (r is Ready <==> all_ready)
                &&& (r is TimedOut <==> (!all_ready && *old(ticks_alive) > Self::TIMEOUT))
                &&& (r is Waiting ==> *final(ticks_alive) == *old(ticks_alive) + 1)
                &&& (!(r is Waiting) ==> *final(ticks_alive) == *old(ticks_alive))
            }),
            ({
                let had_new = old(game_match).clients@.len() > old(players)@.len();
                let base = old(out)@.len() as int;
                let joined_count: int = if had_new {
                    1
                } else {
                    0
                };
                &&& old(out)@.is_prefix_of(final(out)@)
                &&& final(out)@.skip(base + joined_count) == Self::spec_lobby_toggle_msgs(
                    old(players)@,
                    inputs@,
                    inputs@.len() as int,
                )
                &&& (had_new ==> final(out)@.len() > base && (final(out)@[base]
                    matches Broadcast {
                    target: Target::All,
                    msg: ServerMsg::PlayerList { names },
                } && names@.len() == old(game_match).clients@.len() && (forall|k: int|
                    0 <= k < names@.len() ==> (#[trigger] names@[k])@
                        == old(game_match).clients@[k].name@)))
            }),
    {
        let n_clients = game_match.clients.len();
        let ghost old_players = players@;

        // Instantiate the newly joined clients and broadcast the roster.
        if n_clients > players.len() {
            while players.len() < n_clients
                invariant
                    *game_match == *old(game_match),
                    n_clients == game_match.clients@.len(),
                    old_players.len() <= players@.len() <= n_clients,
                    forall|i: int| 0 <= i < old_players.len()
                        ==> players@[i] == old_players[i],
                    forall|i: int| 0 <= i < players@.len() ==> (#[trigger] players@[i]).wf(),
                    forall|i: int| old_players.len() <= i < players@.len()
                        ==> Player::spec_is_new(#[trigger] players@[i],
                        game_match.clients@[i].name@) && !players@[i].ready,
                decreases n_clients - players@.len(),
            {
                let ci = players.len();
                let new_player = Player::new(game_match.clients[ci].name.clone());
                players.push(new_player);
            }

            let mut names: Vec<String> = Vec::new();
            let mut i: usize = 0;

            while i < n_clients
                invariant
                    i <= n_clients,
                    *game_match == *old(game_match),
                    n_clients == game_match.clients@.len(),
                    names@.len() == i,
                    forall|k: int| 0 <= k < i ==> (#[trigger] names@[k])@
                        == game_match.clients@[k].name@,
                decreases n_clients - i,
            {
                names.push(game_match.clients[i].name.clone());

                i = i + 1;
            }

            out.push(Broadcast { target: Target::All, msg: ServerMsg::PlayerList { names } });
        }

        // Apply queued ready-toggles.
        let ghost joined_players = players@;
        let ghost out_after_join = out@;
        let mut i: usize = 0;

        while i < n_clients
            invariant
                i <= n_clients,
                *game_match == *old(game_match),
                n_clients == game_match.clients@.len(),
                n_clients == inputs@.len(),
                players@.len() == n_clients,
                joined_players.len() == n_clients,
                forall|j: int| 0 <= j < n_clients ==> (#[trigger] players@[j]).wf(),
                forall|j: int| 0 <= j < n_clients
                    ==> !(#[trigger] joined_players[j]).ready == (j >= old_players.len()
                    || !old_players[j].ready),
                forall|j: int| 0 <= j < n_clients ==> (#[trigger] joined_players[j]).ready
                    == Self::spec_joined_ready(old_players, j),
                forall|j: int| i <= j < n_clients ==> players@[j] == joined_players[j],
                forall|j: int| 0 <= j < i ==> #[trigger] players@[j] == (Player {
                    ready: (if Self::spec_toggled(inputs@, j) {
                        !joined_players[j].ready
                    } else {
                        joined_players[j].ready
                    }),
                    ..joined_players[j]
                }),
                out@ == out_after_join + Self::spec_lobby_toggle_msgs(old_players, inputs@,
                    i as int),
            decreases n_clients - i,
        {
            let mut do_toggle = false;

            if let Some(ev) = inputs[i] {
                if let ClientEvent::ToggleReady = ev {
                    do_toggle = true;
                }
            }

            if do_toggle {
                let was_ready = players[i].ready;
                players[i].ready = !was_ready;

                out.push(Broadcast {
                    target: Target::All,
                    msg: ServerMsg::ToggleReady { player_i: i, ready: !was_ready },
                });
            }

            proof {
                assert(out@ =~= out_after_join + Self::spec_lobby_toggle_msgs(old_players,
                    inputs@, i as int + 1));
                assert(players@[i as int] == (Player {
                    ready: (if Self::spec_toggled(inputs@, i as int) {
                        !joined_players[i as int].ready
                    } else {
                        joined_players[i as int].ready
                    }),
                    ..joined_players[i as int]
                }));
            }

            i = i + 1;
        }

        proof {
            assert(out@.skip(out_after_join.len() as int) =~= Self::spec_lobby_toggle_msgs(
                old_players, inputs@, inputs@.len() as int));
        }

        // Start once somebody is here and everybody is ready; otherwise
        // spend one tick of the lobby's budget.
        let mut all_ready = players.len() >= 1;
        let mut j: usize = 0;

        while j < players.len()
            invariant
                j <= players@.len(),
                all_ready == (players@.len() >= 1 && (forall|k: int| 0 <= k < j
                    ==> (#[trigger] players@[k]).ready)),
            decreases players@.len() - j,
        {
            if !players[j].ready {
                all_ready = false;
            }

            j = j + 1;
        }

        if all_ready {
            return LobbyOutcome::Ready;
        }

        if *ticks_alive > Self::TIMEOUT {
            return LobbyOutcome::TimedOut;
        }

        *ticks_alive = *ticks_alive + 1;

        LobbyOutcome::Waiting
    }

    // +-------------------+
    // | Main phase entry  |
    // +-------------------+

    /// The StartGame notices owed on entering Main: one to each client with
    /// its index and spawn position.
    pub open spec fn spec_start_msgs(players: Seq<Player>, upto: int) -> Seq<Broadcast>
        decreases upto,
    {
        if upto <= 0 {
            Seq::empty()
        } else {
            Self::spec_start_msgs(players, upto - 1) + seq![
                Broadcast {
                    target: Target::One((upto - 1) as usize),
                    msg: ServerMsg::StartGame {
                        player_i: (upto - 1) as usize,
                        x: players[upto - 1].x,
                        y: players[upto - 1].y,
                    },
                },
            ]
        }
    }

    proof fn lemma_start_msgs_prefix_agree(a: Seq<Player>, b: Seq<Player>, upto: int)
        requires
            0 <= upto <= a.len(),
            upto <= b.len(),
            forall|k: int| 0 <= k < upto ==> a[k] == b[k],
        ensures
            Self::spec_start_msgs(a, upto) == Self::spec_start_msgs(b, upto),
        decreases upto,
    {
        if upto > 0 {
            Self::lemma_start_msgs_prefix_agree(a, b, upto - 1);
        }
    }

    /// Enters the Main phase: flips the match to Game, moves each player to
    /// a fresh ground spawn where one is found, and sends each client its
    /// StartGame notice with its index and position.
    pub fn main_enter(game_match: &mut GameMatch, state: &mut GameState, out: &mut Vec<Broadcast>)
        requires
            old(state).wf(),
            old(game_match).clients@.len() == old(state).players@.len(),
        ensures
            final(state).wf(),
            final(state).players@.len() == old(state).players@.len(),
            final(game_match).state == GameMatch::GAME,
            final(game_match).code == old(game_match).code,
            final(game_match).clients == old(game_match).clients,
            final(state).projectiles == old(state).projectiles,
            final(state).ground_weapons == old(state).ground_weapons,
            final(state).map == old(state).map,
            final(state).ticks_alive == old(state).ticks_alive,
            final(state).ticks_since_weapon_spawn == old(state).ticks_since_weapon_spawn,
            forall|i: int| 0 <= i < final(state).players@.len() ==> ({
                let p = old(state).players@[i];
                let q = #[trigger] final(state).players@[i];
                q == p || (q == (Player { x: q.x, y: q.y, ..p }) && Self::spec_ground_pos(
                    final(state).map,
                    q.x,
                    q.y,
                ))
            }),
            final(out)@ == old(out)@ + Self::spec_start_msgs(final(state).players@,
                final(state).players@.len() as int),
    {
        game_match.state = GameMatch::GAME;

        let n = state.players.len();
        let mut client_i: usize = 0;

        while client_i < n
            invariant
                client_i <= n,
                n == state.players@.len(),
                n == old(state).players@.len(),
                state.map == old(state).map,
                state.map.wf(),
                state.projectiles == old(state).projectiles,
                state.ground_weapons == old(state).ground_weapons,
                state.ticks_alive == old(state).ticks_alive,
                state.ticks_since_weapon_spawn == old(state).ticks_since_weapon_spawn,
                old(state).wf(),
                game_match.state == GameMatch::GAME,
                game_match.code == old(game_match).code,
                game_match.clients == old(game_match).clients,
                forall|i: int| 0 <= i < n ==> (#[trigger] state.players@[i]).wf(),
                forall|i: int| client_i <= i < n
                    ==> state.players@[i] == old(state).players@[i],
                forall|i: int| 0 <= i < client_i ==> ({
                    let p = old(state).players@[i];
                    let q = #[trigger] state.players@[i];
                    q == p || (q == (Player { x: q.x, y: q.y, ..p }) && Self::spec_ground_pos(
                        state.map,
                        q.x,
                        q.y,
                    ))
                }),
                out@ == old(out)@ + Self::spec_start_msgs(state.players@, client_i as int),
            decreases n - client_i,
        {
            let ghost players_before = state.players@;

            match Self::get_rand_pos(&state.map, Self::SPAWN_ATTEMPTS) {
                Some((x, y)) => {
                    state.players[client_i].x = x;
                    state.players[client_i].y = y;
                },
                None => {},
            }

            let x = state.players[client_i].x;
            let y = state.players[client_i].y;

            out.push(Broadcast {
                target: Target::One(client_i),
                msg: ServerMsg::StartGame { player_i: client_i, x, y },
            });

            proof {
                Self::lemma_start_msgs_prefix_agree(players_before, state.players@,
                    client_i as int);
                assert(out@ =~= old(out)@ + Self::spec_start_msgs(state.players@,
                    client_i as int + 1));
            }

            client_i = client_i + 1;
        }

        proof {
            Self::lemma_start_msgs_prefix_agree(state.players@, final(state).players@, n as int);
        }
    }

    // +------------+
    // | Main tick  |
    // +------------+

    /// One Main tick: per connected client, marks reported transport closure
    /// and applies the drained events; then fires weapons, steps
    /// projectiles, counts down respawns and spawns ground weapons on the
    /// fixed cadence; finally reports, in order of precedence, a win (some
    /// player has the kill threshold), all clients disconnected, a timeout,
    /// or that the match goes on.
    pub fn main_tick(
        game_match: &mut GameMatch,
        state: &mut GameState,
        inputs: &Vec<PlayerInput>,
        out: &mut Vec<Broadcast>,
    ) -> (r: MainTickOutcome)
        requires
            old(state).wf(),
            old(game_match).clients@.len() == old(state).players@.len(),
            inputs@.len() == old(state).players@.len(),
        ensures
            final(state).wf(),
            final(state).players@.len() == old(state).players@.len(),
            final(game_match).clients@.len() == old(game_match).clients@.len(),
            final(game_match).state == old(game_match).state,
            final(game_match).code == old(game_match).code,
            // a client stays connected exactly until its transport reports
            // closure; names and order never change
            forall|i: int| 0 <= i < old(game_match).clients@.len() ==> {
                &&& (#[trigger] final(game_match).clients@[i]).connected
                    == (old(game_match).clients@[i].connected && !inputs@[i].closed)
                &&& final(game_match).clients@[i].name == old(game_match).clients@[i].name
            },
            old(out)@.is_prefix_of(final(out)@),
            ({
                let won = exists|i: int| 0 <= i < final(state).players@.len() && (
                #[trigger] final(state).players@[i]).kills >= Self::KILLS_TO_WIN_GAME;
                let any_connected = exists|i: int| 0 <= i < final(game_match).clients@.len()
                    && (#[trigger] final(game_match).clients@[i]).connected;
                &&& (r is Won <==> won)
                &&& (r is AllDisconnected <==> (!won && !any_connected))
                &&& (r is TimedOut <==> (!won && any_connected && old(state).ticks_alive
                    > Self::TIMEOUT))
                &&& (r is Continue ==> final(state).ticks_alive == old(state).ticks_alive + 1)
            }),
            // the tick's work is the staged interpretation: inputs applied
            // per connected client, the firing pass, the projectile flight,
            // then the respawn countdowns and the weapon cadence — with the
            // appended traffic the concatenation of the stages' own
            ({
                let w0 = old(state).map.spec_width() as int;
                let h0 = old(state).map.spec_height() as int;
                let nn = old(state).players@.len() as int;
                let s1 = Self::spec_all_inputs_applied(old(state).players@,
                    old(game_match).clients@, inputs@, old(state).ground_weapons@, w0, h0, 0);
                let fired = Self::spec_fire_pass(s1.0);
                let flown = Self::spec_tick_flight(fired, w0, h0, old(state).map.solid_set(),
                    old(state).projectiles@ + Self::spec_fired_projectiles(s1.0, nn), 0, 0);
                let spawn_due = old(state).ticks_since_weapon_spawn < 0
                    || old(state).ticks_since_weapon_spawn >= Self::WEAPONS_SPAWN_TICKS;
                &&& final(state).projectiles@ == flown.3
                &&& final(state).map.solid_set() == flown.1
                &&& final(state).map.spec_width() == old(state).map.spec_width()
                &&& final(state).map.spec_height() == old(state).map.spec_height()
                &&& (forall|i: int| 0 <= i < nn ==> ({
                    let p = flown.0[i];
                    let q = #[trigger] final(state).players@[i];
                    if p.alive {
                        q == p
                    } else {
                        let t = (if p.time_to_respawn >= -99980 {
                            (p.time_to_respawn - ServerTick::SERVER_TICK) as i32
                        } else {
                            p.time_to_respawn
                        });
                        if t > 0 {
                            q == (Player { time_to_respawn: t, ..p })
                        } else {
                            (q == (Player { time_to_respawn: t, ..p })) || (q == (Player {
                                alive: true,
                                health: Player::MAX_HEALTH,
                                x_last: q.x,
                                y_last: q.y,
                                x: q.x,
                                y: q.y,
                                x_new: q.x,
                                y_new: q.y,
                                time_to_respawn: t,
                                ..p
                            }) && Self::spec_ground_pos(final(state).map, q.x, q.y))
                        }
                    }
                }))
                &&& (spawn_due ==> {
                    &&& s1.1.len() <= final(state).ground_weapons@.len() <= s1.1.len()
                        + Self::SPAWN_WEAPONS_COUNT
                    &&& (forall|j: int| 0 <= j < s1.1.len()
                        ==> final(state).ground_weapons@[j] == s1.1[j])
                    &&& (forall|j: int| s1.1.len() <= j < final(state).ground_weapons@.len()
                        ==> Self::spec_ground_pos(final(state).map,
                        (#[trigger] final(state).ground_weapons@[j]).x,
                        final(state).ground_weapons@[j].y))
                    &&& (s1.1.len() > 255 ==> final(state).ground_weapons@ == s1.1)
                    &&& final(state).ticks_since_weapon_spawn == 0
                })
                &&& (!spawn_due ==> final(state).ground_weapons@ == s1.1
                    && final(state).ticks_since_weapon_spawn == old(
                    state,
                ).ticks_since_weapon_spawn + 1)
                &&& final(out)@ == old(out)@ + s1.2 + Self::spec_fire_msgs(s1.0, nn) + flown.2
                    + Self::spec_respawn_msgs(flown.0, final(state).players@, nn) + (
                if spawn_due {
                    Self::spec_weapon_spawn_msgs(final(state).ground_weapons@,
                        s1.1.len() as int)
                } else {
                    Seq::<Broadcast>::empty()
                })
            }),
    {
        let n = state.players.len();

        proof {
            let w0 = old(state).map.spec_width() as int;
            let h0 = old(state).map.spec_height() as int;
            let full = Self::spec_all_inputs_applied(old(state).players@,
                old(game_match).clients@, inputs@, old(state).ground_weapons@, w0, h0, 0);
            assert(out@.skip(old(out)@.len() as int) =~= Seq::<Broadcast>::empty());
            assert(Seq::<Broadcast>::empty() + full.2 =~= full.2);
        }

        // Mark reported closures and apply each connected client's events.
        let mut player_i: usize = 0;

        while player_i < n
            invariant
                player_i <= n,
                n == state.players@.len(),
                n == old(state).players@.len(),
                n == game_match.clients@.len(),
                n == old(game_match).clients@.len(),
                n == inputs@.len(),
                game_match.state == old(game_match).state,
                game_match.code == old(game_match).code,
                forall|j: int| player_i <= j < n
                    ==> game_match.clients@[j] == old(game_match).clients@[j],
                forall|j: int| 0 <= j < player_i ==> {
                    &&& (#[trigger] game_match.clients@[j]).connected
                        == (old(game_match).clients@[j].connected && !inputs@[j].closed)
                    &&& game_match.clients@[j].name == old(game_match).clients@[j].name
                },
                state.map == old(state).map,
                state.map.wf(),
                state.projectiles == old(state).projectiles,
                forall|i: int| 0 <= i < n ==> (#[trigger] state.players@[i]).wf(),
                forall|j: int| 0 <= j < state.ground_weapons@.len()
                    ==> (#[trigger] state.ground_weapons@[j]).wf(),
                forall|j: int| 0 <= j < state.projectiles@.len()
                    ==> Self::spec_projectile_in_flight(#[trigger] state.projectiles@[j],
                    n as int),
                state.ticks_alive == old(state).ticks_alive,
                state.ticks_since_weapon_spawn == old(state).ticks_since_weapon_spawn,
                old(state).wf(),
                old(out)@.is_prefix_of(out@),
                ({
                    let w0 = old(state).map.spec_width() as int;
                    let h0 = old(state).map.spec_height() as int;
                    let full = Self::spec_all_inputs_applied(old(state).players@,
                        old(game_match).clients@, inputs@, old(state).ground_weapons@, w0, h0,
                        0);
                    let rest = Self::spec_all_inputs_applied(state.players@,
                        old(game_match).clients@, inputs@, state.ground_weapons@, w0, h0,
                        player_i as int);
                    &&& full.0 == rest.0
                    &&& full.1 == rest.1
                    &&& full.2 == out@.skip(old(out)@.len() as int) + rest.2
                }),
            decreases n - player_i,
        {
            let ghost players_head = state.players@;
            let ghost weapons_head = state.ground_weapons@;
            let ghost out_head = out@;

            if game_match.clients[player_i].connected {
                proof {
                    assert(old(game_match).clients@[player_i as int].connected);
                }

                if inputs[player_i].closed {
                    game_match.clients[player_i].connected = false;
                }

                Self::apply_player_events(&mut state.players, player_i,
                    &inputs[player_i].events, &mut state.ground_weapons, &state.map, out);

                proof {
                    let base = old(out)@.len() as int;
                    let w0 = old(state).map.spec_width() as int;
                    let h0 = old(state).map.spec_height() as int;
                    let step = Self::spec_apply_events(players_head, player_i as int,
                        inputs@[player_i as int].events@,
                        inputs@[player_i as int].events@.len() as int, weapons_head, w0, h0,
                        false, false);
                    let rest2 = Self::spec_all_inputs_applied(state.players@,
                        old(game_match).clients@, inputs@, state.ground_weapons@, w0, h0,
                        player_i as int + 1);
                    assert(state.players@ == step.0);
                    assert(state.ground_weapons@ == step.1);
                    assert(out@.skip(base) =~= out_head.skip(base) + step.2);
                    assert(out_head.skip(base) + (step.2 + rest2.2) =~= out@.skip(base)
                        + rest2.2);
                }
            } else {
                proof {
                    assert(!old(game_match).clients@[player_i as int].connected);
                }
            }

            player_i = player_i + 1;
        }

        // Combat and physics, in fixed order.
        let ghost players_pre_fire = state.players@;
        let ghost weapons_s1 = state.ground_weapons@;
        let ghost out_after_inputs = out@;

        proof {
            let w0 = old(state).map.spec_width() as int;
            let h0 = old(state).map.spec_height() as int;
            let full = Self::spec_all_inputs_applied(old(state).players@,
                old(game_match).clients@, inputs@, old(state).ground_weapons@, w0, h0, 0);
            let rest = Self::spec_all_inputs_applied(state.players@, old(game_match).clients@,
                inputs@, state.ground_weapons@, w0, h0, n as int);
            assert(rest.2 =~= Seq::<Broadcast>::empty());
            assert(out@.skip(old(out)@.len() as int) + Seq::<Broadcast>::empty()
                =~= out@.skip(old(out)@.len() as int));
            assert(full.0 == state.players@ && full.1 == state.ground_weapons@);
            assert(full.2 == out@.skip(old(out)@.len() as int));
            assert(out@ =~= old(out)@ + out@.skip(old(out)@.len() as int));
            assert(out@ == old(out)@ + full.2);
        }

        Self::handle_weapons(&mut state.players, &mut state.projectiles, out);

        let ghost out_after_fire = out@;
        let ghost projectiles_fired = state.projectiles@;

        proof {
            assert forall|j: int| 0 <= j < state.projectiles@.len()
                implies Self::spec_projectile_in_flight(#[trigger] state.projectiles@[j],
                n as int) by {
                let pr = state.projectiles@[j];
                if pr.owner < n && Self::spec_fires(players_pre_fire[pr.owner as int])
                    && pr == Self::spec_fired_projectile(players_pre_fire[pr.owner as int],
                    pr.owner as int) {
                    Self::lemma_fired_in_flight(players_pre_fire[pr.owner as int],
                        pr.owner as int, n as int);
                }
            }
        }

        let ghost map_pre_flight = state.map;
        let _kept = Self::handle_projectiles(&mut state.players, &mut state.projectiles,
            &mut state.map, out);

        let ghost players_after_flight = state.players@;
        let ghost out_after_flight = out@;

        Self::handle_player_respawns(&mut state.players, &state.map, out);

        let ghost out_after_respawn = out@;

        // Periodic ground-weapon spawning.
        if state.ticks_since_weapon_spawn < 0 || state.ticks_since_weapon_spawn
            >= Self::WEAPONS_SPAWN_TICKS {
            Self::handle_weapon_spawns(&mut state.ground_weapons, &state.map, out);
            state.ticks_since_weapon_spawn = 0;
        } else {
            state.ticks_since_weapon_spawn = state.ticks_since_weapon_spawn + 1;
        }

        proof {
            // the stages assemble into the tick's interpretation
            let w0 = old(state).map.spec_width() as int;
            let h0 = old(state).map.spec_height() as int;
            let nn = old(state).players@.len() as int;
            let s1 = Self::spec_all_inputs_applied(old(state).players@,
                old(game_match).clients@, inputs@, old(state).ground_weapons@, w0, h0, 0);
            let fired = Self::spec_fire_pass(s1.0);
            let flown = Self::spec_tick_flight(fired, w0, h0, old(state).map.solid_set(),
                old(state).projectiles@ + Self::spec_fired_projectiles(s1.0, nn), 0, 0);
            let spawn_due = old(state).ticks_since_weapon_spawn < 0
                || old(state).ticks_since_weapon_spawn >= Self::WEAPONS_SPAWN_TICKS;

            assert(players_pre_fire == s1.0);
            assert(out_after_fire == out_after_inputs + Self::spec_fire_msgs(players_pre_fire,
                players_pre_fire.len() as int));
            assert(players_pre_fire.len() as int == nn);
            assert(out_after_fire == out_after_inputs + Self::spec_fire_msgs(s1.0, nn));
            assert(projectiles_fired == old(state).projectiles@
                + Self::spec_fired_projectiles(s1.0, nn));
            assert(map_pre_flight.solid_set() == old(state).map.solid_set());
            assert(out_after_flight == out_after_fire + flown.2);
            assert(players_after_flight == flown.0);
            assert(out_after_respawn == out_after_flight + Self::spec_respawn_msgs(flown.0,
                state.players@, nn));

            let spawn_msgs: Seq<Broadcast> = if spawn_due {
                Self::spec_weapon_spawn_msgs(state.ground_weapons@, weapons_s1.len() as int)
            } else {
                Seq::empty()
            };
            assert(out@ == out_after_respawn + spawn_msgs) by {
                if !spawn_due {
                    assert(out_after_respawn + Seq::<Broadcast>::empty() =~= out_after_respawn);
                }
            };

            assert(out@ =~= old(out)@ + s1.2 + Self::spec_fire_msgs(s1.0, nn) + flown.2
                + Self::spec_respawn_msgs(flown.0, state.players@, nn) + spawn_msgs);
        }

        // A player at the kill threshold ends the match.
        let mut won = false;
        let mut i: usize = 0;

        while i < n
            invariant
                i <= n,
                n == state.players@.len(),
                won == (exists|k: int| 0 <= k < i && (#[trigger] state.players@[k]).kills
                    >= Self::KILLS_TO_WIN_GAME),
            decreases n - i,
        {
            if state.players[i].kills >= Self::KILLS_TO_WIN_GAME {
                won = true;
            }

            i = i + 1;
        }

        if won {
            return MainTickOutcome::Won;
        }

        // No clients left ends the match at once.
        let mut any_connected = false;
        let mut c: usize = 0;

        while c < game_match.clients.len()
            invariant
                c <= game_match.clients@.len(),
                any_connected == (exists|k: int| 0 <= k < c && (
                #[trigger] game_match.clients@[k]).connected),
            decreases game_match.clients@.len() - c,
        {
            if game_match.clients[c].connected {
                any_connected = true;
            }

            c = c + 1;
        }

        if !any_connected {
            return MainTickOutcome::AllDisconnected;
        }

        if state.ticks_alive > Self::TIMEOUT {
            return MainTickOutcome::TimedOut;
        }

        state.ticks_alive = state.ticks_alive + 1;

        MainTickOutcome::Continue
    }

    proof fn lemma_fired_in_flight(p: Player, i: int, n: int)
        requires
            p.wf(),
            0 <= i < n,
        ensures
            Self::spec_projectile_in_flight(Self::spec_fired_projectile(p, i), n),
    {
        let wt = p.weapon_type->Some_0 as int;
        let pt = Weapon::spec_weapon_projectile_type(wt);
        let iv = Projectile::spec_init_vel(pt as int) as int;

        assert(-17000 <= Self::spec_fire_vel(p.aim_x as int, iv) <= 17000) by (nonlinear_arith)
            requires
                -10000 <= p.aim_x <= 10000,
                0 < iv <= 17000,
        ;
        assert(-17000 <= Self::spec_fire_vel(p.aim_y as int, iv) <= 17000) by (nonlinear_arith)
            requires
                -10000 <= p.aim_y <= 10000,
                0 < iv <= 17000,
        ;
    }

    // +-----------------------+
    // | Game over and release |
    // +-----------------------+

    /// Broadcasts every player's final kill and death tally, once.
    pub fn game_over(players: &Vec<Player>, out: &mut Vec<Broadcast>)
        ensures
            final(out)@.len() == old(out)@.len() + 1,
            old(out)@.is_prefix_of(final(out)@),
            (final(out)@.last() matches Broadcast {
                target: Target::All,
                msg: ServerMsg::GameOverStats { kills_deaths },
            } && kills_deaths@ == players@.map_values(|p: Player| (p.kills, p.deaths))),
    {
        let mut kills_deaths: Vec<(i32, i32)> = Vec::new();
        let mut i: usize = 0;

        while i < players.len()
            invariant
                i <= players@.len(),
                kills_deaths@ =~= players@.map_values(|p: Player| (p.kills, p.deaths)).take(
                    i as int,
                ),
            decreases players@.len() - i,
        {
            kills_deaths.push((players[i].kills, players[i].deaths));

            proof {
                assert(kills_deaths@ =~= players@.map_values(|p: Player| (p.kills, p.deaths)).take(
                    i as int + 1,
                ));
            }

            i = i + 1;
        }

        proof {
            assert(kills_deaths@ =~= players@.map_values(|p: Player| (p.kills, p.deaths)));
        }

        out.push(Broadcast { target: Target::All, msg: ServerMsg::GameOverStats { kills_deaths } });
    }

    /// Returns the slot to the pool: clears the client list and the join
    /// code — a code identifies a slot only while it is active — and resets
    /// the phase to Unused. Closing the transports is the rim's affair.
    pub fn release_match(game_match: &mut GameMatch)
        ensures
            final(game_match).state == GameMatch::UNUSED,
            final(game_match).clients@.len() == 0,
            final(game_match).code@.len() == 0,
    {
        game_match.clients = Vec::new();
        game_match.code = String::new();
        game_match.state = GameMatch::UNUSED;
    }

    /// The health broadcasts an explosion owes: one to each damaged player,
    /// in index order, carrying that player's health after the damage.
    pub open spec fn spec_explosion_health_msgs(
        players: Seq<Player>,
        finals: Seq<Player>,
        pixels: Seq<(i32, i32)>,
        upto: int,
    ) -> Seq<Broadcast>
        decreases upto,
    {
        if upto <= 0 {
            Seq::empty()
        } else {
            let i = upto - 1;
            let ov = Self::spec_overlap_count(pixels, players[i].x as int, players[i].y as int,
                pixels.len() as int);
            Self::spec_explosion_health_msgs(players, finals, pixels, i) + (if players[i].alive
                && ov > 0 {
                seq![
                    Broadcast {
                        target: Target::One(i as usize),
                        msg: ServerMsg::UpdateHealth { health: finals[i].health },
                    },
                ]
            } else {
                Seq::empty()
            })
        }
    }
}

} // verus!
