//! Semi-implicit integration of gravity and velocity.
//!
//! Half the gravity of a step is applied to the velocity before the position
//! update and half after, so the position moves by the step's average
//! velocity.

use vstd::prelude::*;
use crate::player::Player;
use crate::projectile::Projectile;

verus! {

/// A product of two factors bounded in magnitude is bounded by the product
/// of the bounds.
pub proof fn lemma_product_bounded(a: int, b: int, a_cap: int, b_cap: int)
    requires
        -a_cap <= a <= a_cap,
        0 <= b <= b_cap,
        0 <= a_cap,
    ensures
        -(a_cap * b_cap) <= a * b <= a_cap * b_cap,
{
    assert(-(a_cap * b_cap) <= a * b <= a_cap * b_cap) by (nonlinear_arith)
        requires
            -a_cap <= a <= a_cap,
            0 <= b <= b_cap,
            0 <= a_cap,
    ;
}

pub struct VelSystem {}

impl VelSystem {
    /// Gravity, in fixed-point units per millisecond squared
    /// (1.2/1000 pixels per millisecond squared).
    pub const GRAVITY: i64 = 12;

    /// One integration step for a projectile over `time_elapsed`
    /// milliseconds: the horizontal position advances by the constant
    /// horizontal velocity; the vertical position advances by the step's
    /// mid-step velocity; the vertical velocity gains a full step of gravity.
    pub fn update_projectile(projectile: &mut Projectile, time_elapsed: i64)
        requires
            old(projectile).wf(),
            0 < time_elapsed <= 1000,
            time_elapsed % 2 == 0,
        ensures
            final(projectile).projectile_type == old(projectile).projectile_type,
            final(projectile).owner == old(projectile).owner,
            final(projectile).x == old(projectile).x + old(projectile).vel_x * time_elapsed,
            final(projectile).vel_x == old(projectile).vel_x,
            final(projectile).y == old(projectile).y + (old(projectile).vel_y + Self::GRAVITY
                * time_elapsed / 2) * time_elapsed,
            final(projectile).vel_y == old(projectile).vel_y + Self::GRAVITY * time_elapsed,
    {
        let half: i64 = Self::GRAVITY * time_elapsed / 2;

        proof {
            lemma_product_bounded(projectile.vel_x as int, time_elapsed as int,
                Projectile::MOTION_VEL_CAP as int, 1000);
            lemma_product_bounded(projectile.vel_y + half, time_elapsed as int,
                Projectile::MOTION_VEL_CAP + 6000, 1000);
        }

        projectile.x = projectile.x + projectile.vel_x * time_elapsed;

        projectile.vel_y = projectile.vel_y + half;
        projectile.y = projectile.y + projectile.vel_y * time_elapsed;
        projectile.vel_y = projectile.vel_y + half;
    }

    /// One integration step for a player's vertical motion, in the same
    /// semi-implicit form as for projectiles.
    pub fn update_player(player: &mut Player, time_elapsed: i64)
        requires
            old(player).wf(),
            0 < time_elapsed <= 1000,
            time_elapsed % 2 == 0,
        ensures
            final(player).y == old(player).y + (old(player).vel_y + Self::GRAVITY * time_elapsed
                / 2) * time_elapsed,
            final(player).vel_y == old(player).vel_y + Self::GRAVITY * time_elapsed,
            *final(player) == (Player {
                y: final(player).y,
                vel_y: final(player).vel_y,
                ..*old(player)
            }),
    {
        let half: i64 = Self::GRAVITY * time_elapsed / 2;

        proof {
            lemma_product_bounded(player.vel_y + half, time_elapsed as int,
                Player::VEL_CAP + 6000, 1000);
        }

        player.vel_y = player.vel_y + half;
        player.y = player.y + player.vel_y * time_elapsed;
        player.vel_y = player.vel_y + half;
    }
}

} // verus!
