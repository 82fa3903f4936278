//! Projectiles, the static projectile catalog, and the explosion footprint.
//!
//! Coordinates and velocities are fixed-point with 10000 units to the pixel;
//! damage is fixed-point with 1000 units to one health point; the damage
//! radius is in whole pixels.

use vstd::prelude::*;

verus! {

pub struct ProjectileType {
    pub name: &'static str,
    /// Initial speed, in fixed-point units per millisecond.
    pub init_vel: i64,
    /// Damage radius, in pixels.
    pub damage_radius: i32,
    /// Damage per footprint pixel overlapping a player, in thousandths of a
    /// health point.
    pub damage: i64,
}

#[derive(Clone, Copy)]
pub struct Projectile {
    pub projectile_type: usize,
    pub x: i64,
    pub y: i64,
    pub vel_x: i64,
    pub vel_y: i64,
    pub owner: usize,
}

impl Projectile {
    pub const TYPE_BULLET: usize = 0;
    pub const TYPE_GRENADE: usize = 1;

    /// Number of projectile kinds in the catalog.
    pub const PROJECTILE_TYPE_COUNT: usize = 2;

    /// Largest coordinate magnitude the kinematics accept, in fixed-point
    /// units.
    pub const MOTION_POS_CAP: i64 = 1_000_000_000_000_000;

    /// Largest velocity magnitude the kinematics accept, in fixed-point
    /// units per millisecond.
    pub const MOTION_VEL_CAP: i64 = 1_000_000_000_000;

    pub open spec fn spec_init_vel(t: int) -> i64 {
        if t == 1 { 7000 } else { 17000 }
    }

    pub open spec fn spec_damage_radius(t: int) -> i32 {
        if t == 1 { 40 } else { 1 }
    }

    pub open spec fn spec_damage(t: int) -> i64 {
        if t == 1 { 3 } else { 300 }
    }

    /// The catalog entry for a projectile kind: bullets are fast with a
    /// single-pixel footprint and high per-pixel damage; grenades are slow
    /// with a wide footprint and low per-pixel damage.
    pub fn projectile_type_of(t: usize) -> (r: ProjectileType)
        requires
            t < Self::PROJECTILE_TYPE_COUNT,
        ensures
            r.init_vel == Self::spec_init_vel(t as int),
            r.damage_radius == Self::spec_damage_radius(t as int),
            r.damage == Self::spec_damage(t as int),
    {
        if t == 1 {
            ProjectileType {
                name: "grenade",
                init_vel: 7000,
                damage_radius: 40,
                damage: 3,
            }
        } else {
            ProjectileType {
                name: "bullet",
                init_vel: 17000,
                damage_radius: 1,
                damage: 300,
            }
        }
    }

    pub open spec fn wf(self) -> bool {
        &&& self.projectile_type < Self::PROJECTILE_TYPE_COUNT
        &&& -Self::MOTION_POS_CAP <= self.x <= Self::MOTION_POS_CAP
        &&& -Self::MOTION_POS_CAP <= self.y <= Self::MOTION_POS_CAP
        &&& -Self::MOTION_VEL_CAP <= self.vel_x <= Self::MOTION_VEL_CAP
        &&& -Self::MOTION_VEL_CAP <= self.vel_y <= Self::MOTION_VEL_CAP
    }

    // +---------------------+
    // | Explosion footprint |
    // +---------------------+

    /// `sqrt(v)` rounded to the nearest integer, searched upward from `k`:
    /// the least `h >= k` with `4v < (2h+1)^2`.
    pub open spec fn spec_round_sqrt_from(v: int, k: int) -> int
        decreases v - k,
        via Self::round_sqrt_from_decreases
    {
        if v < 0 || k < 0 {
            0
        } else if 4 * v < (2 * k + 1) * (2 * k + 1) {
            k
        } else {
            Self::spec_round_sqrt_from(v, k + 1)
        }
    }

    #[via_fn]
    proof fn round_sqrt_from_decreases(v: int, k: int) {
        if !(v < 0 || k < 0) && !(4 * v < (2 * k + 1) * (2 * k + 1)) {
            assert(v - (k + 1) >= 0) by (nonlinear_arith)
                requires
                    k >= 0,
                    4 * v >= (2 * k + 1) * (2 * k + 1),
            ;
        }
    }

    /// `sqrt(v)` rounded to the nearest integer, for `v >= 0`.
    pub open spec fn spec_round_sqrt(v: int) -> int {
        Self::spec_round_sqrt_from(v, 0)
    }

    proof fn lemma_round_sqrt_from_props(v: int, k: int)
        requires
            0 <= v,
            0 <= k,
            k == 0 || (2 * k - 1) * (2 * k - 1) <= 4 * v,
        ensures
            ({
                let h = Self::spec_round_sqrt_from(v, k);
                &&& k <= h
                &&& 4 * v < (2 * h + 1) * (2 * h + 1)
                &&& h == 0 || (2 * h - 1) * (2 * h - 1) <= 4 * v
            }),
        decreases v - k,
    {
        if 4 * v < (2 * k + 1) * (2 * k + 1) {
        } else {
            assert(v - (k + 1) >= 0) by (nonlinear_arith)
                requires
                    k >= 0,
                    4 * v >= (2 * k + 1) * (2 * k + 1),
            ;
            Self::lemma_round_sqrt_from_props(v, k + 1);
        }
    }

    /// The rounded square root lies within the bracketing bounds that make
    /// it the nearest integer to `sqrt(v)`, and it never exceeds `v`.
    pub proof fn lemma_round_sqrt_props(v: int)
        requires
            0 <= v,
        ensures
            ({
                let h = Self::spec_round_sqrt(v);
                &&& 0 <= h
                &&& 4 * v < (2 * h + 1) * (2 * h + 1)
                &&& h == 0 || (2 * h - 1) * (2 * h - 1) <= 4 * v
                &&& h * h <= v + h
                &&& h <= v
            }),
    {
        Self::lemma_round_sqrt_from_props(v, 0);
        let h = Self::spec_round_sqrt(v);
        if h > 0 {
            assert(h * h <= v + h && h <= v) by (nonlinear_arith)
                requires
                    h >= 1,
                    (2 * h - 1) * (2 * h - 1) <= 4 * v,
            ;
        }
    }

    fn round_sqrt(v: i64) -> (r: i64)
        requires
            0 <= v <= 1_000_000,
        ensures
            r == Self::spec_round_sqrt(v as int),
            0 <= r <= 1000,
    {
        let mut k: i64 = 0;

        while 4 * v >= (2 * k + 1) * (2 * k + 1)
            invariant
                0 <= k <= 1000,
                0 <= v <= 1_000_000,
                0 <= (2 * k + 1) * (2 * k + 1) <= 4_008_004,
                Self::spec_round_sqrt(v as int) == Self::spec_round_sqrt_from(v as int, k as int),
            decreases 1001 - k,
        {
            proof {
                assert(k < 1000) by (nonlinear_arith)
                    requires
                        0 <= k,
                        v <= 1_000_000,
                        4 * v >= (2 * k + 1) * (2 * k + 1),
                ;
            }
            k = k + 1;
            proof {
                assert(0 <= (2 * k + 1) * (2 * k + 1) <= 4_008_004) by (nonlinear_arith)
                    requires
                        0 <= k <= 1000,
                ;
            }
        }

        proof {
            if k > 0 {
                assert(Self::spec_round_sqrt(v as int) <= 1000);
            }
        }

        k
    }

    /// One vertical column of a footprint: the pixels `(c, py - h)` through
    /// `(c, py + h)`.
    pub open spec fn spec_column(c: int, py: int, h: int) -> Seq<(i32, i32)>
        recommends
            0 <= h,
    {
        Seq::new((2 * h + 1) as nat, |i: int| ((c as i32, (py - h + i) as i32)))
    }

    /// The footprint columns from horizontal offset `dx` through `radius`.
    pub open spec fn spec_footprint_from(radius: int, px: int, py: int, dx: int) -> Seq<(i32, i32)>
        decreases radius + 1 - dx,
    {
        if dx > radius {
            Seq::empty()
        } else {
            Self::spec_column(px + dx, py, Self::spec_round_sqrt(radius * radius - dx * dx))
                + Self::spec_footprint_from(radius, px, py, dx + 1)
        }
    }

    /// The full explosion footprint of a radius-`radius` projectile centred
    /// at pixel (px, py): for each horizontal offset the vertical half-chord
    /// is the rounded square root of `radius^2 - dx^2`.
    pub open spec fn spec_footprint(radius: int, px: int, py: int) -> Seq<(i32, i32)> {
        Self::spec_footprint_from(radius, px, py, -radius)
    }

    /// Whether pixel (a, b) belongs to the footprint, stated directly: its
    /// horizontal offset is within the radius and its vertical offset within
    /// that column's half-chord.
    pub open spec fn spec_in_footprint(radius: int, px: int, py: int, a: int, b: int) -> bool {
        let dx = a - px;
        let h = Self::spec_round_sqrt(radius * radius - dx * dx);
        -radius <= dx <= radius && py - h <= b <= py + h
    }

    /// The explosion footprint: the single centre pixel for the
    /// minimum-radius case, and the cosine-free circle fill otherwise.
    #[verifier::rlimit(60)]
    pub fn draw_explosion(&self) -> (r: Vec<(i32, i32)>)
        requires
            self.projectile_type < Self::PROJECTILE_TYPE_COUNT,
            0 <= self.x <= 1_000_000_000,
            0 <= self.y <= 1_000_000_000,
        ensures
            ({
                let radius = Self::spec_damage_radius(self.projectile_type as int) as int;
                let px = self.x as int / 10000;
                let py = self.y as int / 10000;
                &&& (radius <= 1 ==> r@ == seq![((px as i32), (py as i32))])
                &&& (radius > 1 ==> r@ == Self::spec_footprint(radius, px, py))
            }),
    {
        let px64: i64 = self.x / 10000;
        let py64: i64 = self.y / 10000;
        let radius: i32 = Self::projectile_type_of(self.projectile_type).damage_radius;

        if radius <= 1 {
            let mut pixels: Vec<(i32, i32)> = Vec::new();
            pixels.push((px64 as i32, py64 as i32));
            proof {
                assert(pixels@ =~= seq![((px64 as int) as i32, (py64 as int) as i32)]);
            }
            return pixels;
        }

        let r64: i64 = radius as i64;
        let ghost px = px64 as int;
        let ghost py = py64 as int;
        let ghost rad = radius as int;

        let mut pixels: Vec<(i32, i32)> = Vec::new();
        let mut dx: i64 = -r64;

        while dx <= r64
            invariant
                2 <= r64 <= 1000,
                r64 == rad,
                -r64 <= dx <= r64 + 1,
                0 <= px64 <= 100_000,
                0 <= py64 <= 100_000,
                px == px64 as int,
                py == py64 as int,
                pixels@ + Self::spec_footprint_from(rad, px, py, dx as int)
                    =~= Self::spec_footprint(rad, px, py),
            decreases r64 + 1 - dx,
        {
            proof {
                assert(0 <= r64 * r64 <= 1_000_000 && 0 <= dx * dx <= 1_000_000
                    && dx * dx <= r64 * r64) by (nonlinear_arith)
                    requires
                        2 <= r64 <= 1000,
                        -r64 <= dx <= r64,
                ;
            }

            let v: i64 = r64 * r64 - dx * dx;
            let h: i64 = Self::round_sqrt(v);
            let cx: i64 = px64 + dx;

            let ghost base = pixels@;
            let ghost hh = h as int;

            let mut j: i64 = -h;

            while j <= h
                invariant
                    0 <= hh <= 1000,
                    hh == h as i64,
                    -h <= j <= h + 1,
                    -101_000 <= cx <= 101_000,
                    0 <= py64 <= 100_000,
                    py == py64 as int,
                    pixels@ =~= base + Seq::new((j + hh) as nat, |i: int|
                        ((cx as i32, (py - hh + i) as i32))),
                decreases h + 1 - j,
            {
                pixels.push((cx as i32, (py64 + j) as i32));

                proof {
                    assert(pixels@ =~= base + Seq::new((j + 1 + hh) as nat, |i: int|
                        ((cx as i32, (py - hh + i) as i32))));
                }

                j = j + 1;
            }

            proof {
                assert(Seq::new((2 * hh + 1) as nat, |i: int| ((cx as i32, (py - hh + i) as i32)))
                    =~= Self::spec_column(px + dx as int, py, hh));
                assert(pixels@ =~= base + Self::spec_column(px + dx as int, py, hh));
                assert(Self::spec_footprint_from(rad, px, py, dx as int)
                    == Self::spec_column(px + dx as int, py, hh)
                        + Self::spec_footprint_from(rad, px, py, dx as int + 1));
                assert(pixels@ + Self::spec_footprint_from(rad, px, py, dx as int + 1)
                    =~= Self::spec_footprint(rad, px, py));
            }

            dx = dx + 1;
        }

        proof {
            assert(Self::spec_footprint_from(rad, px, py, dx as int) =~= Seq::<(i32, i32)>::empty());
            assert(pixels@ =~= Self::spec_footprint(rad, px, py));
        }

        pixels
    }

    proof fn lemma_footprint_from_membership(
        radius: int,
        px: int,
        py: int,
        dx0: int,
        p: (i32, i32),
    )
        requires
            1 <= radius <= 1000,
            0 <= px <= 100_000,
            0 <= py <= 100_000,
            -radius <= dx0 <= radius + 1,
        ensures
            Self::spec_footprint_from(radius, px, py, dx0).contains(p) <==> exists|dx: int|
                #![trigger Self::spec_round_sqrt(radius * radius - dx * dx)]
                dx0 <= dx <= radius && p.0 == px + dx && ({
                    let h = Self::spec_round_sqrt(radius * radius - dx * dx);
                    py - h <= p.1 <= py + h
                }),
        decreases radius + 1 - dx0,
    {
        let s = Self::spec_footprint_from(radius, px, py, dx0);

        if dx0 > radius {
            assert(s.len() == 0);
            assert(!s.contains(p));
        } else {
            let v = radius * radius - dx0 * dx0;
            assert(0 <= v <= 1_000_000) by (nonlinear_arith)
                requires
                    1 <= radius <= 1000,
                    -radius <= dx0 <= radius,
                    v == radius * radius - dx0 * dx0,
            ;
            Self::lemma_round_sqrt_props(v);
            let h = Self::spec_round_sqrt(v);
            assert(h <= 1000) by (nonlinear_arith)
                requires
                    0 <= h,
                    h * h <= v + h,
                    v <= 1_000_000,
            ;
            let col = Self::spec_column(px + dx0, py, h);
            let rest = Self::spec_footprint_from(radius, px, py, dx0 + 1);
            Self::lemma_footprint_from_membership(radius, px, py, dx0 + 1, p);

            assert(s.contains(p) <==> col.contains(p) || rest.contains(p)) by {
                assert(s == col + rest);
                if col.contains(p) {
                    let i = choose|i: int| 0 <= i < col.len() && col[i] == p;
                    assert(s[i] == p);
                    assert(s.contains(p));
                }
                if rest.contains(p) {
                    let i = choose|i: int| 0 <= i < rest.len() && rest[i] == p;
                    assert(s[col.len() + i] == p);
                    assert(s.contains(p));
                }
                if s.contains(p) {
                    let i = choose|i: int| 0 <= i < s.len() && s[i] == p;
                    if i < col.len() {
                        assert(col[i] == p);
                        assert(col.contains(p));
                    } else {
                        assert(rest[i - col.len()] == p);
                        assert(rest.contains(p));
                    }
                }
            };

            assert(col.contains(p) <==> (p.0 == px + dx0 && py - h <= p.1 <= py + h)) by {
                if p.0 == px + dx0 && py - h <= p.1 <= py + h {
                    let i = p.1 - (py - h);
                    assert(col[i] == p);
                    assert(col.contains(p));
                }
                if col.contains(p) {
                    let i = choose|i: int| 0 <= i < col.len() && col[i] == p;
                    assert(p == ((px + dx0) as i32, (py - h + i) as i32));
                }
            };

            if col.contains(p) {
                assert(p.0 == px + dx0 && py - h <= p.1 <= py + h);
            }
        }
    }

    proof fn lemma_footprint_from_len(radius: int, px: int, py: int, dx0: int)
        requires
            1 <= radius <= 1000,
            -radius <= dx0 <= radius + 1,
        ensures
            Self::spec_footprint_from(radius, px, py, dx0).len() <= (radius + 1 - dx0) * (2
                * radius + 2),
        decreases radius + 1 - dx0,
    {
        if dx0 > radius {
        } else {
            let v = radius * radius - dx0 * dx0;
            assert(0 <= v <= radius * radius) by (nonlinear_arith)
                requires
                    -radius <= dx0 <= radius,
                    v == radius * radius - dx0 * dx0,
            ;
            Self::lemma_round_sqrt_props(v);
            let h = Self::spec_round_sqrt(v);
            assert(h <= radius) by (nonlinear_arith)
                requires
                    1 <= radius,
                    0 <= h,
                    h == 0 || (2 * h - 1) * (2 * h - 1) <= 4 * v,
                    v <= radius * radius,
            ;
            Self::lemma_footprint_from_len(radius, px, py, dx0 + 1);
            assert((radius + 1 - dx0) * (2 * radius + 2) == (2 * radius + 2) + (radius - dx0) * (2
                * radius + 2)) by (nonlinear_arith);
        }
    }

    /// The footprint holds at most one column of pixels for each horizontal
    /// offset within the radius.
    pub proof fn lemma_footprint_len(radius: int, px: int, py: int)
        requires
            1 <= radius <= 1000,
        ensures
            Self::spec_footprint(radius, px, py).len() <= (2 * radius + 1) * (2 * radius + 2),
    {
        Self::lemma_footprint_from_len(radius, px, py, -radius);
    }

    /// Law: a pixel lies in the footprint exactly when its horizontal offset
    /// is within the radius and its vertical offset within that column's
    /// half-chord.
    pub proof fn lemma_footprint_membership(radius: int, px: int, py: int, a: int, b: int)
        requires
            1 <= radius <= 1000,
            0 <= px <= 100_000,
            0 <= py <= 100_000,
            -200_000 <= a <= 200_000,
            -200_000 <= b <= 200_000,
        ensures
            Self::spec_footprint(radius, px, py).contains(((a as i32), (b as i32)))
                <==> Self::spec_in_footprint(radius, px, py, a, b),
    {
        let p = ((a as i32), (b as i32));
        Self::lemma_footprint_from_membership(radius, px, py, -radius, p);

        if Self::spec_in_footprint(radius, px, py, a, b) {
            let dx = a - px;
            assert(-radius <= dx <= radius && p.0 == px + dx);
        }

        if Self::spec_footprint(radius, px, py).contains(p) {
            let dx = choose|dx: int|
                #![trigger Self::spec_round_sqrt(radius * radius - dx * dx)]
                -radius <= dx <= radius && p.0 == px + dx && ({
                    let h = Self::spec_round_sqrt(radius * radius - dx * dx);
                    py - h <= p.1 <= py + h
                });
            assert(dx == a - px);
        }
    }

    /// Law: the footprint is symmetric about its centre on both axes, and
    /// every footprint pixel's offset satisfies
    /// `dx^2 + dy^2 <= radius^2 + radius` — the circle fill up to the
    /// half-chord's rounding.
    pub proof fn lemma_footprint_circle(radius: int, px: int, py: int, a: int, b: int)
        requires
            1 <= radius <= 1000,
            Self::spec_in_footprint(radius, px, py, a, b),
        ensures
            Self::spec_in_footprint(radius, px, py, 2 * px - a, b),
            Self::spec_in_footprint(radius, px, py, a, 2 * py - b),
            (a - px) * (a - px) + (b - py) * (b - py) <= radius * radius + radius,
    {
        let dx = a - px;
        let dy = b - py;
        let v = radius * radius - dx * dx;

        assert(0 <= v) by (nonlinear_arith)
            requires
                -radius <= dx <= radius,
                v == radius * radius - dx * dx,
        ;
        Self::lemma_round_sqrt_props(v);
        let h = Self::spec_round_sqrt(v);

        assert((2 * px - a) - px == -dx);
        assert((-dx) * (-dx) == dx * dx) by (nonlinear_arith);

        assert(h <= radius) by (nonlinear_arith)
            requires
                1 <= radius,
                0 <= h,
                h == 0 || (2 * h - 1) * (2 * h - 1) <= 4 * v,
                v == radius * radius - dx * dx,
        ;

        assert(dy * dy <= h * h) by (nonlinear_arith)
            requires
                -h <= dy <= h,
        ;
        assert(dx * dx + dy * dy <= radius * radius + radius);
    }
}

} // verus!
