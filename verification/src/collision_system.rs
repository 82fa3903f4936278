//! Pixel-level collision tests against the terrain bitmap and player
//! bounding boxes.
//!
//! Coordinates are fixed-point with 10000 units to the pixel. The player
//! correction samples four narrow strips of the terrain around the player's
//! box — all at the pre-call position — and pushes the player out along each
//! axis, snapping vertical velocity to zero on vertical contact and
//! replenishing air-jumps on landing.

use vstd::prelude::*;
use crate::player::Player;
use crate::projectile::Projectile;
use crate::terrain::TerrainMap;

verus! {

pub struct CollisionSystem {}

impl CollisionSystem {
    /// Fixed-point units per pixel.
    pub const SCALE: i64 = 10000;

    // +--------------+
    // | Bounds check |
    // +--------------+

    /// Within two pixels of any edge of a `w` by `h` pixel map.
    pub open spec fn spec_oob(x: int, y: int, w: int, h: int) -> bool {
        ||| x < 2 * 10000
        ||| x >= (w - 2) * 10000
        ||| y < 2 * 10000
        ||| y >= (h - 2) * 10000
    }

    /// Law: a point is out of bounds exactly when it lies within two pixels
    /// of some map edge.
    pub fn oob(x: i64, y: i64, map: &TerrainMap) -> (r: bool)
        ensures
            r == Self::spec_oob(x as int, y as int, map.spec_width() as int,
                map.spec_height() as int),
    {
        let w = map.width() as i64;
        let h = map.height() as i64;

        if x < 2 * Self::SCALE || x >= (w - 2) * Self::SCALE {
            return true;
        }

        if y < 2 * Self::SCALE || y >= (h - 2) * Self::SCALE {
            return true;
        }

        false
    }

    /// Law: a point at least three pixels inside every edge is never out of
    /// bounds.
    pub proof fn lemma_oob_interior(x: int, y: int, w: int, h: int)
        requires
            3 * 10000 <= x,
            x < (w - 3) * 10000,
            3 * 10000 <= y,
            y < (h - 3) * 10000,
        ensures
            !Self::spec_oob(x, y, w, h),
    {
    }

    pub fn projectile_oob(projectile: &Projectile, map: &TerrainMap) -> (r: bool)
        ensures
            r == Self::spec_oob(projectile.x as int, projectile.y as int,
                map.spec_width() as int, map.spec_height() as int),
    {
        Self::oob(projectile.x, projectile.y, map)
    }

    pub fn player_oob(player: &Player, map: &TerrainMap) -> (r: bool)
        ensures
            r == Self::spec_oob(player.x as int, player.y as int, map.spec_width() as int,
                map.spec_height() as int),
    {
        Self::oob(player.x, player.y, map)
    }

    // +------------------+
    // | Terrain sampling |
    // +------------------+

    /// The terrain pixel under an in-bounds point, by truncation to whole
    /// pixels.
    pub open spec fn spec_point_on_solid(map: TerrainMap, x: int, y: int) -> bool {
        map.solid(x / 10000, y / 10000)
    }

    pub fn projectile_collide_map(projectile: &Projectile, map: &TerrainMap) -> (r: bool)
        requires
            map.wf(),
            !Self::spec_oob(projectile.x as int, projectile.y as int, map.spec_width() as int,
                map.spec_height() as int),
            map.spec_width() >= 4,
            map.spec_height() >= 4,
        ensures
            r == Self::spec_point_on_solid(*map, projectile.x as int, projectile.y as int),
    {
        let px = projectile.x / Self::SCALE;
        let py = projectile.y / Self::SCALE;

        map.solid_at(px as u32, py as u32)
    }

    // +-----------------------+
    // | Player bounding boxes |
    // +-----------------------+

    /// Strict containment in the player's fixed-size bounding box
    /// (24 by 64 pixels, centred on the player).
    pub open spec fn spec_point_collide_player(x: int, y: int, player: Player) -> bool {
        &&& x < player.x + 12 * 10000
        &&& x > player.x - 12 * 10000
        &&& y < player.y + 32 * 10000
        &&& y > player.y - 32 * 10000
    }

    pub fn point_collide_player(point_x: i64, point_y: i64, player: &Player) -> (r: bool)
        requires
            player.wf(),
        ensures
            r == Self::spec_point_collide_player(point_x as int, point_y as int, *player),
    {
        point_x < player.x + 12 * Self::SCALE && point_x > player.x - 12 * Self::SCALE
            && point_y < player.y + 32 * Self::SCALE && point_y > player.y - 32 * Self::SCALE
    }

    // +-------------------------------+
    // | Strip scans over the terrain  |
    // +-------------------------------+

    /// Some solid pixel in the `w`-pixel row segment starting at (x0, y).
    pub open spec fn spec_row_has_solid(map: TerrainMap, x0: int, y: int, w: int) -> bool {
        exists|i: int| 0 <= i < w && #[trigger] map.solid(x0 + i, y)
    }

    /// Some solid pixel in the `h`-pixel column segment starting at (x, y0).
    pub open spec fn spec_col_has_solid(map: TerrainMap, x: int, y0: int, h: int) -> bool {
        exists|j: int| 0 <= j < h && #[trigger] map.solid(x, y0 + j)
    }

    /// Topmost row index `r` in `[from, h)` whose row segment holds a solid
    /// pixel.
    pub open spec fn spec_first_solid_row_from(
        map: TerrainMap,
        x0: int,
        y0: int,
        w: int,
        h: int,
        from: int,
    ) -> Option<int>
        decreases h - from,
    {
        if from >= h {
            None
        } else if Self::spec_row_has_solid(map, x0, y0 + from, w) {
            Some(from)
        } else {
            Self::spec_first_solid_row_from(map, x0, y0, w, h, from + 1)
        }
    }

    /// Bottommost row index `r` in `[0, from]` whose row segment holds a
    /// solid pixel.
    pub open spec fn spec_last_solid_row_from(
        map: TerrainMap,
        x0: int,
        y0: int,
        w: int,
        from: int,
    ) -> Option<int>
        decreases from + 1,
    {
        if from < 0 {
            None
        } else if Self::spec_row_has_solid(map, x0, y0 + from, w) {
            Some(from)
        } else {
            Self::spec_last_solid_row_from(map, x0, y0, w, from - 1)
        }
    }

    /// Leftmost column index `c` in `[from, w)` whose column segment holds a
    /// solid pixel.
    pub open spec fn spec_first_solid_col_from(
        map: TerrainMap,
        x0: int,
        y0: int,
        w: int,
        h: int,
        from: int,
    ) -> Option<int>
        decreases w - from,
    {
        if from >= w {
            None
        } else if Self::spec_col_has_solid(map, x0 + from, y0, h) {
            Some(from)
        } else {
            Self::spec_first_solid_col_from(map, x0, y0, w, h, from + 1)
        }
    }

    /// Rightmost column index `c` in `[0, from]` whose column segment holds
    /// a solid pixel.
    pub open spec fn spec_last_solid_col_from(
        map: TerrainMap,
        x0: int,
        y0: int,
        h: int,
        from: int,
    ) -> Option<int>
        decreases from + 1,
    {
        if from < 0 {
            None
        } else if Self::spec_col_has_solid(map, x0 + from, y0, h) {
            Some(from)
        } else {
            Self::spec_last_solid_col_from(map, x0, y0, h, from - 1)
        }
    }

    fn row_has_solid(map: &TerrainMap, x0: i64, y: i64, w: i64) -> (r: bool)
        requires
            map.wf(),
            0 <= x0,
            0 <= y < map.spec_height(),
            0 < w <= 1000,
            x0 + w <= map.spec_width(),
        ensures
            r == Self::spec_row_has_solid(*map, x0 as int, y as int, w as int),
    {
        let mut i: i64 = 0;

        while i < w
            invariant
                0 <= i <= w,
                map.wf(),
                0 <= x0,
                0 <= y < map.spec_height(),
                0 < w <= 1000,
                x0 + w <= map.spec_width(),
                forall|k: int| 0 <= k < i ==> !(#[trigger] map.solid(x0 + k, y as int)),
            decreases w - i,
        {
            if map.solid_at((x0 + i) as u32, y as u32) {
                return true;
            }

            i = i + 1;
        }

        false
    }

    fn col_has_solid(map: &TerrainMap, x: i64, y0: i64, h: i64) -> (r: bool)
        requires
            map.wf(),
            0 <= x < map.spec_width(),
            0 <= y0,
            0 < h <= 1000,
            y0 + h <= map.spec_height(),
        ensures
            r == Self::spec_col_has_solid(*map, x as int, y0 as int, h as int),
    {
        let mut j: i64 = 0;

        while j < h
            invariant
                0 <= j <= h,
                map.wf(),
                0 <= x < map.spec_width(),
                0 <= y0,
                0 < h <= 1000,
                y0 + h <= map.spec_height(),
                forall|k: int| 0 <= k < j ==> !(#[trigger] map.solid(x as int, y0 + k)),
            decreases h - j,
        {
            if map.solid_at(x as u32, (y0 + j) as u32) {
                return true;
            }

            j = j + 1;
        }

        false
    }

    fn first_solid_row(map: &TerrainMap, x0: i64, y0: i64, w: i64, h: i64) -> (r: Option<i64>)
        requires
            map.wf(),
            0 <= x0,
            0 <= y0,
            0 < w <= 1000,
            0 < h <= 1000,
            x0 + w <= map.spec_width(),
            y0 + h <= map.spec_height(),
        ensures
            (match r {
                Some(v) => Self::spec_first_solid_row_from(*map, x0 as int, y0 as int, w as int,
                    h as int, 0) == Some(v as int),
                None => Self::spec_first_solid_row_from(*map, x0 as int, y0 as int, w as int,
                    h as int, 0) is None,
            }),
            r matches Some(v) ==> 0 <= v < h,
    {
        let mut rr: i64 = 0;

        while rr < h
            invariant
                0 <= rr <= h,
                map.wf(),
                0 <= x0,
                0 <= y0,
                0 < w <= 1000,
                0 < h <= 1000,
                x0 + w <= map.spec_width(),
                y0 + h <= map.spec_height(),
                Self::spec_first_solid_row_from(*map, x0 as int, y0 as int, w as int, h as int, 0)
                    == Self::spec_first_solid_row_from(*map, x0 as int, y0 as int, w as int,
                    h as int, rr as int),
            decreases h - rr,
        {
            if Self::row_has_solid(map, x0, y0 + rr, w) {
                return Some(rr);
            }

            rr = rr + 1;
        }

        None
    }

    fn last_solid_row(map: &TerrainMap, x0: i64, y0: i64, w: i64, h: i64) -> (r: Option<i64>)
        requires
            map.wf(),
            0 <= x0,
            0 <= y0,
            0 < w <= 1000,
            0 < h <= 1000,
            x0 + w <= map.spec_width(),
            y0 + h <= map.spec_height(),
        ensures
            (match r {
                Some(v) => Self::spec_last_solid_row_from(*map, x0 as int, y0 as int, w as int,
                    h as int - 1) == Some(v as int),
                None => Self::spec_last_solid_row_from(*map, x0 as int, y0 as int, w as int,
                    h as int - 1) is None,
            }),
            r matches Some(v) ==> 0 <= v < h,
    {
        let mut rr: i64 = h - 1;

        while rr >= 0
            invariant
                -1 <= rr <= h - 1,
                map.wf(),
                0 <= x0,
                0 <= y0,
                0 < w <= 1000,
                0 < h <= 1000,
                x0 + w <= map.spec_width(),
                y0 + h <= map.spec_height(),
                Self::spec_last_solid_row_from(*map, x0 as int, y0 as int, w as int, h as int - 1)
                    == Self::spec_last_solid_row_from(*map, x0 as int, y0 as int, w as int,
                    rr as int),
            decreases rr + 1,
        {
            if Self::row_has_solid(map, x0, y0 + rr, w) {
                return Some(rr);
            }

            rr = rr - 1;
        }

        None
    }

    fn first_solid_col(map: &TerrainMap, x0: i64, y0: i64, w: i64, h: i64) -> (r: Option<i64>)
        requires
            map.wf(),
            0 <= x0,
            0 <= y0,
            0 < w <= 1000,
            0 < h <= 1000,
            x0 + w <= map.spec_width(),
            y0 + h <= map.spec_height(),
        ensures
            (match r {
                Some(v) => Self::spec_first_solid_col_from(*map, x0 as int, y0 as int, w as int,
                    h as int, 0) == Some(v as int),
                None => Self::spec_first_solid_col_from(*map, x0 as int, y0 as int, w as int,
                    h as int, 0) is None,
            }),
            r matches Some(v) ==> 0 <= v < w,
    {
        let mut cc: i64 = 0;

        while cc < w
            invariant
                0 <= cc <= w,
                map.wf(),
                0 <= x0,
                0 <= y0,
                0 < w <= 1000,
                0 < h <= 1000,
                x0 + w <= map.spec_width(),
                y0 + h <= map.spec_height(),
                Self::spec_first_solid_col_from(*map, x0 as int, y0 as int, w as int, h as int, 0)
                    == Self::spec_first_solid_col_from(*map, x0 as int, y0 as int, w as int,
                    h as int, cc as int),
            decreases w - cc,
        {
            if Self::col_has_solid(map, x0 + cc, y0, h) {
                return Some(cc);
            }

            cc = cc + 1;
        }

        None
    }

    fn last_solid_col(map: &TerrainMap, x0: i64, y0: i64, w: i64, h: i64) -> (r: Option<i64>)
        requires
            map.wf(),
            0 <= x0,
            0 <= y0,
            0 < w <= 1000,
            0 < h <= 1000,
            x0 + w <= map.spec_width(),
            y0 + h <= map.spec_height(),
        ensures
            (match r {
                Some(v) => Self::spec_last_solid_col_from(*map, x0 as int, y0 as int, h as int,
                    w as int - 1) == Some(v as int),
                None => Self::spec_last_solid_col_from(*map, x0 as int, y0 as int, h as int,
                    w as int - 1) is None,
            }),
            r matches Some(v) ==> 0 <= v < w,
    {
        let mut cc: i64 = w - 1;

        while cc >= 0
            invariant
                -1 <= cc <= w - 1,
                map.wf(),
                0 <= x0,
                0 <= y0,
                0 < w <= 1000,
                0 < h <= 1000,
                x0 + w <= map.spec_width(),
                y0 + h <= map.spec_height(),
                Self::spec_last_solid_col_from(*map, x0 as int, y0 as int, h as int, w as int - 1)
                    == Self::spec_last_solid_col_from(*map, x0 as int, y0 as int, h as int,
                    cc as int),
            decreases cc + 1,
        {
            if Self::col_has_solid(map, x0 + cc, y0, h) {
                return Some(cc);
            }

            cc = cc - 1;
        }

        None
    }

    // +--------------------------------------+
    // | Player-vs-terrain local correction   |
    // +--------------------------------------+

    /// The player's position rounded to whole pixels.
    pub open spec fn spec_round_px(v: int) -> int {
        (v + 5000) / 10000
    }

    /// The rounded player box, with its sampling strips, lies on the map.
    pub open spec fn spec_strips_in_bounds(player: Player, map: TerrainMap) -> bool {
        let px = Self::spec_round_px(player.x as int);
        let py = Self::spec_round_px(player.y as int);
        &&& 0 <= player.x
        &&& 0 <= player.y
        &&& 12 <= px
        &&& px + 12 <= map.spec_width()
        &&& 32 <= py
        &&& py + 32 <= map.spec_height()
    }

    /// Push-out of the right side: distance to move left, from the leftmost
    /// solid column of the strip just right of centre.
    pub open spec fn spec_right_push(player: Player, map: TerrainMap) -> int {
        let px = Self::spec_round_px(player.x as int);
        let py = Self::spec_round_px(player.y as int);
        match Self::spec_first_solid_col_from(map, px, py - 16, 12, 32, 0) {
            Some(c) => -(12 - c),
            None => 0,
        }
    }

    /// Push-out of the left side: distance to move right, from the rightmost
    /// solid column of the strip just left of centre.
    pub open spec fn spec_left_push(player: Player, map: TerrainMap) -> int {
        let px = Self::spec_round_px(player.x as int);
        let py = Self::spec_round_px(player.y as int);
        match Self::spec_last_solid_col_from(map, px - 12, py - 16, 32, 11) {
            Some(c) => c + 1,
            None => 0,
        }
    }

    /// Push-out of the bottom: distance to move up, from the topmost solid
    /// row of the strip below centre.
    pub open spec fn spec_bottom_push(player: Player, map: TerrainMap) -> Option<int> {
        let px = Self::spec_round_px(player.x as int);
        let py = Self::spec_round_px(player.y as int);
        match Self::spec_first_solid_row_from(map, px - 9, py, 18, 32, 0) {
            Some(r) => Some(-(32 - r)),
            None => None,
        }
    }

    /// Push-down of the top: from the bottommost solid row of the strip
    /// above centre.
    pub open spec fn spec_top_push(player: Player, map: TerrainMap) -> Option<int> {
        let px = Self::spec_round_px(player.x as int);
        let py = Self::spec_round_px(player.y as int);
        match Self::spec_last_solid_row_from(map, px - 9, py - 32, 18, 31) {
            Some(r) => Some(r),
            None => None,
        }
    }

    /// Samples the four strips around the player's rounded box — all at the
    /// pre-call position — and pushes the player out horizontally and
    /// vertically; vertical contact zeroes the vertical velocity, and bottom
    /// contact replenishes the air-jumps.
    pub fn update_player(player: &mut Player, map: &TerrainMap)
        requires
            old(player).wf(),
            map.wf(),
            Self::spec_strips_in_bounds(*old(player), *map),
        ensures
            final(player).wf(),
            ({
                let px = Self::spec_round_px(old(player).x as int);
                let py = Self::spec_round_px(old(player).y as int);
                let dx = Self::spec_right_push(*old(player), *map)
                    + Self::spec_left_push(*old(player), *map);
                let bottom = Self::spec_bottom_push(*old(player), *map);
                let top = Self::spec_top_push(*old(player), *map);
                let dy = (match bottom { Some(b) => b, None => 0 })
                    + (match top { Some(t) => t, None => 0 });
                &&& final(player).x == (px + dx) * 10000
                &&& final(player).y == (py + dy) * 10000
                &&& final(player).vel_y == (if bottom is Some || top is Some { 0 } else {
                    old(player).vel_y
                })
                &&& final(player).jumps == (if bottom is Some { Player::AIR_JUMPS } else {
                    old(player).jumps
                })
                &&& *final(player) == (Player {
                    x: final(player).x,
                    y: final(player).y,
                    vel_y: final(player).vel_y,
                    jumps: final(player).jumps,
                    ..*old(player)
                })
            }),
    {
        proof { map.lemma_wf_dims(); }

        let px: i64 = (player.x + 5000) / Self::SCALE;
        let py: i64 = (player.y + 5000) / Self::SCALE;

        let right = Self::first_solid_col(map, px, py - 16, 12, 32);
        let left = Self::last_solid_col(map, px - 12, py - 16, 12, 32);
        let bottom = Self::first_solid_row(map, px - 9, py, 18, 32);
        let top = Self::last_solid_row(map, px - 9, py - 32, 18, 32);

        let mut new_px: i64 = px;
        let mut new_py: i64 = py;

        if let Some(c) = right {
            new_px = new_px - (12 - c);
        }

        if let Some(c) = left {
            new_px = new_px + c + 1;
        }

        if let Some(r) = bottom {
            new_py = new_py - (32 - r);
            player.vel_y = 0;
            player.jumps = Player::AIR_JUMPS;
        }

        if let Some(r) = top {
            new_py = new_py + r;
            player.vel_y = 0;
        }

        player.x = new_px * Self::SCALE;
        player.y = new_py * Self::SCALE;
    }
}

} // verus!
