use pixel_demolition::collision_system::CollisionSystem;
use pixel_demolition::etag::Etag;
use pixel_demolition::player::Player;
use pixel_demolition::projectile::Projectile;
use pixel_demolition::terrain::TerrainMap;
use pixel_demolition::vel_system::VelSystem;
use pixel_demolition::weapon::Weapon;

/// A w-by-h map whose rows from `ground_row` down are solid.
fn flat_map(w: u32, h: u32, ground_row: u32) -> TerrainMap {
    let mut alpha: Vec<u8> = Vec::new();
    for y in 0..h {
        for _x in 0..w {
            alpha.push(if y >= ground_row { 255 } else { 0 });
        }
    }
    TerrainMap::new(w, h, alpha).unwrap()
}

const PX: i64 = 10_000;

// +-------------------+
// | Bounds check: oob |
// +-------------------+

#[test]
fn oob_within_two_pixels_of_any_edge() {
    let map = flat_map(100, 80, 70);

    // exactly at the margin
    assert!(CollisionSystem::oob(2 * PX - 1, 40 * PX, &map));
    assert!(!CollisionSystem::oob(2 * PX, 40 * PX, &map));
    assert!(CollisionSystem::oob(98 * PX, 40 * PX, &map));
    assert!(!CollisionSystem::oob(98 * PX - 1, 40 * PX, &map));
    assert!(CollisionSystem::oob(50 * PX, 2 * PX - 1, &map));
    assert!(CollisionSystem::oob(50 * PX, 78 * PX, &map));

    // interior by at least three pixels
    assert!(!CollisionSystem::oob(3 * PX, 3 * PX, &map));
    assert!(!CollisionSystem::oob(96 * PX, 76 * PX, &map));
}

#[test]
fn point_collide_player_is_strict_box_containment() {
    let mut p = Player::new(String::from("p"));
    p.x = 50 * PX;
    p.y = 50 * PX;

    assert!(CollisionSystem::point_collide_player(50 * PX, 50 * PX, &p));
    assert!(CollisionSystem::point_collide_player(61 * PX, 81 * PX, &p));
    // the box edges themselves do not collide
    assert!(!CollisionSystem::point_collide_player(62 * PX, 50 * PX, &p));
    assert!(!CollisionSystem::point_collide_player(38 * PX, 50 * PX, &p));
    assert!(!CollisionSystem::point_collide_player(50 * PX, 82 * PX, &p));
    assert!(!CollisionSystem::point_collide_player(50 * PX, 18 * PX, &p));
}

#[test]
fn projectile_collide_map_samples_the_pixel() {
    let map = flat_map(100, 100, 90);
    let mut pr = Projectile {
        projectile_type: 0,
        x: 50 * PX,
        y: 50 * PX,
        vel_x: 0,
        vel_y: 0,
        owner: 0,
    };
    assert!(!CollisionSystem::projectile_collide_map(&pr, &map));
    pr.y = 95 * PX;
    assert!(CollisionSystem::projectile_collide_map(&pr, &map));
}

// +------------------------------------+
// | Player-vs-terrain local correction |
// +------------------------------------+

#[test]
fn update_player_lands_on_the_ground() {
    let map = flat_map(100, 100, 80);
    let mut p = Player::new(String::from("p"));
    p.x = 50 * PX;
    p.y = 57 * PX;
    p.vel_y = 5000;
    p.jumps = 0;

    CollisionSystem::update_player(&mut p, &map);

    // bottom strip spans rows 57..89; the first solid row is 80, so the
    // player moves up by 32 - (80 - 57) = 9 pixels and lands
    assert_eq!(p.x, 50 * PX);
    assert_eq!(p.y, 48 * PX);
    assert_eq!(p.vel_y, 0);
    assert_eq!(p.jumps, Player::AIR_JUMPS);
}

#[test]
fn update_player_in_open_air_only_rounds() {
    let map = flat_map(100, 100, 90);
    let mut p = Player::new(String::from("p"));
    p.x = 50 * PX + 4_000;
    p.y = 40 * PX + 6_000;
    p.vel_y = 777;
    p.jumps = 1;

    CollisionSystem::update_player(&mut p, &map);

    assert_eq!(p.x, 50 * PX);
    assert_eq!(p.y, 41 * PX);
    assert_eq!(p.vel_y, 777);
    assert_eq!(p.jumps, 1);
}

// +---------------------+
// | Explosion footprint |
// +---------------------+

#[test]
fn bullet_footprint_is_its_centre_pixel() {
    let pr = Projectile {
        projectile_type: Projectile::TYPE_BULLET,
        x: 12 * PX + 3_456,
        y: 78 * PX + 9_012,
        vel_x: 0,
        vel_y: 0,
        owner: 0,
    };
    assert_eq!(pr.draw_explosion(), vec![(12, 78)]);
}

#[test]
fn grenade_footprint_is_a_symmetric_circle_fill() {
    let pr = Projectile {
        projectile_type: Projectile::TYPE_GRENADE,
        x: 500 * PX,
        y: 400 * PX,
        vel_x: 0,
        vel_y: 0,
        owner: 0,
    };
    let pixels = pr.draw_explosion();

    assert!(pixels.contains(&(500, 400)));
    assert!(pixels.contains(&(500, 440)));
    assert!(pixels.contains(&(500, 360)));

    for &(a, b) in &pixels {
        let dx = (a - 500) as i64;
        let dy = (b - 400) as i64;
        // the circle fill, up to the half-chord's rounding
        assert!(dx * dx + dy * dy <= 40 * 40 + 40);
        // symmetric about the centre on both axes
        assert!(pixels.contains(&(1000 - a, b)));
        assert!(pixels.contains(&(a, 800 - b)));
    }

    // the extreme column offsets carry exactly the centre row
    assert!(pixels.contains(&(540, 400)));
    assert!(pixels.contains(&(460, 400)));
    assert!(!pixels.contains(&(540, 401)));
    assert!(!pixels.contains(&(541, 400)));
}

// +------------+
// | Kinematics |
// +------------+

#[test]
fn update_projectile_is_semi_implicit() {
    let mut pr = Projectile {
        projectile_type: 0,
        x: 0,
        y: 0,
        vel_x: 17_000,
        vel_y: 0,
        owner: 0,
    };
    VelSystem::update_projectile(&mut pr, 2);
    assert_eq!(pr.x, 34_000);
    assert_eq!(pr.vel_x, 17_000);
    // half of the step's gravity applies before the position update
    assert_eq!(pr.y, 24);
    assert_eq!(pr.vel_y, 24);
}

#[test]
fn update_player_vertical_motion() {
    let mut p = Player::new(String::from("p"));
    p.y = 0;
    p.vel_y = 1_000;
    VelSystem::update_player(&mut p, 20);
    assert_eq!(p.y, (1_000 + 120) * 20);
    assert_eq!(p.vel_y, 1_240);
}

// +--------------------------+
// | Entity models & catalogs |
// +--------------------------+

#[test]
fn player_lifecycle() {
    let mut p = Player::new(String::from("ada"));
    assert!(p.alive);
    assert_eq!(p.health, Player::MAX_HEALTH);
    assert_eq!(p.ammo, 0);
    assert!(p.weapon_type.is_none());

    p.assign_weapon(Weapon::TYPE_MINIGUN);
    assert_eq!(p.weapon_type, Some(0));
    assert_eq!(p.ammo, 50);
    assert_eq!(p.ticks_since_last_fire, -1);

    p.kill();
    assert!(!p.alive);
    assert_eq!(p.ammo, 0);
    assert!(p.weapon_type.is_none());
    assert_eq!(p.deaths, 1);
    assert_eq!(p.time_to_respawn, Player::TIME_TO_RESPAWN);

    p.respawn(7 * PX, 9 * PX);
    assert!(p.alive);
    assert_eq!(p.health, Player::MAX_HEALTH);
    assert_eq!((p.x, p.y), (7 * PX, 9 * PX));
    assert_eq!((p.x_last, p.y_last), (7 * PX, 9 * PX));
    assert_eq!((p.x_new, p.y_new), (7 * PX, 9 * PX));
}

#[test]
fn weapon_catalog() {
    let minigun = Weapon::weapon_type_of(Weapon::TYPE_MINIGUN);
    assert_eq!(minigun.ticks_per_fire, 0);
    assert_eq!(minigun.ammo_count, 50);
    assert_eq!(minigun.projectile_type, Projectile::TYPE_BULLET);

    let glauncher = Weapon::weapon_type_of(Weapon::TYPE_GLAUNCHER);
    assert_eq!(glauncher.ticks_per_fire, 25);
    assert_eq!(glauncher.ammo_count, 10);
    assert_eq!(glauncher.projectile_type, Projectile::TYPE_GRENADE);
}

#[test]
fn projectile_catalog() {
    let bullet = Projectile::projectile_type_of(Projectile::TYPE_BULLET);
    assert_eq!(bullet.init_vel, 17_000);
    assert_eq!(bullet.damage_radius, 1);
    assert_eq!(bullet.damage, 300);

    let grenade = Projectile::projectile_type_of(Projectile::TYPE_GRENADE);
    assert_eq!(grenade.init_vel, 7_000);
    assert_eq!(grenade.damage_radius, 40);
    assert_eq!(grenade.damage, 3);
}

#[test]
fn terrain_carving() {
    let mut map = flat_map(10, 10, 5);
    assert!(map.solid_at(3, 7));
    map.clear_pixel(3, 7);
    assert!(!map.solid_at(3, 7));
    assert!(map.solid_at(2, 7));
    assert!(map.solid_at(3, 6));
    assert!(map.solid_at(4, 8));
}

#[test]
fn terrain_rejects_mismatched_bytes() {
    assert!(TerrainMap::new(4, 4, vec![0u8; 15]).is_none());
    assert!(TerrainMap::new(0, 4, vec![0u8; 0]).is_none());
    assert!(TerrainMap::new(4, 4, vec![0u8; 16]).is_some());
}

#[test]
fn etag_maps_bytes_to_alphanumerics() {
    let tag = Etag::get(&vec![0, 25, 26, 51, 52, 61, 62, 255]);
    // 255 % 62 == 7 -> 'h'
    assert_eq!(tag, "azAZ09ah");
}

#[test]
fn terrain_from_encoded_image_reads_the_alpha_channel() {
    // a 4x3 image: the bottom row opaque, the rest transparent
    let mut img = image::RgbaImage::new(4, 3);
    for x in 0..4 {
        img.put_pixel(x, 2, image::Rgba([10, 20, 30, 255]));
    }

    let mut bytes: Vec<u8> = Vec::new();
    img.write_to(&mut std::io::Cursor::new(&mut bytes), image::ImageFormat::Png)
        .unwrap();

    let map = TerrainMap::from_encoded_image(&bytes).unwrap();
    assert_eq!(map.width(), 4);
    assert_eq!(map.height(), 3);
    for x in 0..4 {
        assert!(!map.solid_at(x, 0));
        assert!(!map.solid_at(x, 1));
        assert!(map.solid_at(x, 2));
    }

    assert!(TerrainMap::from_encoded_image(&vec![1, 2, 3]).is_none());
}
