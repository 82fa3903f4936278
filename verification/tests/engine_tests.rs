use pixel_demolition::client::Client;
use pixel_demolition::engine::{Engine, GameState, LobbyOutcome, MainTickOutcome};
use pixel_demolition::events::{Broadcast, ClientEvent, PlayerInput, ServerMsg, Target};
use pixel_demolition::game_match::GameMatch;
use pixel_demolition::game_matches::GameMatches;
use pixel_demolition::player::Player;
use pixel_demolition::projectile::Projectile;
use pixel_demolition::terrain::TerrainMap;
use pixel_demolition::weapon::Weapon;

const PX: i64 = 10_000;

fn flat_map(w: u32, h: u32, ground_row: u32) -> TerrainMap {
    let mut alpha: Vec<u8> = Vec::new();
    for y in 0..h {
        for _x in 0..w {
            alpha.push(if y >= ground_row { 255 } else { 0 });
        }
    }
    TerrainMap::new(w, h, alpha).unwrap()
}

fn standing_player(name: &str, x_px: i64, y_px: i64) -> Player {
    let mut p = Player::new(String::from(name));
    p.x = x_px * PX;
    p.y = y_px * PX;
    p
}

fn state_with(players: Vec<Player>, map: TerrainMap) -> GameState {
    GameState {
        players,
        projectiles: Vec::new(),
        ground_weapons: Vec::new(),
        ticks_since_weapon_spawn: 0,
        ticks_alive: 0,
        map,
    }
}

// +--------------------------------------+
// | Firing: no ammo never fires a shot   |
// +--------------------------------------+

#[test]
fn no_ammo_never_spawns_a_projectile() {
    let mut p = standing_player("dry", 50, 50);
    p.weapon_type = Some(Weapon::TYPE_MINIGUN);
    p.ammo = 0;
    p.trigger_pulled = true;
    p.ticks_since_last_fire = -1;

    let mut players = vec![p];
    let mut projectiles: Vec<Projectile> = Vec::new();
    let mut out: Vec<Broadcast> = Vec::new();

    Engine::handle_weapons(&mut players, &mut projectiles, &mut out);

    assert!(projectiles.is_empty());
    assert!(out.is_empty());
    assert_eq!(players[0].ammo, 0);
}

#[test]
fn armed_player_fires_and_spends_a_round() {
    let mut p = standing_player("gunner", 50, 50);
    p.weapon_type = Some(Weapon::TYPE_MINIGUN);
    p.ammo = 50;
    p.trigger_pulled = true;
    p.ticks_since_last_fire = -1;
    p.aim_x = -10_000; // aiming left fires to the right
    p.aim_y = 0;

    let mut players = vec![p];
    let mut projectiles: Vec<Projectile> = Vec::new();
    let mut out: Vec<Broadcast> = Vec::new();

    Engine::handle_weapons(&mut players, &mut projectiles, &mut out);

    assert_eq!(projectiles.len(), 1);
    assert_eq!(projectiles[0].projectile_type, Projectile::TYPE_BULLET);
    assert_eq!(projectiles[0].x, 50 * PX + 42 * PX);
    assert_eq!(projectiles[0].y, 50 * PX);
    assert_eq!(projectiles[0].vel_x, 17_000);
    assert_eq!(projectiles[0].vel_y, 0);
    assert_eq!(projectiles[0].owner, 0);
    assert_eq!(players[0].ammo, 49);
    assert_eq!(players[0].ticks_since_last_fire, 0);

    assert_eq!(out.len(), 2);
    assert!(matches!(
        out[0],
        Broadcast { target: Target::All, msg: ServerMsg::NewProjectile { .. } }
    ));
    assert!(matches!(
        out[1],
        Broadcast { target: Target::One(0), msg: ServerMsg::RemoveAmmo }
    ));
}

#[test]
fn released_trigger_never_fires() {
    let mut p = standing_player("idle", 50, 50);
    p.weapon_type = Some(Weapon::TYPE_MINIGUN);
    p.ammo = 50;
    p.trigger_pulled = false;
    p.ticks_since_last_fire = -1;

    let mut players = vec![p];
    let mut projectiles: Vec<Projectile> = Vec::new();
    let mut out: Vec<Broadcast> = Vec::new();

    Engine::handle_weapons(&mut players, &mut projectiles, &mut out);

    assert!(projectiles.is_empty());
}

// +--------------------------------------------+
// | Input draining: the newest position wins   |
// +--------------------------------------------+

#[test]
fn newest_queued_position_wins() {
    let map = flat_map(1000, 1000, 900);
    let mut players = vec![standing_player("mover", 50, 50)];
    let mut ground_weapons: Vec<Weapon> = Vec::new();
    let mut out: Vec<Broadcast> = Vec::new();

    let events = vec![
        ClientEvent::NewPos {
            x_bits: 10.0f32.to_bits(),
            y_bits: 20.0f32.to_bits(),
            x: 10 * PX,
            y: 20 * PX,
        },
        ClientEvent::NewPos {
            x_bits: 500.0f32.to_bits(),
            y_bits: 600.0f32.to_bits(),
            x: 500 * PX,
            y: 600 * PX,
        },
    ];

    Engine::apply_player_events(&mut players, 0, &events, &mut ground_weapons, &map, &mut out);

    // only the last-sent update is applied; the stale one is discarded
    assert_eq!(players[0].x, 500 * PX);
    assert_eq!(players[0].y, 600 * PX);
    assert!(players[0].alive);

    let forwarded: Vec<&Broadcast> = out
        .iter()
        .filter(|b| matches!(b.msg, ServerMsg::NewPos { .. }))
        .collect();
    assert_eq!(forwarded.len(), 1);
    match &forwarded[0].msg {
        ServerMsg::NewPos { player_i, x_bits, y_bits } => {
            assert_eq!(*player_i, 0);
            assert_eq!(f32::from_bits(*x_bits), 500.0);
            assert_eq!(f32::from_bits(*y_bits), 600.0);
        },
        _ => unreachable!(),
    }
}

#[test]
fn position_outside_the_margin_kills() {
    let map = flat_map(100, 100, 90);
    let mut players = vec![standing_player("runner", 50, 50)];
    let mut ground_weapons: Vec<Weapon> = Vec::new();
    let mut out: Vec<Broadcast> = Vec::new();

    let events = vec![ClientEvent::NewPos {
        x_bits: 0.5f32.to_bits(),
        y_bits: 50.0f32.to_bits(),
        x: PX / 2,
        y: 50 * PX,
    }];

    Engine::apply_player_events(&mut players, 0, &events, &mut ground_weapons, &map, &mut out);

    assert!(!players[0].alive);
    assert_eq!(players[0].deaths, 1);
    assert!(out.iter().any(|b| matches!(
        b,
        Broadcast { target: Target::All, msg: ServerMsg::KillPlayer { player_i: 0 } }
    )));
}

// +-------------------------------------------+
// | A bullet on a player: damage and notices  |
// +-------------------------------------------+

#[test]
fn minigun_hit_produces_one_health_update_and_explosion_pair() {
    let map = flat_map(200, 100, 90);
    let shooter = {
        let mut p = standing_player("shooter", 10, 50);
        p.weapon_type = Some(Weapon::TYPE_MINIGUN);
        p.ammo = 50;
        p.trigger_pulled = true;
        p.ticks_since_last_fire = -1;
        p.aim_x = -10_000;
        p.aim_y = 0;
        p
    };
    let victim = standing_player("victim", 60, 50);

    let mut state = state_with(vec![shooter, victim], map);
    let mut out: Vec<Broadcast> = Vec::new();

    Engine::handle_weapons(&mut state.players, &mut state.projectiles, &mut out);
    assert_eq!(state.projectiles.len(), 1);

    out.clear();
    Engine::handle_projectiles(
        &mut state.players,
        &mut state.projectiles,
        &mut state.map,
        &mut out,
    );

    // the bullet entered the victim's box and exploded on it
    assert!(state.projectiles.is_empty());
    assert_eq!(
        state.players[1].health,
        Player::MAX_HEALTH - Projectile::projectile_type_of(0).damage
    );
    assert!(state.players[1].alive);

    let health_updates: Vec<&Broadcast> = out
        .iter()
        .filter(|b| matches!(b.msg, ServerMsg::UpdateHealth { .. }))
        .collect();
    assert_eq!(health_updates.len(), 1);
    match health_updates[0] {
        Broadcast { target: Target::One(1), msg: ServerMsg::UpdateHealth { health } } => {
            assert_eq!(*health, Player::MAX_HEALTH - 300);
        },
        _ => panic!("health update sent to the wrong client"),
    }

    let explosions = out
        .iter()
        .filter(|b| matches!(b.msg, ServerMsg::ProjectileExplosion { .. }))
        .count();
    let destroys = out
        .iter()
        .filter(|b| matches!(b.msg, ServerMsg::DestroyProjectile { .. }))
        .count();
    assert_eq!((explosions, destroys), (1, 1));
    assert!(!out.iter().any(|b| matches!(b.msg, ServerMsg::KillPlayer { .. })));
}

// +--------------------------------------+
// | Death, kill credit, and respawning   |
// +--------------------------------------+

#[test]
fn lethal_hit_kills_credits_the_shooter_and_respawns() {
    let map = flat_map(200, 100, 90);
    let shooter = {
        let mut p = standing_player("shooter", 10, 50);
        p.weapon_type = Some(Weapon::TYPE_MINIGUN);
        p.ammo = 50;
        p.trigger_pulled = true;
        p.ticks_since_last_fire = -1;
        p.aim_x = -10_000;
        p.aim_y = 0;
        p
    };
    let victim = {
        let mut p = standing_player("victim", 60, 50);
        p.health = 200; // below one bullet's worth
        p
    };

    let mut state = state_with(vec![shooter, victim], map);
    let mut out: Vec<Broadcast> = Vec::new();

    Engine::handle_weapons(&mut state.players, &mut state.projectiles, &mut out);
    Engine::handle_projectiles(
        &mut state.players,
        &mut state.projectiles,
        &mut state.map,
        &mut out,
    );

    assert!(!state.players[1].alive);
    assert!(state.players[1].health < 0);
    assert_eq!(state.players[1].deaths, 1);
    assert_eq!(state.players[0].kills, 1);
    assert_eq!(state.players[1].time_to_respawn, Player::TIME_TO_RESPAWN);
    assert!(out.iter().any(|b| matches!(
        b,
        Broadcast { target: Target::All, msg: ServerMsg::KillPlayer { player_i: 1 } }
    )));

    // drive the respawn countdown to zero
    out.clear();
    for _ in 0..250 {
        Engine::handle_player_respawns(&mut state.players, &state.map, &mut out);
    }

    assert!(state.players[1].alive);
    assert_eq!(state.players[1].health, Player::MAX_HEALTH);

    let respawns: Vec<&Broadcast> = out
        .iter()
        .filter(|b| matches!(b.msg, ServerMsg::RespawnPlayer { .. }))
        .collect();
    assert_eq!(respawns.len(), 1);
    match respawns[0].msg {
        ServerMsg::RespawnPlayer { player_i, x, y } => {
            assert_eq!(player_i, 1);
            // the respawn point stands on the ground surface
            let px = (x / PX) as u32;
            let py = (y / PX) as u32;
            assert!(!state.map.solid_at(px, py + 32));
            assert!(state.map.solid_at(px, py + 33));
        },
        _ => unreachable!(),
    }
}

// +------------------------------------------+
// | Full match flow: join, ready, win, over  |
// +------------------------------------------+

#[test]
fn create_join_ready_starts_the_match() {
    let mut matches = GameMatches::new();

    // create
    let slot = matches.activate().unwrap();
    assert_eq!(slot, 0);
    while !matches.try_assign_code(slot) {}
    let code = matches.c[slot].code.clone();
    assert_eq!(code.len(), 6);
    assert!(code.bytes().all(|b| b.is_ascii_digit() || b.is_ascii_uppercase()));
    matches.push_client(slot, String::from("host"));

    // join by code
    let found = matches.index_by_code(&code).unwrap();
    assert_eq!(found, slot);
    matches.push_client(found, String::from("guest"));
    assert!(matches.index_by_code(&String::from("......")).is_err());

    let game_match = &mut matches.c[slot];
    assert_eq!(game_match.state, GameMatch::LOBBY);

    // first lobby tick instantiates the players and sends the roster
    let mut players: Vec<Player> = Vec::new();
    let mut out: Vec<Broadcast> = Vec::new();
    let mut lobby_ticks: i32 = 0;
    let idle: Vec<Option<ClientEvent>> = vec![None, None];
    let outcome = Engine::lobby_tick(game_match, &mut players, &idle, &mut lobby_ticks, &mut out);

    assert!(matches!(outcome, LobbyOutcome::Waiting));
    assert_eq!(lobby_ticks, 1);
    assert_eq!(players.len(), 2);
    assert_eq!(players[0].name, "host");
    assert_eq!(players[1].name, "guest");
    assert!(matches!(
        &out[0],
        Broadcast { target: Target::All, msg: ServerMsg::PlayerList { names } }
            if names.len() == 2 && names[0] == "host" && names[1] == "guest"
    ));

    // both toggle ready
    out.clear();
    let toggles: Vec<Option<ClientEvent>> =
        vec![Some(ClientEvent::ToggleReady), Some(ClientEvent::ToggleReady)];
    let outcome = Engine::lobby_tick(game_match, &mut players, &toggles, &mut lobby_ticks, &mut out);

    assert!(matches!(outcome, LobbyOutcome::Ready));
    assert_eq!(lobby_ticks, 1);
    assert_eq!(out.len(), 2);
    assert!(matches!(
        out[0],
        Broadcast { target: Target::All, msg: ServerMsg::ToggleReady { player_i: 0, ready: true } }
    ));
    assert!(matches!(
        out[1],
        Broadcast { target: Target::All, msg: ServerMsg::ToggleReady { player_i: 1, ready: true } }
    ));

    // entering Main assigns spawn points and notifies each client
    let mut state = state_with(players, flat_map(300, 200, 150));
    out.clear();
    Engine::main_enter(game_match, &mut state, &mut out);

    assert_eq!(game_match.state, GameMatch::GAME);
    assert_eq!(out.len(), 2);

    for (i, b) in out.iter().enumerate() {
        match b {
            Broadcast { target: Target::One(t), msg: ServerMsg::StartGame { player_i, x, y } } => {
                assert_eq!(*t, i);
                assert_eq!(*player_i, i);
                // the spawn point stands clear of solid terrain
                let px = (*x / PX) as u32;
                let py = (*y / PX) as u32;
                assert!(!state.map.solid_at(px, py + 32));
                assert!(state.map.solid_at(px, py + 33));
            },
            _ => panic!("expected a StartGame notice"),
        }
    }
}

#[test]
fn reaching_the_kill_threshold_ends_the_match() {
    let map = flat_map(100, 100, 90);
    let mut winner = standing_player("winner", 30, 50);
    winner.kills = Engine::KILLS_TO_WIN_GAME - 1;
    let loser = {
        let mut p = standing_player("loser", 60, 50);
        p.deaths = 4;
        p
    };

    let mut game_match = GameMatch::new();
    game_match.state = GameMatch::GAME;
    game_match.clients.push(Client::new(String::from("winner")));
    game_match.clients.push(Client::new(String::from("loser")));

    let mut state = state_with(vec![winner, loser], map);
    let mut out: Vec<Broadcast> = Vec::new();

    let quiet = || PlayerInput { closed: false, events: Vec::new() };

    // not yet at the threshold: the match goes on
    let outcome = Engine::main_tick(&mut game_match, &mut state, &vec![quiet(), quiet()], &mut out);
    assert!(matches!(outcome, MainTickOutcome::Continue));
    assert_eq!(state.ticks_alive, 1);

    // the fifth kill ends it
    state.players[0].kills = Engine::KILLS_TO_WIN_GAME;
    let outcome = Engine::main_tick(&mut game_match, &mut state, &vec![quiet(), quiet()], &mut out);
    assert!(matches!(outcome, MainTickOutcome::Won));

    // the final tallies go out exactly once, then the slot is released
    out.clear();
    Engine::game_over(&state.players, &mut out);
    assert_eq!(out.len(), 1);
    assert!(matches!(
        &out[0],
        Broadcast { target: Target::All, msg: ServerMsg::GameOverStats { kills_deaths } }
            if *kills_deaths == vec![(5, 0), (0, 4)]
    ));

    Engine::release_match(&mut game_match);
    assert_eq!(game_match.state, GameMatch::UNUSED);
    assert!(game_match.clients.is_empty());
}

#[test]
fn all_disconnected_ends_the_match() {
    let map = flat_map(100, 100, 90);
    let mut game_match = GameMatch::new();
    game_match.state = GameMatch::GAME;
    game_match.clients.push(Client::new(String::from("only")));

    let mut state = state_with(vec![standing_player("only", 50, 50)], map);
    let mut out: Vec<Broadcast> = Vec::new();

    let closing = vec![PlayerInput { closed: true, events: Vec::new() }];
    let outcome = Engine::main_tick(&mut game_match, &mut state, &closing, &mut out);

    assert!(matches!(outcome, MainTickOutcome::AllDisconnected));
    assert!(!game_match.clients[0].connected);
}

#[test]
fn weapon_pickup_within_reach() {
    let mut players = vec![standing_player("picker", 50, 50)];
    let mut ground_weapons = vec![
        Weapon::new(Weapon::TYPE_GLAUNCHER, 300 * PX, 50 * PX),
        Weapon::new(Weapon::TYPE_MINIGUN, 55 * PX, 45 * PX),
    ];
    let mut out: Vec<Broadcast> = Vec::new();

    Engine::handle_take_weapon(&mut players, 0, &mut ground_weapons, &mut out);

    assert_eq!(ground_weapons.len(), 1);
    assert_eq!(ground_weapons[0].weapon_type, Weapon::TYPE_GLAUNCHER);
    assert_eq!(players[0].weapon_type, Some(Weapon::TYPE_MINIGUN));
    assert_eq!(players[0].ammo, 50);
    assert!(matches!(
        out[0],
        Broadcast { target: Target::All, msg: ServerMsg::RemoveWeapon { weapon_i: 1 } }
    ));
    assert!(matches!(
        out[1],
        Broadcast { target: Target::All, msg: ServerMsg::AssignWeapon { player_i: 0, weapon_type: 0 } }
    ));
}

#[test]
fn weapon_spawns_land_on_the_ground() {
    let map = flat_map(100, 100, 80);
    let mut ground_weapons: Vec<Weapon> = Vec::new();
    let mut out: Vec<Broadcast> = Vec::new();

    Engine::handle_weapon_spawns(&mut ground_weapons, &map, &mut out);

    assert_eq!(ground_weapons.len(), Engine::SPAWN_WEAPONS_COUNT);
    for w in &ground_weapons {
        assert!(w.weapon_type < Weapon::WEAPON_TYPE_COUNT);
        let px = (w.x / PX) as u32;
        let py = (w.y / PX) as u32;
        assert!(!map.solid_at(px, py + 32));
        assert!(map.solid_at(px, py + 33));
    }
    assert_eq!(
        out.iter().filter(|b| matches!(b.msg, ServerMsg::WeaponSpawn { .. })).count(),
        Engine::SPAWN_WEAPONS_COUNT
    );
}

#[test]
fn trigger_events_settle_on_the_oldest_queued_state() {
    let map = flat_map(100, 100, 90);
    let mut players = vec![standing_player("t", 50, 50)];
    let mut ground_weapons: Vec<Weapon> = Vec::new();
    let mut out: Vec<Broadcast> = Vec::new();

    // applied newest first, the oldest queued change is applied last
    let events = vec![ClientEvent::TriggerPulled, ClientEvent::TriggerReleased];
    Engine::apply_player_events(&mut players, 0, &events, &mut ground_weapons, &map, &mut out);
    assert!(players[0].trigger_pulled);
}

#[test]
fn grenade_overkill_stops_at_the_killing_pixel() {
    // a grenade overlaps far more pixels than a 0.2-health victim can take:
    // damage lands pixel by pixel while the victim lives, so health ends
    // just below zero rather than minus the whole overlap
    let mut map = flat_map(200, 200, 190);
    let mut players = vec![standing_player("owner", 30, 50), {
        let mut v = standing_player("victim", 100, 100);
        v.health = 200;
        v
    }];
    let pr = Projectile {
        projectile_type: Projectile::TYPE_GRENADE,
        x: 100 * PX,
        y: 100 * PX,
        vel_x: 0,
        vel_y: 0,
        owner: 0,
    };
    let mut out: Vec<Broadcast> = Vec::new();

    Engine::handle_projectile_damage(&mut players, &pr, 0, &mut map, &mut out);

    // 67 pixels at 0.003 health each cross zero: 0.2 - 67 * 0.003 = -0.001
    assert!(!players[1].alive);
    assert_eq!(players[1].health, -1);
    assert_eq!(players[1].deaths, 1);
    assert_eq!(players[0].kills, 1);
}
