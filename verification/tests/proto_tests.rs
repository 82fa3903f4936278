use pixel_demolition::proto::Proto;

// +---------------------------+
// | Exact wire byte layouts   |
// +---------------------------+

#[test]
fn opcode_only_messages_are_one_byte() {
    assert_eq!(Proto::tst_toggle_ready(), vec![0x02]);
    assert_eq!(Proto::tst_take_weapon(), vec![0x05]);
    assert_eq!(Proto::tst_trigger_pulled(), vec![0x06]);
    assert_eq!(Proto::tst_trigger_released(), vec![0x07]);
    assert_eq!(Proto::tct_remove_ammo(), vec![0x94]);
}

#[test]
fn toggle_ready_layout() {
    assert_eq!(Proto::tct_toggle_ready(3, true), vec![0x83, 3, 0xff]);
    assert_eq!(Proto::tct_toggle_ready(0, false), vec![0x83, 0, 0x00]);
}

#[test]
fn new_pos_layout_little_endian() {
    let x = 1.5f32.to_bits();
    let y = (-2.25f32).to_bits();
    let m = Proto::tst_new_pos(x, y);
    assert_eq!(m.len(), 9);
    assert_eq!(m[0], 0x03);
    assert_eq!(&m[1..5], &1.5f32.to_le_bytes());
    assert_eq!(&m[5..9], &(-2.25f32).to_le_bytes());
}

#[test]
fn start_game_layout() {
    let m = Proto::tct_start_game(7, 100.0f32.to_bits(), 42.0f32.to_bits());
    assert_eq!(m.len(), 10);
    assert_eq!(m[0], 0x84);
    assert_eq!(m[1], 7);
    assert_eq!(&m[2..6], &100.0f32.to_le_bytes());
    assert_eq!(&m[6..10], &42.0f32.to_le_bytes());
}

#[test]
fn create_new_layout() {
    let m = Proto::tst_create_new(&String::from("alice"));
    assert_eq!(m, vec![0x01, b'a', b'l', b'i', b'c', b'e']);
}

#[test]
fn join_existing_layout() {
    let m = Proto::tst_join_existing(&String::from("ABC123"), &String::from("bob"));
    assert_eq!(m[0], 0x00);
    assert_eq!(&m[1..7], b"ABC123");
    assert_eq!(&m[7..], b"bob");
}

#[test]
fn player_list_layout_uses_separator() {
    let names = vec![String::from("a"), String::from("bc")];
    let m = Proto::tct_player_list(&names);
    assert_eq!(m, vec![0x82, b'a', 0x1e, b'b', b'c', 0x1e]);
}

// +-------------+
// | Round trips |
// +-------------+

#[test]
fn round_trip_tst_join_existing() {
    let code = String::from("XYZ789");
    let name = String::from("player one");
    let m = Proto::tst_join_existing(&code, &name);
    let (c, n) = Proto::parse_tst_join_existing(&m, 6).unwrap();
    assert_eq!(c, code);
    assert_eq!(n, name);
}

#[test]
fn round_trip_tst_join_existing_empty_name() {
    let code = String::from("AAAAAA");
    let name = String::new();
    let m = Proto::tst_join_existing(&code, &name);
    let (c, n) = Proto::parse_tst_join_existing(&m, 6).unwrap();
    assert_eq!(c, code);
    assert_eq!(n, name);
}

#[test]
fn round_trip_tst_create_new() {
    let m = Proto::tst_create_new(&String::from("zoe"));
    assert_eq!(Proto::parse_tst_create_new(&m).unwrap(), "zoe");

    let empty = Proto::tst_create_new(&String::new());
    assert_eq!(Proto::parse_tst_create_new(&empty).unwrap(), "");
}

#[test]
fn round_trip_tct_join_existing_result() {
    let m = Proto::tct_join_existing_result(Proto::JOIN_EXISTING_RESULT_BAD_CODE);
    assert_eq!(Proto::parse_tct_join_existing_result(&m).unwrap(), 0x02);
}

#[test]
fn round_trip_tct_create_new_result() {
    let m = Proto::tct_create_new_result(Proto::CREATE_NEW_RESULT_SUCCESS, &String::from("QWERTY"));
    let (status, code) = Proto::parse_tct_create_new_result(&m).unwrap();
    assert_eq!(status, 0xff);
    assert_eq!(code, "QWERTY");

    let failure = Proto::tct_create_new_result(Proto::CREATE_NEW_RESULT_SERVER_ERROR, &String::new());
    let (status, code) = Proto::parse_tct_create_new_result(&failure).unwrap();
    assert_eq!(status, 0x00);
    assert_eq!(code, "");
}

#[test]
fn round_trip_tct_player_list() {
    let names = vec![String::from("one"), String::new(), String::from("three")];
    let m = Proto::tct_player_list(&names);
    assert_eq!(Proto::parse_tct_player_list(&m).unwrap(), names);

    let none: Vec<String> = Vec::new();
    let m = Proto::tct_player_list(&none);
    assert_eq!(Proto::parse_tct_player_list(&m).unwrap(), none);
}

#[test]
fn round_trip_tct_toggle_ready() {
    let m = Proto::tct_toggle_ready(5, true);
    assert_eq!(Proto::parse_tct_toggle_ready(&m).unwrap(), (5, true));
    let m = Proto::tct_toggle_ready(0, false);
    assert_eq!(Proto::parse_tct_toggle_ready(&m).unwrap(), (0, false));
}

#[test]
fn round_trip_tct_start_game() {
    let m = Proto::tct_start_game(1, 800.0f32.to_bits(), 420.0f32.to_bits());
    let (i, x, y) = Proto::parse_tct_start_game(&m).unwrap();
    assert_eq!(i, 1);
    assert_eq!(f32::from_bits(x), 800.0);
    assert_eq!(f32::from_bits(y), 420.0);
}

#[test]
fn round_trip_positions_and_angles() {
    let m = Proto::tst_new_pos(3.5f32.to_bits(), 7.25f32.to_bits());
    assert_eq!(m[0], Proto::TST_NEW_POS);
    let (x, y) = Proto::parse_tst_new_pos(&m).unwrap();
    assert_eq!((f32::from_bits(x), f32::from_bits(y)), (3.5, 7.25));

    let m = Proto::tst_new_angle(1.25f32.to_bits());
    assert_eq!(f32::from_bits(Proto::parse_tst_new_angle(&m).unwrap()), 1.25);

    let m = Proto::tct_new_pos(9, 1.0f32.to_bits(), 2.0f32.to_bits());
    assert_eq!(Proto::parse_tct_new_pos(&m).unwrap(), (9, 1.0f32.to_bits(), 2.0f32.to_bits()));

    let m = Proto::tct_new_angle(4, 0.5f32.to_bits());
    assert_eq!(Proto::parse_tct_new_angle(&m).unwrap(), (4, 0.5f32.to_bits()));
}

#[test]
fn round_trip_weapon_messages() {
    let m = Proto::tct_weapon_spawn(1, 10.0f32.to_bits(), 20.0f32.to_bits());
    assert_eq!(Proto::parse_tct_weapon_spawn(&m).unwrap(), (1, 10.0f32.to_bits(), 20.0f32.to_bits()));

    let m = Proto::tct_remove_weapon(9);
    assert_eq!(Proto::parse_tct_remove_weapon(&m).unwrap(), 9);

    let m = Proto::tct_assign_weapon(2, 1);
    assert_eq!(Proto::parse_tct_assign_weapon(&m).unwrap(), (2, 1));
}

#[test]
fn round_trip_projectile_messages() {
    let m = Proto::tct_new_projectile(
        0,
        1.0f32.to_bits(),
        2.0f32.to_bits(),
        3.0f32.to_bits(),
        4.0f32.to_bits(),
    );
    assert_eq!(
        Proto::parse_tct_new_projectile(&m).unwrap(),
        (0, 1.0f32.to_bits(), 2.0f32.to_bits(), 3.0f32.to_bits(), 4.0f32.to_bits())
    );

    let m = Proto::tct_destroy_projectile(3);
    assert_eq!(Proto::parse_tct_destroy_projectile(&m).unwrap(), 3);

    let m = Proto::tct_projectile_explosion(1, 5.0f32.to_bits(), 6.0f32.to_bits());
    assert_eq!(
        Proto::parse_tct_projectile_explosion(&m).unwrap(),
        (1, 5.0f32.to_bits(), 6.0f32.to_bits())
    );
}

#[test]
fn round_trip_health_kill_respawn() {
    let m = Proto::tct_update_health(9.7f32.to_bits());
    assert_eq!(f32::from_bits(Proto::parse_tct_update_health(&m).unwrap()), 9.7);

    let m = Proto::tct_kill_player(2);
    assert_eq!(Proto::parse_tct_kill_player(&m).unwrap(), 2);

    let m = Proto::tct_respawn_player(1, 33.0f32.to_bits(), 44.0f32.to_bits());
    assert_eq!(
        Proto::parse_tct_respawn_player(&m).unwrap(),
        (1, 33.0f32.to_bits(), 44.0f32.to_bits())
    );
}

#[test]
fn round_trip_game_over_stats() {
    let kd = vec![(5, 2), (0, 5), (-1, 7)];
    let m = Proto::tct_game_over_stats(&kd);
    assert_eq!(Proto::parse_tct_game_over_stats(&m), kd);

    let empty: Vec<(i32, i32)> = Vec::new();
    let m = Proto::tct_game_over_stats(&empty);
    assert_eq!(Proto::parse_tct_game_over_stats(&m), empty);
}

// +-------------------------------+
// | Truncated buffers always fail |
// +-------------------------------+

#[test]
fn get_type_on_empty_fails() {
    assert!(Proto::get_type(&Vec::new()).is_err());
    assert_eq!(Proto::get_type(&vec![0x85, 1]).unwrap(), 0x85);
}

#[test]
fn truncated_buffers_are_rejected() {
    // one byte shorter than each opcode's minimum length
    assert!(Proto::parse_tst_join_existing(&vec![0u8; 6], 6).is_err());
    assert!(Proto::parse_tst_create_new(&Vec::new()).is_err());
    assert!(Proto::parse_tct_join_existing_result(&vec![0x80]).is_err());
    assert!(Proto::parse_tct_create_new_result(&vec![0x81]).is_err());
    assert!(Proto::parse_tct_player_list(&Vec::new()).is_err());
    assert!(Proto::parse_tct_toggle_ready(&vec![0x83, 0]).is_err());
    assert!(Proto::parse_tct_start_game(&vec![0u8; 9]).is_err());
    assert!(Proto::parse_tst_new_pos(&vec![0u8; 8]).is_err());
    assert!(Proto::parse_tst_new_angle(&vec![0u8; 4]).is_err());
    assert!(Proto::parse_tct_new_pos(&vec![0u8; 9]).is_err());
    assert!(Proto::parse_tct_new_angle(&vec![0u8; 5]).is_err());
    assert!(Proto::parse_tct_weapon_spawn(&vec![0u8; 9]).is_err());
    assert!(Proto::parse_tct_remove_weapon(&vec![0x88]).is_err());
    assert!(Proto::parse_tct_assign_weapon(&vec![0x89, 0]).is_err());
    assert!(Proto::parse_tct_new_projectile(&vec![0u8; 17]).is_err());
    assert!(Proto::parse_tct_projectile_explosion(&vec![0u8; 9]).is_err());
    assert!(Proto::parse_tct_destroy_projectile(&vec![0x91]).is_err());
    assert!(Proto::parse_tct_update_health(&vec![0u8; 4]).is_err());
    assert!(Proto::parse_tct_kill_player(&vec![0x95]).is_err());
    assert!(Proto::parse_tct_respawn_player(&vec![0u8; 9]).is_err());
}

#[test]
fn invalid_utf8_name_is_rejected() {
    let m = vec![Proto::TST_CREATE_NEW, 0xff, 0xfe];
    assert!(Proto::parse_tst_create_new(&m).is_err());

    let mut list = vec![Proto::TCT_PLAYER_LIST, 0xff, Proto::SEPARATOR];
    assert!(Proto::parse_tct_player_list(&list).is_err());
    list[1] = b'x';
    assert_eq!(Proto::parse_tct_player_list(&list).unwrap(), vec![String::from("x")]);
}

#[test]
fn unknown_ready_state_is_rejected() {
    assert!(Proto::parse_tct_toggle_ready(&vec![0x83, 0, 0x42]).is_err());
}

#[test]
fn round_trip_tct_player_list_unicode_names() {
    // multi-byte UTF-8 never contains the separator byte, so any
    // separator-free name survives the list encoding
    let names = vec![String::from("żółć"), String::from("名前"), String::from("héro")];
    let m = Proto::tct_player_list(&names);
    assert_eq!(Proto::parse_tct_player_list(&m).unwrap(), names);
}
