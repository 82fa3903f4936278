use pixel_demolition::engine::Engine;
use pixel_demolition::game_match::GameMatch;
use pixel_demolition::game_matches::GameMatches;

#[test]
fn activation_is_first_fit_until_capacity() {
    let mut matches = GameMatches::new();

    for expected in 0..GameMatches::MAX_MATCHES {
        let slot = matches.activate().unwrap();
        assert_eq!(slot, expected);
        assert_eq!(matches.c[slot].state, GameMatch::LOBBY);
    }

    assert!(matches.activate().is_err());
}

#[test]
fn released_slots_are_reused() {
    let mut matches = GameMatches::new();
    let a = matches.activate().unwrap();
    let b = matches.activate().unwrap();
    assert_eq!((a, b), (0, 1));

    matches.c[0].state = GameMatch::UNUSED;
    assert_eq!(matches.activate().unwrap(), 0);
}

#[test]
fn assigned_codes_are_unique_and_well_formed() {
    let mut matches = GameMatches::new();

    for _ in 0..10 {
        let slot = matches.activate().unwrap();
        while !matches.try_assign_code(slot) {}
    }

    for i in 0..10 {
        let code = &matches.c[i].code;
        assert_eq!(code.len(), 6);
        assert!(code.bytes().all(|b| b.is_ascii_digit() || b.is_ascii_uppercase()));

        for j in 0..10 {
            if i != j {
                assert_ne!(code, &matches.c[j].code);
            }
        }
    }
}

#[test]
fn lookup_finds_only_assigned_codes() {
    let mut matches = GameMatches::new();
    let slot = matches.activate().unwrap();
    while !matches.try_assign_code(slot) {}

    let code = matches.c[slot].code.clone();
    assert_eq!(matches.index_by_code(&code).unwrap(), slot);
    assert!(matches.index_by_code(&String::from("AB12CD")).is_err() || code == "AB12CD");
}

#[test]
fn push_client_appends_in_order() {
    let mut matches = GameMatches::new();
    let slot = matches.activate().unwrap();

    matches.push_client(slot, String::from("first"));
    matches.push_client(slot, String::from("second"));

    let m = &matches.c[slot];
    assert_eq!(m.clients.len(), 2);
    assert_eq!(m.clients[0].name, "first");
    assert_eq!(m.clients[1].name, "second");
    assert!(m.clients[0].connected && m.clients[1].connected);
}

#[test]
fn released_code_no_longer_matches() {
    let mut matches = GameMatches::new();
    let slot = matches.activate().unwrap();
    while !matches.try_assign_code(slot) {}
    let code = matches.c[slot].code.clone();
    assert_eq!(matches.index_by_code(&code).unwrap(), slot);

    Engine::release_match(&mut matches.c[slot]);
    assert_eq!(matches.c[slot].state, GameMatch::UNUSED);
    assert!(matches.c[slot].code.is_empty());
    // a released slot's code stops identifying it
    assert!(matches.index_by_code(&code).is_err());
    // and an inactive slot's empty code never matches either
    assert!(matches.index_by_code(&String::new()).is_err());
}
