use argon2::password_hash::{PasswordHasher, SaltString};
use universe::battle::{CombatStats, CombatantData, CombatantId, CombatantResult};
use universe::buildings::{BuildingKind, GARRISON_SPEED_RANK};
use universe::requests::{
    arrival_initiator, bearer_token, check_build_site, check_depot_space, check_dock_ship,
    check_upgrade_request, check_upgrade_site, form_teams, health_after_hit, parse_owner_id,
    plan_build, plan_upgrade, presence_granted, tally_battle, BuildRefusal, BuildingRecord,
    BuildingRequest, DockRefusal, DockRequest, building_takes_attack_mode, check_warp_start,
    default_claims, bearer_response, check_password, owner_subject, password_outcome,
    subject_names_owner, hash_new_password, unopposed_battle, LoginRefusal, WarpRefusal, SESSION_TTL_SECS, GarrisonEntry, Hit, ShipEntry, UpgradeRefusal, UpgradeRequest,
};
use universe::ships::ShipAttackMode;

#[test]
fn owner_id_from_token_subject() {
    assert_eq!(
        parse_owner_id("550e8400-e29b-41d4-a716-446655440000"),
        Some(0x550e8400_e29b_41d4_a716_446655440000u128)
    );
    assert_eq!(
        parse_owner_id("550e8400e29b41d4a716446655440000"),
        Some(0x550e8400_e29b_41d4_a716_446655440000u128)
    );
    assert_eq!(parse_owner_id("not-a-uuid"), None);
    assert_eq!(parse_owner_id(""), None);
}

#[test]
fn bearer_token_extraction() {
    assert_eq!(bearer_token("Bearer abc.def"), Some("abc.def".to_string()));
    assert_eq!(bearer_token("Bearer "), Some(String::new()));
    assert_eq!(bearer_token("bearer abc"), None);
    assert_eq!(bearer_token("Bearer"), None);
    assert_eq!(bearer_token("Basic abc"), None);
}

#[test]
fn presence_rule() {
    assert!(presence_granted(true, false));
    assert!(presence_granted(false, true));
    assert!(!presence_granted(false, false));
}

#[test]
fn arrival_initiator_rule() {
    assert_eq!(arrival_initiator(ShipAttackMode::StrikeFirst, 7, false), Some(7));
    assert_eq!(arrival_initiator(ShipAttackMode::Defend, 7, true), Some(7));
    assert_eq!(arrival_initiator(ShipAttackMode::Defend, 7, false), None);
}

#[test]
fn build_site_checks_in_order() {
    assert_eq!(check_build_site(false, Some(true), None, 5), Err(BuildRefusal::NoPresence));
    assert_eq!(check_build_site(true, Some(false), Some(999), 1), Err(BuildRefusal::SlotTaken));
    assert_eq!(
        check_build_site(true, None, None, 1),
        Err(BuildRefusal::InsufficientMass { required_kt: 0 })
    );
    assert_eq!(
        check_build_site(true, None, Some(49), 5),
        Err(BuildRefusal::InsufficientMass { required_kt: 50 })
    );
    assert_eq!(check_build_site(true, None, Some(50), 5), Ok(()));
}

fn request(kind: BuildingKind, level: i32) -> BuildingRequest {
    BuildingRequest { star_x: 1, star_y: 2, planet_index: 0, slot_index: 3, kind, level }
}

#[test]
fn build_plan_health_owner_and_credits() {
    let g = plan_build(&request(BuildingKind::MilitaryGarrison, 3), 9, 500, 500).unwrap();
    assert_eq!((g.cost, g.health, g.owner_id), (500, 300, Some(9)));
    let m = plan_build(&request(BuildingKind::MiningDepot, 3), 9, 500, 600).unwrap();
    assert_eq!((m.cost, m.health, m.owner_id), (500, 100, None));
    let r = plan_build(&request(BuildingKind::Radar, 2), 9, 10, 10).unwrap();
    assert_eq!(r.owner_id, Some(9));
    assert_eq!(
        plan_build(&request(BuildingKind::Warehouse, 1), 9, 100, 99),
        Err(BuildRefusal::InsufficientCredits { need: 100, have: 99 })
    );
}

fn existing(kind: BuildingKind, level: i32, owner: Option<u128>) -> BuildingRecord {
    BuildingRecord {
        id: 42,
        star_x: 1,
        star_y: 2,
        planet_index: 0,
        slot_index: 3,
        kind,
        level,
        owner_id: owner,
        health: 77,
    }
}

fn upgrade(kind: BuildingKind, level: i32) -> UpgradeRequest {
    UpgradeRequest { star_x: 1, star_y: 2, planet_index: 0, slot_index: 3, kind, level }
}

#[test]
fn upgrade_request_checks() {
    let b = existing(BuildingKind::Radar, 2, Some(5));
    assert_eq!(
        check_upgrade_request(&existing(BuildingKind::Radar, 2, None), &upgrade(BuildingKind::Radar, 3), 5),
        Err(UpgradeRefusal::NotYourBuilding)
    );
    assert_eq!(
        check_upgrade_request(&b, &upgrade(BuildingKind::Radar, 3), 6),
        Err(UpgradeRefusal::NotYourBuilding)
    );
    assert_eq!(
        check_upgrade_request(&b, &upgrade(BuildingKind::Warehouse, 3), 5),
        Err(UpgradeRefusal::MismatchedBuilding)
    );
    let mut moved = upgrade(BuildingKind::Radar, 3);
    moved.slot_index = 4;
    assert_eq!(check_upgrade_request(&b, &moved, 5), Err(UpgradeRefusal::MismatchedBuilding));
    assert_eq!(
        check_upgrade_request(&b, &upgrade(BuildingKind::Radar, 2), 5),
        Err(UpgradeRefusal::LevelNotHigher)
    );
    assert_eq!(check_upgrade_request(&b, &upgrade(BuildingKind::Radar, 3), 5), Ok(()));
}

#[test]
fn upgrade_site_checks() {
    assert_eq!(check_upgrade_site(false, Some(1), None, 2), Err(UpgradeRefusal::NoPresence));
    assert_eq!(check_upgrade_site(true, Some(1), None, 2), Err(UpgradeRefusal::EnemyGarrison));
    // No ship counts as a mass of zero.
    assert_eq!(check_upgrade_site(true, None, None, 1), Ok(()));
    assert_eq!(
        check_upgrade_site(true, None, None, 2),
        Err(UpgradeRefusal::InsufficientMass { required_kt: 5 })
    );
    assert_eq!(check_upgrade_site(true, None, Some(1000), 12), Ok(()));
}

#[test]
fn upgrade_plan_costs_difference() {
    let g = existing(BuildingKind::MilitaryGarrison, 2, Some(5));
    let plan = plan_upgrade(&g, &upgrade(BuildingKind::MilitaryGarrison, 4), 215, 993, 1000).unwrap();
    assert_eq!((plan.cost, plan.health), (778, 400));
    let r = existing(BuildingKind::Radar, 2, Some(5));
    let plan = plan_upgrade(&r, &upgrade(BuildingKind::Radar, 3), 215, 462, 247).unwrap();
    assert_eq!((plan.cost, plan.health), (247, 77));
    assert_eq!(
        plan_upgrade(&r, &upgrade(BuildingKind::Radar, 3), 215, 462, 246),
        Err(UpgradeRefusal::InsufficientCredits { need: 247, have: 246 })
    );
}

#[test]
fn dock_checks() {
    let at = |x: i32, y: i32| DockRequest { star_x: x, star_y: y, planet_index: 0, slot_index: 1 };
    assert_eq!(check_dock_ship(true, 0, 0, &at(0, 0)), Err(DockRefusal::ShipWarping));
    assert_eq!(check_dock_ship(false, 0, 0, &at(0, 1)), Err(DockRefusal::NotInSystem));
    assert_eq!(check_dock_ship(false, 3, 4, &at(3, 4)), Ok(()));
    assert_eq!(check_depot_space(BuildingKind::Radar, 0, 10, 100), Err(DockRefusal::NotShipDepot));
    assert_eq!(check_depot_space(BuildingKind::ShipDepot, 90, 10, 100), Ok(()));
    assert_eq!(check_depot_space(BuildingKind::ShipDepot, 91, 10, 100), Err(DockRefusal::DepotFull));
}

fn stats(attack: u32) -> CombatStats {
    CombatStats { attack, defense: 5, speed_rank: 1 }
}

#[test]
fn teams_split_by_initiator() {
    let ships = [
        ShipEntry { id: 1, owner: 7, stats: stats(1), health: 10 },
        ShipEntry { id: 2, owner: 8, stats: stats(2), health: 20 },
        ShipEntry { id: 3, owner: 7, stats: stats(3), health: -1 },
    ];
    let garrisons = [
        GarrisonEntry { id: 10, owner: Some(8), level: 2 },
        GarrisonEntry { id: 11, owner: None, level: 99 },
        GarrisonEntry { id: 12, owner: Some(7), level: 1 },
    ];
    let (mine, theirs) = form_teams(&ships, &garrisons, 7);
    let ids = |t: &Vec<CombatantData>| t.iter().map(|c| c.id).collect::<Vec<_>>();
    assert_eq!(
        ids(&mine),
        vec![CombatantId::Ship(1), CombatantId::Ship(3), CombatantId::Garrison(12)]
    );
    assert_eq!(ids(&theirs), vec![CombatantId::Ship(2), CombatantId::Garrison(10)]);
    assert_eq!(mine[1].health, u32::MAX);
    assert_eq!(theirs[1].stats, CombatStats { attack: 20, defense: 100, speed_rank: GARRISON_SPEED_RANK });
    assert_eq!(theirs[1].health, 100);
}

#[test]
fn health_written_back() {
    assert_eq!(health_after_hit(100, 30), (70, false));
    assert_eq!(health_after_hit(30, 30), (0, true));
    assert_eq!(health_after_hit(10, 30), (-20, true));
}

fn hit(id: CombatantId, damage: u32, destroyed: bool) -> Hit {
    Hit { result: CombatantResult { id, damage_taken: damage }, destroyed }
}

#[test]
fn battle_report() {
    let team = [CombatantData {
        id: CombatantId::Ship(1),
        stats: stats(1),
        health: 10,
    }];
    let r = tally_battle(&team, &[]);
    assert_eq!((r.initiator_damage, r.defender_damage, r.initiator_dead, r.defender_dead), (0, 0, false, false));
    assert_eq!(r.winner, "stalemate");

    let r = tally_battle(
        &team,
        &[hit(CombatantId::Ship(2), 50, true), hit(CombatantId::Ship(1), 4, false)],
    );
    assert_eq!((r.initiator_damage, r.defender_damage), (4, 50));
    assert!(!r.initiator_dead && r.defender_dead);
    assert_eq!(r.winner, "initiator");

    let r = tally_battle(
        &team,
        &[hit(CombatantId::Ship(1), 10, true), hit(CombatantId::Garrison(3), 1, false)],
    );
    assert_eq!(r.winner, "defenders");

    let r = tally_battle(
        &team,
        &[hit(CombatantId::Ship(1), 10, true), hit(CombatantId::Garrison(3), 1, true)],
    );
    assert_eq!(r.winner, "stalemate");
}

#[test]
fn warp_start_checks_in_order() {
    assert_eq!(check_warp_start(false, true, true, true), Err(WarpRefusal::NotYourShip));
    assert_eq!(check_warp_start(true, true, true, true), Err(WarpRefusal::AlreadyWarping));
    assert_eq!(check_warp_start(true, false, true, true), Err(WarpRefusal::Docked));
    assert_eq!(check_warp_start(true, false, false, true), Err(WarpRefusal::Recharging));
    assert_eq!(check_warp_start(true, false, false, false), Ok(()));
}

#[test]
fn attack_mode_only_for_garrisons() {
    assert!(building_takes_attack_mode(BuildingKind::MilitaryGarrison));
    assert!(!building_takes_attack_mode(BuildingKind::Radar));
}

#[test]
fn session_claims_and_response() {
    let id = 0x550e8400_e29b_41d4_a716_446655440000u128;
    let c = default_claims(id, "name".to_string(), 1000, SESSION_TTL_SECS);
    assert_eq!(
        (c.sub.as_str(), c.username.as_str(), c.iat, c.exp),
        ("550e8400-e29b-41d4-a716-446655440000", "name", 1000, 4600)
    );
    let r = bearer_response("tok".to_string());
    assert_eq!(r.access_token, "tok");
    assert_eq!(r.token_type, "Bearer");
}

#[test]
fn token_subject_reads_back_as_its_owner() {
    for id in [0u128, 1, 0x550e8400_e29b_41d4_a716_446655440000, u128::MAX] {
        let sub = owner_subject(id);
        assert_eq!(sub.len(), 36);
        assert_eq!(parse_owner_id(&sub), Some(id));
        assert!(subject_names_owner(&sub, id));
    }
    assert_eq!(owner_subject(0), "00000000-0000-0000-0000-000000000000");
    assert_eq!(owner_subject(u128::MAX), "ffffffff-ffff-ffff-ffff-ffffffffffff");
}

#[test]
fn subject_must_match_exactly() {
    let id = 0x550e8400_e29b_41d4_a716_446655440000u128;
    assert!(subject_names_owner("550e8400-e29b-41d4-a716-446655440000", id));
    assert!(!subject_names_owner("550E8400-E29B-41D4-A716-446655440000", id));
    assert!(!subject_names_owner("550e8400e29b41d4a716446655440000", id));
    assert!(!subject_names_owner("550e8400-e29b-41d4-a716-446655440001", id));
}

#[test]
fn password_outcomes() {
    assert_eq!(password_outcome(false, false), Err(LoginRefusal::MalformedHash));
    assert_eq!(password_outcome(false, true), Err(LoginRefusal::MalformedHash));
    assert_eq!(password_outcome(true, true), Ok(()));
    assert_eq!(password_outcome(true, false), Err(LoginRefusal::WrongPassword));
}

#[test]
fn argon2_password_check() {
    let salt = SaltString::from_b64("c29tZXNhbHRzb21lc2FsdA").unwrap();
    let stored = argon2::Argon2::default()
        .hash_password(b"hunter2", &salt)
        .unwrap()
        .to_string();
    assert_eq!(check_password("hunter2", &stored), Ok(()));
    assert_eq!(check_password("hunter3", &stored), Err(LoginRefusal::WrongPassword));
    assert_eq!(check_password("hunter2", "not a phc string"), Err(LoginRefusal::MalformedHash));
    assert_eq!(check_password("hunter2", ""), Err(LoginRefusal::MalformedHash));
}

#[test]
fn new_password_hash_passes_login() {
    let stored = hash_new_password("hunter2", "c29tZXNhbHRzb21lc2FsdA").unwrap();
    assert!(stored.starts_with("$argon2id$"));
    assert_eq!(check_password("hunter2", &stored), Ok(()));
    assert_eq!(check_password("hunter3", &stored), Err(LoginRefusal::WrongPassword));
    // The same password and salt give the same stored hash.
    assert_eq!(hash_new_password("hunter2", "c29tZXNhbHRzb21lc2FsdA"), Some(stored));
    // A salt that is not base64 is refused.
    assert_eq!(hash_new_password("hunter2", "not base64!"), None);
}

#[test]
fn battle_with_an_empty_side_is_not_fought() {
    let ship = CombatantData::from_ship(1, CombatStats { attack: 10, defense: 10, speed_rank: 0 }, 10);
    let r = unopposed_battle(&[ship], &[]).unwrap();
    assert_eq!((r.initiator_damage, r.defender_damage, r.initiator_dead, r.defender_dead), (0, 0, false, false));
    assert_eq!(r.winner, "stalemate");
    assert!(unopposed_battle(&[], &[ship]).is_some());
    assert!(unopposed_battle(&[ship], &[ship]).is_none());
}

#[test]
fn mass_refusals_name_the_required_mass() {
    assert_eq!(
        check_build_site(true, None, None, 5),
        Err(BuildRefusal::InsufficientMass { required_kt: 50 })
    );
    assert_eq!(
        check_upgrade_site(true, None, Some(699), 9),
        Err(UpgradeRefusal::InsufficientMass { required_kt: 700 })
    );
    assert_eq!(check_upgrade_site(true, None, None, 1), Ok(()));
}
