use universe::battle::{
    run_battle, run_battle_within, BattleRun, CombatStats, CombatantData, CombatantId,
    CombatantResult,
};

/// Ordering key of a speed in ly/s, as `f64::total_cmp` orders speeds.
fn speed_rank(speed: f64) -> i64 {
    let bits = speed.to_bits() as i64;
    bits ^ ((((bits >> 63) as u64) >> 1) as i64)
}

fn test_ship_stats(attack: u32, defense: u32, speed: f64) -> CombatStats {
    CombatStats { attack, defense, speed_rank: speed_rank(speed) }
}

fn damage_for(results: &[CombatantResult], id: CombatantId) -> u32 {
    results
        .iter()
        .find(|r| r.id == id)
        .map(|r| r.damage_taken)
        .unwrap_or(0)
}

#[test]
fn battle_run_battle_produces_non_empty_when_fight_happens() {
    let killer = CombatantData::from_ship(1, test_ship_stats(100, 10, 1.0), 100);
    let victim = CombatantData::from_ship(2, test_ship_stats(1, 10, 1.0), 50);

    let out = run_battle(&[killer], &[victim]);

    assert!(!out.is_empty());
    let v = damage_for(&out, CombatantId::Ship(2));
    assert!(v >= 50, "victim should be finished in one round, got {v}");
}

#[test]
fn battle_one_v_one_damage_matches_formula() {
    // attack 100 vs defense 10 -> ratio 0.01, factor 0.99, floor(100 * 0.99^2) = 98
    let a = CombatantData::from_ship(1, test_ship_stats(100, 10, 1.0), 98);
    let b = CombatantData::from_ship(2, test_ship_stats(100, 10, 1.0), 98);

    let out = run_battle(&[a], &[b]);

    assert_eq!(damage_for(&out, CombatantId::Ship(1)), 98);
    assert_eq!(damage_for(&out, CombatantId::Ship(2)), 98);
}

#[test]
fn battle_fastest_ship_on_team_is_defender() {
    let slow = CombatantData::from_ship(1, test_ship_stats(500, 100, 1.0), 1000);
    let fast = CombatantData::from_ship(2, test_ship_stats(500, 100, 10.0), 80);
    let enemy = CombatantData::from_ship(3, test_ship_stats(200, 10, 1.0), 5);

    let out = run_battle(&[slow, fast], &[enemy]);

    assert_eq!(damage_for(&out, CombatantId::Ship(1)), 0);
    assert!(damage_for(&out, CombatantId::Ship(2)) > 0);
}

#[test]
fn battle_stalemate_exits_without_damage() {
    let a = CombatantData::from_ship(1, test_ship_stats(5, 1000, 1.0), 100);
    let b = CombatantData::from_ship(2, test_ship_stats(5, 1000, 1.0), 100);

    let out = run_battle(&[a], &[b]);

    assert!(out.is_empty());
}

#[test]
fn battle_garrison_combatant_uses_level_stats() {
    let gar = CombatantData::from_garrison(1, 1);
    let ship = CombatantData::from_ship(2, test_ship_stats(1000, 10, 1.0), 50);

    let out = run_battle(&[gar], &[ship]);

    assert!(
        damage_for(&out, CombatantId::Garrison(1)) > 0
            || damage_for(&out, CombatantId::Ship(2)) > 0
    );
}

#[test]
fn _battle_run_battle_produces_non_empty_when_fight_happens() {
    let killer = CombatantData::from_ship(1, test_ship_stats(100, 10, 1.0), 100);
    let victim = CombatantData::from_ship(2, test_ship_stats(1, 10, 1.0), 50);

    let team_1 = vec![killer];
    let team_2 = vec![victim];
    let out = run_battle(&team_1, &team_2);

    assert!(!out.is_empty());
    let v = damage_for(&out, CombatantId::Ship(2));
    assert!(v >= 50, "victim should be finished in one round, got {v}");
}

#[test]
fn _battle_one_v_one_damage_matches_formula() {
    let a = CombatantData::from_ship(1, test_ship_stats(100, 10, 1.0), 98);
    let b = CombatantData::from_ship(2, test_ship_stats(100, 10, 1.0), 98);

    let out = run_battle(&vec![a], &vec![b]);

    assert_eq!(damage_for(&out, CombatantId::Ship(1)), 98);
    assert_eq!(damage_for(&out, CombatantId::Ship(2)), 98);
}

#[test]
fn _battle_fastest_ship_on_team_is_defender() {
    // One round: fast (higher speed) absorbs enemy fire; team attack wipes the glass enemy.
    // Slow never acts as defender, so it stays at 0 damage.
    let slow = CombatantData::from_ship(1, test_ship_stats(500, 100, 1.0), 1000);
    let fast = CombatantData::from_ship(2, test_ship_stats(500, 100, 10.0), 80);
    let enemy = CombatantData::from_ship(3, test_ship_stats(200, 10, 1.0), 5);

    let out = run_battle(&vec![slow, fast], &vec![enemy]);

    assert_eq!(damage_for(&out, CombatantId::Ship(1)), 0);
    assert!(damage_for(&out, CombatantId::Ship(2)) > 0);
}

#[test]
fn team_attack_power_stacks() {
    // One round: 50+50 team attack equals 100 solo vs defense 100 -> 81 damage; target hp 81 ends fight.
    let left = CombatantData::from_ship(1, test_ship_stats(50, 50, 2.0), 200);
    let right = CombatantData::from_ship(2, test_ship_stats(50, 50, 1.0), 200);
    let solo = CombatantData::from_ship(3, test_ship_stats(100, 50, 1.0), 200);
    let target = CombatantData::from_ship(4, test_ship_stats(1, 100, 1.0), 81);

    let pair_team = vec![left, right];
    let solo_team = vec![solo];
    let defenders = vec![target];

    let out_pair = run_battle(&pair_team, &defenders);
    let out_solo = run_battle(&solo_team, &defenders);

    assert_eq!(damage_for(&out_pair, CombatantId::Ship(4)), 81);
    assert_eq!(damage_for(&out_solo, CombatantId::Ship(4)), 81);
}

#[test]
fn _battle_stalemate_exits_without_damage() {
    let a = CombatantData::from_ship(1, test_ship_stats(5, 1000, 1.0), 100);
    let b = CombatantData::from_ship(2, test_ship_stats(5, 1000, 1.0), 100);

    let out = run_battle(&vec![a], &vec![b]);

    assert!(out.is_empty());
}

#[test]
fn _battle_garrison_combatant_uses_level_stats() {
    let gar = CombatantData::from_garrison(1, 1);
    let ship = CombatantData::from_ship(2, test_ship_stats(1000, 10, 1.0), 50);

    let out = run_battle(&vec![gar], &vec![ship]);

    assert!(
        damage_for(&out, CombatantId::Garrison(1)) > 0
            || damage_for(&out, CombatantId::Ship(2)) > 0
    );
}

#[test]
fn garrison_stats_scale_with_level() {
    let g = CombatantData::from_garrison(7, 3);
    assert_eq!(g.id, CombatantId::Garrison(7));
    assert_eq!(g.stats.attack, 30);
    assert_eq!(g.stats.defense, 150);
    assert_eq!(g.health, 150);
    assert_eq!(g.stats.speed_rank, speed_rank(0.1));
}

#[test]
fn records_follow_first_hit_order_and_accumulate() {
    // Each round both deal floor((100 - 10)^2 / 1000) = 8 (attack 10 vs defense 10); health
    // 20 lasts three rounds. The defender of team 2 is recorded first.
    let a = CombatantData::from_ship(1, test_ship_stats(10, 10, 1.0), 20);
    let b = CombatantData::from_ship(2, test_ship_stats(10, 10, 1.0), 20);
    let out = run_battle(&[a], &[b]);
    assert_eq!(
        out,
        vec![
            CombatantResult { id: CombatantId::Ship(2), damage_taken: 24 },
            CombatantResult { id: CombatantId::Ship(1), damage_taken: 24 },
        ]
    );
}

#[test]
fn equal_speeds_pick_the_later_member() {
    // The enemy's defense blocks everything; it deals 10 per round to the later of two
    // equally fast ships until that one falls, then to the earlier one.
    let first = CombatantData::from_ship(1, test_ship_stats(10, 0, 1.0), 100);
    let second = CombatantData::from_ship(2, test_ship_stats(10, 0, 1.0), 100);
    let enemy = CombatantData::from_ship(3, test_ship_stats(10, 1000, 1.0), 1);
    let out = run_battle(&[first, second], &[enemy]);
    assert_eq!(
        out,
        vec![
            CombatantResult { id: CombatantId::Ship(3), damage_taken: 0 },
            CombatantResult { id: CombatantId::Ship(2), damage_taken: 100 },
            CombatantResult { id: CombatantId::Ship(1), damage_taken: 100 },
        ]
    );
}

#[test]
fn defense_of_ten_times_attack_blocks_all_damage() {
    let a = CombatantData::from_ship(1, test_ship_stats(10, 100, 1.0), 5);
    let b = CombatantData::from_ship(2, test_ship_stats(10, 0, 1.0), 5);
    let out = run_battle(&[a], &[b]);
    // a takes nothing (defense 100 = 10 * 10), b takes 5 (capped at its health).
    assert_eq!(damage_for(&out, CombatantId::Ship(1)), 0);
    assert_eq!(damage_for(&out, CombatantId::Ship(2)), 5);
}

#[test]
fn budgeted_battle_finishes_like_the_full_one() {
    let a = CombatantData::from_ship(1, test_ship_stats(10, 10, 1.0), 20);
    let b = CombatantData::from_ship(2, test_ship_stats(10, 10, 1.0), 20);
    match run_battle_within(&[a], &[b], 3) {
        BattleRun::Finished(out) => assert_eq!(out, run_battle(&[a], &[b])),
        _ => panic!("three rounds are enough"),
    }
}

#[test]
fn budgeted_battle_runs_out_of_rounds() {
    // Three rounds of blows are needed; two are not enough.
    let a = CombatantData::from_ship(1, test_ship_stats(10, 10, 1.0), 20);
    let b = CombatantData::from_ship(2, test_ship_stats(10, 10, 1.0), 20);
    assert!(matches!(run_battle_within(&[a], &[b], 2), BattleRun::Unfinished));
}

#[test]
fn harmless_blows_never_finish() {
    // Attack 1 against defense 9: no stalemate, but every blow floors to 0 damage.
    let a = CombatantData::from_ship(1, test_ship_stats(1, 9, 1.0), 5);
    let b = CombatantData::from_ship(2, test_ship_stats(1, 9, 1.0), 5);
    assert!(matches!(run_battle_within(&[a], &[b], 1000), BattleRun::Unfinished));
}

#[test]
fn attack_total_past_u32_overflows() {
    let a = CombatantData::from_ship(1, test_ship_stats(u32::MAX, 0, 1.0), 5);
    let b = CombatantData::from_ship(2, test_ship_stats(1, 0, 1.0), 5);
    let c = CombatantData::from_ship(3, test_ship_stats(1, 0, 1.0), 5);
    assert!(matches!(run_battle_within(&[b, c], &[a], 10), BattleRun::Overflow));
}

#[test]
fn opening_stalemate_finishes_without_records() {
    let a = CombatantData::from_ship(1, test_ship_stats(10, 1000, 1.0), 100);
    let b = CombatantData::from_ship(2, test_ship_stats(10, 1000, 1.0), 100);
    match run_battle_within(&[a], &[b], 0) {
        BattleRun::Finished(out) => assert!(out.is_empty()),
        _ => panic!("a stalemate is over at once"),
    }
}
