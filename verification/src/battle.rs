//! Battle resolution between two teams of ships and garrisons.
//!
//! Each round, the fastest living member of each team defends; each team strikes the
//! other team's defender with the summed attack of its living members. Damage is
//! `attack * (1 - defense / (attack * 10))^2`, floored and never negative, and a hit never
//! exceeds the defender's health. The battle ends when a team has no living member, or in
//! a stalemate where each defender's defense exceeds ten times the opposing attack.
//! Damage taken is recorded per combatant id, in the order the ids were first hit.

use vstd::prelude::*;
use crate::buildings::{garrison_stats, level_u32, GARRISON_SPEED_RANK};

verus! {

/// Identifier for a combatant in battle.
#[derive(Clone, Copy, Debug, PartialEq, Eq, Hash, Structural)]
pub enum CombatantId {
    Ship(i64),
    Garrison(i64),
}

/// Result of a battle for a single combatant.
#[derive(Clone, Copy, Debug, PartialEq, Eq, Structural)]
pub struct CombatantResult {
    pub id: CombatantId,
    pub damage_taken: u32,
}

/// The combat-relevant part of a stat line. `speed_rank` orders speeds as
/// `f64::total_cmp` orders the speeds in ly/s.
#[derive(Clone, Copy, Debug, PartialEq, Eq, Structural)]
pub struct CombatStats {
    pub attack: u32,
    pub defense: u32,
    pub speed_rank: i64,
}

/// Combat-relevant data for any combatant (ship or garrison).
#[derive(Clone, Copy, Debug, PartialEq, Eq, Structural)]
pub struct CombatantData {
    pub id: CombatantId,
    pub stats: CombatStats,
    pub health: u32,
}

impl CombatantData {
    /// Create a combatant from a ship.
    pub fn from_ship(id: i64, stats: CombatStats, health: u32) -> (c: CombatantData)
        ensures
            c == (CombatantData { id: CombatantId::Ship(id), stats, health }),
    {
        CombatantData { id: CombatantId::Ship(id), stats, health }
    }

    /// Create a combatant from a garrison of the given level; its health is its defense.
    pub fn from_garrison(id: i64, level: i32) -> (c: CombatantData)
        requires
            0 <= level,
            level * 100 <= u32::MAX,
        ensures
            c.id == CombatantId::Garrison(id),
            c.stats.attack == 10 * level,
            c.stats.defense == 50 * level,
            c.stats.speed_rank == GARRISON_SPEED_RANK,
            c.health == 50 * level,
    {
        assert(level_u32(level as usize) == level);
        let stats = garrison_stats(level as usize);
        let health = stats.defense;
        CombatantData {
            id: CombatantId::Garrison(id),
            stats: CombatStats {
                attack: stats.attack,
                defense: stats.defense,
                speed_rank: GARRISON_SPEED_RANK,
            },
            health,
        }
    }
}

// ---------------------------------------------------------------------------
// Specification of a battle
// ---------------------------------------------------------------------------

/// Index of the first record for `id` among the first `n` records.
pub open spec fn find_record(r: Seq<CombatantResult>, id: CombatantId, n: int) -> Option<int>
    decreases n,
{
    if n <= 0 {
        None
    } else {
        match find_record(r, id, n - 1) {
            Some(i) => Some(i),
            None => if r[n - 1].id == id {
                Some(n - 1)
            } else {
                None
            },
        }
    }
}

/// Index of the record for `id`.
pub open spec fn record_of(r: Seq<CombatantResult>, id: CombatantId) -> Option<int> {
    find_record(r, id, r.len() as int)
}

/// A combatant is alive while the damage recorded for its id is below its health.
pub open spec fn alive(c: CombatantData, r: Seq<CombatantResult>) -> bool {
    match record_of(r, c.id) {
        None => true,
        Some(i) => r[i].damage_taken < c.health,
    }
}

/// Some member of the team is alive.
pub open spec fn team_alive(team: Seq<CombatantData>, r: Seq<CombatantResult>) -> bool {
    exists|i: int| 0 <= i < team.len() && alive(#[trigger] team[i], r)
}

/// Summed attack of the living members among the first `n`.
pub open spec fn team_attack(team: Seq<CombatantData>, r: Seq<CombatantResult>, n: int) -> int
    decreases n,
{
    if n <= 0 {
        0
    } else {
        team_attack(team, r, n - 1) + if alive(team[n - 1], r) {
            team[n - 1].stats.attack as int
        } else {
            0
        }
    }
}

/// The defender among the first `n` members: the living member with the highest speed,
/// the later one on ties.
pub open spec fn defender(team: Seq<CombatantData>, r: Seq<CombatantResult>, n: int) -> Option<
    int,
>
    decreases n,
{
    if n <= 0 {
        None
    } else {
        let prev = defender(team, r, n - 1);
        if alive(team[n - 1], r) && (prev is None || team[prev->0].stats.speed_rank
            <= team[n - 1].stats.speed_rank) {
            Some(n - 1)
        } else {
            prev
        }
    }
}

/// `floor(attack * (1 - defense / (attack * 10))^2)`, zero once the defense reaches ten
/// times the attack; in integers, `(10a - d)^2 / (100a)`.
pub open spec fn damage_formula(attack: u32, defense: u32) -> int {
    if defense >= 10 * attack {
        0
    } else {
        (10 * attack - defense) * (10 * attack - defense) / (100 * attack)
    }
}

/// Record `x` more damage for `id`; `None` when the total would not fit in `u32`.
pub open spec fn add_damage(r: Seq<CombatantResult>, id: CombatantId, x: int) -> Option<
    Seq<CombatantResult>,
> {
    match record_of(r, id) {
        Some(i) => if r[i].damage_taken + x > u32::MAX {
            None
        } else {
            Some(
                r.update(
                    i,
                    CombatantResult { id: r[i].id, damage_taken: (r[i].damage_taken + x) as u32 },
                ),
            )
        },
        None => Some(r.push(CombatantResult { id, damage_taken: x as u32 })),
    }
}

/// What a round leads to.
pub enum BattleRound {
    /// The battle is over: a team is wiped out or the defenses hold (stalemate).
    Over,
    /// The damage records after the round.
    Next(Seq<CombatantResult>),
    /// An attack total or a damage total leaves the `u32` range.
    Overflow,
}

/// Both defenders' defense exceeds ten times the opposing attack.
pub open spec fn stalemate(d1: CombatantData, d2: CombatantData, a1: int, a2: int) -> bool {
    d1.stats.defense > a2 * 10 && d2.stats.defense > a1 * 10
}

/// One round of battle from the damage records `r`.
pub open spec fn battle_round(
    t1: Seq<CombatantData>,
    t2: Seq<CombatantData>,
    r: Seq<CombatantResult>,
) -> BattleRound {
    if !team_alive(t1, r) || !team_alive(t2, r) {
        BattleRound::Over
    } else {
        match (defender(t1, r, t1.len() as int), defender(t2, r, t2.len() as int)) {
            (Some(i1), Some(i2)) => {
                let c1 = t1[i1];
                let c2 = t2[i2];
                let a1 = team_attack(t1, r, t1.len() as int);
                let a2 = team_attack(t2, r, t2.len() as int);
                if a1 > u32::MAX || a2 > u32::MAX || a2 * 10 > u32::MAX {
                    BattleRound::Overflow
                } else if c1.stats.defense > a2 * 10 && a1 * 10 > u32::MAX {
                    BattleRound::Overflow
                } else if stalemate(c1, c2, a1, a2) {
                    BattleRound::Over
                } else {
                    let x1 = vstd::math::min(damage_formula(a1 as u32, c2.stats.defense), c2.health as int);
                    let x2 = vstd::math::min(damage_formula(a2 as u32, c1.stats.defense), c1.health as int);
                    match add_damage(r, c2.id, x1) {
                        None => BattleRound::Overflow,
                        Some(r1) => match add_damage(r1, c1.id, x2) {
                            None => BattleRound::Overflow,
                            Some(r2) => BattleRound::Next(r2),
                        },
                    }
                }
            },
            _ => BattleRound::Over,
        }
    }
}

/// The records when the battle is over within `fuel` rounds; `None` if it is not over
/// by then or overflows first.
pub open spec fn battle_run(
    t1: Seq<CombatantData>,
    t2: Seq<CombatantData>,
    r: Seq<CombatantResult>,
    fuel: nat,
) -> Option<Seq<CombatantResult>>
    decreases fuel,
{
    if fuel == 0 {
        None
    } else {
        match battle_round(t1, t2, r) {
            BattleRound::Over => Some(r),
            BattleRound::Overflow => None,
            BattleRound::Next(n) => battle_run(t1, t2, n, (fuel - 1) as nat),
        }
    }
}

/// The battle ends, with every attack and damage total inside the `u32` range.
pub open spec fn battle_completes(t1: Seq<CombatantData>, t2: Seq<CombatantData>) -> bool {
    exists|fuel: nat| #[trigger] battle_run(t1, t2, Seq::empty(), fuel) is Some
}

/// The damage records at the end of the battle.
pub open spec fn battle_outcome(t1: Seq<CombatantData>, t2: Seq<CombatantData>) -> Seq<
    CombatantResult,
> {
    battle_run(
        t1,
        t2,
        Seq::empty(),
        choose|fuel: nat| #[trigger] battle_run(t1, t2, Seq::empty(), fuel) is Some,
    )->0
}

/// Some round within the first `fuel` rounds from records `r` leaves the `u32` range
/// before the battle is over.
pub open spec fn battle_overflows(
    t1: Seq<CombatantData>,
    t2: Seq<CombatantData>,
    r: Seq<CombatantResult>,
    fuel: nat,
) -> bool
    decreases fuel,
{
    if fuel == 0 {
        false
    } else {
        match battle_round(t1, t2, r) {
            BattleRound::Over => false,
            BattleRound::Overflow => true,
            BattleRound::Next(n) => battle_overflows(t1, t2, n, (fuel - 1) as nat),
        }
    }
}

// ---------------------------------------------------------------------------
// Executable battle
// ---------------------------------------------------------------------------

fn find_result(results: &Vec<CombatantResult>, id: CombatantId) -> (r: Option<usize>)
    ensures
        r matches Some(j) ==> j < results@.len() && record_of(results@, id) == Some(j as int),
        r is None ==> record_of(results@, id) is None,
{
    let mut i: usize = 0;
    while i < results.len()
        invariant
            i <= results@.len(),
            find_record(results@, id, i as int) is None,
        decreases results@.len() - i,
    {
        if results[i].id == id {
            proof {
                lemma_find_record_stays(results@, id, i + 1, results@.len() as int);
            }
            return Some(i);
        }
        i = i + 1;
    }
    None
}

proof fn lemma_find_record_stays(r: Seq<CombatantResult>, id: CombatantId, n: int, m: int)
    requires
        0 <= n <= m,
        find_record(r, id, n) is Some,
    ensures
        find_record(r, id, m) == find_record(r, id, n),
    decreases m - n,
{
    if m > n {
        lemma_find_record_stays(r, id, n, m - 1);
    }
}

proof fn lemma_find_record_bounds(r: Seq<CombatantResult>, id: CombatantId, n: int)
    ensures
        find_record(r, id, n) matches Some(i) ==> 0 <= i < n && r[i].id == id,
        find_record(r, id, n) is None ==> forall|j: int| 0 <= j < n ==> r[j].id != id,
    decreases n,
{
    if n > 0 {
        lemma_find_record_bounds(r, id, n - 1);
    }
}

fn combatant_still_alive(c: &CombatantData, results: &Vec<CombatantResult>) -> (b: bool)
    ensures
        b == alive(*c, results@),
{
    match find_result(results, c.id) {
        None => true,
        Some(i) => {
            proof {
                lemma_find_record_bounds(results@, c.id, results@.len() as int);
            }
            results[i].damage_taken < c.health
        },
    }
}

fn team_still_alive(team: &[CombatantData], results: &Vec<CombatantResult>) -> (b: bool)
    ensures
        b == team_alive(team@, results@),
{
    let mut i: usize = 0;
    while i < team.len()
        invariant
            i <= team@.len(),
            forall|j: int| 0 <= j < i ==> !alive(#[trigger] team@[j], results@),
        decreases team@.len() - i,
    {
        if combatant_still_alive(&team[i], results) {
            return true;
        }
        i = i + 1;
    }
    false
}

proof fn lemma_team_attack_prefix(team: Seq<CombatantData>, r: Seq<CombatantResult>, n: int, m: int)
    requires
        0 <= n <= m,
    ensures
        0 <= team_attack(team, r, n) <= team_attack(team, r, m),
    decreases m - n,
{
    if m > n {
        lemma_team_attack_prefix(team, r, n, m - 1);
    } else {
        lemma_team_attack_nonneg(team, r, n);
    }
}

proof fn lemma_team_attack_nonneg(team: Seq<CombatantData>, r: Seq<CombatantResult>, n: int)
    ensures
        0 <= team_attack(team, r, n),
    decreases n,
{
    if n > 0 {
        lemma_team_attack_nonneg(team, r, n - 1);
    }
}

fn get_team_defender(team: &[CombatantData], results: &Vec<CombatantResult>) -> (d: Option<
    usize,
>)
    ensures
        d matches Some(j) ==> j < team@.len() && defender(team@, results@, team@.len() as int)
            == Some(j as int),
        d is None ==> defender(team@, results@, team@.len() as int) is None,
{
    let mut best: Option<usize> = None;
    let mut i: usize = 0;
    while i < team.len()
        invariant
            i <= team@.len(),
            match defender(team@, results@, i as int) {
                Some(k) => best == Some(k as usize) && 0 <= k < i,
                None => best is None,
            },
        decreases team@.len() - i,
    {
        if combatant_still_alive(&team[i], results) {
            match best {
                None => {
                    best = Some(i);
                },
                Some(b) => {
                    if team[b].stats.speed_rank <= team[i].stats.speed_rank {
                        best = Some(i);
                    }
                },
            }
        }
        i = i + 1;
    }
    best
}

/// Damage dealt by `attack_power` against `defense`:
/// `attack * (1 - defense / (attack * 10))^2`, floored at 0.
fn actual_damage_dealt(attack_power: u32, defense: u32) -> (dmg: u32)
    ensures
        dmg == damage_formula(attack_power, defense),
{
    let a: u128 = attack_power as u128;
    let d: u128 = defense as u128;
    if d >= 10 * a {
        return 0;
    }
    let diff: u128 = 10 * a - d;
    assert(diff * diff <= 100 * a * a) by (nonlinear_arith)
        requires
            diff <= 10 * a,
    ;
    assert(diff * diff < 0x1_0000_0000_0000_0000_0000) by (nonlinear_arith)
        requires
            diff <= 10 * a,
            a < 0x1_0000_0000,
    ;
    let q: u128 = (diff * diff) / (100 * a);
    assert(q <= a) by (nonlinear_arith)
        requires
            q == (diff * diff) / (100 * a),
            diff * diff <= 100 * a * a,
            a > 0,
    ;
    q as u32
}

/// Summed attack of the living members, or `None` when it exceeds `u32::MAX`.
fn team_attack_power(team: &[CombatantData], results: &Vec<CombatantResult>) -> (a: Option<
    u32,
>)
    ensures
        a matches Some(x) ==> x == team_attack(team@, results@, team@.len() as int),
        a is None ==> team_attack(team@, results@, team@.len() as int) > u32::MAX,
{
    let mut total: u64 = 0;
    let mut i: usize = 0;
    while i < team.len()
        invariant
            i <= team@.len(),
            total == team_attack(team@, results@, i as int),
            total <= u32::MAX,
        decreases team@.len() - i,
    {
        if combatant_still_alive(&team[i], results) {
            total = total + team[i].stats.attack as u64;
        }
        i = i + 1;
        if total > 0xFFFF_FFFF {
            proof {
                lemma_team_attack_prefix(team@, results@, i as int, team@.len() as int);
            }
            return None;
        }
    }
    Some(total as u32)
}

/// Records `damage` more for `id` when the total stays in `u32`; reports whether it did.
fn apply_damage(results: &mut Vec<CombatantResult>, id: CombatantId, damage: u32) -> (ok:
    bool)
    ensures
        ok == add_damage(old(results)@, id, damage as int) is Some,
        ok ==> final(results)@ == add_damage(old(results)@, id, damage as int)->0,
        !ok ==> final(results)@ == old(results)@,
{
    match find_result(results, id) {
        Some(i) => {
            proof {
                lemma_find_record_bounds(results@, id, results@.len() as int);
            }
            let current = results[i];
            match current.damage_taken.checked_add(damage) {
                Some(total) => {
                    results.set(i, CombatantResult { id: current.id, damage_taken: total });
                    true
                },
                None => false,
            }
        },
        None => {
            results.push(CombatantResult { id, damage_taken: damage });
            true
        },
    }
}

/// What one round of an executed battle led to.
enum RoundOutcome {
    Over,
    Overflow,
    Next,
}

/// Plays one round on the records, with every total checked against the `u32` range.
fn play_round(team_1: &[CombatantData], team_2: &[CombatantData], results: &mut Vec<
    CombatantResult,
>) -> (o: RoundOutcome)
    ensures
        o is Over ==> battle_round(team_1@, team_2@, old(results)@) is Over && final(results)@
            == old(results)@,
        o is Overflow ==> battle_round(team_1@, team_2@, old(results)@) is Overflow,
        o is Next ==> battle_round(team_1@, team_2@, old(results)@) == BattleRound::Next(
            final(results)@,
        ),
{
    if !(team_still_alive(team_1, results) && team_still_alive(team_2, results)) {
        return RoundOutcome::Over;
    }
    let d1 = get_team_defender(team_1, results);
    let d2 = get_team_defender(team_2, results);
    let (i1, i2) = match (d1, d2) {
        (Some(i1), Some(i2)) => (i1, i2),
        _ => {
            return RoundOutcome::Over;
        },
    };
    let c1 = team_1[i1];
    let c2 = team_2[i2];
    let (team_1_attack, team_2_attack) = match (
        team_attack_power(team_1, results),
        team_attack_power(team_2, results),
    ) {
        (Some(a1), Some(a2)) => (a1, a2),
        _ => {
            return RoundOutcome::Overflow;
        },
    };
    if (team_2_attack as u64) * 10 > 0xFFFF_FFFF {
        return RoundOutcome::Overflow;
    }
    if c1.stats.defense > team_2_attack * 10 && (team_1_attack as u64) * 10 > 0xFFFF_FFFF {
        return RoundOutcome::Overflow;
    }
    if c1.stats.defense > team_2_attack * 10 && c2.stats.defense > team_1_attack * 10 {
        return RoundOutcome::Over;
    }
    let dealt_1 = actual_damage_dealt(team_1_attack, c2.stats.defense);
    let x1 = if dealt_1 < c2.health {
        dealt_1
    } else {
        c2.health
    };
    let dealt_2 = actual_damage_dealt(team_2_attack, c1.stats.defense);
    let x2 = if dealt_2 < c1.health {
        dealt_2
    } else {
        c1.health
    };
    if !apply_damage(results, c2.id, x1) {
        return RoundOutcome::Overflow;
    }
    if !apply_damage(results, c1.id, x2) {
        return RoundOutcome::Overflow;
    }
    RoundOutcome::Next
}

/// Run a battle between two teams until one side is eliminated or a stalemate occurs.
/// Returns the damage taken by each combatant that was hit.
pub fn run_battle(team_1: &[CombatantData], team_2: &[CombatantData]) -> (out: Vec<
    CombatantResult,
>)
    requires
        battle_completes(team_1@, team_2@),
    ensures
        out@ == battle_outcome(team_1@, team_2@),
{
    let ghost t1 = team_1@;
    let ghost t2 = team_2@;
    let ghost fuel0: nat = choose|fuel: nat| #[trigger] battle_run(t1, t2, Seq::empty(), fuel) is Some;
    let ghost target = battle_run(t1, t2, Seq::empty(), fuel0);
    let mut results: Vec<CombatantResult> = Vec::new();
    let ghost mut fuel: nat = fuel0;
    assert(results@ =~= Seq::<CombatantResult>::empty());
    loop
        invariant
            t1 == team_1@,
            t2 == team_2@,
            target is Some,
            battle_run(t1, t2, results@, fuel) == target,
        ensures
            target == Some(results@),
        decreases fuel,
    {
        match play_round(team_1, team_2, &mut results) {
            RoundOutcome::Next => {
                proof {
                    fuel = (fuel - 1) as nat;
                }
            },
            _ => {
                break;
            },
        }
    }
    results
}

/// How a battle run under a round budget ended.
pub enum BattleRun {
    /// The battle is over; the damage records.
    Finished(Vec<CombatantResult>),
    /// An attack total or a damage total left the `u32` range.
    Overflow,
    /// The budget of damage rounds ran out before the battle was over.
    Unfinished,
}

proof fn lemma_run_more_fuel(
    t1: Seq<CombatantData>,
    t2: Seq<CombatantData>,
    r: Seq<CombatantResult>,
    fuel: nat,
    more: nat,
)
    requires
        battle_run(t1, t2, r, fuel) is Some,
        fuel <= more,
    ensures
        battle_run(t1, t2, r, more) == battle_run(t1, t2, r, fuel),
    decreases fuel,
{
    if let BattleRound::Next(n) = battle_round(t1, t2, r) {
        lemma_run_more_fuel(t1, t2, n, (fuel - 1) as nat, (more - 1) as nat);
    }
}

/// A battle that is over within `fuel` rounds has [`battle_outcome`] as its records.
proof fn lemma_run_is_outcome(t1: Seq<CombatantData>, t2: Seq<CombatantData>, fuel: nat)
    requires
        battle_run(t1, t2, Seq::empty(), fuel) is Some,
    ensures
        battle_completes(t1, t2),
        battle_run(t1, t2, Seq::empty(), fuel) == Some(battle_outcome(t1, t2)),
{
    assert(battle_completes(t1, t2));
    let c = choose|f: nat| #[trigger] battle_run(t1, t2, Seq::empty(), f) is Some;
    if c <= fuel {
        lemma_run_more_fuel(t1, t2, Seq::empty(), c, fuel);
    } else {
        lemma_run_more_fuel(t1, t2, Seq::empty(), fuel, c);
    }
}

/// Runs a battle as [`run_battle`] does, for at most `max_rounds` rounds of blows, and
/// reports an attack or damage total leaving `u32` instead of going on.
pub fn run_battle_within(team_1: &[CombatantData], team_2: &[CombatantData], max_rounds: u64) -> (out:
    BattleRun)
    ensures
        out matches BattleRun::Finished(v) ==> battle_completes(team_1@, team_2@) && v@
            == battle_outcome(team_1@, team_2@),
        out is Finished <==> battle_run(team_1@, team_2@, Seq::empty(), (max_rounds + 1) as nat) is Some,
        out is Overflow <==> battle_overflows(team_1@, team_2@, Seq::empty(), (max_rounds + 1) as nat),
        out is Overflow ==> !battle_completes(team_1@, team_2@),
{
    let ghost t1 = team_1@;
    let ghost t2 = team_2@;
    let ghost e = Seq::<CombatantResult>::empty();
    let mut results: Vec<CombatantResult> = Vec::new();
    let mut left: u64 = max_rounds;
    let ghost mut k: nat = 0;
    assert(results@ =~= e);
    loop
        invariant
            t1 == team_1@,
            t2 == team_2@,
            e == Seq::<CombatantResult>::empty(),
            k + left == max_rounds,
            forall|f: nat| #[trigger] battle_run(t1, t2, results@, f) == battle_run(t1, t2, e, f + k),
            forall|f: nat| f <= k ==> #[trigger] battle_run(t1, t2, e, f) is None,
            forall|f: nat| #[trigger] battle_overflows(t1, t2, results@, f) == battle_overflows(
                t1,
                t2,
                e,
                f + k,
            ),
        decreases left,
    {
        let ghost r = results@;
        assert(battle_run(t1, t2, r, 1) == battle_run(t1, t2, e, 1 + k));
        assert(battle_overflows(t1, t2, r, (left + 1) as nat) == battle_overflows(
            t1,
            t2,
            e,
            (max_rounds + 1) as nat,
        ));
        match play_round(team_1, team_2, &mut results) {
            RoundOutcome::Over => {
                proof {
                    assert(battle_run(t1, t2, e, k + 1) == Some(r));
                    lemma_run_more_fuel(t1, t2, e, k + 1, (max_rounds + 1) as nat);
                    lemma_run_is_outcome(t1, t2, k + 1);
                }
                return BattleRun::Finished(results);
            },
            RoundOutcome::Overflow => {
                proof {
                    assert forall|f: nat| !(#[trigger] battle_run(t1, t2, e, f) is Some) by {
                        if f > k {
                            assert(battle_run(t1, t2, r, (f - k) as nat) == battle_run(t1, t2, e, f));
                        }
                    }
                }
                return BattleRun::Overflow;
            },
            RoundOutcome::Next => {
                if left == 0 {
                    proof {
                        assert(battle_run(t1, t2, results@, 0) is None);
                        assert(!battle_overflows(t1, t2, results@, 0));
                    }
                    return BattleRun::Unfinished;
                }
                proof {
                    assert forall|f: nat| #[trigger] battle_run(t1, t2, results@, f) == battle_run(
                        t1,
                        t2,
                        e,
                        f + k + 1,
                    ) by {
                        assert(battle_run(t1, t2, r, f + 1) == battle_run(t1, t2, e, f + 1 + k));
                    }
                    assert forall|f: nat| #[trigger] battle_overflows(t1, t2, results@, f)
                        == battle_overflows(t1, t2, e, f + k + 1) by {
                        assert(battle_overflows(t1, t2, r, f + 1) == battle_overflows(
                            t1,
                            t2,
                            e,
                            f + 1 + k,
                        ));
                    }
                    assert forall|f: nat| f <= k + 1 implies #[trigger] battle_run(t1, t2, e, f) is None by {
                        if f == k + 1 {
                            assert(battle_run(t1, t2, results@, 0) is None);
                        }
                    }
                    k = k + 1;
                }
                left = left - 1;
            },
        }
    }
}

// ---------------------------------------------------------------------------
// Laws
// ---------------------------------------------------------------------------

/// The defender is a living member with the highest speed, and no later living member
/// is as fast; there is no defender exactly when no member is alive.
pub proof fn lemma_defender_is_fastest(team: Seq<CombatantData>, r: Seq<CombatantResult>, n: int)
    requires
        0 <= n <= team.len(),
    ensures
        defender(team, r, n) is None <==> forall|j: int| 0 <= j < n ==> !alive(#[trigger] team[j], r),
        defender(team, r, n) matches Some(i) ==> {
            &&& 0 <= i < n
            &&& alive(team[i], r)
            &&& forall|j: int|
                0 <= j < n && alive(#[trigger] team[j], r) ==> team[j].stats.speed_rank
                    <= team[i].stats.speed_rank
            &&& forall|j: int|
                i < j < n && alive(#[trigger] team[j], r) ==> team[j].stats.speed_rank
                    < team[i].stats.speed_rank
        },
    decreases n,
{
    if n > 0 {
        lemma_defender_is_fastest(team, r, n - 1);
    }
}

/// A hit never exceeds the attack behind it, and a stronger defense never takes more.
pub proof fn lemma_damage_bounds(attack: u32, d1: u32, d2: u32)
    requires
        d1 <= d2,
    ensures
        0 <= damage_formula(attack, d2) <= damage_formula(attack, d1) <= attack,
        d2 >= 10 * attack ==> damage_formula(attack, d2) == 0,
{
    let a = attack as int;
    if d1 < 10 * a {
        let x = 10 * a - d1;
        assert(x * x <= 100 * a * a) by (nonlinear_arith)
            requires
                0 < x <= 10 * a,
        ;
        assert(x * x / (100 * a) <= a) by (nonlinear_arith)
            requires
                x * x <= 100 * a * a,
                a > 0,
        ;
        if d2 < 10 * a {
            let y = 10 * a - d2;
            assert(y * y <= x * x) by (nonlinear_arith)
                requires
                    0 < y <= x,
            ;
            assert(y * y / (100 * a) <= x * x / (100 * a)) by (nonlinear_arith)
                requires
                    0 <= y * y <= x * x,
                    a > 0,
            ;
            assert(0 <= y * y / (100 * a)) by (nonlinear_arith)
                requires
                    a > 0,
            ;
        }
        assert(0 <= x * x / (100 * a)) by (nonlinear_arith)
            requires
                a > 0,
        ;
    }
}

proof fn lemma_run_ends_over(
    t1: Seq<CombatantData>,
    t2: Seq<CombatantData>,
    r: Seq<CombatantResult>,
    fuel: nat,
)
    requires
        battle_run(t1, t2, r, fuel) is Some,
    ensures
        battle_round(t1, t2, battle_run(t1, t2, r, fuel)->0) is Over,
    decreases fuel,
{
    if let BattleRound::Next(n) = battle_round(t1, t2, r) {
        lemma_run_ends_over(t1, t2, n, (fuel - 1) as nat);
    }
}

/// A battle stops only when a side has no living member or when both defenses hold
/// against more than ten times the opposing attack.
pub proof fn lemma_battle_ends_in_defeat_or_stalemate(t1: Seq<CombatantData>, t2: Seq<CombatantData>)
    requires
        battle_completes(t1, t2),
    ensures
        ({
            let o = battle_outcome(t1, t2);
            ||| !team_alive(t1, o)
            ||| !team_alive(t2, o)
            ||| (defender(t1, o, t1.len() as int) matches Some(i1) && defender(
                t2,
                o,
                t2.len() as int,
            ) matches Some(i2) && stalemate(
                t1[i1],
                t2[i2],
                team_attack(t1, o, t1.len() as int),
                team_attack(t2, o, t2.len() as int),
            ))
        }),
{
    let fuel = choose|fuel: nat| #[trigger] battle_run(t1, t2, Seq::empty(), fuel) is Some;
    lemma_run_ends_over(t1, t2, Seq::empty(), fuel);
    let o = battle_outcome(t1, t2);
    if team_alive(t1, o) && team_alive(t2, o) {
        let w1 = choose|i: int| 0 <= i < t1.len() && alive(#[trigger] t1[i], o);
        let w2 = choose|i: int| 0 <= i < t2.len() && alive(#[trigger] t2[i], o);
        lemma_defender_is_fastest(t1, o, t1.len() as int);
        lemma_defender_is_fastest(t2, o, t2.len() as int);
        assert(!alive(t1[w1], o) ==> false);
        assert(!alive(t2[w2], o) ==> false);
    }
}

/// When the opening defenders already hold (a stalemate before any blow), the battle
/// ends at once and nobody takes damage.
pub proof fn lemma_opening_stalemate_leaves_no_damage(t1: Seq<CombatantData>, t2: Seq<CombatantData>)
    requires
        t1.len() > 0,
        t2.len() > 0,
        team_attack(t1, Seq::empty(), t1.len() as int) * 10 <= u32::MAX,
        team_attack(t2, Seq::empty(), t2.len() as int) * 10 <= u32::MAX,
        defender(t1, Seq::empty(), t1.len() as int) matches Some(i1) && defender(
            t2,
            Seq::empty(),
            t2.len() as int,
        ) matches Some(i2) && stalemate(
            t1[i1],
            t2[i2],
            team_attack(t1, Seq::empty(), t1.len() as int),
            team_attack(t2, Seq::empty(), t2.len() as int),
        ),
    ensures
        battle_completes(t1, t2),
        battle_outcome(t1, t2) == Seq::<CombatantResult>::empty(),
{
    let e = Seq::<CombatantResult>::empty();
    assert(alive(t1[0], e));
    assert(alive(t2[0], e));
    assert(battle_run(t1, t2, e, 1) == Some(e));
    assert(battle_completes(t1, t2));
    let fuel = choose|fuel: nat| #[trigger] battle_run(t1, t2, e, fuel) is Some;
    assert(fuel > 0);
}

/// Records are well formed: each names a combatant of one of the teams, and no id is
/// recorded twice.
pub open spec fn records_well_formed(
    t1: Seq<CombatantData>,
    t2: Seq<CombatantData>,
    r: Seq<CombatantResult>,
) -> bool {
    &&& forall|i: int|
        0 <= i < r.len() ==> (exists|j: int| 0 <= j < t1.len() && t1[j].id == #[trigger] r[i].id)
            || (exists|j: int| 0 <= j < t2.len() && t2[j].id == r[i].id)
    &&& forall|i: int, k: int| 0 <= i < k < r.len() ==> #[trigger] r[i].id != #[trigger] r[k].id
}

proof fn lemma_add_damage_keeps_records(
    t1: Seq<CombatantData>,
    t2: Seq<CombatantData>,
    r: Seq<CombatantResult>,
    id: CombatantId,
    x: int,
)
    requires
        records_well_formed(t1, t2, r),
        (exists|j: int| 0 <= j < t1.len() && t1[j].id == id) || (exists|j: int|
            0 <= j < t2.len() && t2[j].id == id),
        add_damage(r, id, x) is Some,
    ensures
        records_well_formed(t1, t2, add_damage(r, id, x)->0),
{
    lemma_find_record_bounds(r, id, r.len() as int);
    let r2 = add_damage(r, id, x)->0;
    match record_of(r, id) {
        Some(i) => {
            assert forall|k: int| 0 <= k < r2.len() implies #[trigger] r2[k].id == r[k].id by {}
            assert forall|a: int, b: int| 0 <= a < b < r2.len() implies #[trigger] r2[a].id
                != #[trigger] r2[b].id by {
                assert(r2[a].id == r[a].id);
                assert(r2[b].id == r[b].id);
            }
            assert forall|k: int| 0 <= k < r2.len() implies (exists|j: int|
                0 <= j < t1.len() && t1[j].id == #[trigger] r2[k].id) || (exists|j: int|
                0 <= j < t2.len() && t2[j].id == r2[k].id) by {
                assert(r2[k].id == r[k].id);
            }
        },
        None => {
            assert forall|a: int, b: int| 0 <= a < b < r2.len() implies #[trigger] r2[a].id
                != #[trigger] r2[b].id by {
                if b == r.len() {
                    assert(r2[a].id == r[a].id);
                } else {
                    assert(r2[a].id == r[a].id);
                    assert(r2[b].id == r[b].id);
                }
            }
            assert forall|k: int| 0 <= k < r2.len() implies (exists|j: int|
                0 <= j < t1.len() && t1[j].id == #[trigger] r2[k].id) || (exists|j: int|
                0 <= j < t2.len() && t2[j].id == r2[k].id) by {
                if k < r.len() {
                    assert(r2[k].id == r[k].id);
                }
            }
        },
    }
}

proof fn lemma_run_keeps_records(
    t1: Seq<CombatantData>,
    t2: Seq<CombatantData>,
    r: Seq<CombatantResult>,
    fuel: nat,
)
    requires
        records_well_formed(t1, t2, r),
        battle_run(t1, t2, r, fuel) is Some,
    ensures
        records_well_formed(t1, t2, battle_run(t1, t2, r, fuel)->0),
    decreases fuel,
{
    if let BattleRound::Next(n) = battle_round(t1, t2, r) {
        let i1 = defender(t1, r, t1.len() as int)->0;
        let i2 = defender(t2, r, t2.len() as int)->0;
        lemma_defender_is_fastest(t1, r, t1.len() as int);
        lemma_defender_is_fastest(t2, r, t2.len() as int);
        let a1 = team_attack(t1, r, t1.len() as int);
        let a2 = team_attack(t2, r, t2.len() as int);
        let x1 = vstd::math::min(damage_formula(a1 as u32, t2[i2].stats.defense), t2[i2].health as int);
        let x2 = vstd::math::min(damage_formula(a2 as u32, t1[i1].stats.defense), t1[i1].health as int);
        assert(0 <= i2 < t2.len() && t2[i2].id == t2[i2].id);
        lemma_add_damage_keeps_records(t1, t2, r, t2[i2].id, x1);
        let r1 = add_damage(r, t2[i2].id, x1)->0;
        assert(0 <= i1 < t1.len() && t1[i1].id == t1[i1].id);
        lemma_add_damage_keeps_records(t1, t2, r1, t1[i1].id, x2);
        lemma_run_keeps_records(t1, t2, n, (fuel - 1) as nat);
    }
}

/// Every record in the outcome belongs to a combatant of one of the teams, and each
/// combatant id appears at most once.
pub proof fn lemma_outcome_records_well_formed(t1: Seq<CombatantData>, t2: Seq<CombatantData>)
    requires
        battle_completes(t1, t2),
    ensures
        records_well_formed(t1, t2, battle_outcome(t1, t2)),
{
    let fuel = choose|fuel: nat| #[trigger] battle_run(t1, t2, Seq::empty(), fuel) is Some;
    lemma_run_keeps_records(t1, t2, Seq::empty(), fuel);
}

/// `c` with its attack replaced by `attack`.
pub open spec fn with_attack(c: CombatantData, attack: u32) -> CombatantData {
    CombatantData {
        id: c.id,
        stats: CombatStats { attack, defense: c.stats.defense, speed_rank: c.stats.speed_rank },
        health: c.health,
    }
}

proof fn lemma_team_attack_update(
    team: Seq<CombatantData>,
    r: Seq<CombatantResult>,
    i: int,
    attack: u32,
    n: int,
)
    requires
        0 <= i < team.len(),
        0 <= n <= team.len(),
    ensures
        team_attack(team.update(i, with_attack(team[i], attack)), r, n) == team_attack(team, r, n)
            + if n > i && alive(team[i], r) {
            attack - team[i].stats.attack
        } else {
            0
        },
    decreases n,
{
    if n > 0 {
        lemma_team_attack_update(team, r, i, attack, n - 1);
        let t2 = team.update(i, with_attack(team[i], attack));
        assert(alive(t2[n - 1], r) == alive(team[n - 1], r));
    }
}

/// A member that has fallen adds nothing to its team's attack: whatever its attack is,
/// the team strikes with the same total.
pub proof fn lemma_fallen_member_adds_no_attack(
    team: Seq<CombatantData>,
    r: Seq<CombatantResult>,
    i: int,
    attack: u32,
)
    requires
        0 <= i < team.len(),
        !alive(team[i], r),
    ensures
        team_attack(team.update(i, with_attack(team[i], attack)), r, team.len() as int)
            == team_attack(team, r, team.len() as int),
{
    lemma_team_attack_update(team, r, i, attack, team.len() as int);
}

/// A living member adds exactly its attack to its team's attack.
pub proof fn lemma_living_member_adds_its_attack(
    team: Seq<CombatantData>,
    r: Seq<CombatantResult>,
    i: int,
)
    requires
        0 <= i < team.len(),
        alive(team[i], r),
    ensures
        team_attack(team, r, team.len() as int) == team_attack(
            team.update(i, with_attack(team[i], 0)),
            r,
            team.len() as int,
        ) + team[i].stats.attack,
{
    lemma_team_attack_update(team, r, i, 0, team.len() as int);
}

/// A team with no living member strikes with no attack at all, whatever the attacks of
/// its fallen members.
pub proof fn lemma_fallen_team_has_no_attack(team: Seq<CombatantData>, r: Seq<CombatantResult>, n: int)
    requires
        0 <= n <= team.len(),
        forall|j: int| 0 <= j < n ==> !alive(#[trigger] team[j], r),
    ensures
        team_attack(team, r, n) == 0,
    decreases n,
{
    if n > 0 {
        lemma_fallen_team_has_no_attack(team, r, n - 1);
    }
}

/// With at most one record per id, a combatant is alive exactly when every record of
/// its id shows damage below its health; with no record it is alive.
pub proof fn lemma_alive_by_records(c: CombatantData, r: Seq<CombatantResult>)
    requires
        forall|i: int, k: int| 0 <= i < k < r.len() ==> #[trigger] r[i].id != #[trigger] r[k].id,
    ensures
        alive(c, r) <==> forall|i: int|
            0 <= i < r.len() && (#[trigger] r[i]).id == c.id ==> r[i].damage_taken < c.health,
{
    lemma_find_record_bounds(r, c.id, r.len() as int);
}

/// The damage of a blow is `attack * (1 - defense / (10 * attack))^2` rounded down: in
/// integers, the largest `x` with `100 * attack * x <= (10 * attack - defense)^2`, while
/// the defense is below ten times the attack; an undefended blow deals its full attack.
pub proof fn lemma_damage_is_floor_of_formula(attack: u32, defense: u32)
    requires
        attack > 0,
        defense < 10 * attack,
    ensures
        ({
            let x = damage_formula(attack, defense);
            let q = (10 * attack - defense) * (10 * attack - defense);
            100 * attack * x <= q < 100 * attack * (x + 1)
        }),
        damage_formula(attack, 0) == attack,
{
    let a = attack as int;
    let q = (10 * a - defense) * (10 * a - defense);
    let x = q / (100 * a);
    assert(100 * a * x <= q < 100 * a * (x + 1)) by (nonlinear_arith)
        requires
            a > 0,
            x == q / (100 * a),
    ;
    assert((10 * a) * (10 * a) / (100 * a) == a) by (nonlinear_arith)
        requires
            a > 0,
    ;
}

/// Recording damage adds it to the record of that id, starting from 0 when it has
/// none, and leaves every other id's damage as it was.
pub proof fn lemma_add_damage_adds(r: Seq<CombatantResult>, id: CombatantId, x: int, other: CombatantId)
    requires
        0 <= x <= u32::MAX,
        add_damage(r, id, x) is Some,
        other != id,
    ensures
        ({
            let r2 = add_damage(r, id, x)->0;
            &&& record_of(r2, id) matches Some(i) && r2[i].damage_taken == x + match record_of(
                r,
                id,
            ) {
                Some(j) => r[j].damage_taken as int,
                None => 0,
            }
            &&& match (record_of(r, other), record_of(r2, other)) {
                (None, None) => true,
                (Some(j), Some(k)) => r[j].damage_taken == r2[k].damage_taken,
                _ => false,
            }
        }),
{
    let r2 = add_damage(r, id, x)->0;
    lemma_find_record_bounds(r, id, r.len() as int);
    lemma_find_record_bounds(r, other, r.len() as int);
    match record_of(r, id) {
        Some(i) => {
            assert forall|k: int| 0 <= k < r.len() implies (#[trigger] r2[k]).id == r[k].id by {}
            lemma_find_record_same_ids(r, r2, id, r.len() as int);
            lemma_find_record_same_ids(r, r2, other, r.len() as int);
            if let Some(j) = record_of(r, other) {
                assert(j != i);
                assert(r2[j] == r[j]);
            }
        },
        None => {
            lemma_find_record_push(r, CombatantResult { id, damage_taken: x as u32 }, id);
            lemma_find_record_push(r, CombatantResult { id, damage_taken: x as u32 }, other);
            if let Some(j) = record_of(r, other) {
                assert(r2[j] == r[j]);
            }
        },
    }
}

proof fn lemma_find_record_same_ids(
    r: Seq<CombatantResult>,
    r2: Seq<CombatantResult>,
    id: CombatantId,
    n: int,
)
    requires
        r.len() == r2.len(),
        0 <= n <= r.len(),
        forall|k: int| 0 <= k < r.len() ==> (#[trigger] r2[k]).id == r[k].id,
    ensures
        find_record(r2, id, n) == find_record(r, id, n),
    decreases n,
{
    if n > 0 {
        lemma_find_record_same_ids(r, r2, id, n - 1);
    }
}

proof fn lemma_find_record_push(r: Seq<CombatantResult>, c: CombatantResult, id: CombatantId)
    ensures
        record_of(r.push(c), id) == match record_of(r, id) {
            Some(i) => Some(i),
            None => if c.id == id {
                Some(r.len() as int)
            } else {
                None
            },
        },
{
    let r2 = r.push(c);
    lemma_find_record_same_ids(r, r2.take(r.len() as int), id, r.len() as int);
    lemma_find_record_prefix(r2, id, r.len() as int);
    assert(r2.take(r.len() as int) =~= r);
}

proof fn lemma_find_record_prefix(r: Seq<CombatantResult>, id: CombatantId, n: int)
    requires
        0 <= n <= r.len(),
    ensures
        find_record(r, id, n) == find_record(r.take(n), id, n),
    decreases n,
{
    if n > 0 {
        lemma_find_record_prefix(r, id, n - 1);
        lemma_find_record_prefix(r.take(n), id, n - 1);
        assert(r.take(n).take(n - 1) =~= r.take(n - 1));
    }
}

/// When the defenses hold (a stalemate), neither team's blow would hurt the other's
/// defender.
pub proof fn lemma_stalemate_blocks_all_damage(
    d1: CombatantData,
    d2: CombatantData,
    a1: u32,
    a2: u32,
)
    requires
        stalemate(d1, d2, a1 as int, a2 as int),
    ensures
        damage_formula(a1, d2.stats.defense) == 0,
        damage_formula(a2, d1.stats.defense) == 0,
{
}

} // verus!
