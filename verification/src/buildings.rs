//! Building kinds and the rules attached to them: who owns them, which carry hit
//! points, garrison combat stats, ship-mass requirements and depot pricing.

use vstd::prelude::*;

verus! {

/// Kinds of buildings that can stand on a planet slot.
#[derive(Clone, Copy, Debug, PartialEq, Eq, Structural)]
pub enum BuildingKind {
    MiningDepot,
    Warehouse,
    MilitaryGarrison,
    SalesDepot,
    ShipDepot,
    Radar,
}

/// Ordering key of the garrison speed, 0.1 ly/s: the IEEE-754 bits of `0.1f64`, read
/// the way `f64::total_cmp` orders values.
pub const GARRISON_SPEED_RANK: i64 = 0x3FB9_9999_9999_999A;

/// Integer stats of a military garrison (its speed is the fixed 0.1 ly/s of
/// [`GARRISON_SPEED_RANK`]).
#[derive(Clone, Copy, Debug, PartialEq, Eq, Structural)]
pub struct GarrisonStats {
    pub size_kt: u32,
    pub defense: u32,
    pub attack: u32,
    pub battery_ly: u32,
    pub radar_ly: u32,
}

/// `level` as the game reads it for stats: its low 32 bits.
pub open spec fn level_u32(level: usize) -> int {
    (level as int) % 0x1_0000_0000
}

/// Combat stats of a garrison of the given level: 100 kt and 50 defense per level,
/// 10 attack per level, no battery or radar.
pub fn garrison_stats(level: usize) -> (s: GarrisonStats)
    requires
        level_u32(level) * 100 <= u32::MAX,
    ensures
        s.size_kt == 100 * level_u32(level),
        s.defense == 50 * level_u32(level),
        s.attack == 10 * level_u32(level),
        s.battery_ly == 0,
        s.radar_ly == 0,
{
    let l: u32 = level as u32;
    assert(l == level_u32(level)) by (bit_vector)
        requires
            l == level as u32,
    ;
    let base_attack: u32 = 10;
    let base_defense: u32 = 50 * l;
    GarrisonStats {
        size_kt: 100 * l,
        defense: base_defense,
        attack: base_attack * l,
        battery_ly: 0,
        radar_ly: 0,
    }
}

/// Buildings that belong to the player who built them.
pub fn building_has_owner(kind: &BuildingKind) -> (b: bool)
    ensures
        b <==> (*kind == BuildingKind::MilitaryGarrison || *kind == BuildingKind::Radar || *kind
            == BuildingKind::SalesDepot),
{
    match kind {
        BuildingKind::MilitaryGarrison | BuildingKind::Radar | BuildingKind::SalesDepot => true,
        _ => false,
    }
}

/// Buildings that carry hit points.
pub fn building_has_health(kind: &BuildingKind) -> (b: bool)
    ensures
        b <==> *kind == BuildingKind::MilitaryGarrison,
{
    match kind {
        BuildingKind::MilitaryGarrison => true,
        _ => false,
    }
}

/// Required ship mass (kt) to build or upgrade to `level`.
pub open spec fn required_mass_kt(level: int) -> int {
    if level <= 1 {
        0
    } else if level >= 10 {
        1000
    } else if level == 2 {
        5
    } else if level == 3 {
        15
    } else if level == 4 {
        30
    } else if level == 5 {
        50
    } else if level == 6 {
        100
    } else if level == 7 {
        200
    } else if level == 8 {
        400
    } else {
        700
    }
}

/// Ship mass (kt) the heaviest ship present must reach to build or upgrade to `level`:
/// none up to level 1, 5 15 30 50 100 200 400 700 for levels 2..=9, 1000 from level 10.
pub fn get_required_mass(level: i32) -> (kt: u32)
    ensures
        kt == required_mass_kt(level as int),
{
    if level <= 1 {
        0
    } else if level >= 10 {
        1000
    } else {
        match level {
            2 => 5,
            3 => 15,
            4 => 30,
            5 => 50,
            6 => 100,
            7 => 200,
            8 => 400,
            9 => 700,
            _ => 1000,
        }
    }
}

/// Price of a new sales depot when the owner already has `count` of them: 1000 credits,
/// doubled for each one owned.
pub open spec fn sales_depot_price(count: int) -> int {
    (1000 * vstd::arithmetic::power2::pow2(count as nat)) as int
}

/// Price of a new sales depot (`1000 * 2^count`, the count read as `u32`).
pub fn sales_depot_cost(sales_depot_count: i64) -> (cost: i64)
    requires
        sales_depot_price((sales_depot_count as u32) as int) <= i64::MAX,
    ensures
        cost == sales_depot_price((sales_depot_count as u32) as int),
{
    let e: u32 = sales_depot_count as u32;
    let mut p: i64 = 1;
    let mut i: i64 = 0;
    proof {
        vstd::arithmetic::power2::lemma2_to64();
    }
    while i < e as i64
        invariant
            0 <= i <= e,
            p == vstd::arithmetic::power2::pow2(i as nat),
            1000 * vstd::arithmetic::power2::pow2(e as nat) <= i64::MAX,
        decreases e - i,
    {
        proof {
            vstd::arithmetic::power2::lemma_pow2_unfold((i + 1) as nat);
            if i + 1 < e {
                vstd::arithmetic::power2::lemma_pow2_strictly_increases((i + 1) as nat, e as nat);
            }
        }
        p = p * 2;
        i = i + 1;
    }
    proof {
        vstd::arithmetic::power2::lemma_pow2_pos(e as nat);
    }
    1000 * p
}

/// The required ship mass never falls as the level rises: none up to level 1, 1000 kt
/// from level 10 on.
pub proof fn lemma_required_mass_rises(l1: int, l2: int)
    requires
        l1 <= l2,
    ensures
        required_mass_kt(l1) <= required_mass_kt(l2),
        l1 <= 1 ==> required_mass_kt(l1) == 0,
        l2 >= 10 ==> required_mass_kt(l2) == 1000,
        l1 < l2 && 1 <= l1 && l2 <= 10 ==> required_mass_kt(l1) < required_mass_kt(l2),
{
}

/// The first sales depot costs 1000 credits, and each one owned doubles the price.
pub proof fn lemma_sales_depot_price_doubles(count: nat)
    ensures
        sales_depot_price(0) == 1000,
        sales_depot_price(count + 1int) == 2 * sales_depot_price(count as int),
{
    vstd::arithmetic::power2::lemma_pow2_unfold(count + 1);
    vstd::arithmetic::power2::lemma2_to64();
}

} // verus!
