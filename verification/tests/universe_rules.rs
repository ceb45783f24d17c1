use universe::buildings::{
    building_has_health, building_has_owner, garrison_stats, get_required_mass, sales_depot_cost,
    BuildingKind, GARRISON_SPEED_RANK,
};
use universe::generator::{hash_to_planet_count, hash_to_star_type, StarType};
use universe::hasher::point_hash;
use universe::resources::{
    all_kinds, baseline_credits_per_kt, kind_sort_index, kinds_by_value_desc, parse_material_kind,
    MaterialKind, BASELINE_CREDITS_PER_KT_HELIUM, BASELINE_CREDITS_PER_KT_IRON,
};

#[test]
fn point_hash_known_values() {
    assert_eq!(point_hash(0, 0, 0), 0);
    assert_eq!(point_hash(1, 2, 3), 2383276594417947032);
    assert_eq!(point_hash(-5, 7, 0xDEAD_BEEF_CAFE_BABE), 15652340120416672661);
}

#[test]
fn point_hash_depends_on_every_input() {
    let h = point_hash(10, 20, 30);
    assert_ne!(h, point_hash(11, 20, 30));
    assert_ne!(h, point_hash(10, 21, 30));
    assert_ne!(h, point_hash(10, 20, 31));
}

#[test]
fn star_type_bands() {
    assert_eq!(hash_to_star_type(0), StarType::Red);
    assert_eq!(hash_to_star_type(13466123173807972677), StarType::Red);
    assert_eq!(hash_to_star_type(13466123173807972678), StarType::Orange);
    assert_eq!(hash_to_star_type(17155471988549883001), StarType::YellowWhite);
    assert_eq!(hash_to_star_type(18446559606268814518), StarType::Blue);
    assert_eq!(hash_to_star_type(18446559606268814519), StarType::NeutronStar);
    assert_eq!(hash_to_star_type(u64::MAX), StarType::NeutronStar);
}

#[test]
fn planet_count_bands() {
    assert_eq!(hash_to_planet_count(0), 1);
    assert_eq!(hash_to_planet_count(922337203685477579), 1);
    assert_eq!(hash_to_planet_count(922337203685477580), 2);
    assert_eq!(hash_to_planet_count(7378697629483820646), 4);
    assert_eq!(hash_to_planet_count(18444899399302180658), 9);
    assert_eq!(hash_to_planet_count(18444899399302180659), 10);
    assert_eq!(hash_to_planet_count(u64::MAX), 10);
}

#[test]
fn star_type_from_index() {
    assert_eq!(StarType::from_index(0), StarType::Red);
    assert_eq!(StarType::from_index(3), StarType::YellowWhite);
    assert_eq!(StarType::from_index(6), StarType::Blue);
    assert_eq!(StarType::from_index(7), StarType::NeutronStar);
    assert_eq!(StarType::from_index(1000), StarType::NeutronStar);
}

#[test]
fn garrison_stats_per_level() {
    let g = garrison_stats(4);
    assert_eq!(g.size_kt, 400);
    assert_eq!(g.defense, 200);
    assert_eq!(g.attack, 40);
    assert_eq!(g.battery_ly, 0);
    assert_eq!(g.radar_ly, 0);
    assert_eq!(GARRISON_SPEED_RANK, 0.1f64.to_bits() as i64);
}

#[test]
fn required_mass_table() {
    let expected = [
        (-3, 0),
        (0, 0),
        (1, 0),
        (2, 5),
        (3, 15),
        (4, 30),
        (5, 50),
        (6, 100),
        (7, 200),
        (8, 400),
        (9, 700),
        (10, 1000),
        (50, 1000),
    ];
    for (level, kt) in expected {
        assert_eq!(get_required_mass(level), kt, "level {level}");
    }
}

#[test]
fn sales_depot_price_doubles() {
    assert_eq!(sales_depot_cost(0), 1000);
    assert_eq!(sales_depot_cost(1), 2000);
    assert_eq!(sales_depot_cost(3), 8000);
    assert_eq!(sales_depot_cost(20), 1000 * (1 << 20));
    // The count is read as a u32.
    assert_eq!(sales_depot_cost(1 << 32), 1000);
}

#[test]
fn building_owner_and_health_kinds() {
    let owned = [BuildingKind::MilitaryGarrison, BuildingKind::Radar, BuildingKind::SalesDepot];
    let unowned = [BuildingKind::MiningDepot, BuildingKind::Warehouse, BuildingKind::ShipDepot];
    for k in owned {
        assert!(building_has_owner(&k));
    }
    for k in unowned {
        assert!(!building_has_owner(&k));
    }
    assert!(building_has_health(&BuildingKind::MilitaryGarrison));
    assert!(!building_has_health(&BuildingKind::Radar));
    assert!(!building_has_health(&BuildingKind::Warehouse));
}

#[test]
fn material_kinds_and_prices() {
    assert_eq!(all_kinds(), vec![MaterialKind::Iron, MaterialKind::Helium]);
    assert_eq!(kind_sort_index(MaterialKind::Iron), 0);
    assert_eq!(kind_sort_index(MaterialKind::Helium), 1);
    assert_eq!(baseline_credits_per_kt(MaterialKind::Iron), BASELINE_CREDITS_PER_KT_IRON);
    assert_eq!(baseline_credits_per_kt(MaterialKind::Helium), BASELINE_CREDITS_PER_KT_HELIUM);
    assert_eq!(BASELINE_CREDITS_PER_KT_IRON, 10);
    assert_eq!(BASELINE_CREDITS_PER_KT_HELIUM, 15);
}

#[test]
fn material_names_parse() {
    assert_eq!(parse_material_kind("Iron"), Some(MaterialKind::Iron));
    assert_eq!(parse_material_kind("Helium"), Some(MaterialKind::Helium));
    assert_eq!(parse_material_kind("iron"), None);
    assert_eq!(parse_material_kind("Iron "), None);
    assert_eq!(parse_material_kind(""), None);
    assert_eq!(parse_material_kind("Gold"), None);
}

#[test]
fn most_valuable_material_first() {
    assert_eq!(kinds_by_value_desc(), vec![MaterialKind::Helium, MaterialKind::Iron]);
}
