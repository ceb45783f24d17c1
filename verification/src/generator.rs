//! Star classification and planet counts drawn from point hashes.
//!
//! A 64-bit hash is read as a uniform draw: the type or count is picked by the first
//! cumulative-probability threshold (a fraction of `u64::MAX`) that the hash falls below.

use vstd::prelude::*;

verus! {

/// Spectral class of a star, coolest first.
#[derive(Clone, Copy, Debug, PartialEq, Eq, Structural)]
pub enum StarType {
    Red,
    Orange,
    Yellow,
    YellowWhite,
    White,
    BlueWhite,
    Blue,
    NeutronStar,
}

/// Position of a class in the coolest-first order.
pub open spec fn star_type_rank(t: StarType) -> int {
    match t {
        StarType::Red => 0,
        StarType::Orange => 1,
        StarType::Yellow => 2,
        StarType::YellowWhite => 3,
        StarType::White => 4,
        StarType::BlueWhite => 5,
        StarType::Blue => 6,
        StarType::NeutronStar => 7,
    }
}

/// `floor(u64::MAX * num / den)`: the threshold for cumulative probability `num / den`.
pub open spec fn fraction_of_max(num: int, den: int) -> int {
    18446744073709551615 * num / den
}

/// Cumulative thresholds for planet counts 1..=9 (5%, 15%, 40%, 70%, 85%, 93%, 96.5%,
/// 98.5%, 99.99%); any higher hash gives 10 planets.
pub open spec fn planet_count_threshold(i: int) -> int {
    if i == 0 {
        fraction_of_max(5, 100)
    } else if i == 1 {
        fraction_of_max(15, 100)
    } else if i == 2 {
        fraction_of_max(40, 100)
    } else if i == 3 {
        fraction_of_max(70, 100)
    } else if i == 4 {
        fraction_of_max(85, 100)
    } else if i == 5 {
        fraction_of_max(93, 100)
    } else if i == 6 {
        fraction_of_max(965, 1000)
    } else if i == 7 {
        fraction_of_max(985, 1000)
    } else {
        fraction_of_max(9999, 10000)
    }
}

/// Cumulative thresholds for the classes Red..=Blue (73%, 86%, 93%, 96%, 98%, 99.5%,
/// 99.999%); any higher hash is a neutron star.
pub open spec fn star_type_threshold(i: int) -> int {
    if i == 0 {
        fraction_of_max(73, 100)
    } else if i == 1 {
        fraction_of_max(86, 100)
    } else if i == 2 {
        fraction_of_max(93, 100)
    } else if i == 3 {
        fraction_of_max(96, 100)
    } else if i == 4 {
        fraction_of_max(98, 100)
    } else if i == 5 {
        fraction_of_max(995, 1000)
    } else {
        fraction_of_max(99999, 100000)
    }
}

fn planet_count_thresholds() -> (t: [u64; 9])
    ensures
        forall|i: int| 0 <= i < 9 ==> t@[i] == planet_count_threshold(i),
{
    let t: [u64; 9] = [
        922337203685477580,
        2767011611056432742,
        7378697629483820646,
        12912720851596686130,
        15679732462653118872,
        17155471988549883001,
        17801108031129717308,
        18170042912603908340,
        18444899399302180659,
    ];
    assert(forall|i: int| 0 <= i < 9 ==> t@[i] == planet_count_threshold(i)) by {
        assert(t@[0] == planet_count_threshold(0));
        assert(t@[1] == planet_count_threshold(1));
        assert(t@[2] == planet_count_threshold(2));
        assert(t@[3] == planet_count_threshold(3));
        assert(t@[4] == planet_count_threshold(4));
        assert(t@[5] == planet_count_threshold(5));
        assert(t@[6] == planet_count_threshold(6));
        assert(t@[7] == planet_count_threshold(7));
        assert(t@[8] == planet_count_threshold(8));
    }
    t
}

fn star_type_thresholds() -> (t: [u64; 7])
    ensures
        forall|i: int| 0 <= i < 7 ==> t@[i] == star_type_threshold(i),
{
    let t: [u64; 7] = [
        13466123173807972678,
        15864199903390214388,
        17155471988549883001,
        17708874310761169550,
        18077809192235360582,
        18354510353341003856,
        18446559606268814519,
    ];
    assert(forall|i: int| 0 <= i < 7 ==> t@[i] == star_type_threshold(i)) by {
        assert(t@[0] == star_type_threshold(0));
        assert(t@[1] == star_type_threshold(1));
        assert(t@[2] == star_type_threshold(2));
        assert(t@[3] == star_type_threshold(3));
        assert(t@[4] == star_type_threshold(4));
        assert(t@[5] == star_type_threshold(5));
        assert(t@[6] == star_type_threshold(6));
    }
    t
}

impl StarType {
    /// Class at position `i` of the coolest-first order; 7 and above are neutron stars.
    pub fn from_index(i: usize) -> (t: StarType)
        ensures
            star_type_rank(t) == (if i < 7 {
                i as int
            } else {
                7
            }),
    {
        match i {
            0 => StarType::Red,
            1 => StarType::Orange,
            2 => StarType::Yellow,
            3 => StarType::YellowWhite,
            4 => StarType::White,
            5 => StarType::BlueWhite,
            6 => StarType::Blue,
            _ => StarType::NeutronStar,
        }
    }
}

/// Number of planets (1..=10) for a system hash: one more than the number of thresholds
/// the hash is not below.
pub fn hash_to_planet_count(hash: u64) -> (n: u8)
    ensures
        1 <= n <= 10,
        forall|j: int| 0 <= j < n - 1 ==> planet_count_threshold(j) <= hash,
        n < 10 ==> hash < planet_count_threshold(n - 1),
{
    let t = planet_count_thresholds();
    let mut i: usize = 0;
    while i < 9
        invariant
            i <= 9,
            forall|k: int| 0 <= k < 9 ==> t@[k] == planet_count_threshold(k),
            forall|j: int| 0 <= j < i ==> planet_count_threshold(j) <= hash,
        decreases 9 - i,
    {
        if hash < t[i] {
            return (i + 1) as u8;
        }
        i = i + 1;
    }
    10
}

/// Spectral class for a star hash.
pub fn hash_to_star_type(hash: u64) -> (t: StarType)
    ensures
        forall|j: int| 0 <= j < star_type_rank(t) ==> star_type_threshold(j) <= hash,
        star_type_rank(t) < 7 ==> hash < star_type_threshold(star_type_rank(t)),
{
    let th = star_type_thresholds();
    let mut i: usize = 0;
    while i < 7
        invariant
            i <= 7,
            forall|k: int| 0 <= k < 7 ==> th@[k] == star_type_threshold(k),
            forall|j: int| 0 <= j < i ==> star_type_threshold(j) <= hash,
        decreases 7 - i,
    {
        if hash < th[i] {
            return StarType::from_index(i);
        }
        i = i + 1;
    }
    StarType::NeutronStar
}

/// The planet-count thresholds rise strictly, so every count has a non-empty band.
pub proof fn lemma_planet_count_thresholds_increase(i: int, j: int)
    requires
        0 <= i < j < 9,
    ensures
        planet_count_threshold(i) < planet_count_threshold(j),
{
}

/// The class thresholds rise strictly, so every class has a non-empty band.
pub proof fn lemma_star_type_thresholds_increase(i: int, j: int)
    requires
        0 <= i < j < 7,
    ensures
        star_type_threshold(i) < star_type_threshold(j),
{
}

} // verus!
