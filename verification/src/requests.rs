//! Decisions behind the game server's requests: who is asking, whether a building may
//! be built, upgraded or used as a dock, who starts a fight on arrival, how teams are
//! formed and how a fought battle is reported.

use vstd::prelude::*;
use argon2::{PasswordHasher, PasswordVerifier};
use vstd::string::StringExecFns;
use crate::battle::{CombatStats, CombatantData, CombatantId, CombatantResult};
use crate::buildings::{
    building_has_health, building_has_owner, get_required_mass, required_mass_kt, BuildingKind,
    GARRISON_SPEED_RANK,
};
use crate::ships::ShipAttackMode;
use crate::text::{chars_of, push_char};

verus! {

// ---------------------------------------------------------------------------
// Identity
// ---------------------------------------------------------------------------

/// Lowercase hexadecimal digit for `d` in `0..16`.
pub open spec fn hex_digit(d: int) -> char {
    if d < 10 {
        (d + 48) as char
    } else {
        (d - 10 + 97) as char
    }
}

/// The `k`-th of the 32 hexadecimal digits of `v`, most significant first.
pub open spec fn hex_nibble(v: u128, k: int) -> int {
    (v as int / vstd::arithmetic::power2::pow2((4 * (31 - k)) as nat) as int) % 16
}

/// Digits of the hyphenated form that come before position `i`.
pub open spec fn hyphens_before(i: int) -> int {
    if i < 8 {
        0
    } else if i < 13 {
        1
    } else if i < 18 {
        2
    } else if i < 23 {
        3
    } else {
        4
    }
}

/// The hyphenated lowercase text of a UUID with value `v`: its 32 hexadecimal digits,
/// most significant first, in groups of 8, 4, 4, 4 and 12 joined by `-`.
pub open spec fn uuid_hyphenated(v: u128) -> Seq<char> {
    Seq::new(
        36,
        |i: int|
            if i == 8 || i == 13 || i == 18 || i == 23 {
                '-'
            } else {
                hex_digit(hex_nibble(v, i - hyphens_before(i)))
            },
    )
}

/// The 128-bit value of the UUID that `uuid::Uuid::parse_str` reads from a text, or
/// `None` when it rejects the text.
pub uninterp spec fn uuid_from_text(s: Seq<char>) -> Option<u128>;

/// Calls `uuid::Uuid::parse_str` and keeps the UUID's 128-bit value. The contract claims
/// that the result is a function of the text ([`uuid_from_text`]) and that the
/// hyphenated lowercase text of a value reads back as that value (the crate parses
/// hyphenated digits in the order its `Display` writes them); which other texts it
/// accepts (simple, braced, URN or uppercase forms) is not stated.
#[verifier::external_body]
fn uuid_parse_str(s: &str) -> (r: Option<u128>)
    ensures
        r == uuid_from_text(s@),
        forall|v: u128| s@ == #[trigger] uuid_hyphenated(v) ==> r == Some(v),
{
    match uuid::Uuid::parse_str(s) {
        Ok(u) => Some(u.as_u128()),
        Err(_) => None,
    }
}

/// Calls `Display` of `uuid::Uuid` (through `to_string`) on the UUID with value `v`: it
/// writes the hyphenated lowercase form ([`uuid_hyphenated`]).
#[verifier::external_body]
fn uuid_text(v: u128) -> (s: String)
    ensures
        s@ == uuid_hyphenated(v),
{
    uuid::Uuid::from_u128(v).to_string()
}

/// The player id carried in a token's subject, if it is a UUID; the subject written for
/// a player reads back as that player.
pub fn parse_owner_id(sub: &str) -> (r: Option<u128>)
    ensures
        r == uuid_from_text(sub@),
        forall|v: u128| sub@ == #[trigger] uuid_hyphenated(v) ==> r == Some(v),
{
    uuid_parse_str(sub)
}

/// The token subject that names a player: the hyphenated text of its id.
pub fn owner_subject(owner: u128) -> (s: String)
    ensures
        s@ == uuid_hyphenated(owner),
{
    uuid_text(owner)
}

/// Whether a token subject is exactly the subject that names `owner`.
pub fn subject_names_owner(sub: &str, owner: u128) -> (b: bool)
    ensures
        b == (sub@ == uuid_hyphenated(owner)),
{
    let named = uuid_text(owner);
    let given = sub.to_owned();
    given == named
}

/// Whether `argon2::PasswordHash::new` reads a stored text as a PHC string.
pub uninterp spec fn phc_string_parses(hash: Seq<char>) -> bool;

/// Whether `Argon2::default().verify_password` accepts the password against the parsed
/// PHC string.
pub uninterp spec fn argon2_accepts(password: Seq<char>, hash: Seq<char>) -> bool;

/// Calls `argon2::PasswordHash::new`, which parses a PHC string (`$id$...$salt$hash`).
/// The contract names the outcome ([`phc_string_parses`]), a function of the text;
/// which texts parse is not stated.
#[verifier::external_body]
fn phc_parses(hash: &str) -> (b: bool)
    ensures
        b == phc_string_parses(hash@),
{
    argon2::PasswordHash::new(hash).is_ok()
}

/// Calls `Argon2::default().verify_password` with the password's UTF-8 bytes and the
/// parsed PHC string; it hashes the password again with the string's algorithm, version,
/// parameters and salt and compares the outputs. The contract names the outcome
/// ([`argon2_accepts`]), a function of the two texts; which passwords match is not
/// stated.
#[verifier::external_body]
fn argon2_verify(password: &str, hash: &str) -> (b: bool)
    requires
        phc_string_parses(hash@),
    ensures
        b == argon2_accepts(password@, hash@),
{
    match argon2::PasswordHash::new(hash) {
        Ok(parsed) => argon2::Argon2::default().verify_password(password.as_bytes(), &parsed).is_ok(),
        Err(_) => false,
    }
}

/// The PHC string that `Argon2::default().hash_password` makes of a password with a
/// base64 salt, or `None` when the salt or the hashing is refused.
pub uninterp spec fn argon2_hash_of(password: Seq<char>, salt: Seq<char>) -> Option<Seq<char>>;

/// Calls `argon2::password_hash::SaltString::from_b64` on the salt and then
/// `Argon2::default().hash_password` with the password's UTF-8 bytes, and writes the
/// hash as a PHC string. The contract names the outcome ([`argon2_hash_of`]), a function
/// of the two texts, and claims what the crate's source shows of a hash it made: the
/// string parses, and verifying the same password against it succeeds (it is hashed
/// again with the same algorithm, version, parameters and salt). Which salts are
/// accepted and what the hash is are not stated.
#[verifier::external_body]
fn argon2_hash(password: &str, salt: &str) -> (r: Option<String>)
    ensures
        r matches Some(h) ==> argon2_hash_of(password@, salt@) == Some(h@) && phc_string_parses(
            h@,
        ) && argon2_accepts(password@, h@),
        r is None ==> argon2_hash_of(password@, salt@) is None,
{
    match argon2::password_hash::SaltString::from_b64(salt) {
        Ok(s) => match argon2::Argon2::default().hash_password(password.as_bytes(), &s) {
            Ok(h) => Some(h.to_string()),
            Err(_) => None,
        },
        Err(_) => None,
    }
}

/// The stored hash of a new account's password with the given base64 salt; a hash it
/// returns passes [`check_password`] with the same password.
pub fn hash_new_password(password: &str, salt: &str) -> (r: Option<String>)
    ensures
        r is Some <==> argon2_hash_of(password@, salt@) is Some,
        r matches Some(h) ==> argon2_hash_of(password@, salt@) == Some(h@) && phc_string_parses(
            h@,
        ) && argon2_accepts(password@, h@),
{
    argon2_hash(password, salt)
}

/// Why a password check refuses a login.
#[derive(Clone, Copy, Debug, PartialEq, Eq, Structural)]
pub enum LoginRefusal {
    /// The stored hash is not a PHC string.
    MalformedHash,
    /// The password does not match the stored hash.
    WrongPassword,
}

/// The answer to a password check from whether the stored hash parsed and whether the
/// password matched it.
pub fn password_outcome(hash_parses: bool, accepted: bool) -> (r: Result<(), LoginRefusal>)
    ensures
        !hash_parses ==> r == Err::<(), LoginRefusal>(LoginRefusal::MalformedHash),
        hash_parses && accepted ==> r is Ok,
        hash_parses && !accepted ==> r == Err::<(), LoginRefusal>(LoginRefusal::WrongPassword),
{
    if !hash_parses {
        Err(LoginRefusal::MalformedHash)
    } else if accepted {
        Ok(())
    } else {
        Err(LoginRefusal::WrongPassword)
    }
}

/// Checks a password against a stored Argon2 PHC string: a string that does not parse is
/// malformed; otherwise the login passes exactly when Argon2 accepts the password.
pub fn check_password(password: &str, stored_hash: &str) -> (r: Result<(), LoginRefusal>)
    ensures
        !phc_string_parses(stored_hash@) ==> r == Err::<(), LoginRefusal>(
            LoginRefusal::MalformedHash,
        ),
        phc_string_parses(stored_hash@) && argon2_accepts(password@, stored_hash@) ==> r is Ok,
        phc_string_parses(stored_hash@) && !argon2_accepts(password@, stored_hash@) ==> r
            == Err::<(), LoginRefusal>(LoginRefusal::WrongPassword),
{
    if !phc_parses(stored_hash) {
        return password_outcome(false, false);
    }
    let accepted = argon2_verify(password, stored_hash);
    password_outcome(true, accepted)
}

/// The scheme prefix of an `Authorization` header that carries a token.
pub open spec fn bearer_prefix() -> Seq<char> {
    seq!['B', 'e', 'a', 'r', 'e', 'r', ' ']
}

/// The token of a `Bearer` authorization header: the text after `"Bearer "`, or `None`
/// when the header has another form.
pub fn bearer_token(header: &str) -> (r: Option<String>)
    ensures
        header@.len() >= 7 && header@.take(7) == bearer_prefix() ==> (r matches Some(t) && t@
            == header@.skip(7)),
        !(header@.len() >= 7 && header@.take(7) == bearer_prefix()) ==> r is None,
{
    let v = chars_of(header);
    let prefix: [char; 7] = ['B', 'e', 'a', 'r', 'e', 'r', ' '];
    assert(prefix@ =~= bearer_prefix());
    if v.len() < 7 {
        return None;
    }
    let mut i: usize = 0;
    while i < 7
        invariant
            i <= 7 <= v@.len(),
            v@ == header@,
            prefix@ == bearer_prefix(),
            forall|j: int| 0 <= j < i ==> v@[j] == prefix@[j],
        decreases 7 - i,
    {
        if v[i] != prefix[i] {
            assert(header@.take(7)[i as int] != bearer_prefix()[i as int]);
            return None;
        }
        i = i + 1;
    }
    assert(header@.take(7) =~= bearer_prefix());
    let mut token = String::new();
    let mut k: usize = 7;
    while k < v.len()
        invariant
            7 <= k <= v@.len(),
            v@ == header@,
            token@ =~= header@.subrange(7, k as int),
        decreases v@.len() - k,
    {
        push_char(&mut token, v[k]);
        k = k + 1;
    }
    assert(header@.subrange(7, v@.len() as int) =~= header@.skip(7));
    Some(token)
}

/// The claims of a session token.
pub struct Claims {
    pub sub: String,
    pub username: String,
    pub exp: usize,
    pub iat: usize,
}

/// Claims for a user: subject its id, issued at `now`, expiring `ttl_secs` later.
pub fn default_claims(user_id: u128, username: String, now: usize, ttl_secs: usize) -> (c: Claims)
    requires
        now + ttl_secs <= usize::MAX,
    ensures
        c.sub@ == uuid_hyphenated(user_id),
        c.username == username,
        c.iat == now,
        c.exp == now + ttl_secs,
{
    Claims { sub: owner_subject(user_id), username, iat: now, exp: now + ttl_secs }
}

/// Lifetime of a login session, in seconds.
pub const SESSION_TTL_SECS: usize = 3600;

/// The answer to a successful login: the token, of type `Bearer`.
pub struct AuthResponse {
    pub access_token: String,
    pub token_type: String,
}

/// Wraps a freshly signed token in a login answer.
pub fn bearer_response(access_token: String) -> (r: AuthResponse)
    ensures
        r.access_token == access_token,
        r.token_type@ == "Bearer"@,
{
    AuthResponse { access_token, token_type: <String as StringExecFns>::from_str("Bearer") }
}

// ---------------------------------------------------------------------------
// Presence and arrival
// ---------------------------------------------------------------------------

/// A player holds presence in a system while one of its ships is there (not warping) or
/// it owns a Radar there.
pub fn presence_granted(has_ship: bool, has_radar: bool) -> (b: bool)
    ensures
        b == (has_ship || has_radar),
{
    has_ship || has_radar
}

/// Who starts a battle when a ship arrives: its owner when the ship strikes first, or
/// when an enemy there strikes first; otherwise nobody fights.
pub fn arrival_initiator(mode: ShipAttackMode, owner: u128, enemy_strikes_first: bool) -> (r:
    Option<u128>)
    ensures
        r == (if mode == ShipAttackMode::StrikeFirst || enemy_strikes_first {
            Some(owner)
        } else {
            None::<u128>
        }),
{
    if mode == ShipAttackMode::StrikeFirst {
        Some(owner)
    } else if enemy_strikes_first {
        Some(owner)
    } else {
        None
    }
}

// ---------------------------------------------------------------------------
// Building construction and upgrades
// ---------------------------------------------------------------------------

/// A building as stored.
#[derive(Clone, Copy, Debug, PartialEq, Eq, Structural)]
pub struct BuildingRecord {
    pub id: i64,
    pub star_x: i32,
    pub star_y: i32,
    pub planet_index: i16,
    pub slot_index: i16,
    pub kind: BuildingKind,
    pub level: i32,
    pub owner_id: Option<u128>,
    pub health: i32,
}

/// A request to build on a planet slot.
#[derive(Clone, Copy, Debug, PartialEq, Eq, Structural)]
pub struct BuildingRequest {
    pub star_x: i32,
    pub star_y: i32,
    pub planet_index: i16,
    pub slot_index: i16,
    pub kind: BuildingKind,
    pub level: i32,
}

/// A request to raise an existing building's level; the location and kind must match
/// the building.
#[derive(Clone, Copy, Debug, PartialEq, Eq, Structural)]
pub struct UpgradeRequest {
    pub star_x: i32,
    pub star_y: i32,
    pub planet_index: i16,
    pub slot_index: i16,
    pub kind: BuildingKind,
    pub level: i32,
}

/// Why a build request is turned down.
#[derive(Clone, Copy, Debug, PartialEq, Eq, Structural)]
pub enum BuildRefusal {
    /// The player has no presence in the system.
    NoPresence,
    /// The slot query answered; the slot counts as taken.
    SlotTaken,
    /// No present ship reaches the required mass (kt).
    InsufficientMass { required_kt: u32 },
    /// The player cannot pay.
    InsufficientCredits { need: i64, have: i64 },
}

/// Why an upgrade request is turned down.
#[derive(Clone, Copy, Debug, PartialEq, Eq, Structural)]
pub enum UpgradeRefusal {
    NotYourBuilding,
    MismatchedBuilding,
    LevelNotHigher,
    NoPresence,
    EnemyGarrison,
    InsufficientMass { required_kt: u32 },
    InsufficientCredits { need: i64, have: i64 },
}

/// What a granted build writes.
#[derive(Clone, Copy, Debug, PartialEq, Eq, Structural)]
pub struct BuildPlan {
    pub cost: i64,
    pub health: i32,
    pub owner_id: Option<u128>,
}

/// What a granted upgrade writes.
#[derive(Clone, Copy, Debug, PartialEq, Eq, Structural)]
pub struct UpgradePlan {
    pub cost: i64,
    pub health: i32,
}

/// Site checks for a build, in order: presence, the slot, then the heaviest present
/// ship (in whole kt) against the level's mass requirement.
pub fn check_build_site(
    is_present: bool,
    slot_answer: Option<bool>,
    heaviest_kt: Option<i64>,
    level: i32,
) -> (r: Result<(), BuildRefusal>)
    ensures
        !is_present ==> r == Err::<(), BuildRefusal>(BuildRefusal::NoPresence),
        is_present && slot_answer is Some ==> r == Err::<(), BuildRefusal>(
            BuildRefusal::SlotTaken,
        ),
        is_present && slot_answer is None && match heaviest_kt {
            Some(m) => m >= required_mass_kt(level as int),
            None => false,
        } ==> r is Ok,
        is_present && slot_answer is None && !match heaviest_kt {
            Some(m) => m >= required_mass_kt(level as int),
            None => false,
        } ==> r == Err::<(), BuildRefusal>(
            BuildRefusal::InsufficientMass { required_kt: required_mass_kt(level as int) as u32 },
        ),
{
    if !is_present {
        return Err(BuildRefusal::NoPresence);
    }
    if slot_answer.is_some() {
        return Err(BuildRefusal::SlotTaken);
    }
    let required = get_required_mass(level);
    match heaviest_kt {
        Some(m) => {
            if m >= required as i64 {
                Ok(())
            } else {
                Err(BuildRefusal::InsufficientMass { required_kt: required })
            }
        },
        None => Err(BuildRefusal::InsufficientMass { required_kt: required }),
    }
}

/// Hit points of a freshly built building: 100 per level for kinds with health,
/// otherwise 100.
pub open spec fn new_building_health(kind: BuildingKind, level: int) -> int {
    if kind == BuildingKind::MilitaryGarrison {
        100 * level
    } else {
        100
    }
}

/// The payment and the row of a build once the site checks passed: refused when the
/// credits do not cover the cost; owned by the builder only for owned kinds.
pub fn plan_build(req: &BuildingRequest, owner: u128, cost: i64, credits: i64) -> (r: Result<
    BuildPlan,
    BuildRefusal,
>)
    requires
        req.kind == BuildingKind::MilitaryGarrison ==> i32::MIN <= 100 * req.level <= i32::MAX,
    ensures
        credits < cost ==> r == Err::<BuildPlan, BuildRefusal>(
            BuildRefusal::InsufficientCredits { need: cost, have: credits },
        ),
        credits >= cost ==> (r matches Ok(plan) && plan.cost == cost && plan.health
            == new_building_health(req.kind, req.level as int) && plan.owner_id == (if req.kind
            == BuildingKind::MilitaryGarrison || req.kind == BuildingKind::Radar || req.kind
            == BuildingKind::SalesDepot {
            Some(owner)
        } else {
            None::<u128>
        })),
        credits >= cost && req.kind == BuildingKind::MilitaryGarrison ==> (r matches Ok(plan)
            && plan.health == 100 * req.level),
        credits >= cost && req.kind != BuildingKind::MilitaryGarrison ==> (r matches Ok(plan)
            && plan.health == 100),
{
    if credits < cost {
        return Err(BuildRefusal::InsufficientCredits { need: cost, have: credits });
    }
    let health: i32 = if building_has_health(&req.kind) {
        100 * req.level
    } else {
        100
    };
    let owner_id = if building_has_owner(&req.kind) {
        Some(owner)
    } else {
        None
    };
    Ok(BuildPlan { cost, health, owner_id })
}

/// Checks made on the stored building before anything else: ownership, that the
/// request names the same building, and that the level rises.
pub fn check_upgrade_request(existing: &BuildingRecord, req: &UpgradeRequest, owner: u128) -> (r:
    Result<(), UpgradeRefusal>)
    ensures
        existing.owner_id != Some(owner) ==> r == Err::<(), UpgradeRefusal>(
            UpgradeRefusal::NotYourBuilding,
        ),
        existing.owner_id == Some(owner) && (existing.star_x != req.star_x || existing.star_y
            != req.star_y || existing.planet_index != req.planet_index || existing.slot_index
            != req.slot_index || existing.kind != req.kind) ==> r == Err::<(), UpgradeRefusal>(
            UpgradeRefusal::MismatchedBuilding,
        ),
        existing.owner_id == Some(owner) && existing.star_x == req.star_x && existing.star_y
            == req.star_y && existing.planet_index == req.planet_index && existing.slot_index
            == req.slot_index && existing.kind == req.kind ==> (r is Ok <==> req.level
            > existing.level) && (r is Err ==> r == Err::<(), UpgradeRefusal>(
            UpgradeRefusal::LevelNotHigher,
        )),
{
    if existing.owner_id != Some(owner) {
        return Err(UpgradeRefusal::NotYourBuilding);
    }
    if existing.star_x != req.star_x || existing.star_y != req.star_y || existing.planet_index
        != req.planet_index || existing.slot_index != req.slot_index || existing.kind != req.kind {
        return Err(UpgradeRefusal::MismatchedBuilding);
    }
    if req.level <= existing.level {
        return Err(UpgradeRefusal::LevelNotHigher);
    }
    Ok(())
}

/// Site checks for an upgrade, in order: presence, an enemy garrison in the system, then
/// the heaviest present ship (whole kt, none counting as 0) against the new level.
pub fn check_upgrade_site(
    is_present: bool,
    enemy_garrison: Option<u128>,
    heaviest_kt: Option<i64>,
    level: i32,
) -> (r: Result<(), UpgradeRefusal>)
    ensures
        !is_present ==> r == Err::<(), UpgradeRefusal>(UpgradeRefusal::NoPresence),
        is_present && enemy_garrison is Some ==> r == Err::<(), UpgradeRefusal>(
            UpgradeRefusal::EnemyGarrison,
        ),
        is_present && enemy_garrison is None && match heaviest_kt {
            Some(m) => m >= required_mass_kt(level as int),
            None => 0 >= required_mass_kt(level as int),
        } ==> r is Ok,
        is_present && enemy_garrison is None && !match heaviest_kt {
            Some(m) => m >= required_mass_kt(level as int),
            None => 0 >= required_mass_kt(level as int),
        } ==> r == Err::<(), UpgradeRefusal>(
            UpgradeRefusal::InsufficientMass { required_kt: required_mass_kt(level as int) as u32 },
        ),
{
    if !is_present {
        return Err(UpgradeRefusal::NoPresence);
    }
    if enemy_garrison.is_some() {
        return Err(UpgradeRefusal::EnemyGarrison);
    }
    let required = get_required_mass(level);
    let heaviest: i64 = match heaviest_kt {
        Some(m) => m,
        None => 0,
    };
    if heaviest < required as i64 {
        Err(UpgradeRefusal::InsufficientMass { required_kt: required })
    } else {
        Ok(())
    }
}

/// The payment and new hit points of an upgrade: the price difference between the new
/// and the current level, refused when the credits do not cover it; kinds with health
/// get 100 per new level, others keep their hit points.
pub fn plan_upgrade(
    existing: &BuildingRecord,
    req: &UpgradeRequest,
    current_cost: i64,
    new_cost: i64,
    credits: i64,
) -> (r: Result<UpgradePlan, UpgradeRefusal>)
    requires
        i64::MIN <= new_cost - current_cost <= i64::MAX,
        req.kind == BuildingKind::MilitaryGarrison ==> i32::MIN <= 100 * req.level <= i32::MAX,
    ensures
        credits < new_cost - current_cost ==> r == Err::<UpgradePlan, UpgradeRefusal>(
            UpgradeRefusal::InsufficientCredits { need: (new_cost - current_cost) as i64, have: credits },
        ),
        credits >= new_cost - current_cost ==> (r matches Ok(plan) && plan.cost == new_cost
            - current_cost && plan.health == (if req.kind == BuildingKind::MilitaryGarrison {
            100 * req.level
        } else {
            existing.health as int
        })),
{
    let incremental_cost: i64 = new_cost - current_cost;
    if credits < incremental_cost {
        return Err(UpgradeRefusal::InsufficientCredits { need: incremental_cost, have: credits });
    }
    let health: i32 = if building_has_health(&req.kind) {
        100 * req.level
    } else {
        existing.health
    };
    Ok(UpgradePlan { cost: incremental_cost, health })
}

// ---------------------------------------------------------------------------
// Warping and attack modes
// ---------------------------------------------------------------------------

/// Why a ship cannot start a warp.
#[derive(Clone, Copy, Debug, PartialEq, Eq, Structural)]
pub enum WarpRefusal {
    NotYourShip,
    AlreadyWarping,
    Docked,
    Recharging,
}

/// Checks on the ship before the target is looked at, in order: ownership, not already
/// warping, not docked, jump drive recharged.
pub fn check_warp_start(owned: bool, warping: bool, docked: bool, recharging: bool) -> (r: Result<
    (),
    WarpRefusal,
>)
    ensures
        !owned ==> r == Err::<(), WarpRefusal>(WarpRefusal::NotYourShip),
        owned && warping ==> r == Err::<(), WarpRefusal>(WarpRefusal::AlreadyWarping),
        owned && !warping && docked ==> r == Err::<(), WarpRefusal>(WarpRefusal::Docked),
        owned && !warping && !docked && recharging ==> r == Err::<(), WarpRefusal>(
            WarpRefusal::Recharging,
        ),
        owned && !warping && !docked && !recharging ==> r is Ok,
{
    if !owned {
        return Err(WarpRefusal::NotYourShip);
    }
    if warping {
        return Err(WarpRefusal::AlreadyWarping);
    }
    if docked {
        return Err(WarpRefusal::Docked);
    }
    if recharging {
        return Err(WarpRefusal::Recharging);
    }
    Ok(())
}

/// A request to change a ship's or garrison's stance.
#[derive(Clone, Copy, Debug, PartialEq, Eq, Structural)]
pub struct SetAttackModeRequest {
    pub mode: ShipAttackMode,
}

/// Only military garrisons among buildings take a stance.
pub fn building_takes_attack_mode(kind: BuildingKind) -> (b: bool)
    ensures
        b == (kind == BuildingKind::MilitaryGarrison),
{
    kind == BuildingKind::MilitaryGarrison
}

// ---------------------------------------------------------------------------
// Docking
// ---------------------------------------------------------------------------

/// Why a ship cannot dock.
#[derive(Clone, Copy, Debug, PartialEq, Eq, Structural)]
pub enum DockRefusal {
    ShipWarping,
    NotInSystem,
    NotShipDepot,
    DepotFull,
}

/// A request to dock at the building on a planet slot.
#[derive(Clone, Copy, Debug, PartialEq, Eq, Structural)]
pub struct DockRequest {
    pub star_x: i32,
    pub star_y: i32,
    pub planet_index: i16,
    pub slot_index: i16,
}

/// Checks on the ship before the depot is looked up: it is not warping and it is in the
/// requested system.
pub fn check_dock_ship(warping: bool, ship_x: i32, ship_y: i32, req: &DockRequest) -> (r: Result<
    (),
    DockRefusal,
>)
    ensures
        warping ==> r == Err::<(), DockRefusal>(DockRefusal::ShipWarping),
        !warping && (ship_x != req.star_x || ship_y != req.star_y) ==> r == Err::<(), DockRefusal>(
            DockRefusal::NotInSystem,
        ),
        !warping && ship_x == req.star_x && ship_y == req.star_y ==> r is Ok,
{
    if warping {
        return Err(DockRefusal::ShipWarping);
    }
    if ship_x != req.star_x || ship_y != req.star_y {
        return Err(DockRefusal::NotInSystem);
    }
    Ok(())
}

/// Checks on the building: it is a Ship Depot with room left for the ship's size.
pub fn check_depot_space(kind: BuildingKind, used_kt: u32, ship_size_kt: u32, capacity_kt: u32) -> (r:
    Result<(), DockRefusal>)
    requires
        kind == BuildingKind::ShipDepot ==> used_kt + ship_size_kt <= u32::MAX,
    ensures
        kind != BuildingKind::ShipDepot ==> r == Err::<(), DockRefusal>(DockRefusal::NotShipDepot),
        kind == BuildingKind::ShipDepot ==> (r is Ok <==> used_kt + ship_size_kt <= capacity_kt),
        kind == BuildingKind::ShipDepot && r is Err ==> r == Err::<(), DockRefusal>(
            DockRefusal::DepotFull,
        ),
{
    if kind != BuildingKind::ShipDepot {
        return Err(DockRefusal::NotShipDepot);
    }
    if used_kt + ship_size_kt > capacity_kt {
        return Err(DockRefusal::DepotFull);
    }
    Ok(())
}

// ---------------------------------------------------------------------------
// Fighting a battle in a system
// ---------------------------------------------------------------------------

/// A ship in the system, with its owner and combat stats.
#[derive(Clone, Copy, Debug, PartialEq, Eq, Structural)]
pub struct ShipEntry {
    pub id: i64,
    pub owner: u128,
    pub stats: CombatStats,
    pub health: i32,
}

/// A garrison in the system; garrisons without an owner stay out of battles.
#[derive(Clone, Copy, Debug, PartialEq, Eq, Structural)]
pub struct GarrisonEntry {
    pub id: i64,
    pub owner: Option<u128>,
    pub level: i32,
}

/// The combatant for a ship (its stored health read as `u32`).
pub open spec fn ship_combatant(s: ShipEntry) -> CombatantData {
    CombatantData { id: CombatantId::Ship(s.id), stats: s.stats, health: s.health as u32 }
}

/// The combatant for a garrison, from its level.
pub open spec fn garrison_combatant(g: GarrisonEntry) -> CombatantData {
    CombatantData {
        id: CombatantId::Garrison(g.id),
        stats: CombatStats {
            attack: (10 * g.level) as u32,
            defense: (50 * g.level) as u32,
            speed_rank: GARRISON_SPEED_RANK,
        },
        health: (50 * g.level) as u32,
    }
}

/// Ships among the first `n` that are on the initiator's side (`mine`) or not.
pub open spec fn ships_on_side(ships: Seq<ShipEntry>, initiator: u128, mine: bool, n: int) -> Seq<
    CombatantData,
>
    decreases n,
{
    if n <= 0 {
        Seq::empty()
    } else {
        let prev = ships_on_side(ships, initiator, mine, n - 1);
        if (ships[n - 1].owner == initiator) == mine {
            prev.push(ship_combatant(ships[n - 1]))
        } else {
            prev
        }
    }
}

/// Owned garrisons among the first `n` that are on the initiator's side (`mine`) or not.
pub open spec fn garrisons_on_side(
    garrisons: Seq<GarrisonEntry>,
    initiator: u128,
    mine: bool,
    n: int,
) -> Seq<CombatantData>
    decreases n,
{
    if n <= 0 {
        Seq::empty()
    } else {
        let prev = garrisons_on_side(garrisons, initiator, mine, n - 1);
        match garrisons[n - 1].owner {
            Some(o) => if (o == initiator) == mine {
                prev.push(garrison_combatant(garrisons[n - 1]))
            } else {
                prev
            },
            None => prev,
        }
    }
}

/// A team: its ships in order, then its garrisons in order.
pub open spec fn side(
    ships: Seq<ShipEntry>,
    garrisons: Seq<GarrisonEntry>,
    initiator: u128,
    mine: bool,
) -> Seq<CombatantData> {
    ships_on_side(ships, initiator, mine, ships.len() as int) + garrisons_on_side(
        garrisons,
        initiator,
        mine,
        garrisons.len() as int,
    )
}

/// Splits the system's ships and owned garrisons into the initiator's team and the
/// defenders' team.
pub fn form_teams(ships: &[ShipEntry], garrisons: &[GarrisonEntry], initiator: u128) -> (r: (
    Vec<CombatantData>,
    Vec<CombatantData>,
))
    requires
        forall|i: int|
            0 <= i < garrisons@.len() && (#[trigger] garrisons@[i]).owner is Some ==> 0
                <= garrisons@[i].level && garrisons@[i].level * 100 <= u32::MAX,
    ensures
        r.0@ == side(ships@, garrisons@, initiator, true),
        r.1@ == side(ships@, garrisons@, initiator, false),
{
    let mut mine: Vec<CombatantData> = Vec::new();
    let mut theirs: Vec<CombatantData> = Vec::new();
    let mut i: usize = 0;
    while i < ships.len()
        invariant
            i <= ships@.len(),
            mine@ == ships_on_side(ships@, initiator, true, i as int),
            theirs@ == ships_on_side(ships@, initiator, false, i as int),
        decreases ships@.len() - i,
    {
        let s = ships[i];
        let c = CombatantData::from_ship(s.id, s.stats, s.health as u32);
        if s.owner == initiator {
            mine.push(c);
        } else {
            theirs.push(c);
        }
        i = i + 1;
    }
    let ghost ship_mine = mine@;
    let ghost ship_theirs = theirs@;
    let mut g_mine: Vec<CombatantData> = Vec::new();
    let mut g_theirs: Vec<CombatantData> = Vec::new();
    let mut j: usize = 0;
    while j < garrisons.len()
        invariant
            j <= garrisons@.len(),
            forall|k: int|
                0 <= k < garrisons@.len() && (#[trigger] garrisons@[k]).owner is Some ==> 0
                    <= garrisons@[k].level && garrisons@[k].level * 100 <= u32::MAX,
            g_mine@ == garrisons_on_side(garrisons@, initiator, true, j as int),
            g_theirs@ == garrisons_on_side(garrisons@, initiator, false, j as int),
        decreases garrisons@.len() - j,
    {
        let g = garrisons[j];
        match g.owner {
            Some(owner) => {
                assert(garrisons@[j as int] == g);
                let c = CombatantData::from_garrison(g.id, g.level);
                assert(c == garrison_combatant(g));
                if owner == initiator {
                    g_mine.push(c);
                } else {
                    g_theirs.push(c);
                }
            },
            None => {},
        }
        j = j + 1;
    }
    let mut k: usize = 0;
    let ghost gm = g_mine@;
    while k < g_mine.len()
        invariant
            k <= gm.len(),
            g_mine@ == gm,
            mine@ == ship_mine + gm.take(k as int),
        decreases gm.len() - k,
    {
        mine.push(g_mine[k]);
        assert(gm.take(k + 1) =~= gm.take(k as int).push(gm[k as int]));
        k = k + 1;
    }
    assert(gm.take(gm.len() as int) =~= gm);
    let mut m: usize = 0;
    let ghost gt = g_theirs@;
    while m < g_theirs.len()
        invariant
            m <= gt.len(),
            g_theirs@ == gt,
            theirs@ == ship_theirs + gt.take(m as int),
        decreases gt.len() - m,
    {
        theirs.push(g_theirs[m]);
        assert(gt.take(m + 1) =~= gt.take(m as int).push(gt[m as int]));
        m = m + 1;
    }
    assert(gt.take(gt.len() as int) =~= gt);
    (mine, theirs)
}

/// Health left after a battle's damage is written back: the stored health minus the
/// damage (read as `i32`); the combatant is destroyed when nothing is left.
pub fn health_after_hit(current: i32, damage: u32) -> (r: (i32, bool))
    requires
        i32::MIN <= current - (damage as i32) <= i32::MAX,
    ensures
        r.0 == current - (damage as i32),
        r.1 == (r.0 <= 0),
{
    let new_health: i32 = current - damage as i32;
    (new_health, !(new_health > 0))
}

/// One damage record written back to storage, and whether it destroyed the combatant.
#[derive(Clone, Copy, Debug, PartialEq, Eq, Structural)]
pub struct Hit {
    pub result: CombatantResult,
    pub destroyed: bool,
}

/// Summary of a fought battle.
pub struct BattleExecutionResult {
    pub initiator_damage: u32,
    pub defender_damage: u32,
    pub initiator_dead: bool,
    pub defender_dead: bool,
    pub winner: String,
}

/// The answer to a battle request.
pub struct BattleResponse {
    pub result: BattleExecutionResult,
}

/// The id belongs to a member of the team.
pub open spec fn in_team(team: Seq<CombatantData>, id: CombatantId) -> bool {
    exists|j: int| 0 <= j < team.len() && (#[trigger] team[j]).id == id
}

/// Damage recorded in the first `n` hits on members (`ours`) or non-members of the team.
pub open spec fn damage_on(team: Seq<CombatantData>, hits: Seq<Hit>, ours: bool, n: int) -> int
    decreases n,
{
    if n <= 0 {
        0
    } else {
        damage_on(team, hits, ours, n - 1) + if in_team(team, hits[n - 1].result.id) == ours {
            hits[n - 1].result.damage_taken as int
        } else {
            0
        }
    }
}

/// Some hit destroyed a member (`ours`) or a non-member of the team.
pub open spec fn lost_one(team: Seq<CombatantData>, hits: Seq<Hit>, ours: bool) -> bool {
    exists|i: int|
        0 <= i < hits.len() && (#[trigger] hits[i]).destroyed && in_team(team, hits[i].result.id)
            == ours
}

/// The winner's label: the side that lost nobody while the other lost someone.
pub open spec fn winner_label(initiator_dead: bool, defender_dead: bool) -> Seq<char> {
    if initiator_dead && !defender_dead {
        "defenders"@
    } else if defender_dead && !initiator_dead {
        "initiator"@
    } else {
        "stalemate"@
    }
}

fn team_has(team: &[CombatantData], id: CombatantId) -> (b: bool)
    ensures
        b == in_team(team@, id),
{
    let mut i: usize = 0;
    while i < team.len()
        invariant
            i <= team@.len(),
            forall|j: int| 0 <= j < i ==> (#[trigger] team@[j]).id != id,
        decreases team@.len() - i,
    {
        if team[i].id == id {
            return true;
        }
        i = i + 1;
    }
    false
}

proof fn lemma_damage_on_prefix(team: Seq<CombatantData>, hits: Seq<Hit>, ours: bool, n: int, m: int)
    requires
        0 <= n <= m,
    ensures
        0 <= damage_on(team, hits, ours, n) <= damage_on(team, hits, ours, m),
    decreases m - n,
{
    if m > n {
        lemma_damage_on_prefix(team, hits, ours, n, m - 1);
    } else {
        lemma_damage_on_nonneg(team, hits, ours, n);
    }
}

proof fn lemma_damage_on_nonneg(team: Seq<CombatantData>, hits: Seq<Hit>, ours: bool, n: int)
    ensures
        0 <= damage_on(team, hits, ours, n),
    decreases n,
{
    if n > 0 {
        lemma_damage_on_nonneg(team, hits, ours, n - 1);
    }
}

/// Sums up a fought battle from the initiator's team and the hits written back: damage
/// taken by each side, whether each side lost a combatant, and the winner.
pub fn tally_battle(initiator_team: &[CombatantData], hits: &[Hit]) -> (r: BattleExecutionResult)
    requires
        damage_on(initiator_team@, hits@, true, hits@.len() as int) <= u32::MAX,
        damage_on(initiator_team@, hits@, false, hits@.len() as int) <= u32::MAX,
    ensures
        r.initiator_damage == damage_on(initiator_team@, hits@, true, hits@.len() as int),
        r.defender_damage == damage_on(initiator_team@, hits@, false, hits@.len() as int),
        r.initiator_dead == lost_one(initiator_team@, hits@, true),
        r.defender_dead == lost_one(initiator_team@, hits@, false),
        r.winner@ == winner_label(r.initiator_dead, r.defender_dead),
{
    let mut initiator_dead = false;
    let mut defender_dead = false;
    let mut initiator_damage: u32 = 0;
    let mut defender_damage: u32 = 0;
    let mut i: usize = 0;
    while i < hits.len()
        invariant
            i <= hits@.len(),
            damage_on(initiator_team@, hits@, true, hits@.len() as int) <= u32::MAX,
            damage_on(initiator_team@, hits@, false, hits@.len() as int) <= u32::MAX,
            initiator_damage == damage_on(initiator_team@, hits@, true, i as int),
            defender_damage == damage_on(initiator_team@, hits@, false, i as int),
            initiator_dead == exists|k: int|
                0 <= k < i && (#[trigger] hits@[k]).destroyed && in_team(
                    initiator_team@,
                    hits@[k].result.id,
                ),
            defender_dead == exists|k: int|
                0 <= k < i && (#[trigger] hits@[k]).destroyed && !in_team(
                    initiator_team@,
                    hits@[k].result.id,
                ),
        decreases hits@.len() - i,
    {
        proof {
            lemma_damage_on_prefix(initiator_team@, hits@, true, i + 1, hits@.len() as int);
            lemma_damage_on_prefix(initiator_team@, hits@, false, i + 1, hits@.len() as int);
        }
        let h = hits[i];
        let ours = team_has(initiator_team, h.result.id);
        if h.destroyed {
            if ours {
                initiator_dead = true;
            } else {
                defender_dead = true;
            }
        }
        if ours {
            initiator_damage = initiator_damage + h.result.damage_taken;
        } else {
            defender_damage = defender_damage + h.result.damage_taken;
        }
        i = i + 1;
    }
    let winner = if initiator_dead && !defender_dead {
        <String as StringExecFns>::from_str("defenders")
    } else if defender_dead && !initiator_dead {
        <String as StringExecFns>::from_str("initiator")
    } else {
        <String as StringExecFns>::from_str("stalemate")
    };
    BattleExecutionResult { initiator_damage, defender_damage, initiator_dead, defender_dead, winner }
}

/// A battle with an empty side is not fought: the summary then reports no damage, no
/// losses and a stalemate. `None` when both sides have members and the battle is fought.
pub fn unopposed_battle(initiator_team: &[CombatantData], defender_team: &[CombatantData]) -> (r:
    Option<BattleExecutionResult>)
    ensures
        r is Some <==> (initiator_team@.len() == 0 || defender_team@.len() == 0),
        r matches Some(res) ==> res.initiator_damage == 0 && res.defender_damage == 0
            && !res.initiator_dead && !res.defender_dead && res.winner@ == winner_label(
            false,
            false,
        ),
{
    if initiator_team.len() == 0 || defender_team.len() == 0 {
        Some(
            BattleExecutionResult {
                initiator_damage: 0,
                defender_damage: 0,
                initiator_dead: false,
                defender_dead: false,
                winner: <String as StringExecFns>::from_str("stalemate"),
            },
        )
    } else {
        None
    }
}

// ---------------------------------------------------------------------------
// Laws
// ---------------------------------------------------------------------------

/// A new military garrison has 100 hit points at level 1 and 100 more for each level
/// above; every other kind has 100 whatever its level.
pub proof fn lemma_new_building_health_per_level(kind: BuildingKind, level: int)
    ensures
        kind == BuildingKind::MilitaryGarrison ==> new_building_health(kind, 1) == 100
            && new_building_health(kind, level + 1) == new_building_health(kind, level) + 100,
        kind != BuildingKind::MilitaryGarrison ==> new_building_health(kind, level) == 100,
{
}

/// Team membership is by the whole id: `id` is a member's id exactly when it occurs
/// among the team's ids.
pub proof fn lemma_in_team_is_exact_id(team: Seq<CombatantData>, id: CombatantId)
    ensures
        in_team(team, id) <==> team.map_values(|c: CombatantData| c.id).contains(id),
{
    let ids = team.map_values(|c: CombatantData| c.id);
    if in_team(team, id) {
        let j = choose|j: int| 0 <= j < team.len() && (#[trigger] team[j]).id == id;
        assert(ids[j] == id);
    }
    if ids.contains(id) {
        let j = choose|j: int| 0 <= j < ids.len() && ids[j] == id;
        assert(team[j].id == id);
    }
}

/// A team of ships holds no garrison, whatever the numbers: a garrison shares no id with
/// a ship of the same number.
pub proof fn lemma_ship_team_has_no_garrison(team: Seq<CombatantData>, n: i64)
    requires
        forall|j: int| 0 <= j < team.len() ==> (#[trigger] team[j]).id is Ship,
    ensures
        !in_team(team, CombatantId::Garrison(n)),
{
    if in_team(team, CombatantId::Garrison(n)) {
        let j = choose|j: int| 0 <= j < team.len() && (#[trigger] team[j]).id == CombatantId::Garrison(n);
        assert(team[j].id is Ship);
    }
}

/// Hits on garrisons never count against an initiator team made of ships: that team
/// takes no damage and loses nobody, and every hit counts for the defenders.
pub proof fn lemma_garrison_hits_count_for_defenders(
    team: Seq<CombatantData>,
    hits: Seq<Hit>,
    n: int,
)
    requires
        0 <= n <= hits.len(),
        forall|j: int| 0 <= j < team.len() ==> (#[trigger] team[j]).id is Ship,
        forall|i: int| 0 <= i < hits.len() ==> (#[trigger] hits[i]).result.id is Garrison,
    ensures
        damage_on(team, hits, true, n) == 0,
        n == hits.len() ==> !lost_one(team, hits, true),
    decreases n,
{
    if n > 0 {
        lemma_garrison_hits_count_for_defenders(team, hits, n - 1);
        assert(hits[n - 1].result.id is Garrison);
        lemma_ship_team_has_no_garrison(team, hits[n - 1].result.id->Garrison_0);
    }
    if n == hits.len() {
        assert forall|i: int| 0 <= i < hits.len() implies !((#[trigger] hits[i]).destroyed
            && in_team(team, hits[i].result.id)) by {
            assert(hits[i].result.id is Garrison);
            lemma_ship_team_has_no_garrison(team, hits[i].result.id->Garrison_0);
        }
    }
}

/// The combatant a ship fights as: its id, its stored stats and its stored health.
pub open spec fn ship_as_fought(s: ShipEntry) -> CombatantData {
    CombatantData {
        id: CombatantId::Ship(s.id),
        stats: CombatStats {
            attack: s.stats.attack,
            defense: s.stats.defense,
            speed_rank: s.stats.speed_rank,
        },
        health: s.health as u32,
    }
}

proof fn lemma_ships_on_side_members(ships: Seq<ShipEntry>, initiator: u128, mine: bool, n: int)
    requires
        0 <= n <= ships.len(),
    ensures
        forall|i: int|
            0 <= i < n && (ships[i].owner == initiator) == mine ==> ships_on_side(
                ships,
                initiator,
                mine,
                n,
            ).contains(#[trigger] ship_as_fought(ships[i])),
        forall|k: int|
            0 <= k < ships_on_side(ships, initiator, mine, n).len() ==> exists|i: int|
                0 <= i < n && (ships[i].owner == initiator) == mine && #[trigger] ships_on_side(
                    ships,
                    initiator,
                    mine,
                    n,
                )[k] == ship_as_fought(ships[i]),
    decreases n,
{
    if n > 0 {
        lemma_ships_on_side_members(ships, initiator, mine, n - 1);
        let prev = ships_on_side(ships, initiator, mine, n - 1);
        let cur = ships_on_side(ships, initiator, mine, n);
        if (ships[n - 1].owner == initiator) == mine {
            assert(cur == prev.push(ship_combatant(ships[n - 1])));
            assert(ship_combatant(ships[n - 1]) == ship_as_fought(ships[n - 1]));
            assert forall|i: int|
                0 <= i < n && (ships[i].owner == initiator) == mine implies cur.contains(
                #[trigger] ship_as_fought(ships[i]),
            ) by {
                if i == n - 1 {
                    assert(cur[prev.len() as int] == ship_as_fought(ships[i]));
                } else {
                    let k = choose|k: int| 0 <= k < prev.len() && prev[k] == ship_as_fought(ships[i]);
                    assert(cur[k] == prev[k]);
                }
            }
            assert forall|k: int| 0 <= k < cur.len() implies exists|i: int|
                0 <= i < n && (ships[i].owner == initiator) == mine && #[trigger] cur[k]
                    == ship_as_fought(ships[i]) by {
                if k == prev.len() {
                    assert(cur[k] == ship_as_fought(ships[n - 1]));
                } else {
                    assert(cur[k] == prev[k]);
                    let i = choose|i: int|
                        0 <= i < n - 1 && (ships[i].owner == initiator) == mine && #[trigger] prev[k]
                            == ship_as_fought(ships[i]);
                    assert(cur[k] == ship_as_fought(ships[i]));
                }
            }
        }
    }
}

proof fn lemma_garrisons_on_side_ids(
    garrisons: Seq<GarrisonEntry>,
    initiator: u128,
    mine: bool,
    n: int,
)
    requires
        0 <= n <= garrisons.len(),
    ensures
        forall|k: int|
            0 <= k < garrisons_on_side(garrisons, initiator, mine, n).len() ==> (
            #[trigger] garrisons_on_side(garrisons, initiator, mine, n)[k]).id is Garrison,
    decreases n,
{
    if n > 0 {
        lemma_garrisons_on_side_ids(garrisons, initiator, mine, n - 1);
    }
}

/// Every ship fights on the side of its owner with exactly its stored attack, defense,
/// speed and health; and every ship among a side's members is one of the ships on that
/// side, fighting with its own stats.
pub proof fn lemma_ships_fight_with_their_stats(
    ships: Seq<ShipEntry>,
    garrisons: Seq<GarrisonEntry>,
    initiator: u128,
    mine: bool,
)
    ensures
        forall|i: int|
            0 <= i < ships.len() && (ships[i].owner == initiator) == mine ==> side(
                ships,
                garrisons,
                initiator,
                mine,
            ).contains(#[trigger] ship_as_fought(ships[i])),
        forall|k: int|
            0 <= k < side(ships, garrisons, initiator, mine).len() && (#[trigger] side(
                ships,
                garrisons,
                initiator,
                mine,
            )[k]).id is Ship ==> exists|i: int|
                0 <= i < ships.len() && (ships[i].owner == initiator) == mine && side(
                    ships,
                    garrisons,
                    initiator,
                    mine,
                )[k] == #[trigger] ship_as_fought(ships[i]),
{
    let a = ships_on_side(ships, initiator, mine, ships.len() as int);
    let b = garrisons_on_side(garrisons, initiator, mine, garrisons.len() as int);
    let t = side(ships, garrisons, initiator, mine);
    assert(t == a + b);
    lemma_ships_on_side_members(ships, initiator, mine, ships.len() as int);
    lemma_garrisons_on_side_ids(garrisons, initiator, mine, garrisons.len() as int);
    assert forall|i: int|
        0 <= i < ships.len() && (ships[i].owner == initiator) == mine implies t.contains(
        #[trigger] ship_as_fought(ships[i]),
    ) by {
        assert(a.contains(ship_as_fought(ships[i])));
        let k = choose|k: int| 0 <= k < a.len() && a[k] == ship_as_fought(ships[i]);
        assert(t[k] == a[k]);
    }
    assert forall|k: int| 0 <= k < t.len() && (#[trigger] t[k]).id is Ship implies exists|i: int|
        0 <= i < ships.len() && (ships[i].owner == initiator) == mine && t[k]
            == #[trigger] ship_as_fought(ships[i]) by {
        if k < a.len() {
            assert(t[k] == a[k]);
            let i = choose|i: int|
                0 <= i < ships.len() && (ships[i].owner == initiator) == mine && #[trigger] a[k]
                    == ship_as_fought(ships[i]);
        } else {
            assert(t[k] == b[k - a.len()]);
            assert(b[k - a.len()].id is Garrison);
        }
    }
}

/// The combatant an owned garrison fights as: 10 attack and 50 defense per level, the
/// garrison speed, and 50 hit points per level.
pub open spec fn garrison_as_fought(g: GarrisonEntry) -> CombatantData {
    CombatantData {
        id: CombatantId::Garrison(g.id),
        stats: CombatStats {
            attack: (10 * g.level) as u32,
            defense: (50 * g.level) as u32,
            speed_rank: GARRISON_SPEED_RANK,
        },
        health: (50 * g.level) as u32,
    }
}

/// Whether an owned garrison fights on the initiator's side (`mine`) or not.
pub open spec fn garrison_on(g: GarrisonEntry, initiator: u128, mine: bool) -> bool {
    g.owner matches Some(o) && (o == initiator) == mine
}

proof fn lemma_garrisons_on_side_members(
    garrisons: Seq<GarrisonEntry>,
    initiator: u128,
    mine: bool,
    n: int,
)
    requires
        0 <= n <= garrisons.len(),
    ensures
        forall|i: int|
            0 <= i < n && garrison_on(garrisons[i], initiator, mine) ==> garrisons_on_side(
                garrisons,
                initiator,
                mine,
                n,
            ).contains(#[trigger] garrison_as_fought(garrisons[i])),
        forall|k: int|
            0 <= k < garrisons_on_side(garrisons, initiator, mine, n).len() ==> exists|i: int|
                0 <= i < n && garrison_on(garrisons[i], initiator, mine)
                    && #[trigger] garrisons_on_side(garrisons, initiator, mine, n)[k]
                    == garrison_as_fought(garrisons[i]),
    decreases n,
{
    if n > 0 {
        lemma_garrisons_on_side_members(garrisons, initiator, mine, n - 1);
        let prev = garrisons_on_side(garrisons, initiator, mine, n - 1);
        let cur = garrisons_on_side(garrisons, initiator, mine, n);
        if garrison_on(garrisons[n - 1], initiator, mine) {
            assert(cur == prev.push(garrison_combatant(garrisons[n - 1])));
            assert(garrison_combatant(garrisons[n - 1]) == garrison_as_fought(garrisons[n - 1]));
            assert forall|i: int|
                0 <= i < n && garrison_on(garrisons[i], initiator, mine) implies cur.contains(
                #[trigger] garrison_as_fought(garrisons[i]),
            ) by {
                if i == n - 1 {
                    assert(cur[prev.len() as int] == garrison_as_fought(garrisons[i]));
                } else {
                    let k = choose|k: int|
                        0 <= k < prev.len() && prev[k] == garrison_as_fought(garrisons[i]);
                    assert(cur[k] == prev[k]);
                }
            }
            assert forall|k: int| 0 <= k < cur.len() implies exists|i: int|
                0 <= i < n && garrison_on(garrisons[i], initiator, mine) && #[trigger] cur[k]
                    == garrison_as_fought(garrisons[i]) by {
                if k == prev.len() {
                    assert(cur[k] == garrison_as_fought(garrisons[n - 1]));
                } else {
                    assert(cur[k] == prev[k]);
                    let i = choose|i: int|
                        0 <= i < n - 1 && garrison_on(garrisons[i], initiator, mine)
                            && #[trigger] prev[k] == garrison_as_fought(garrisons[i]);
                    assert(cur[k] == garrison_as_fought(garrisons[i]));
                }
            }
        } else {
            assert(cur == prev);
        }
    }
}

proof fn lemma_ships_on_side_ids(ships: Seq<ShipEntry>, initiator: u128, mine: bool, n: int)
    requires
        0 <= n <= ships.len(),
    ensures
        forall|k: int|
            0 <= k < ships_on_side(ships, initiator, mine, n).len() ==> (
            #[trigger] ships_on_side(ships, initiator, mine, n)[k]).id is Ship,
    decreases n,
{
    if n > 0 {
        lemma_ships_on_side_ids(ships, initiator, mine, n - 1);
    }
}

/// Every garrison with an owner fights on its owner's side with the stats of its level
/// (10 attack, 50 defense and 50 hit points per level); ownerless garrisons stay out; and
/// every garrison among a side's members is one of the garrisons on that side.
pub proof fn lemma_garrisons_fight_by_level(
    ships: Seq<ShipEntry>,
    garrisons: Seq<GarrisonEntry>,
    initiator: u128,
    mine: bool,
)
    ensures
        forall|i: int|
            0 <= i < garrisons.len() && garrison_on(garrisons[i], initiator, mine) ==> side(
                ships,
                garrisons,
                initiator,
                mine,
            ).contains(#[trigger] garrison_as_fought(garrisons[i])),
        forall|k: int|
            0 <= k < side(ships, garrisons, initiator, mine).len() && (#[trigger] side(
                ships,
                garrisons,
                initiator,
                mine,
            )[k]).id is Garrison ==> exists|i: int|
                0 <= i < garrisons.len() && garrison_on(garrisons[i], initiator, mine) && side(
                    ships,
                    garrisons,
                    initiator,
                    mine,
                )[k] == #[trigger] garrison_as_fought(garrisons[i]),
{
    let a = ships_on_side(ships, initiator, mine, ships.len() as int);
    let b = garrisons_on_side(garrisons, initiator, mine, garrisons.len() as int);
    let t = side(ships, garrisons, initiator, mine);
    assert(t == a + b);
    lemma_ships_on_side_ids(ships, initiator, mine, ships.len() as int);
    lemma_garrisons_on_side_members(garrisons, initiator, mine, garrisons.len() as int);
    assert forall|i: int|
        0 <= i < garrisons.len() && garrison_on(garrisons[i], initiator, mine) implies t.contains(
        #[trigger] garrison_as_fought(garrisons[i]),
    ) by {
        assert(b.contains(garrison_as_fought(garrisons[i])));
        let k = choose|k: int| 0 <= k < b.len() && b[k] == garrison_as_fought(garrisons[i]);
        assert(t[a.len() + k] == b[k]);
    }
    assert forall|k: int| 0 <= k < t.len() && (#[trigger] t[k]).id is Garrison implies exists|
        i: int,
    |
        0 <= i < garrisons.len() && garrison_on(garrisons[i], initiator, mine) && t[k]
            == #[trigger] garrison_as_fought(garrisons[i]) by {
        if k < a.len() {
            assert(t[k] == a[k]);
            assert(a[k].id is Ship);
        } else {
            assert(t[k] == b[k - a.len()]);
            let i = choose|i: int|
                0 <= i < garrisons.len() && garrison_on(garrisons[i], initiator, mine)
                    && #[trigger] b[k - a.len()] == garrison_as_fought(garrisons[i]);
        }
    }
}

} // verus!
