//! Material species, their names, and their baseline sale prices.

use vstd::prelude::*;
use crate::text::chars_of;

verus! {

/// Tag-only material species.
#[derive(Clone, Copy, Debug, PartialEq, Eq, Hash, Structural)]
pub enum MaterialKind {
    Iron,
    Helium,
}

/// Every species, in the stable order used to sort stock rows.
pub open spec fn all_kinds_spec() -> Seq<MaterialKind> {
    seq![MaterialKind::Iron, MaterialKind::Helium]
}

/// Every species, in stable order.
pub fn all_kinds() -> (v: Vec<MaterialKind>)
    ensures
        v@ == all_kinds_spec(),
{
    let v = vec![MaterialKind::Iron, MaterialKind::Helium];
    assert(v@ =~= all_kinds_spec());
    v
}

/// Position of a species in [`all_kinds_spec`].
pub open spec fn kind_index(k: MaterialKind) -> int {
    match k {
        MaterialKind::Iron => 0,
        MaterialKind::Helium => 1,
    }
}

/// Sort key of a species: its position in the stable order.
pub fn kind_sort_index(k: MaterialKind) -> (i: u8)
    ensures
        i == kind_index(k),
        all_kinds_spec()[i as int] == k,
{
    let all = all_kinds();
    let mut i: usize = 0;
    while i < all.len()
        invariant
            all@ == all_kinds_spec(),
            i <= all@.len(),
            forall|j: int| 0 <= j < i ==> all@[j] != k,
        decreases all@.len() - i,
    {
        if all[i] == k {
            return i as u8;
        }
        i = i + 1;
    }
    assert(all@[kind_index(k)] == k);
    255
}

/// Name of a species as stored in requests and building rows.
pub open spec fn kind_name(k: MaterialKind) -> Seq<char> {
    match k {
        MaterialKind::Iron => seq!['I', 'r', 'o', 'n'],
        MaterialKind::Helium => seq!['H', 'e', 'l', 'i', 'u', 'm'],
    }
}

/// `v` spells exactly `word`.
fn spells(v: &Vec<char>, word: &[char]) -> (b: bool)
    ensures
        b == (v@ == word@),
{
    if v.len() != word.len() {
        return false;
    }
    let mut i: usize = 0;
    while i < v.len()
        invariant
            v@.len() == word@.len(),
            i <= v@.len(),
            forall|j: int| 0 <= j < i ==> v@[j] == word@[j],
        decreases v@.len() - i,
    {
        if v[i] != word[i] {
            return false;
        }
        i = i + 1;
    }
    assert(v@ =~= word@);
    true
}

/// Species named by `s` (`"Iron"` or `"Helium"`), if any.
pub fn parse_material_kind(s: &str) -> (k: Option<MaterialKind>)
    ensures
        k matches Some(kind) ==> s@ == kind_name(kind),
        k is None ==> forall|kind: MaterialKind| s@ != kind_name(kind),
{
    let v = chars_of(s);
    let iron: [char; 4] = ['I', 'r', 'o', 'n'];
    let helium: [char; 6] = ['H', 'e', 'l', 'i', 'u', 'm'];
    assert(iron@ =~= kind_name(MaterialKind::Iron));
    assert(helium@ =~= kind_name(MaterialKind::Helium));
    if spells(&v, &iron) {
        Some(MaterialKind::Iron)
    } else if spells(&v, &helium) {
        Some(MaterialKind::Helium)
    } else {
        assert forall|kind: MaterialKind| s@ != kind_name(kind) by {
            match kind {
                MaterialKind::Iron => {},
                MaterialKind::Helium => {},
            }
        }
        None
    }
}

/// Government sink: baseline credits per kt of iron.
pub const BASELINE_CREDITS_PER_KT_IRON: u64 = 10;

/// Government sink: baseline credits per kt of helium.
pub const BASELINE_CREDITS_PER_KT_HELIUM: u64 = 15;

/// Baseline credits per kt when selling at a Sales Depot.
pub open spec fn baseline_price(kind: MaterialKind) -> u64 {
    match kind {
        MaterialKind::Iron => BASELINE_CREDITS_PER_KT_IRON,
        MaterialKind::Helium => BASELINE_CREDITS_PER_KT_HELIUM,
    }
}

/// Baseline credits per kt when selling at a Sales Depot.
pub fn baseline_credits_per_kt(kind: MaterialKind) -> (p: u64)
    ensures
        p == baseline_price(kind),
{
    match kind {
        MaterialKind::Iron => BASELINE_CREDITS_PER_KT_IRON,
        MaterialKind::Helium => BASELINE_CREDITS_PER_KT_HELIUM,
    }
}

/// The species ordered by baseline value, most valuable first (ties keep the stable
/// order): the order in which a ship fills its hold when no amounts are requested.
pub fn kinds_by_value_desc() -> (v: Vec<MaterialKind>)
    ensures
        v@.len() == all_kinds_spec().len(),
        v@.to_multiset() == all_kinds_spec().to_multiset(),
        forall|i: int, j: int|
            0 <= i < j < v@.len() ==> baseline_price(#[trigger] v@[i]) >= baseline_price(
                #[trigger] v@[j],
            ),
        forall|i: int, j: int|
            0 <= i < j < v@.len() && baseline_price(v@[i]) == baseline_price(v@[j])
                ==> kind_index(#[trigger] v@[i]) < kind_index(#[trigger] v@[j]),
{
    broadcast use vstd::seq_lib::group_to_multiset_ensures;

    let all = all_kinds();
    let mut out: Vec<MaterialKind> = Vec::new();
    assert(all@.take(0) =~= Seq::<MaterialKind>::empty());
    assert(out@ =~= Seq::<MaterialKind>::empty());
    let mut i: usize = 0;
    while i < all.len()
        invariant
            all@ == all_kinds_spec(),
            i <= all@.len(),
            out@.len() == i,
            out@.to_multiset() == all@.take(i as int).to_multiset(),
            forall|a: int, b: int|
                0 <= a < b < out@.len() ==> baseline_price(#[trigger] out@[a]) >= baseline_price(
                    #[trigger] out@[b],
                ),
            forall|a: int, b: int|
                0 <= a < b < out@.len() && baseline_price(out@[a]) == baseline_price(out@[b])
                    ==> kind_index(#[trigger] out@[a]) < kind_index(#[trigger] out@[b]),
            forall|a: int| 0 <= a < out@.len() ==> kind_index(#[trigger] out@[a]) < i,
        decreases all@.len() - i,
    {
        let k = all[i];
        let price = baseline_credits_per_kt(k);
        // Insert after every kind at least as valuable.
        let mut pos: usize = 0;
        while pos < out.len() && baseline_credits_per_kt(out[pos]) >= price
            invariant
                pos <= out@.len(),
                forall|a: int| 0 <= a < pos ==> baseline_price(#[trigger] out@[a]) >= price,
            decreases out@.len() - pos,
        {
            pos = pos + 1;
        }
        let ghost before = out@;
        out.insert(pos, k);
        proof {
            assert(kind_index(k) == i) by {
                assert(all@[i as int] == k);
            }
            assert(all@.take(i + 1) =~= all@.take(i as int).push(k));
            all@.take(i as int).to_multiset_ensures();
            assert(out@ =~= before.take(pos as int).push(k) + before.skip(pos as int));
            let pa = before.take(pos as int);
            let pb = before.skip(pos as int);
            assert(before =~= pa + pb);
            vstd::seq_lib::lemma_multiset_commutative(pa.push(k), pb);
            vstd::seq_lib::lemma_multiset_commutative(pa, pb);
            pa.to_multiset_ensures();
            assert(pa.push(k).to_multiset() =~= pa.to_multiset().insert(k));
            assert(pa.to_multiset().insert(k).add(pb.to_multiset()) =~= pa.to_multiset().add(
                pb.to_multiset(),
            ).insert(k)) by {
                broadcast use vstd::multiset::group_multiset_axioms;
            }
            assert(out@.to_multiset() =~= before.to_multiset().insert(k));
            assert forall|a: int, b: int|
                0 <= a < b < out@.len() implies baseline_price(#[trigger] out@[a]) >= baseline_price(
                #[trigger] out@[b],
            ) by {
                if a < pos && b == pos {
                } else if a == pos && b > pos {
                    assert(out@[b] == before[b - 1]);
                } else if a < pos && b > pos {
                    assert(out@[b] == before[b - 1]);
                } else {
                    assert(out@[a] == before[a - 1]);
                    assert(out@[b] == before[b - 1]);
                }
            }
        }
        i = i + 1;
    }
    assert(all@.take(all@.len() as int) =~= all@);
    out
}

} // verus!
