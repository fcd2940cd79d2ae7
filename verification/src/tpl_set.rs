use vstd::prelude::*;
use crate::types::GenericTplId;

verus! {

/// A set of generic template ids, kept in a `hashbrown::HashSet` of their
/// keys (`tpl_key`).
#[verifier::external_body]
pub struct TplSet {
    set: hashbrown::HashSet<u64>,
}

/// The keys that a template set holds.
pub uninterp spec fn tpl_set_items(s: TplSet) -> Set<u64>;

/// The key of a template id: a function template `i` is `i`, a type template
/// `i` is `2^32 + i`.
pub open spec fn tpl_key_spec(id: GenericTplId) -> u64 {
    match id {
        GenericTplId::Func(i) => i as u64,
        GenericTplId::Type(i) => (0x1_0000_0000u64 + i as u64) as u64,
    }
}

/// The template id a key stands for.
pub open spec fn tpl_of_key(k: u64) -> GenericTplId {
    if k < 0x1_0000_0000u64 {
        GenericTplId::Func(k as u32)
    } else {
        GenericTplId::Type((k - 0x1_0000_0000u64) as u32)
    }
}

pub fn tpl_key(id: GenericTplId) -> (r: u64)
    ensures
        r == tpl_key_spec(id),
{
    match id {
        GenericTplId::Func(i) => i as u64,
        GenericTplId::Type(i) => 0x1_0000_0000u64 + i as u64,
    }
}

pub fn tpl_id_of_key(k: u64) -> (r: GenericTplId)
    ensures
        r == tpl_of_key(k),
{
    if k < 0x1_0000_0000u64 {
        GenericTplId::Func(k as u32)
    } else {
        #[verifier::truncate]
        let i = (k - 0x1_0000_0000u64) as u32;
        GenericTplId::Type(i)
    }
}

/// Calls `hashbrown::HashSet::new`: an empty set.
#[verifier::external_body]
pub(crate) fn tpl_set_new() -> (r: TplSet)
    ensures
        tpl_set_items(r) == Set::<u64>::empty(),
{
    TplSet { set: hashbrown::HashSet::new() }
}

/// Calls `hashbrown::HashSet::insert`: the key is in the set afterwards, and
/// the result says whether it was new.
#[verifier::external_body]
pub(crate) fn tpl_set_insert(s: &mut TplSet, key: u64) -> (r: bool)
    ensures
        tpl_set_items(*final(s)) == tpl_set_items(*old(s)).insert(key),
        r == !tpl_set_items(*old(s)).contains(key),
{
    s.set.insert(key)
}

/// Calls `hashbrown::HashSet::is_empty`.
#[verifier::external_body]
pub(crate) fn tpl_set_is_empty(s: &TplSet) -> (r: bool)
    ensures
        r == (tpl_set_items(*s) == Set::<u64>::empty()),
{
    s.set.is_empty()
}

/// Calls `hashbrown::HashSet::iter` and collects the keys: each key once, in
/// the order the set is walked, which is not stated.
#[verifier::external_body]
pub(crate) fn tpl_set_keys(s: &TplSet) -> (r: Vec<u64>)
    ensures
        r@.to_set() == tpl_set_items(*s),
        r@.no_duplicates(),
{
    s.set.iter().copied().collect()
}

} // verus!
