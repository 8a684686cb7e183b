use vstd::prelude::*;
use dashmap::DashSet;
use crate::text::views;

verus! {

/// The concurrent set of names kept by `dashmap`, used for the users that are online.
#[verifier::external_type_specification]
#[verifier::external_body]
#[verifier::reject_recursive_types(K)]
#[verifier::reject_recursive_types(S)]
pub struct ExDashSet<K, S>(DashSet<K, S>);

/// `dashmap::DashSet::insert` of an owned copy of `name`. The set is shared by request
/// handlers that run at the same time, so nothing is stated of what it holds afterwards.
#[verifier::external_body]
pub(crate) fn mark_online(set: &DashSet<String>, name: &str) {
    set.insert(name.to_string());
}

/// `dashmap::DashSet::remove` of `name`. The set is shared by request handlers that run
/// at the same time, so nothing is stated of what it holds afterwards.
#[verifier::external_body]
pub(crate) fn mark_offline(set: &DashSet<String>, name: &str) {
    set.remove(name);
}

/// `dashmap::DashSet::contains` of `name`. The answer depends on what other handlers
/// did to the shared set, so nothing is stated of it.
#[verifier::external_body]
pub(crate) fn is_online(set: &DashSet<String>, name: &str) -> (r: bool) {
    set.contains(name)
}

/// `dashmap::DashSet::len`. The answer depends on what other handlers did to the shared
/// set, so nothing is stated of it.
#[verifier::external_body]
pub(crate) fn online_count(set: &DashSet<String>) -> (r: usize) {
    set.len()
}

/// The names in the set, in the order `dashmap::DashSet::iter` visits them, each cloned
/// from its `key`. The iterator walks the shards one after another, holding each shard's
/// read lock while it lists that shard's keys, and a key always lives in the shard its
/// hash picks; so no name is listed twice, which is what the contract states. Neither
/// the order nor which names are listed is stated: the order is that of the hash table
/// and the contents depend on what other handlers did to the shared set.
#[verifier::external_body]
pub(crate) fn online_names(set: &DashSet<String>) -> (r: Vec<String>)
    ensures
        views(r@).no_duplicates(),
{
    set.iter().map(|e| e.key().clone()).collect()
}

/// The names of the users that are online, as the shared set lists them, each once.
pub fn users_online(set: &DashSet<String>) -> (r: Vec<String>)
    ensures
        views(r@).no_duplicates(),
{
    online_names(set)
}

} // verus!
