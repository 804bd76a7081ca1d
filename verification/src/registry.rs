//! The contracts by the account that they are registered under. They are kept
//! in a row: a new account goes to its end, a known one keeps its place, and
//! the last one moves into the place of one that is removed.

use crate::pagination::{page, page_range};
use crate::search::{key_matches, matches_query};
use crate::verified_contract::vote::distinct_voters;
use crate::verified_contract::{ContractView, VerifiedContract};
use vstd::prelude::*;

verus! {

/// An account and the record of its contract, as values.
pub type EntryView = (Seq<char>, ContractView);

/// No account stands twice in `entries`.
pub open spec fn distinct_keys(entries: Seq<EntryView>) -> bool {
    forall|i: int, j: int|
        0 <= i < j < entries.len() ==> (#[trigger] entries[i]).0 != (#[trigger] entries[j]).0
}

/// No account stands twice in `entries`, and none has two votes on one contract.
pub open spec fn valid_entries(entries: Seq<EntryView>) -> bool {
    &&& distinct_keys(entries)
    &&& forall|i: int| 0 <= i < entries.len() ==> distinct_voters((#[trigger] entries[i]).1.votes)
}

/// A contract is registered under `key`.
pub open spec fn has_key(entries: Seq<EntryView>, key: Seq<char>) -> bool {
    exists|i: int| 0 <= i < entries.len() && (#[trigger] entries[i]).0 == key
}

/// The place of `key` among `entries`, where a contract is registered under it.
pub open spec fn index_of(entries: Seq<EntryView>, key: Seq<char>) -> int {
    choose|i: int| 0 <= i < entries.len() && (#[trigger] entries[i]).0 == key
}

/// The record of the contract that is registered under `key`, if one is.
pub open spec fn record_of(entries: Seq<EntryView>, key: Seq<char>) -> Option<ContractView> {
    if has_key(entries, key) {
        Some(entries[index_of(entries, key)].1)
    } else {
        None
    }
}

/// `entries` with `record` under `key`: in the place that `key` has, or at the
/// end where it has none.
pub open spec fn upserted(entries: Seq<EntryView>, key: Seq<char>, record: ContractView) -> Seq<
    EntryView,
> {
    if has_key(entries, key) {
        entries.update(index_of(entries, key), (key, record))
    } else {
        entries.push((key, record))
    }
}

/// `entries` without `key`: the last entry has taken its place.
pub open spec fn removed(entries: Seq<EntryView>, key: Seq<char>) -> Seq<EntryView> {
    if has_key(entries, key) {
        entries.update(index_of(entries, key), entries.last()).drop_last()
    } else {
        entries
    }
}

/// The entries whose account matches `query`, in their order.
pub open spec fn matching(entries: Seq<EntryView>, query: Seq<char>) -> Seq<EntryView> {
    entries.filter(|entry: EntryView| key_matches(entry.0, query))
}

/// Accounts with their records, as values.
pub open spec fn entry_views(entries: Seq<(String, VerifiedContract)>) -> Seq<EntryView> {
    entries.map_values(|entry: (String, VerifiedContract)| (entry.0@, entry.1@))
}

/// Where `key` stands at `at`, that is its place, and its record is the one there.
pub proof fn key_stands_once(entries: Seq<EntryView>, key: Seq<char>, at: int)
    requires
        distinct_keys(entries),
        0 <= at < entries.len(),
        entries[at].0 == key,
    ensures
        has_key(entries, key),
        index_of(entries, key) == at,
        record_of(entries, key) == Some(entries[at].1),
{
    let found = index_of(entries, key);
    assert(entries[found].0 == entries[at].0);
}

/// After a registration `key` has the record, every other account has what
/// it had, and no account stands twice.
pub proof fn upserted_sets_one_record(
    entries: Seq<EntryView>,
    key: Seq<char>,
    record: ContractView,
    other: Seq<char>,
)
    requires
        distinct_keys(entries),
    ensures
        distinct_keys(upserted(entries, key, record)),
        record_of(upserted(entries, key, record), key) == Some(record),
        other != key ==> record_of(upserted(entries, key, record), other) == record_of(
            entries,
            other,
        ),
        upserted(entries, key, record).len() == if has_key(entries, key) {
            entries.len()
        } else {
            entries.len() + 1
        },
{
    let after = upserted(entries, key, record);
    let at = if has_key(entries, key) {
        index_of(entries, key)
    } else {
        entries.len() as int
    };
    assert(after[at] == (key, record));
    assert forall|i: int| 0 <= i < after.len() && i != at implies #[trigger] after[i]
        == entries[i] by {}
    assert forall|i: int, j: int| 0 <= i < j < after.len() implies (#[trigger] after[i]).0 != (
    #[trigger] after[j]).0 by {
        if i != at && j != at {
            assert(after[i] == entries[i] && after[j] == entries[j]);
        } else if i == at {
            assert(after[j] == entries[j]);
            if has_key(entries, key) {
                assert(entries[at].0 == key);
            }
        } else {
            assert(after[i] == entries[i]);
            if has_key(entries, key) {
                assert(entries[at].0 == key);
            }
        }
    }
    key_stands_once(after, key, at);
    if other != key {
        if has_key(entries, other) {
            let there = index_of(entries, other);
            assert(after[there] == entries[there]);
            key_stands_once(after, other, there);
        } else {
            if has_key(after, other) {
                let there = index_of(after, other);
                assert(after[there] == entries[there]);
            }
        }
    }
}

/// After a removal `key` has no record, every other account has what it
/// had, and no account stands twice.
pub proof fn removed_drops_one_record(entries: Seq<EntryView>, key: Seq<char>, other: Seq<char>)
    requires
        distinct_keys(entries),
    ensures
        distinct_keys(removed(entries, key)),
        record_of(removed(entries, key), key) == None::<ContractView>,
        other != key ==> record_of(removed(entries, key), other) == record_of(entries, other),
        removed(entries, key).len() == if has_key(entries, key) {
            entries.len() - 1
        } else {
            entries.len() as int
        },
{
    let after = removed(entries, key);
    if has_key(entries, key) {
        let at = index_of(entries, key);
        let last = entries.len() - 1;
        assert(entries[at].0 == key);
        assert forall|i: int| 0 <= i < after.len() implies #[trigger] after[i] == (if i == at {
            entries[last]
        } else {
            entries[i]
        }) by {}
        assert forall|i: int, j: int| 0 <= i < j < after.len() implies (#[trigger] after[i]).0 != (
        #[trigger] after[j]).0 by {
            let from_i = if i == at { last } else { i };
            let from_j = if j == at { last } else { j };
            assert(after[i] == entries[from_i] && after[j] == entries[from_j]);
            if from_i < from_j {
                assert(entries[from_i].0 != entries[from_j].0);
            } else {
                assert(entries[from_j].0 != entries[from_i].0);
            }
        }
        if has_key(after, key) {
            let there = index_of(after, key);
            let from = if there == at { last } else { there };
            assert(after[there] == entries[from]);
            if from < at {
                assert(entries[from].0 != entries[at].0);
            } else {
                assert(entries[at].0 != entries[from].0);
            }
        }
        if other != key {
            if has_key(entries, other) {
                let there = index_of(entries, other);
                assert(entries[there].0 == other);
                let to = if there == last { at } else { there };
                assert(after[to] == entries[there]);
                key_stands_once(after, other, to);
            } else {
                if has_key(after, other) {
                    let there = index_of(after, other);
                    let from = if there == at { last } else { there };
                    assert(after[there] == entries[from]);
                    assert(entries[from].0 == other);
                }
            }
        }
    }
}

/// The page of `entries` that starts at `from_index` and holds at most `limit` of them.
pub fn page_of_entries(
    entries: &Vec<(String, VerifiedContract)>,
    from_index: usize,
    limit: usize,
) -> (r: Vec<(String, VerifiedContract)>)
    ensures
        entry_views(r@) == page(entry_views(entries@), from_index as nat, limit as nat),
{
    let (start, end) = page_range(entries.len(), from_index, limit);
    let mut out: Vec<(String, VerifiedContract)> = Vec::new();
    let mut at: usize = start;
    while at < end
        invariant
            start <= at <= end <= entries.len(),
            entry_views(out@) == entry_views(entries@).subrange(start as int, at as int),
        decreases end - at,
    {
        let entry = (entries[at].0.clone(), entries[at].1.clone());
        let ghost before = out@;
        out.push(entry);
        assert(entry_views(out@) =~= entry_views(before).push((entry.0@, entry.1@)));
        assert(entry_views(out@) =~= entry_views(entries@).subrange(start as int, at + 1));
        at += 1;
    }
    out
}

/// Whether no account stands twice in `entries`, and none has two votes on one contract.
fn has_valid_entries(entries: &Vec<(String, VerifiedContract)>) -> (r: bool)
    ensures
        r == valid_entries(entry_views(entries@)),
{
    let ghost views = entry_views(entries@);
    let mut later: usize = 0;
    while later < entries.len()
        invariant
            later <= entries.len(),
            views == entry_views(entries@),
            forall|i: int, j: int|
                0 <= i < j < later ==> (#[trigger] views[i]).0 != (#[trigger] views[j]).0,
            forall|i: int| 0 <= i < later ==> distinct_voters((#[trigger] views[i]).1.votes),
        decreases entries.len() - later,
    {
        if !entries[later].1.votes.is_valid() {
            assert(!distinct_voters(views[later as int].1.votes));
            return false;
        }
        let mut earlier: usize = 0;
        while earlier < later
            invariant
                earlier <= later < entries.len(),
                views == entry_views(entries@),
                forall|i: int| 0 <= i < earlier ==> (#[trigger] views[i]).0 != views[later as int].0,
            decreases later - earlier,
        {
            if entries[earlier].0 == entries[later].0 {
                assert(views[earlier as int].0 == views[later as int].0);
                return false;
            }
            earlier += 1;
        }
        later += 1;
    }
    true
}

/// The contracts by the account that they are registered under.
#[derive(Debug)]
pub struct Registry {
    entries: Vec<(String, VerifiedContract)>,
}

impl View for Registry {
    type V = Seq<EntryView>;

    closed spec fn view(&self) -> Seq<EntryView> {
        entry_views(self.entries@)
    }
}

impl Registry {
    /// No account stands twice, and none has two votes on one contract.
    pub open spec fn wf(&self) -> bool {
        valid_entries(self@)
    }

    /// No contracts.
    pub fn new() -> (r: Registry)
        ensures
            r.wf(),
            r@ == Seq::<EntryView>::empty(),
    {
        let r = Registry { entries: Vec::new() };
        assert(r@ =~= Seq::<EntryView>::empty());
        r
    }

    /// The contracts `entries` as they stand, where no account stands twice
    /// and none has two votes on one contract.
    pub fn from_entries(entries: Vec<(String, VerifiedContract)>) -> (r: Option<Registry>)
        ensures
            r is Some <==> valid_entries(entry_views(entries@)),
            r matches Some(registry) ==> registry.wf() && registry@ == entry_views(entries@),
    {
        if has_valid_entries(&entries) {
            Some(Registry { entries })
        } else {
            None
        }
    }

    /// The accounts with their contracts, in their order.
    pub fn as_slice(&self) -> (r: &[(String, VerifiedContract)])
        ensures
            entry_views(r@) == self@,
    {
        self.entries.as_slice()
    }

    /// How many contracts are registered.
    pub fn len(&self) -> (r: usize)
        ensures
            r == self@.len(),
    {
        self.entries.len()
    }

    /// Where `key` stands, if a contract is registered under it.
    fn position(&self, key: &String) -> (r: Option<usize>)
        ensures
            match r {
                Some(at) => at < self@.len() && self@[at as int].0 == key@,
                None => !has_key(self@, key@),
            },
    {
        let mut at: usize = 0;
        while at < self.entries.len()
            invariant
                at <= self.entries.len(),
                forall|i: int| 0 <= i < at ==> (#[trigger] self@[i]).0 != key@,
            decreases self.entries.len() - at,
        {
            if self.entries[at].0 == *key {
                return Some(at);
            }
            at += 1;
        }
        None
    }

    /// The record of the contract that is registered under `key`, if one is.
    pub fn get(&self, key: &String) -> (r: Option<&VerifiedContract>)
        requires
            self.wf(),
        ensures
            record_of(self@, key@) == match r {
                Some(record) => Some(record@),
                None => None,
            },
            r matches Some(record) ==> record.wf(),
    {
        match self.position(key) {
            Some(at) => {
                proof {
                    key_stands_once(self@, key@, at as int);
                    assert(distinct_voters(self@[at as int].1.votes));
                }
                Some(&self.entries[at].1)
            },
            None => None,
        }
    }

    /// Puts `record` under `key`, in place of the record that was there, and
    /// says whether one was there.
    pub fn insert(&mut self, key: String, record: VerifiedContract) -> (r: bool)
        requires
            old(self).wf(),
            record.wf(),
        ensures
            final(self).wf(),
            final(self)@ == upserted(old(self)@, key@, record@),
            r == has_key(old(self)@, key@),
    {
        proof {
            upserted_sets_one_record(self@, key@, record@, key@);
        }
        match self.position(&key) {
            Some(at) => {
                proof {
                    key_stands_once(self@, key@, at as int);
                }
                self.entries.set(at, (key, record));
                assert(self@ =~= old(self)@.update(at as int, (key@, record@)));
                assert forall|i: int| 0 <= i < self@.len() implies distinct_voters(
                    (#[trigger] self@[i]).1.votes,
                ) by {
                    if i != at {
                        assert(self@[i] == old(self)@[i]);
                    }
                }
                true
            },
            None => {
                self.entries.push((key, record));
                assert(self@ =~= old(self)@.push((key@, record@)));
                assert forall|i: int| 0 <= i < self@.len() implies distinct_voters(
                    (#[trigger] self@[i]).1.votes,
                ) by {
                    if i < old(self)@.len() {
                        assert(self@[i] == old(self)@[i]);
                    }
                }
                false
            },
        }
    }

    /// Takes out the contract that is registered under `key`, if one is, and
    /// returns its record. The last contract takes its place.
    pub fn remove(&mut self, key: &String) -> (r: Option<VerifiedContract>)
        requires
            old(self).wf(),
        ensures
            final(self).wf(),
            final(self)@ == removed(old(self)@, key@),
            record_of(old(self)@, key@) == match r {
                Some(record) => Some(record@),
                None => None,
            },
            r matches Some(record) ==> record.wf(),
    {
        proof {
            removed_drops_one_record(self@, key@, key@);
        }
        match self.position(key) {
            Some(at) => {
                proof {
                    key_stands_once(self@, key@, at as int);
                    assert(distinct_voters(self@[at as int].1.votes));
                }
                let entry = self.entries.swap_remove(at);
                assert(self@ =~= old(self)@.update(at as int, old(self)@.last()).drop_last());
                assert forall|i: int| 0 <= i < self@.len() implies distinct_voters(
                    (#[trigger] self@[i]).1.votes,
                ) by {
                    if i == at {
                        assert(self@[i] == old(self)@[old(self)@.len() - 1]);
                    } else {
                        assert(self@[i] == old(self)@[i]);
                    }
                }
                Some(entry.1)
            },
            None => None,
        }
    }

    /// The page of the contracts that starts at `from_index` and holds at most
    /// `limit` of them.
    pub fn page(&self, from_index: usize, limit: usize) -> (r: Vec<(String, VerifiedContract)>)
        ensures
            entry_views(r@) == page(self@, from_index as nat, limit as nat),
    {
        page_of_entries(&self.entries, from_index, limit)
    }

    /// The contracts whose account matches `query`, in their order.
    pub fn search(&self, query: &str) -> (r: Vec<(String, VerifiedContract)>)
        ensures
            entry_views(r@) == matching(self@, query@),
    {
        let mut out: Vec<(String, VerifiedContract)> = Vec::new();
        let mut at: usize = 0;
        proof {
            reveal(Seq::filter);
            assert(self@.take(0) =~= Seq::<EntryView>::empty());
            assert(entry_views(out@) =~= Seq::<EntryView>::empty());
        }
        while at < self.entries.len()
            invariant
                at <= self.entries.len(),
                entry_views(out@) == matching(self@.take(at as int), query@),
            decreases self.entries.len() - at,
        {
            proof {
                let seen = self@.take(at as int);
                seen.lemma_filter_push(
                    self@[at as int],
                    |entry: EntryView| key_matches(entry.0, query@),
                );
                assert(seen.push(self@[at as int]) =~= self@.take(at + 1));
            }
            if matches_query(self.entries[at].0.as_str(), query) {
                let entry = (self.entries[at].0.clone(), self.entries[at].1.clone());
                let ghost before = out@;
                out.push(entry);
                assert(entry_views(out@) =~= entry_views(before).push((entry.0@, entry.1@)));
            }
            at += 1;
        }
        assert(self@.take(at as int) =~= self@);
        out
    }
}

} // verus!
