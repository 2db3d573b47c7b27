//! The table of canonical state, one entry for each strategy.
//!
//! The store is the single source of truth that the dashboard reads. Its
//! entries are kept in the order in which the strategies first appeared; a
//! store that is only ever filled through its own methods holds no name
//! twice.

use vstd::prelude::*;
use vstd::string::*;
use crate::cache::{cache_bytes, cache_entries, decode_cache, encode_cache, entries_fit, lemma_cache_round_trip};
use crate::data::{StrategyData, StrategyDataView};
use crate::keyed::{
    distinct_keys,
    find_key,
    lemma_find_key,
    lemma_find_key_absent,
    lemma_find_key_at,
    lemma_find_key_push,
};

verus! {

/// The names of a sequence of entries.
pub open spec fn names(s: Seq<StrategyDataView>) -> Seq<Seq<char>> {
    s.map_values(|d: StrategyDataView| d.name)
}

/// The views of a sequence of entries.
pub open spec fn data_views(s: Seq<StrategyData>) -> Seq<StrategyDataView> {
    s.map_values(|d: StrategyData| d@)
}

/// The entry of the strategy `name`, or `None` where there is none.
pub open spec fn lookup(s: Seq<StrategyDataView>, name: Seq<char>) -> Option<StrategyDataView> {
    match find_key(names(s), name) {
        Some(i) => Some(s[i]),
        None => None,
    }
}

/// The entry of the strategy `name`, or the blank state where it has none.
pub open spec fn entry_or_blank(s: Seq<StrategyDataView>, name: Seq<char>) -> StrategyDataView {
    match lookup(s, name) {
        Some(d) => d,
        None => StrategyDataView::blank(name),
    }
}

/// The state `d` under the name `name`.
pub open spec fn named(d: StrategyDataView, name: Seq<char>) -> StrategyDataView {
    StrategyDataView { name, ..d }
}

/// The entry found under a name bears that name.
pub proof fn lemma_entry_name(s: Seq<StrategyDataView>, name: Seq<char>)
    ensures
        entry_or_blank(s, name).name == name,
{
    lemma_find_key(names(s), name);
}

/// The entries once `d` is stored: `d` stands in the place of the entry
/// with its name, or at the end where there was none.
pub open spec fn put(s: Seq<StrategyDataView>, d: StrategyDataView) -> Seq<StrategyDataView> {
    match find_key(names(s), d.name) {
        Some(i) => s.update(i, d),
        None => s.push(d),
    }
}

/// The entries once a cache was loaded: each cached entry that is well
/// formed and whose strategy has no entry yet is added; no entry that is
/// there is touched.
pub open spec fn restore(s: Seq<StrategyDataView>, cached: Seq<StrategyDataView>) -> Seq<
    StrategyDataView,
>
    decreases cached.len(),
{
    if cached.len() == 0 {
        s
    } else {
        let r = restore(s, cached.drop_last());
        let c = cached.last();
        if c.wf() && find_key(names(r), c.name) is None {
            r.push(c)
        } else {
            r
        }
    }
}

/// Whether every entry is well formed.
pub open spec fn all_wf(s: Seq<StrategyDataView>) -> bool {
    forall|i: int| 0 <= i < s.len() ==> (#[trigger] s[i]).wf()
}

/// Storing an entry changes the entry of its strategy and no other.
pub proof fn lemma_put_lookup(s: Seq<StrategyDataView>, d: StrategyDataView, other: Seq<char>)
    ensures
        lookup(put(s, d), d.name) == Some(d),
        other != d.name ==> lookup(put(s, d), other) == lookup(s, other),
        put(s, d).len() >= s.len(),
{
    let keys = names(s);
    lemma_find_key(keys, d.name);
    lemma_find_key(keys, other);
    match find_key(keys, d.name) {
        Some(i) => {
            assert(names(put(s, d)) =~= keys);
        },
        None => {
            assert(names(put(s, d)) =~= keys.push(d.name));
            lemma_find_key_push(keys, d.name, d.name);
            lemma_find_key_push(keys, d.name, other);
        },
    }
}

/// Storing an entry keeps the names distinct.
pub proof fn lemma_put_distinct(s: Seq<StrategyDataView>, d: StrategyDataView)
    requires
        distinct_keys(names(s)),
    ensures
        distinct_keys(names(put(s, d))),
{
    let keys = names(s);
    lemma_find_key(keys, d.name);
    match find_key(keys, d.name) {
        Some(i) => {
            assert(names(put(s, d)) =~= keys);
        },
        None => {
            assert(names(put(s, d)) =~= keys.push(d.name));
        },
    }
}

/// Loading a cache leaves every entry that was there as it was, keeps the
/// names distinct, and adds well-formed entries only.
pub proof fn lemma_restore_keeps_live(s: Seq<StrategyDataView>, cached: Seq<StrategyDataView>)
    ensures
        restore(s, cached).len() >= s.len(),
        restore(s, cached).take(s.len() as int) == s,
        forall|name: Seq<char>| lookup(s, name) is Some ==> lookup(restore(s, cached), name) == lookup(s, name),
        distinct_keys(names(s)) ==> distinct_keys(names(restore(s, cached))),
        all_wf(s) ==> all_wf(restore(s, cached)),
    decreases cached.len(),
{
    if cached.len() == 0 {
        assert(s.take(s.len() as int) =~= s);
    } else {
        let r = restore(s, cached.drop_last());
        let c = cached.last();
        lemma_restore_keeps_live(s, cached.drop_last());
        if c.wf() && find_key(names(r), c.name) is None {
            let r2 = r.push(c);
            assert(r2.take(s.len() as int) =~= r.take(s.len() as int));
            assert(names(r2) =~= names(r).push(c.name));
            assert forall|name: Seq<char>| lookup(s, name) is Some implies lookup(r2, name) == lookup(
                s,
                name,
            ) by {
                lemma_find_key_push(names(r), c.name, name);
                lemma_find_key(names(r), name);
            }
            if distinct_keys(names(s)) {
                lemma_find_key(names(r), c.name);
            }
        }
    }
}

/// What was saved comes back: loading the entries of a store, all well
/// formed and with distinct names, into an empty store gives the same
/// entries in the same order.
pub proof fn lemma_restore_round_trip(s: Seq<StrategyDataView>)
    requires
        distinct_keys(names(s)),
        all_wf(s),
    ensures
        restore(Seq::<StrategyDataView>::empty(), s) == s,
    decreases s.len(),
{
    if s.len() > 0 {
        let front = s.drop_last();
        assert(names(front) =~= names(s).drop_last());
        assert(distinct_keys(names(front))) by {
            assert forall|i: int, j: int| 0 <= i < j < names(front).len() implies #[trigger] names(
                front,
            )[i] != #[trigger] names(front)[j] by {
                assert(names(s)[i] != names(s)[j]);
            }
        }
        assert(all_wf(front)) by {
            assert forall|i: int| 0 <= i < front.len() implies (#[trigger] front[i]).wf() by {
                assert(s[i].wf());
            }
        }
        lemma_restore_round_trip(front);
        let c = s.last();
        assert(c == s[s.len() - 1]);
        assert forall|j: int| 0 <= j < names(front).len() implies #[trigger] names(front)[j]
            != c.name by {
            assert(names(s)[j] != names(s)[s.len() - 1]);
        }
        lemma_find_key_absent(names(front), c.name);
        assert(front.push(c) =~= s);
    }
}

/// The table of canonical state.
pub struct StrategyStateStore {
    entries: Vec<StrategyData>,
}

impl View for StrategyStateStore {
    type V = Seq<StrategyDataView>;

    closed spec fn view(&self) -> Seq<StrategyDataView> {
        data_views(self.entries@)
    }
}

impl StrategyStateStore {
    /// A store without entries.
    pub fn new() -> (r: StrategyStateStore)
        ensures
            r@ == Seq::<StrategyDataView>::empty(),
    {
        let entries: Vec<StrategyData> = Vec::new();
        assert(data_views(entries@) =~= Seq::<StrategyDataView>::empty());
        StrategyStateStore { entries }
    }

    /// The number of entries.
    pub fn len(&self) -> (r: usize)
        ensures
            r == self@.len(),
    {
        self.entries.len()
    }

    /// Finds the place of the entry of `name`.
    fn find(&self, name: &str) -> (r: Option<usize>)
        ensures
            match r {
                Some(i) => i < self.entries@.len() && find_key(names(self@), name@) == Some(i as int),
                None => find_key(names(self@), name@) is None,
            },
    {
        let ghost keys = names(self@);
        let wanted = name.to_owned();
        let mut i: usize = 0;
        while i < self.entries.len()
            invariant
                i <= self.entries.len(),
                keys == names(data_views(self.entries@)),
                wanted@ == name@,
                forall|j: int| 0 <= j < i ==> #[trigger] keys[j] != name@,
            decreases self.entries.len() - i,
        {
            if self.entries[i].name == wanted {
                proof {
                    assert(keys[i as int] == name@);
                    lemma_find_key_at(keys, name@, i as int);
                }
                return Some(i);
            }
            i = i + 1;
        }
        proof {
            lemma_find_key_absent(keys, name@);
        }
        None
    }

    /// Tells whether the strategy `name` has an entry.
    pub fn contains(&self, name: &str) -> (r: bool)
        ensures
            r == lookup(self@, name@).is_some(),
    {
        self.find(name).is_some()
    }

    /// A copy of the entry of the strategy `name`.
    pub fn get(&self, name: &str) -> (r: Option<StrategyData>)
        ensures
            match r {
                Some(d) => lookup(self@, name@) == Some(d@),
                None => lookup(self@, name@) is None,
            },
    {
        match self.find(name) {
            Some(i) => Some(self.entries[i].clone()),
            None => None,
        }
    }

    /// Stores `data` as the entry of the strategy that it names, in place
    /// of the entry that the strategy had, if any. No other entry changes.
    pub fn put(&mut self, data: StrategyData)
        ensures
            final(self)@ == put(old(self)@, data@),
            distinct_keys(names(old(self)@)) ==> distinct_keys(names(final(self)@)),
    {
        proof {
            if distinct_keys(names(self@)) {
                lemma_put_distinct(self@, data@);
            }
        }
        let ghost before = self@;
        match self.find(data.name.as_str()) {
            Some(i) => {
                self.entries.set(i, data);
                assert(data_views(self.entries@) =~= before.update(i as int, data@));
            },
            None => {
                self.entries.push(data);
                assert(data_views(self.entries@) =~= before.push(data@));
            },
        }
    }

    /// Changes the entry of the strategy `name` in one step: `mutator` is
    /// given the entry, or the blank state where the strategy has none, and
    /// what it returns is stored under `name`. No other entry changes.
    pub fn upsert<F: FnOnce(StrategyData) -> StrategyData>(&mut self, name: &str, mutator: F)
        requires
            forall|d: StrategyData|
                d@ == entry_or_blank(old(self)@, name@) ==> call_requires(mutator, (d,)),
        ensures
            exists|before: StrategyData, after: StrategyData|
                before@ == entry_or_blank(old(self)@, name@) && #[trigger] call_ensures(
                    mutator,
                    (before,),
                    after,
                ) && final(self)@ == put(old(self)@, named(after@, name@)),
            forall|other: Seq<char>|
                other != name@ ==> lookup(final(self)@, other) == lookup(old(self)@, other),
            distinct_keys(names(old(self)@)) ==> distinct_keys(names(final(self)@)),
    {
        let ghost start = self@;
        let before = match self.get(name) {
            Some(d) => d,
            None => StrategyData::new(name.to_owned()),
        };
        let ghost b = before;
        let mut after = mutator(before);
        let ghost a = after;
        after.name = name.to_owned();
        assert(after@ == named(a@, name@));
        proof {
            assert forall|other: Seq<char>| other != name@ implies lookup(put(start, after@), other)
                == lookup(start, other) by {
                lemma_put_lookup(start, after@, other);
            }
        }
        self.put(after);
        assert(call_ensures(mutator, (b,), a));
    }

    /// A copy of every entry, for the dashboard and for the cache.
    pub fn snapshot_all(&self) -> (r: Vec<StrategyData>)
        ensures
            data_views(r@) == self@,
    {
        let mut r: Vec<StrategyData> = Vec::new();
        let mut i: usize = 0;
        assert(data_views(r@) =~= self@.take(0));
        while i < self.entries.len()
            invariant
                i <= self.entries.len(),
                data_views(r@) == data_views(self.entries@).take(i as int),
            decreases self.entries.len() - i,
        {
            let d = self.entries[i].clone();
            let ghost before = data_views(r@);
            r.push(d);
            assert(data_views(r@) =~= before.push(d@));
            assert(data_views(self.entries@).take(i + 1) =~= before.push(d@));
            i = i + 1;
        }
        assert(data_views(self.entries@).take(self.entries.len() as int) =~= self@);
        r
    }

    /// Loads entries that were saved earlier. A saved entry enters the
    /// store where it is well formed and its strategy has no entry yet;
    /// an entry that is there is never overwritten. Returns how many
    /// entries were added.
    pub fn load_cache(&mut self, cached: &Vec<StrategyData>) -> (added: usize)
        ensures
            final(self)@ == restore(old(self)@, data_views(cached@)),
            added == final(self)@.len() - old(self)@.len(),
            distinct_keys(names(old(self)@)) ==> distinct_keys(names(final(self)@)),
    {
        let ghost start = self@;
        let ghost all = data_views(cached@);
        let mut added: usize = 0;
        let mut i: usize = 0;
        proof {
            assert(all.take(0) =~= Seq::<StrategyDataView>::empty());
            lemma_restore_keeps_live(start, all);
        }
        while i < cached.len()
            invariant
                i <= cached.len(),
                all == data_views(cached@),
                self@ == restore(start, all.take(i as int)),
                added == self@.len() - start.len(),
                added <= i,
            decreases cached.len() - i,
        {
            proof {
                let t = all.take(i + 1);
                assert(t.drop_last() =~= all.take(i as int));
                assert(t.last() == cached@[i as int]@);
            }
            let c = &cached[i];
            if c.is_valid() && self.find(c.name.as_str()).is_none() {
                let ghost before = self@;
                self.entries.push(c.clone());
                assert(self@ =~= before.push(c@));
                added = added + 1;
            }
            i = i + 1;
        }
        proof {
            assert(all.take(cached.len() as int) =~= all);
        }
        added
    }

    /// The bytes to write to the cache: every entry, in the order of the
    /// store. Reading them back gives the entries as they are.
    pub fn persist_cache(&self) -> (bytes: Vec<u8>)
        ensures
            bytes@ == cache_bytes(self@),
            cache_entries(bytes@) == Some(self@),
    {
        let all = self.snapshot_all();
        encode_cache(&all)
    }

    /// Loads the bytes of a cache as [`Self::load_cache`] loads entries.
    /// Returns how many entries were added, or `None` where the bytes are
    /// no cache; the store is then as it was.
    pub fn load_cache_bytes(&mut self, bytes: &[u8]) -> (added: Option<usize>)
        ensures
            match cache_entries(bytes@) {
                Some(cached) => final(self)@ == restore(old(self)@, cached) && added == Some(
                    (final(self)@.len() - old(self)@.len()) as usize,
                ),
                None => added is None && final(self)@ == old(self)@,
            },
            distinct_keys(names(old(self)@)) ==> distinct_keys(names(final(self)@)),
    {
        match decode_cache(bytes) {
            Some(cached) => Some(self.load_cache(&cached)),
            None => None,
        }
    }
}

/// Saving a store and loading what was saved into an empty store gives the
/// same entries: for entries that are well formed, bear distinct names and
/// are not too long to be written.
pub proof fn lemma_persist_reload(s: Seq<StrategyDataView>)
    requires
        distinct_keys(names(s)),
        all_wf(s),
        entries_fit(s),
    ensures
        cache_entries(cache_bytes(s)) == Some(s),
        restore(Seq::<StrategyDataView>::empty(), cache_entries(cache_bytes(s)).unwrap()) == s,
{
    lemma_cache_round_trip(s);
    lemma_restore_round_trip(s);
}

} // verus!
