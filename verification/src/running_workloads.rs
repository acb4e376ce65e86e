use vstd::prelude::*;

use crate::instance_name::{InstanceNameView, WorkloadExecutionInstanceName};

verus! {

/// An entry: the workload's name, its instance name and its container's id.
pub type WorkloadEntry = (String, (WorkloadExecutionInstanceName, String));

/// What an entry maps its key to: the instance name and the container id.
pub open spec fn entry_value(e: WorkloadEntry) -> (InstanceNameView, Seq<char>) {
    (e.1.0@, e.1.1@)
}

/// The map that a sequence of entries stands for; a later entry with the
/// same key overrides an earlier one.
pub open spec fn entries_map(s: Seq<WorkloadEntry>) -> Map<Seq<char>, (InstanceNameView, Seq<char>)>
    decreases s.len(),
{
    if s.len() == 0 {
        Map::empty()
    } else {
        entries_map(s.drop_last()).insert(s.last().0@, entry_value(s.last()))
    }
}

/// No two entries share a key.
pub open spec fn keys_unique(s: Seq<WorkloadEntry>) -> bool {
    forall|i: int, j: int| 0 <= i < j < s.len() ==> #[trigger] s[i].0@ != #[trigger] s[j].0@
}

/// The keys of the map are those of the entries, each mapped to the value of
/// its entry.
proof fn lemma_entries_map_contents(s: Seq<WorkloadEntry>)
    requires
        keys_unique(s),
    ensures
        entries_map(s).dom().finite(),
        entries_map(s).len() == s.len(),
        forall|i: int|
            0 <= i < s.len() ==> #[trigger] entries_map(s).contains_key(s[i].0@) && entries_map(
                s,
            )[s[i].0@] == entry_value(s[i]),
        forall|k: Seq<char>|
            #[trigger] entries_map(s).contains_key(k) ==> exists|i: int|
                0 <= i < s.len() && s[i].0@ == k,
    decreases s.len(),
{
    if s.len() > 0 {
        let p = s.drop_last();
        assert(keys_unique(p));
        lemma_entries_map_contents(p);
        let last = s.last();
        if entries_map(p).contains_key(last.0@) {
            let i = choose|i: int| 0 <= i < p.len() && p[i].0@ == last.0@;
            assert(s[i].0@ == s[s.len() - 1].0@);
        }
        assert forall|i: int| 0 <= i < s.len() implies #[trigger] entries_map(s).contains_key(
            s[i].0@,
        ) && entries_map(s)[s[i].0@] == entry_value(s[i]) by {
            if i < s.len() - 1 {
                assert(s[i] == p[i]);
                assert(s[i].0@ != s[s.len() - 1].0@);
            }
        }
        assert forall|k: Seq<char>| #[trigger] entries_map(s).contains_key(k) implies exists|
            i: int,
        | 0 <= i < s.len() && s[i].0@ == k by {
            if k != last.0@ {
                assert(entries_map(p).contains_key(k));
                let i = choose|i: int| 0 <= i < p.len() && p[i].0@ == k;
                assert(s[i] == p[i]);
            } else {
                assert(s[s.len() - 1].0@ == k);
            }
        }
    }
}

/// Replacing the entry with key `k` replaces the value that `k` maps to.
proof fn lemma_entries_map_update(s: Seq<WorkloadEntry>, i: int, e: WorkloadEntry)
    requires
        keys_unique(s),
        0 <= i < s.len(),
        s[i].0@ == e.0@,
    ensures
        entries_map(s.update(i, e)) =~= entries_map(s).insert(e.0@, entry_value(e)),
    decreases s.len(),
{
    let t = s.update(i, e);
    let p = s.drop_last();
    if i == s.len() - 1 {
        assert(t.drop_last() =~= p);
    } else {
        assert(t.drop_last() =~= p.update(i, e));
        assert(keys_unique(p));
        lemma_entries_map_update(p, i, e);
        assert(s[s.len() - 1].0@ != s[i].0@);
        assert(t.last() == s.last());
    }
}

/// `ids` lists the container ids of `m`, one for each workload: there is an
/// order of the workload names, each named once, in which the `i`-th id is the
/// container id of the `i`-th workload.
pub open spec fn lists_container_ids(
    m: Map<Seq<char>, (InstanceNameView, Seq<char>)>,
    ids: Seq<Seq<char>>,
) -> bool {
    exists|keys: Seq<Seq<char>>|
        {
            &&& keys.no_duplicates()
            &&& keys.len() == ids.len()
            &&& forall|k: Seq<char>| m.contains_key(k) <==> #[trigger] keys.contains(k)
            &&& forall|i: int| 0 <= i < ids.len() ==> #[trigger] ids[i] == m[keys[i]].1
        }
}

/// The running workloads of an agent, by workload name: for each, its instance
/// name and the id of its container.
pub struct RunningWorkloads {
    entries: Vec<WorkloadEntry>,
}

impl View for RunningWorkloads {
    type V = Map<Seq<char>, (InstanceNameView, Seq<char>)>;

    closed spec fn view(&self) -> Self::V {
        entries_map(self.entries@)
    }
}

impl RunningWorkloads {
    #[verifier::type_invariant]
    spec fn keys_are_unique(self) -> bool {
        keys_unique(self.entries@)
    }

    /// The map of no workload.
    pub fn new() -> (res: Self)
        ensures
            res@ == Map::<Seq<char>, (InstanceNameView, Seq<char>)>::empty(),
    {
        RunningWorkloads { entries: Vec::new() }
    }

    /// Maps `key` to `value`, replacing what it mapped to before.
    pub fn insert(&mut self, key: String, value: (WorkloadExecutionInstanceName, String))
        ensures
            final(self)@ == old(self)@.insert(key@, (value.0@, value.1@)),
    {
        proof {
            use_type_invariant(&*self);
        }
        let mut entries: Vec<WorkloadEntry> = Vec::new();
        std::mem::swap(&mut entries, &mut self.entries);
        let ghost old_entries = entries@;
        let mut i: usize = 0;
        while i < entries.len()
            invariant
                entries@ == old_entries,
                keys_unique(old_entries),
                i <= entries.len(),
                forall|j: int| 0 <= j < i ==> #[trigger] old_entries[j].0@ != key@,
            ensures
                i <= entries.len(),
                i < entries.len() ==> old_entries[i as int].0@ == key@,
                forall|j: int| 0 <= j < i ==> #[trigger] old_entries[j].0@ != key@,
            decreases entries.len() - i,
        {
            if entries[i].0 == key {
                break;
            }
            i = i + 1;
        }
        let entry = (key, value);
        if i < entries.len() {
            proof {
                lemma_entries_map_update(old_entries, i as int, entry);
                assert forall|a: int, b: int|
                    0 <= a < b < old_entries.len() implies #[trigger] old_entries.update(
                    i as int,
                    entry,
                )[a].0@ != #[trigger] old_entries.update(i as int, entry)[b].0@ by {
                    assert(old_entries[a].0@ != old_entries[b].0@);
                    if a == i {
                        assert(old_entries.update(i as int, entry)[a].0@ == old_entries[a].0@);
                    }
                    if b == i {
                        assert(old_entries.update(i as int, entry)[b].0@ == old_entries[b].0@);
                    }
                }
            }
            entries.set(i, entry);
        } else {
            proof {
                let t = old_entries.push(entry);
                assert(t.drop_last() =~= old_entries);
                assert forall|a: int, b: int| 0 <= a < b < t.len() implies #[trigger] t[a].0@
                    != #[trigger] t[b].0@ by {
                    if b == t.len() - 1 {
                        assert(old_entries[a].0@ != entry.0@);
                    } else {
                        assert(old_entries[a].0@ != old_entries[b].0@);
                    }
                }
            }
            entries.push(entry);
        }
        self.entries = entries;
    }

    /// What `key` maps to, if anything.
    pub fn get(&self, key: &str) -> (res: Option<&(WorkloadExecutionInstanceName, String)>)
        ensures
            match res {
                Some(v) => self@.contains_key(key@) && self@[key@] == (v.0@, v.1@),
                None => !self@.contains_key(key@),
            },
    {
        proof {
            use_type_invariant(self);
            lemma_entries_map_contents(self.entries@);
        }
        let wanted = key.to_owned();
        let mut i: usize = 0;
        while i < self.entries.len()
            invariant
                wanted@ == key@,
                i <= self.entries.len(),
                forall|j: int| 0 <= j < i ==> #[trigger] self.entries@[j].0@ != key@,
            decreases self.entries.len() - i,
        {
            if self.entries[i].0 == wanted {
                proof {
                    use_type_invariant(self);
                    lemma_entries_map_contents(self.entries@);
                }
                assert(entries_map(self.entries@).contains_key(self.entries@[i as int].0@));
                assert(entries_map(self.entries@)[self.entries@[i as int].0@] == entry_value(
                    self.entries@[i as int],
                ));
                return Some(&self.entries[i].1);
            }
            i = i + 1;
        }
        proof {
            if entries_map(self.entries@).contains_key(key@) {
                let j = choose|j: int| 0 <= j < self.entries@.len() && self.entries@[j].0@ == key@;
                assert(self.entries@[j].0@ != key@);
            }
        }
        None
    }

    /// The number of workloads in the map.
    pub fn len(&self) -> (res: usize)
        ensures
            res == self@.len(),
    {
        proof {
            use_type_invariant(self);
            lemma_entries_map_contents(self.entries@);
        }
        self.entries.len()
    }

    /// Whether the map holds no workload.
    pub fn is_empty(&self) -> (res: bool)
        ensures
            res == (self@.len() == 0),
    {
        self.len() == 0
    }

    /// The container ids of all workloads in the map, one per workload.
    pub fn container_ids(&self) -> (res: Vec<String>)
        ensures
            res@.len() == self@.len(),
            lists_container_ids(self@, res@.map_values(|s: String| s@)),
    {
        proof {
            use_type_invariant(self);
            lemma_entries_map_contents(self.entries@);
        }
        let mut ids: Vec<String> = Vec::new();
        let mut i: usize = 0;
        while i < self.entries.len()
            invariant
                i <= self.entries.len(),
                ids@.len() == i,
                forall|j: int| 0 <= j < i ==> #[trigger] ids@[j]@ == self.entries@[j].1.1@,
            decreases self.entries.len() - i,
        {
            ids.push(self.entries[i].1.1.clone());
            i = i + 1;
        }
        proof {
            let s = self.entries@;
            let keys = s.map_values(|e: WorkloadEntry| e.0@);
            let texts = ids@.map_values(|t: String| t@);
            assert(keys.no_duplicates()) by {
                assert forall|a: int, b: int|
                    0 <= a < keys.len() && 0 <= b < keys.len() && a != b implies keys[a]
                    != keys[b] by {
                    if a < b {
                        assert(s[a].0@ != s[b].0@);
                    } else {
                        assert(s[b].0@ != s[a].0@);
                    }
                }
            }
            assert forall|k: Seq<char>| self@.contains_key(k) <==> keys.contains(k) by {
                if self@.contains_key(k) {
                    let j = choose|j: int| 0 <= j < s.len() && s[j].0@ == k;
                    assert(keys[j] == k);
                }
                if keys.contains(k) {
                    let j = choose|j: int| 0 <= j < keys.len() && keys[j] == k;
                    assert(entries_map(s).contains_key(s[j].0@));
                }
            }
            assert forall|j: int| 0 <= j < texts.len() implies #[trigger] texts[j] == self@[keys[j]].1 by {
                assert(entries_map(s).contains_key(s[j].0@));
            }
            assert(texts.len() == keys.len());
        }
        ids
    }
}

} // verus!
