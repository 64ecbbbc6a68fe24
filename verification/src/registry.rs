//! The table of the game processes that run, with at most one for each profile.
use crate::error::{Error, LaunchFault};
use crate::text::same_text;
use crate::textmap::TextMap;
use vstd::prelude::*;

verus! {

/// What the table keeps of one running process. The handle of the process itself
/// stays with the caller, under the same identifier.
pub struct RunningProcess {
    pub id: u128,
    /// The profile that the process runs.
    pub profile: String,
    /// The file that takes what the process writes.
    pub log_path: String,
    /// The secrets to strike out of what the process writes.
    pub censor: TextMap<String>,
}

/// Whether no two records have the same identifier or the same profile.
spec fn one_each(records: Seq<RunningProcess>) -> bool {
    forall|i: int, j: int|
        0 <= i < j < records.len() ==> records[i].id != records[j].id && records[i].profile@
            != records[j].profile@
}

/// The record of each identifier among the records.
spec fn records_by_id(records: Seq<RunningProcess>) -> Map<u128, RunningProcess> {
    Map::new(
        |id: u128| exists|i: int| 0 <= i < records.len() && #[trigger] records[i].id == id,
        |id: u128|
            records[choose|i: int| 0 <= i < records.len() && #[trigger] records[i].id == id],
    )
}

/// Each record is kept under its identifier.
proof fn lemma_records_by_id(records: Seq<RunningProcess>)
    requires
        one_each(records),
    ensures
        forall|i: int|
            0 <= i < records.len() ==> records_by_id(records).contains_key(
                #[trigger] records[i].id,
            ) && records_by_id(records)[records[i].id] == records[i],
        forall|id: u128|
            records_by_id(records).contains_key(id) ==> (#[trigger] records_by_id(
                records,
            )[id]).id == id,
{
    let m = records_by_id(records);
    assert forall|i: int| 0 <= i < records.len() implies m.contains_key(#[trigger] records[i].id)
        && m[records[i].id] == records[i] by {
        let id = records[i].id;
        let c = choose|c: int| 0 <= c < records.len() && #[trigger] records[c].id == id;
        if c < i {
            assert(records[c].id != records[i].id);
        }
        if i < c {
            assert(records[i].id != records[c].id);
        }
    }
}

/// The profile of each process, by the identifier of the process.
pub open spec fn profiles(records: Map<u128, RunningProcess>) -> Map<u128, Seq<char>> {
    records.map_values(|record: RunningProcess| record.profile@)
}

/// Whether no two identifiers have the same profile.
pub open spec fn exclusive(m: Map<u128, Seq<char>>) -> bool {
    forall|a: u128, b: u128|
        m.contains_key(a) && m.contains_key(b) && #[trigger] m[a] == #[trigger] m[b] ==> a == b
}

/// Whether each record is kept under its own identifier.
pub open spec fn keyed(records: Map<u128, RunningProcess>) -> bool {
    forall|id: u128| records.contains_key(id) ==> (#[trigger] records[id]).id == id
}

/// Records with one process for each profile give a map with one identifier for each
/// profile.
proof fn lemma_exclusive(records: Seq<RunningProcess>)
    requires
        one_each(records),
    ensures
        exclusive(profiles(records_by_id(records))),
        keyed(records_by_id(records)),
{
    let r = records_by_id(records);
    let m = profiles(r);
    lemma_records_by_id(records);
    assert forall|a: u128, b: u128|
        m.contains_key(a) && m.contains_key(b) && #[trigger] m[a] == #[trigger] m[b] implies a
        == b by {
        let i = choose|i: int| 0 <= i < records.len() && #[trigger] records[i].id == a;
        let j = choose|j: int| 0 <= j < records.len() && #[trigger] records[j].id == b;
        assert(r[records[i].id] == records[i]);
        assert(r[records[j].id] == records[j]);
        if i < j {
            assert(records[i].profile@ != records[j].profile@);
        }
        if j < i {
            assert(records[j].profile@ != records[i].profile@);
        }
    }
}

/// The running processes. No identifier and no profile occurs twice.
pub struct ProcessRegistry {
    records: Vec<RunningProcess>,
}

impl View for ProcessRegistry {
    type V = Map<u128, Seq<char>>;

    /// The profile of each process that runs, by the identifier of the process.
    open spec fn view(&self) -> Map<u128, Seq<char>> {
        profiles(self.records())
    }
}

impl ProcessRegistry {
    #[verifier::type_invariant]
    spec fn well_formed(self) -> bool {
        one_each(self.records@)
    }

    /// What the table keeps of each process that runs, by the identifier of the
    /// process.
    pub closed spec fn records(&self) -> Map<u128, RunningProcess> {
        records_by_id(self.records@)
    }

    /// Whether a process runs the profile.
    pub open spec fn runs(&self, profile: Seq<char>) -> bool {
        exists|id: u128| self@.contains_key(id) && #[trigger] self@[id] == profile
    }

    /// The table without any process.
    pub fn new() -> (r: Self)
        ensures
            r.records() == Map::<u128, RunningProcess>::empty(),
            r@ == Map::<u128, Seq<char>>::empty(),
            exclusive(r@),
    {
        let r = ProcessRegistry { records: Vec::new() };
        assert(r.records() =~= Map::<u128, RunningProcess>::empty());
        assert(r@ =~= Map::<u128, Seq<char>>::empty());
        r
    }

    fn position_of_profile(&self, profile: &str) -> (r: Option<usize>)
        ensures
            match r {
                Some(i) => i < self.records.len() && self.records[i as int].profile@ == profile@,
                None => forall|j: int|
                    0 <= j < self.records.len() ==> self.records[j].profile@ != profile@,
            },
    {
        let mut i: usize = 0;
        while i < self.records.len()
            invariant
                i <= self.records.len(),
                forall|j: int| 0 <= j < i ==> self.records[j].profile@ != profile@,
            decreases self.records.len() - i,
        {
            if same_text(self.records[i].profile.as_str(), profile) {
                return Some(i);
            }
            i += 1;
        }
        None
    }

    fn position_of_id(&self, id: u128) -> (r: Option<usize>)
        ensures
            match r {
                Some(i) => i < self.records.len() && self.records[i as int].id == id,
                None => forall|j: int| 0 <= j < self.records.len() ==> self.records[j].id != id,
            },
    {
        let mut i: usize = 0;
        while i < self.records.len()
            invariant
                i <= self.records.len(),
                forall|j: int| 0 <= j < i ==> self.records[j].id != id,
            decreases self.records.len() - i,
        {
            if self.records[i].id == id {
                return Some(i);
            }
            i += 1;
        }
        None
    }

    /// The process that runs the profile, if there is one.
    pub fn running(&self, profile: &str) -> (r: Option<u128>)
        ensures
            match r {
                Some(id) => self@.contains_key(id) && self@[id] == profile@,
                None => !self.runs(profile@),
            },
    {
        proof {
            use_type_invariant(self);
            lemma_records_by_id(self.records@);
        }
        match self.position_of_profile(profile) {
            Some(i) => {
                assert(self.records()[self.records[i as int].id] == self.records[i as int]);
                Some(self.records[i].id)
            },
            None => {
                assert forall|id: u128| self@.contains_key(id) implies #[trigger] self@[id]
                    != profile@ by {
                    let j = choose|j: int|
                        0 <= j < self.records.len() && #[trigger] self.records[j].id == id;
                    assert(self.records()[self.records[j].id] == self.records[j]);
                }
                None
            },
        }
    }

    /// The identifiers of the processes that run the profile: none or one.
    pub fn list_by_profile(&self, profile: &str) -> (ids: Vec<u128>)
        ensures
            ids.len() <= 1,
            forall|id: u128|
                ids@.contains(id) <==> (self@.contains_key(id) && self@[id] == profile@),
    {
        let mut ids: Vec<u128> = Vec::new();
        proof {
            use_type_invariant(self);
            lemma_exclusive(self.records@);
        }
        match self.running(profile) {
            Some(found) => {
                ids.push(found);
                assert(ids@[0] == found);
                assert forall|id: u128| self@.contains_key(id) && self@[id] == profile@ implies ids@.contains(
                    id,
                ) by {
                    assert(self@[id] == self@[found]);
                }
            },
            None => {},
        }
        ids
    }

    /// The record of the process `id`, if it runs: what was entered under that
    /// identifier, with its profile, its log file and its table of secrets.
    pub fn get(&self, id: u128) -> (r: Option<&RunningProcess>)
        ensures
            match r {
                Some(record) => self.records().contains_key(id) && *record == self.records()[id]
                    && record.id == id,
                None => !self.records().contains_key(id),
            },
    {
        proof {
            use_type_invariant(self);
            lemma_records_by_id(self.records@);
        }
        match self.position_of_id(id) {
            Some(i) => {
                assert(self.records()[self.records[i as int].id] == self.records[i as int]);
                Some(&self.records[i])
            },
            None => None,
        }
    }

    /// Enters a process, unless its profile is already run by a process: then the
    /// table stays as it is and the refusal names that process. The record is kept
    /// as it is handed in. A record that was kept under the same identifier is
    /// replaced.
    pub fn insert(&mut self, record: RunningProcess) -> (r: Result<(), Error>)
        ensures
            exclusive(final(self)@),
            keyed(final(self).records()),
            match r {
                Ok(_) => !old(self).runs(record.profile@) && final(self).records() == old(
                    self,
                ).records().insert(record.id, record) && final(self)@ == old(self)@.insert(
                    record.id,
                    record.profile@,
                ),
                Err(e) => old(self).runs(record.profile@) && final(self).records() == old(
                    self,
                ).records() && exists|id: u128|
                    #![trigger old(self)@[id]]
                    old(self)@.contains_key(id) && old(self)@[id] == record.profile@ && e
                        == Error::Launcher(
                        LaunchFault::AlreadyRunning { profile: record.profile, id },
                    ),
            },
    {
        proof {
            use_type_invariant(&*self);
            lemma_records_by_id(self.records@);
            lemma_exclusive(self.records@);
        }
        match self.running(record.profile.as_str()) {
            Some(id) => {
                return Err(
                    Error::Launcher(LaunchFault::AlreadyRunning { profile: record.profile, id }),
                );
            },
            None => {},
        }
        let at = self.position_of_id(record.id);
        let ghost before = self.records();
        let ghost kept = record;
        let ghost id = record.id;
        let ghost profile = record.profile@;
        let mut taken = ProcessRegistry { records: Vec::new() };
        core::mem::swap(self, &mut taken);
        let ProcessRegistry { records: mut records } = taken;
        assert(forall|j: int| 0 <= j < records.len() ==> records[j].profile@ != profile) by {
            assert forall|j: int| 0 <= j < records.len() implies records[j].profile@ != profile by {
                assert(before[records[j].id] == records[j]);
                assert(old(self)@.contains_key(records[j].id));
                assert(old(self)@[records[j].id] == records[j].profile@);
            }
        }
        match at {
            Some(i) => {
                records.set(i, record);
            },
            None => {
                records.push(record);
            },
        }
        assert(one_each(records@));
        proof {
            lemma_records_by_id(records@);
            lemma_exclusive(records@);
            let after = records_by_id(records@);
            let want = before.insert(id, kept);
            assert forall|k: u128| after.contains_key(k) <==> want.contains_key(k) by {
                if after.contains_key(k) && k != id {
                    let j = choose|j: int| 0 <= j < records.len() && #[trigger] records[j].id == k;
                    assert(old(self).records[j].id == k);
                }
                if before.contains_key(k) && k != id {
                    let j = choose|j: int|
                        0 <= j < old(self).records.len() && #[trigger] old(self).records[j].id == k;
                    assert(records[j].id == k);
                }
                if k == id {
                    match at {
                        Some(i) => {
                            assert(records[i as int].id == id);
                        },
                        None => {
                            assert(records[records.len() - 1].id == id);
                        },
                    }
                }
            }
            assert forall|k: u128| after.contains_key(k) implies after[k] == want[k] by {
                let j = choose|j: int| 0 <= j < records.len() && #[trigger] records[j].id == k;
                assert(after[records[j].id] == records[j]);
                if k != id {
                    assert(before[old(self).records[j].id] == old(self).records[j]);
                }
            }
            assert(after =~= want);
            assert(profiles(after) =~= profiles(before).insert(id, profile));
        }
        *self = ProcessRegistry { records };
        Ok(())
    }

    /// Takes out the process `id`, as when it has ended, and hands back its record
    /// as it was entered.
    pub fn remove(&mut self, id: u128) -> (r: Option<RunningProcess>)
        ensures
            exclusive(final(self)@),
            keyed(final(self).records()),
            final(self).records() == old(self).records().remove(id),
            final(self)@ == old(self)@.remove(id),
            match r {
                Some(record) => old(self).records().contains_key(id) && record == old(
                    self,
                ).records()[id] && record.id == id,
                None => !old(self).records().contains_key(id),
            },
    {
        proof {
            use_type_invariant(&*self);
            lemma_records_by_id(self.records@);
            lemma_exclusive(self.records@);
        }
        let at = self.position_of_id(id);
        let ghost before = self.records();
        match at {
            None => {
                assert(before.remove(id) =~= before);
                assert(profiles(before).remove(id) =~= profiles(before));
                None
            },
            Some(i) => {
                let mut taken = ProcessRegistry { records: Vec::new() };
                core::mem::swap(self, &mut taken);
                let ProcessRegistry { records: mut records } = taken;
                let record = records.remove(i);
                assert(one_each(records@));
                proof {
                    lemma_records_by_id(records@);
                    lemma_exclusive(records@);
                    let after = records_by_id(records@);
                    let want = before.remove(id);
                    let was = old(self).records@;
                    assert(before[was[i as int].id] == was[i as int]);
                    assert forall|k: u128| after.contains_key(k) <==> want.contains_key(k) by {
                        if after.contains_key(k) {
                            let j = choose|j: int|
                                0 <= j < records.len() && #[trigger] records[j].id == k;
                            let w = if j < i {
                                j
                            } else {
                                j + 1
                            };
                            assert(was[w].id == k);
                            if w < i {
                                assert(was[w].id != was[i as int].id);
                            } else {
                                assert(was[i as int].id != was[w].id);
                            }
                        }
                        if want.contains_key(k) {
                            let w = choose|w: int| 0 <= w < was.len() && #[trigger] was[w].id == k;
                            let j = if w < i {
                                w
                            } else {
                                w - 1
                            };
                            assert(records[j].id == k);
                        }
                    }
                    assert forall|k: u128| after.contains_key(k) implies after[k] == want[k] by {
                        let j = choose|j: int|
                            0 <= j < records.len() && #[trigger] records[j].id == k;
                        let w = if j < i {
                            j
                        } else {
                            j + 1
                        };
                        assert(after[records[j].id] == records[j]);
                        assert(before[was[w].id] == was[w]);
                    }
                    assert(after =~= want);
                    assert(profiles(after) =~= profiles(before).remove(id));
                }
                *self = ProcessRegistry { records };
                Some(record)
            },
        }
    }

    /// The number of processes that run.
    pub fn len(&self) -> (n: usize)
        ensures
            n == self.records().len(),
            self.records().dom().finite(),
    {
        proof {
            use_type_invariant(self);
            lemma_count(self.records@);
        }
        self.records.len()
    }
}

/// The map of the records has as many keys as there are records.
proof fn lemma_count(records: Seq<RunningProcess>)
    requires
        one_each(records),
    ensures
        records_by_id(records).dom().finite(),
        records_by_id(records).len() == records.len(),
    decreases records.len(),
{
    let m = records_by_id(records);
    if records.len() == 0 {
        assert(m.dom() =~= Set::<u128>::empty());
    } else {
        let front = records.drop_last();
        lemma_count(front);
        lemma_records_by_id(records);
        let last = records.last();
        let m0 = records_by_id(front);
        assert(m.dom() =~= m0.dom().insert(last.id)) by {
            assert forall|k: u128| m.dom().contains(k) <==> m0.dom().insert(last.id).contains(
                k,
            ) by {
                if m.dom().contains(k) {
                    let j = choose|j: int| 0 <= j < records.len() && #[trigger] records[j].id == k;
                    if j < records.len() - 1 {
                        assert(front[j].id == k);
                    }
                }
                if m0.dom().contains(k) {
                    let j = choose|j: int| 0 <= j < front.len() && #[trigger] front[j].id == k;
                    assert(records[j].id == k);
                }
                if k == last.id {
                    assert(records[records.len() - 1].id == k);
                }
            }
        }
        assert(!m0.dom().contains(last.id)) by {
            if m0.dom().contains(last.id) {
                let j = choose|j: int| 0 <= j < front.len() && #[trigger] front[j].id == last.id;
                assert(records[j].id != records[records.len() - 1].id);
            }
        }
    }
}

} // verus!
