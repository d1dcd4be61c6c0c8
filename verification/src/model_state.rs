//! The model registry: a mapping from model name to lifecycle record,
//! mutated only through insertion and removal, with at most one record per
//! name. Reconciliation against process liveness evicts records whose
//! process is gone; the caller probes the host and hands in the set of
//! live process ids, so the registry itself never touches the system.

use vstd::prelude::*;

use crate::text::str_eq;

verus! {

/// One lifecycle record: a running model's user-facing alias, its resolved
/// model identifier, the process believed to be running it, and when it
/// started.
#[derive(Debug)]
pub struct RunningModel {
    pub name: String,
    pub model_id: String,
    pub pid: u32,
    pub started_at: String,
}

pub struct RunningModelV {
    pub name: Seq<char>,
    pub model_id: Seq<char>,
    pub pid: u32,
    pub started_at: Seq<char>,
}

impl View for RunningModel {
    type V = RunningModelV;

    open spec fn view(&self) -> RunningModelV {
        RunningModelV {
            name: self.name@,
            model_id: self.model_id@,
            pid: self.pid,
            started_at: self.started_at@,
        }
    }
}

impl Clone for RunningModel {
    fn clone(&self) -> (r: Self)
        ensures
            r@ == self@,
    {
        RunningModel {
            name: self.name.clone(),
            model_id: self.model_id.clone(),
            pid: self.pid,
            started_at: self.started_at.clone(),
        }
    }
}

pub open spec fn recs_view(v: Seq<RunningModel>) -> Seq<RunningModelV> {
    v.map_values(|m: RunningModel| m@)
}

/// The registry. Its view is the record sequence in insertion order;
/// `wf` is the invariant every operation preserves.
#[derive(Debug)]
pub struct ModelState {
    models: Vec<RunningModel>,
}

impl View for ModelState {
    type V = Seq<RunningModelV>;

    closed spec fn view(&self) -> Seq<RunningModelV> {
        recs_view(self.models@)
    }
}

impl Default for ModelState {
    fn default() -> (r: Self)
        ensures
            r@ == Seq::<RunningModelV>::empty(),
            r.wf(),
    {
        let r = ModelState { models: Vec::new() };
        proof {
            assert(r@ =~= Seq::<RunningModelV>::empty());
        }
        r
    }
}

/// No two records share a name.
pub open spec fn names_unique(v: Seq<RunningModelV>) -> bool {
    forall|i: int, j: int| 0 <= i < j < v.len() ==> v[i].name != v[j].name
}

impl ModelState {
    /// A name maps to at most one record.
    pub open spec fn wf(self) -> bool {
        names_unique(self@)
    }

    pub open spec fn spec_contains(self, name: Seq<char>) -> bool {
        exists|i: int| 0 <= i < self@.len() && self@[i].name == name
    }

    /// Index of the record named `name`, scanning from the front.
    fn find_index(&self, name: &str) -> (r: Option<usize>)
        ensures
            r matches Some(i) ==> i < self@.len() && self@[i as int].name == name@,
            r is None ==> !self.spec_contains(name@),
    {
        let n = self.models.len();
        let mut k: usize = 0;
        while k < n
            invariant
                0 <= k <= n,
                n == self.models.len(),
                forall|j: int| 0 <= j < k ==> self@[j].name != name@,
            decreases n - k,
        {
            if str_eq(self.models[k].name.as_str(), name) {
                return Some(k);
            }
            k = k + 1;
        }
        None
    }

    /// The record registered under `name`, if any.
    pub fn get_model(&self, name: &str) -> (r: Option<&RunningModel>)
        ensures
            r matches Some(m) ==> self.spec_contains(name@) && m@.name == name@ && self@.contains(
                m@,
            ),
            r is None ==> !self.spec_contains(name@),
    {
        match self.find_index(name) {
            Some(i) => {
                let m = &self.models[i];
                proof {
                    assert(self@[i as int] == m@);
                }
                Some(m)
            },
            None => None,
        }
    }

    /// Removes and returns the record registered under `name`; the
    /// registry is untouched when there is none.
    pub fn remove_model(&mut self, name: &str) -> (r: Option<RunningModel>)
        ensures
            r matches Some(m) ==> m@.name == name@ && (exists|i: int|
                0 <= i < old(self)@.len() && old(self)@[i] == m@ && final(self)@ == old(
                    self,
                )@.remove(i)),
            r is None ==> final(self)@ == old(self)@ && !old(self).spec_contains(name@),
            old(self).wf() ==> final(self).wf(),
    {
        match self.find_index(name) {
            Some(i) => {
                let ghost pre = self.models@;
                let m = self.models.remove(i);
                proof {
                    assert(final(self)@ =~= recs_view(pre).remove(i as int));
                    assert(recs_view(pre)[i as int] == m@);
                }
                Some(m)
            },
            None => None,
        }
    }

    /// All records, in insertion order.
    pub fn list_models(&self) -> (r: Vec<RunningModel>)
        ensures
            recs_view(r@) == self@,
    {
        let n = self.models.len();
        let mut out: Vec<RunningModel> = Vec::new();
        let mut k: usize = 0;
        while k < n
            invariant
                0 <= k <= n,
                n == self.models.len(),
                recs_view(out@) =~= self@.take(k as int),
            decreases n - k,
        {
            out.push(self.models[k].clone());
            proof {
                assert(recs_view(out@) =~= self@.take(k as int).push(self@[k as int]));
                assert(self@.take(k + 1 as int) =~= self@.take(k as int).push(self@[k as int]));
            }
            k = k + 1;
        }
        proof {
            assert(self@.take(n as int) =~= self@);
        }
        out
    }

    pub fn is_empty(&self) -> (r: bool)
        ensures
            r == (self@.len() == 0),
    {
        self.models.is_empty()
    }

    /// Inserts a record: overwrites the one registered under the same
    /// name, in place, or appends at the end.
    pub fn insert_record(&mut self, rec: RunningModel)
        requires
            old(self).wf(),
        ensures
            final(self).wf(),
            old(self).spec_contains(rec@.name) ==> exists|i: int|
                0 <= i < old(self)@.len() && old(self)@[i].name == rec@.name && final(self)@
                    == old(self)@.update(i, rec@),
            !old(self).spec_contains(rec@.name) ==> final(self)@ == old(self)@.push(rec@),
    {
        let ghost pre = self@;
        match self.find_index(rec.name.as_str()) {
            Some(i) => {
                self.models[i] = rec;
                proof {
                    assert(final(self)@ =~= pre.update(i as int, final(self)@[i as int]));
                    assert forall|a: int, b: int|
                        0 <= a < b < final(self)@.len() implies final(self)@[a].name != final(self)@[b].name by {
                        assert(pre[a].name == final(self)@[a].name || a == i);
                        assert(pre[b].name == final(self)@[b].name || b == i);
                    }
                }
            },
            None => {
                self.models.push(rec);
                proof {
                    assert(final(self)@ =~= pre.push(final(self)@.last()));
                    assert forall|a: int, b: int|
                        0 <= a < b < final(self)@.len() implies final(self)@[a].name != final(self)@[b].name by {
                        if b < pre.len() {
                            assert(pre[a].name != pre[b].name);
                        } else {
                            assert(!old(self).spec_contains(final(self)@[b].name));
                        }
                    }
                }
            },
        }
    }

    /// Registers a model as running now: the record carries the current
    /// local time as its start stamp.
    pub fn add_model(&mut self, name: String, model_id: String, pid: u32)
        requires
            old(self).wf(),
        ensures
            final(self).wf(),
            final(self).spec_contains(name@),
            final(self)@.len() == old(self)@.len() + (if old(self).spec_contains(name@) {
                0int
            } else {
                1int
            }),
            forall|j: int|
                0 <= j < old(self)@.len() && old(self)@[j].name != name@ ==> final(self)@[j]
                    == old(self)@[j],
            exists|i: int|
                0 <= i < final(self)@.len() && final(self)@[i].name == name@ && final(self)@[i].model_id == model_id@ && final(self)@[i].pid == pid,
    {
        let started_at = local_timestamp();
        let rec = RunningModel { name, model_id, pid, started_at };
        let ghost recv = rec@;
        self.insert_record(rec);
        proof {
            if old(self).spec_contains(recv.name) {
                let i = choose|i: int|
                    0 <= i < old(self)@.len() && old(self)@[i].name == recv.name && self@ == old(
                        self,
                    )@.update(i, recv);
                assert(self@[i] == recv);
            } else {
                assert(self@ == old(self)@.push(recv));
                assert(self@[old(self)@.len() as int] == recv);
            }
        }
    }

    /// Evicts every record whose process id is not among `live_pids`:
    /// reconciliation against real process liveness.
    pub fn cleanup_stale(&mut self, live_pids: &Vec<u32>)
        ensures
            final(self)@ == keep_live(old(self)@, live_pids@),
            old(self).wf() ==> final(self).wf(),
    {
        let ghost pre = self@;
        let n = self.models.len();
        let mut kept: Vec<RunningModel> = Vec::new();
        let mut k: usize = 0;
        while k < n
            invariant
                0 <= k <= n,
                n == self.models.len(),
                pre == self@,
                recs_view(kept@) =~= keep_live(pre.take(k as int), live_pids@),
            decreases n - k,
        {
            proof {
                assert(pre.take(k + 1 as int).drop_last() =~= pre.take(k as int));
                assert(pre.take(k + 1 as int).last() == pre[k as int]);
            }
            if contains_pid(live_pids, self.models[k].pid) {
                let ghost old_kept = kept@;
                kept.push(self.models[k].clone());
                proof {
                    assert(recs_view(kept@) =~= recs_view(old_kept).push(pre[k as int]));
                }
            }
            k = k + 1;
        }
        proof {
            assert(pre.take(n as int) =~= pre);
        }
        self.models = kept;
        proof {
            if old(self).wf() {
                lemma_keep_live_wf(pre, live_pids@);
            }
        }
    }
}

/// The records whose process id is in `live`, keeping their order.
pub open spec fn keep_live(v: Seq<RunningModelV>, live: Seq<u32>) -> Seq<RunningModelV>
    decreases v.len(),
{
    if v.len() == 0 {
        Seq::empty()
    } else {
        let rest = keep_live(v.drop_last(), live);
        if live.contains(v.last().pid) {
            rest.push(v.last())
        } else {
            rest
        }
    }
}

/// Reconciliation evicts exactly the dead: every surviving record's
/// process is live, a record with a dead process never survives, and every
/// record with a live process does.
pub proof fn lemma_cleanup_stale_evicts(v: Seq<RunningModelV>, live: Seq<u32>)
    ensures
        forall|i: int|
            0 <= i < keep_live(v, live).len() ==> live.contains(
                #[trigger] keep_live(v, live)[i].pid,
            ),
        forall|r: RunningModelV| !live.contains(r.pid) ==> !keep_live(v, live).contains(r),
        forall|i: int|
            0 <= i < v.len() && live.contains(#[trigger] v[i].pid) ==> keep_live(
                v,
                live,
            ).contains(v[i]),
    decreases v.len(),
{
    if v.len() > 0 {
        lemma_cleanup_stale_evicts(v.drop_last(), live);
        let rest = keep_live(v.drop_last(), live);
        assert forall|i: int|
            0 <= i < v.len() && live.contains(#[trigger] v[i].pid) implies keep_live(
            v,
            live,
        ).contains(v[i]) by {
            if i < v.len() - 1 {
                assert(v.drop_last()[i] == v[i]);
                assert(rest.contains(v[i]));
                let w = choose|k: int| 0 <= k < rest.len() && rest[k] == v[i];
                if live.contains(v.last().pid) {
                    assert(rest.push(v.last())[w] == v[i]);
                }
            } else {
                assert(keep_live(v, live).last() == v.last());
            }
        }
    }
}

/// Every survivor of reconciliation was in the registry before it.
proof fn lemma_keep_live_shape(v: Seq<RunningModelV>, live: Seq<u32>)
    ensures
        forall|r: RunningModelV| #[trigger] keep_live(v, live).contains(r) ==> v.contains(r),
        keep_live(v, live).len() <= v.len(),
    decreases v.len(),
{
    if v.len() > 0 {
        lemma_keep_live_shape(v.drop_last(), live);
        let rest = keep_live(v.drop_last(), live);
        assert forall|r: RunningModelV| #[trigger] keep_live(v, live).contains(r) implies v
            .contains(r) by {
            if keep_live(v, live).contains(r) {
                let w = choose|k: int|
                    0 <= k < keep_live(v, live).len() && keep_live(v, live)[k] == r;
                if live.contains(v.last().pid) && w == rest.len() {
                    assert(v[v.len() - 1] == r);
                } else {
                    assert(rest.contains(r));
                    assert(v.drop_last().contains(r));
                    let u = choose|k: int|
                        0 <= k < v.drop_last().len() && v.drop_last()[k] == r;
                    assert(v[u] == r);
                }
            }
        }
    }
}

/// Builds a registry from loose records, refusing a duplicate name.
pub fn from_records(records: Vec<RunningModel>) -> (r: Option<ModelState>)
    ensures
        r matches Some(st) ==> st@ == recs_view(records@) && st.wf(),
        r is None ==> !names_unique(recs_view(records@)),
{
    let ghost v = recs_view(records@);
    let n = records.len();
    let mut k: usize = 1;
    while k < n
        invariant
            1 <= k <= n || n == 0,
            n == records.len(),
            v == recs_view(records@),
            forall|a: int, b: int| 0 <= a < b < k ==> v[a].name != v[b].name,
        decreases n - k,
    {
        let mut l: usize = 0;
        while l < k
            invariant
                0 <= l <= k < n,
                n == records.len(),
                v == recs_view(records@),
                forall|a: int| 0 <= a < l ==> v[a].name != v[k as int].name,
            decreases k - l,
        {
            if str_eq(records[l].name.as_str(), records[k].name.as_str()) {
                assert(!names_unique(v)) by {
                    assert(v[l as int] == records@[l as int]@);
                    assert(v[k as int] == records@[k as int]@);
                    assert(v[l as int].name == v[k as int].name);
                }
                return None;
            }
            l = l + 1;
        }
        k = k + 1;
    }
    let st = ModelState { models: records };
    Some(st)
}

/// Reconciliation preserves well-formedness: distinct names stay
/// distinct.
proof fn lemma_keep_live_wf(v: Seq<RunningModelV>, live: Seq<u32>)
    requires
        forall|i: int, j: int| 0 <= i < j < v.len() ==> v[i].name != v[j].name,
    ensures
        forall|i: int, j: int|
            0 <= i < j < keep_live(v, live).len() ==> keep_live(v, live)[i].name != keep_live(
                v,
                live,
            )[j].name,
    decreases v.len(),
{
    if v.len() > 0 {
        let d = v.drop_last();
        assert(forall|i: int, j: int| 0 <= i < j < d.len() ==> d[i].name != d[j].name);
        lemma_keep_live_wf(d, live);
        lemma_keep_live_shape(d, live);
        let rest = keep_live(d, live);
        if live.contains(v.last().pid) {
            let w = rest.push(v.last());
            assert forall|i: int, j: int|
                0 <= i < j < w.len() implies w[i].name != w[j].name by {
                if j < rest.len() {
                    assert(rest[i].name != rest[j].name);
                } else {
                    assert(w[j] == v.last());
                    assert(rest.contains(rest[i]));
                    assert(d.contains(rest[i]));
                    let u = choose|u: int| 0 <= u < d.len() && d[u] == rest[i];
                    assert(v[u] == rest[i]);
                    assert(v[u].name != v.last().name);
                }
            }
        }
    }
}

fn contains_pid(live: &Vec<u32>, pid: u32) -> (r: bool)
    ensures
        r == live@.contains(pid),
{
    let n = live.len();
    let mut k: usize = 0;
    while k < n
        invariant
            0 <= k <= n,
            n == live@.len(),
            forall|j: int| 0 <= j < k ==> live@[j] != pid,
        decreases n - k,
    {
        if live[k] == pid {
            return true;
        }
        k = k + 1;
    }
    false
}

/// Relies on chrono's `Local::now` and `DateTime::format`: the current
/// local time rendered as `YYYY-MM-DD HH:MM:SS`. The result depends on the
/// clock and time zone, so nothing is promised of it.
#[verifier::external_body]
fn local_timestamp() -> String {
    chrono::Local::now().format("%Y-%m-%d %H:%M:%S").to_string()
}

/// The registry snapshot's place under the configuration directory.
pub fn get_state_file(config_dir: &str) -> (r: String)
    ensures
        r@ == config_dir@ + "/models.json"@,
{
    let mut s = config_dir.to_owned();
    s.append("/models.json");
    s
}

} // verus!
