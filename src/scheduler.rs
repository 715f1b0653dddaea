use vstd::prelude::*;
use vstd::string::StringExecFns;
use crate::error::{ModbusError, PLCError};
use crate::facade::{decoded, read_plan, read_request, decode_reply, Reply, Request};
use crate::notice::{make_update, update_of, Update};
use crate::task::{DataType, TaskDefinition, TaskKey, generate_task_key, key_of, task_key, data_type_of};

verus! {

/// What the scheduler holds, as mathematical values.
pub struct SchedulerView {
    pub tasks: Map<TaskKey, TaskDefinition>,
    pub by_interval: Map<u64, Set<TaskKey>>,
    pub counter: u64,
    pub running: bool,
}

/// The interval index agrees with the task map: every task sits in the
/// bucket of its own interval, a bucket holds only tasks of its interval,
/// and no bucket is empty. Every task is stored under its own key and has an
/// interval of at least one tick.
pub open spec fn coherent(v: SchedulerView) -> bool {
    &&& forall|k: TaskKey| #[trigger]
        v.tasks.contains_key(k) ==> {
            &&& v.by_interval.contains_key(v.tasks[k].interval_ms)
            &&& v.by_interval[v.tasks[k].interval_ms].contains(k)
            &&& key_of(v.tasks[k]) == k
            &&& v.tasks[k].interval_ms >= 1
        }
    &&& forall|iv: u64, k: TaskKey|
        v.by_interval.contains_key(iv) && #[trigger] v.by_interval[iv].contains(k) ==> v.tasks.contains_key(k)
            && v.tasks[k].interval_ms == iv
    &&& forall|iv: u64| #[trigger]
        v.by_interval.contains_key(iv) ==> v.by_interval[iv] != Set::<TaskKey>::empty()
}

/// The keys of the tasks that fall due on tick `t`.
pub open spec fn due_keys(tasks: Map<TaskKey, TaskDefinition>, t: u64) -> Set<TaskKey> {
    Set::new(|k: TaskKey| tasks.contains_key(k) && t % tasks[k].interval_ms == 0)
}

/// `r` lists each task whose key is in `keys` exactly once, as stored.
pub open spec fn dispatches(r: Seq<TaskDefinition>, tasks: Map<TaskKey, TaskDefinition>, keys: Set<TaskKey>) -> bool {
    &&& forall|i: int| 0 <= i < r.len() ==> tasks.contains_key(key_of(#[trigger] r[i])) && tasks[key_of(r[i])] == r[i]
        && keys.contains(key_of(r[i]))
    &&& forall|k: TaskKey| #[trigger] keys.contains(k) ==> exists|i: int| 0 <= i < r.len() && key_of(r[i]) == k
    &&& forall|i: int, j: int| 0 <= i < r.len() && 0 <= j < r.len() && i != j ==> key_of(#[trigger] r[i]) != key_of(#[trigger] r[j])
}

/// The tick counter after one more tick; it wraps at the top of `u64`.
pub open spec fn next_count(c: u64) -> u64 {
    if c == u64::MAX { 0 } else { (c + 1) as u64 }
}

/// The state after one wake of the driver: a running scheduler counts one
/// more tick, an idle one stays as it is.
pub open spec fn after_tick(v: SchedulerView) -> SchedulerView {
    if v.running {
        SchedulerView { counter: next_count(v.counter), ..v }
    } else {
        v
    }
}

/// The keys of the tasks dispatched by one wake of the driver.
pub open spec fn tick_keys(v: SchedulerView) -> Set<TaskKey> {
    if v.running {
        due_keys(v.tasks, next_count(v.counter))
    } else {
        Set::empty()
    }
}

/// Some entry of `r` carries the key `k`.
pub open spec fn listed(r: Seq<TaskDefinition>, k: TaskKey) -> bool {
    exists|i: int| 0 <= i < r.len() && key_of(r[i]) == k
}

proof fn lemma_listed_push(r: Seq<TaskDefinition>, d: TaskDefinition, k: TaskKey)
    requires
        listed(r, k),
    ensures
        listed(r.push(d), k),
{
    let i = choose|i: int| 0 <= i < r.len() && key_of(r[i]) == k;
    assert(r.push(d)[i] == r[i]);
}

struct IntervalGroup {
    interval_ms: u64,
    keys: Vec<TaskKey>,
}

/// Registered periodic polls, their interval index, the tick counter and
/// the running flag.
pub struct TaskScheduler {
    tasks: Vec<TaskDefinition>,
    groups: Vec<IntervalGroup>,
    counter: u64,
    running: bool,
    task_map: Ghost<Map<TaskKey, TaskDefinition>>,
    index: Ghost<Map<u64, Set<TaskKey>>>,
}

spec fn tasks_stored(s: Seq<TaskDefinition>, m: Map<TaskKey, TaskDefinition>) -> bool {
    &&& forall|i: int| 0 <= i < s.len() ==> m.contains_key(key_of(#[trigger] s[i])) && m[key_of(s[i])] == s[i]
    &&& forall|k: TaskKey| #[trigger] m.contains_key(k) ==> exists|i: int| 0 <= i < s.len() && key_of(s[i]) == k
    &&& forall|i: int, j: int| 0 <= i < s.len() && 0 <= j < s.len() && i != j ==> key_of(#[trigger] s[i]) != key_of(#[trigger] s[j])
}

spec fn groups_stored(g: Seq<IntervalGroup>, idx: Map<u64, Set<TaskKey>>) -> bool {
    &&& forall|a: int| 0 <= a < g.len() ==> #[trigger] idx.contains_key(g[a].interval_ms)
    &&& forall|a: int, k: TaskKey| 0 <= a < g.len() ==> (#[trigger] idx[g[a].interval_ms].contains(k) <==> g[a].keys@.contains(k))
    &&& forall|a: int| 0 <= a < g.len() ==> (#[trigger] g[a].keys@).no_duplicates()
    &&& forall|iv: u64| #[trigger] idx.contains_key(iv) ==> exists|a: int| 0 <= a < g.len() && g[a].interval_ms == iv
    &&& forall|a: int, b: int| 0 <= a < g.len() && 0 <= b < g.len() && a != b ==> (#[trigger] g[a]).interval_ms != (#[trigger] g[b]).interval_ms
}

impl View for TaskScheduler {
    type V = SchedulerView;

    closed spec fn view(&self) -> SchedulerView {
        SchedulerView {
            tasks: self.task_map@,
            by_interval: self.index@,
            counter: self.counter,
            running: self.running,
        }
    }
}

impl TaskScheduler {
    /// The scheduler's internal invariant; it implies `coherent(self@)`.
    pub closed spec fn wf(&self) -> bool {
        &&& coherent(self@)
        &&& tasks_stored(self.tasks@, self.task_map@)
        &&& groups_stored(self.groups@, self.index@)
    }

    /// An idle scheduler with no tasks and the counter at zero.
    pub fn new() -> (r: TaskScheduler)
        ensures
            r.wf(),
            r@.tasks == Map::<TaskKey, TaskDefinition>::empty(),
            r@.by_interval == Map::<u64, Set<TaskKey>>::empty(),
            r@.counter == 0,
            !r@.running,
    {
        TaskScheduler {
            tasks: Vec::new(),
            groups: Vec::new(),
            counter: 0,
            running: false,
            task_map: Ghost(Map::empty()),
            index: Ghost(Map::empty()),
        }
    }

    fn find_task(&self, key: TaskKey) -> (r: Option<usize>)
        ensures
            match r {
                Some(i) => i < self.tasks.len() && key_of(self.tasks@[i as int]) == key,
                None => forall|i: int| 0 <= i < self.tasks.len() ==> key_of(#[trigger] self.tasks@[i]) != key,
            },
    {
        let mut i: usize = 0;
        while i < self.tasks.len()
            invariant
                i <= self.tasks.len(),
                forall|j: int| 0 <= j < i ==> key_of(#[trigger] self.tasks@[j]) != key,
            decreases self.tasks.len() - i,
        {
            if self.tasks[i].key() == key {
                return Some(i);
            }
            i = i + 1;
        }
        None
    }
}

impl TaskScheduler {
    fn add_key(&mut self, iv: u64, key: TaskKey)
        requires
            groups_stored(old(self).groups@, old(self).index@),
            forall|v: u64| #[trigger] old(self).index@.contains_key(v) ==> !old(self).index@[v].contains(key),
        ensures
            groups_stored(final(self).groups@, final(self).index@),
            final(self).index@ == old(self).index@.insert(
                iv,
                if old(self).index@.contains_key(iv) {
                    old(self).index@[iv].insert(key)
                } else {
                    set![key]
                },
            ),
            final(self).tasks == old(self).tasks,
            final(self).task_map == old(self).task_map,
            final(self).counter == old(self).counter,
            final(self).running == old(self).running,
    {
        let ghost g0 = self.groups@;
        let ghost idx0 = self.index@;
        match find_group(&self.groups, iv) {
            Some(a) => {
                let mut grp = self.groups.remove(a);
                let ghost keys0 = grp.keys@;
                grp.keys.push(key);
                let ghost keys1 = grp.keys@;
                self.groups.insert(a, grp);
                self.index = Ghost(idx0.insert(iv, idx0[iv].insert(key)));
                proof {
                    assert(self.groups@ =~= g0.update(a as int, self.groups@[a as int]));
                    assert(keys1 == keys0.push(key));
                    assert(!keys0.contains(key)) by {
                        assert(idx0.contains_key(g0[a as int].interval_ms));
                        if keys0.contains(key) {
                            assert(idx0[iv].contains(key));
                        }
                    }
                    assert forall|k: TaskKey| keys1.contains(k) <==> (keys0.contains(k) || k == key) by {
                        if keys0.contains(k) {
                            let j = choose|j: int| 0 <= j < keys0.len() && keys0[j] == k;
                            assert(keys1[j] == k);
                        }
                        if k == key {
                            assert(keys1[keys0.len() as int] == key);
                        }
                        if keys1.contains(k) {
                            let j = choose|j: int| 0 <= j < keys1.len() && keys1[j] == k;
                            if j < keys0.len() {
                                assert(keys0[j] == k);
                            }
                        }
                    }
                    let g1 = self.groups@;
                    let idx1 = self.index@;
                    assert forall|b: int, k: TaskKey| 0 <= b < g1.len() implies (#[trigger] idx1[g1[b].interval_ms].contains(k)
                        <==> g1[b].keys@.contains(k)) by {
                        if b != a {
                            assert(g1[b] == g0[b]);
                            assert(g0[b].interval_ms != iv);
                        }
                    }
                    assert forall|b: int| 0 <= b < g1.len() implies (#[trigger] g1[b].keys@).no_duplicates() by {
                        if b != a {
                            assert(g1[b] == g0[b]);
                        }
                    }
                    assert forall|v: u64| #[trigger] idx1.contains_key(v) implies exists|b: int| 0 <= b < g1.len() && g1[b].interval_ms == v by {
                        if v != iv {
                            let b = choose|b: int| 0 <= b < g0.len() && g0[b].interval_ms == v;
                            assert(g1[b].interval_ms == v);
                        } else {
                            assert(g1[a as int].interval_ms == v);
                        }
                    }
                    assert forall|b: int, c: int| 0 <= b < g1.len() && 0 <= c < g1.len() && b != c implies (#[trigger] g1[b]).interval_ms
                        != (#[trigger] g1[c]).interval_ms by {
                        assert(g0[b].interval_ms != g0[c].interval_ms);
                    }
                    assert forall|b: int| 0 <= b < g1.len() implies #[trigger] idx1.contains_key(g1[b].interval_ms) by {
                        assert(idx0.contains_key(g0[b].interval_ms));
                    }
                }
            },
            None => {
                let mut keys: Vec<TaskKey> = Vec::new();
                keys.push(key);
                self.groups.push(IntervalGroup { interval_ms: iv, keys });
                self.index = Ghost(idx0.insert(iv, set![key]));
                proof {
                    assert(!idx0.contains_key(iv));
                    let g1 = self.groups@;
                    let idx1 = self.index@;
                    let n = g0.len() as int;
                    assert(g1[n].keys@ == seq![key]);
                    assert forall|b: int, k: TaskKey| 0 <= b < g1.len() implies (#[trigger] idx1[g1[b].interval_ms].contains(k)
                        <==> g1[b].keys@.contains(k)) by {
                        if b < n {
                            assert(g1[b] == g0[b]);
                            assert(g0[b].interval_ms != iv);
                        } else {
                            if k == key {
                                assert(g1[n].keys@[0] == key);
                            }
                        }
                    }
                    assert forall|b: int| 0 <= b < g1.len() implies (#[trigger] g1[b].keys@).no_duplicates() by {
                        if b < n {
                            assert(g1[b] == g0[b]);
                        }
                    }
                    assert forall|v: u64| #[trigger] idx1.contains_key(v) implies exists|b: int| 0 <= b < g1.len() && g1[b].interval_ms == v by {
                        if v != iv {
                            let b = choose|b: int| 0 <= b < g0.len() && g0[b].interval_ms == v;
                            assert(g1[b].interval_ms == v);
                        } else {
                            assert(g1[n].interval_ms == v);
                        }
                    }
                    assert forall|b: int| 0 <= b < g1.len() implies #[trigger] idx1.contains_key(g1[b].interval_ms) by {
                        if b < n {
                            assert(idx0.contains_key(g0[b].interval_ms));
                        }
                    }
                }
            },
        }
    }
}

impl TaskScheduler {
    fn remove_key(&mut self, iv: u64, key: TaskKey)
        requires
            groups_stored(old(self).groups@, old(self).index@),
            old(self).index@.contains_key(iv),
            old(self).index@[iv].contains(key),
        ensures
            groups_stored(final(self).groups@, final(self).index@),
            final(self).index@ == (if old(self).index@[iv].remove(key) == Set::<TaskKey>::empty() {
                old(self).index@.remove(iv)
            } else {
                old(self).index@.insert(iv, old(self).index@[iv].remove(key))
            }),
            final(self).tasks == old(self).tasks,
            final(self).task_map == old(self).task_map,
            final(self).counter == old(self).counter,
            final(self).running == old(self).running,
    {
        let ghost g0 = self.groups@;
        let ghost idx0 = self.index@;
        let found = find_group(&self.groups, iv);
        if found.is_none() {
            proof {
                let b = choose|b: int| 0 <= b < g0.len() && g0[b].interval_ms == iv;
                assert(g0[b].interval_ms != iv);
            }
            return;
        }
        let a = found.unwrap();
        let mut grp = self.groups.remove(a);
        let ghost keys0 = grp.keys@;
        let ghost g_mid = self.groups@;
        assert(g_mid =~= g0.remove(a as int));
        assert(keys0 == g0[a as int].keys@);
        assert(keys0.contains(key));
        let position = find_key(&grp.keys, key);
        if position.is_none() {
            return;
        }
        let j = position.unwrap();
        grp.keys.remove(j);
        let ghost keys1 = grp.keys@;
        proof {
            assert(keys1 == keys0.remove(j as int));
            assert(keys0.no_duplicates());
            assert forall|k: TaskKey| keys1.contains(k) <==> (keys0.contains(k) && k != key) by {
                if keys1.contains(k) {
                    let i = choose|i: int| 0 <= i < keys1.len() && keys1[i] == k;
                    if i < j {
                        assert(keys0[i] == k);
                        assert(i != j);
                    } else {
                        assert(keys0[i + 1] == k);
                        assert(i + 1 != j);
                    }
                }
                if keys0.contains(k) && k != key {
                    let i = choose|i: int| 0 <= i < keys0.len() && keys0[i] == k;
                    assert(i != j);
                    if i < j {
                        assert(keys1[i] == k);
                    } else {
                        assert(keys1[i - 1] == k);
                    }
                }
            }
            assert(keys1.no_duplicates()) by {
                assert forall|x: int, y: int| 0 <= x < keys1.len() && 0 <= y < keys1.len() && x != y implies keys1[x] != keys1[y] by {
                    let x0 = if x < j { x } else { x + 1 };
                    let y0 = if y < j { y } else { y + 1 };
                    assert(keys1[x] == keys0[x0]);
                    assert(keys1[y] == keys0[y0]);
                }
            }
            assert forall|k: TaskKey| idx0[iv].contains(k) <==> keys0.contains(k) by {
                assert(idx0[g0[a as int].interval_ms].contains(k) <==> g0[a as int].keys@.contains(k));
            }
        }
        if grp.keys.len() == 0 {
            self.index = Ghost(idx0.remove(iv));
            proof {
                assert(idx0[iv].remove(key) =~= Set::<TaskKey>::empty()) by {
                    assert forall|k: TaskKey| !idx0[iv].remove(key).contains(k) by {
                        if idx0[iv].contains(k) && k != key {
                            assert(keys1.contains(k));
                        }
                    }
                }
                let g1 = self.groups@;
                let idx1 = self.index@;
                assert forall|b: int| 0 <= b < g1.len() implies #[trigger] idx1.contains_key(g1[b].interval_ms) by {
                    let b0 = if b < a { b } else { b + 1 };
                    assert(g1[b] == g0[b0]);
                    assert(idx0.contains_key(g0[b0].interval_ms));
                    assert(g0[b0].interval_ms != g0[a as int].interval_ms);
                }
                assert forall|b: int, k: TaskKey| 0 <= b < g1.len() implies (#[trigger] idx1[g1[b].interval_ms].contains(k)
                    <==> g1[b].keys@.contains(k)) by {
                    let b0 = if b < a { b } else { b + 1 };
                    assert(g1[b] == g0[b0]);
                    assert(g0[b0].interval_ms != g0[a as int].interval_ms);
                }
                assert forall|b: int| 0 <= b < g1.len() implies (#[trigger] g1[b].keys@).no_duplicates() by {
                    let b0 = if b < a { b } else { b + 1 };
                    assert(g1[b] == g0[b0]);
                }
                assert forall|v: u64| #[trigger] idx1.contains_key(v) implies exists|b: int| 0 <= b < g1.len() && g1[b].interval_ms == v by {
                    let b0 = choose|b: int| 0 <= b < g0.len() && g0[b].interval_ms == v;
                    assert(b0 != a);
                    let b = if b0 < a { b0 } else { b0 - 1 };
                    assert(g1[b] == g0[b0]);
                }
                assert forall|b: int, c: int| 0 <= b < g1.len() && 0 <= c < g1.len() && b != c implies (#[trigger] g1[b]).interval_ms
                    != (#[trigger] g1[c]).interval_ms by {
                    let b0 = if b < a { b } else { b + 1 };
                    let c0 = if c < a { c } else { c + 1 };
                    assert(g1[b] == g0[b0]);
                    assert(g1[c] == g0[c0]);
                }
            }
        } else {
            self.groups.insert(a, grp);
            self.index = Ghost(idx0.insert(iv, idx0[iv].remove(key)));
            proof {
                assert(idx0[iv].remove(key) != Set::<TaskKey>::empty()) by {
                    assert(keys1.contains(keys1[0]));
                    assert(idx0[iv].remove(key).contains(keys1[0]));
                }
                let g1 = self.groups@;
                let idx1 = self.index@;
                assert(g1 =~= g0.update(a as int, g1[a as int]));
                assert forall|b: int| 0 <= b < g1.len() implies #[trigger] idx1.contains_key(g1[b].interval_ms) by {
                    assert(idx0.contains_key(g0[b].interval_ms));
                }
                assert forall|b: int, k: TaskKey| 0 <= b < g1.len() implies (#[trigger] idx1[g1[b].interval_ms].contains(k)
                    <==> g1[b].keys@.contains(k)) by {
                    if b != a {
                        assert(g1[b] == g0[b]);
                        assert(g0[b].interval_ms != iv);
                    }
                }
                assert forall|b: int| 0 <= b < g1.len() implies (#[trigger] g1[b].keys@).no_duplicates() by {
                    if b != a {
                        assert(g1[b] == g0[b]);
                    }
                }
                assert forall|v: u64| #[trigger] idx1.contains_key(v) implies exists|b: int| 0 <= b < g1.len() && g1[b].interval_ms == v by {
                    let b = choose|b: int| 0 <= b < g0.len() && g0[b].interval_ms == v;
                    assert(g1[b].interval_ms == v);
                }
                assert forall|b: int, c: int| 0 <= b < g1.len() && 0 <= c < g1.len() && b != c implies (#[trigger] g1[b]).interval_ms
                    != (#[trigger] g1[c]).interval_ms by {
                    assert(g0[b].interval_ms != g0[c].interval_ms);
                }
            }
        }
    }
}

impl TaskScheduler {
    /// Registers a periodic read of `address` on connection `client_id` every
    /// `interval_ms` ticks. A task with the same key is replaced, interval
    /// included. An interval of zero is refused and nothing changes.
    pub fn register_task(
        &mut self,
        client_id: i64,
        interval_ms: u64,
        address: u16,
        data_type: u8,
        read_only: bool,
    ) -> (r: Result<(), PLCError>)
        requires
            old(self).wf(),
        ensures
            final(self).wf(),
            coherent(final(self)@),
            interval_ms == 0 ==> final(self)@ == old(self)@ && (r matches Err(PLCError::Other(m)) && m@ == "间隔时间不能为零"@),
            interval_ms != 0 ==> r is Ok && final(self)@ == (SchedulerView {
                tasks: old(self)@.tasks.insert(
                    task_key(client_id, address, data_type_of(data_type), read_only),
                    TaskDefinition { client_id, address, data_type: data_type_of(data_type), read_only, interval_ms },
                ),
                ..final(self)@
            }),
            final(self)@.counter == old(self)@.counter,
            final(self)@.running == old(self)@.running,
    {
        if interval_ms == 0 {
            return Err(PLCError::Other(String::from_str("间隔时间不能为零")));
        }
        let data_type = DataType::from(data_type);
        let key = generate_task_key(client_id, address, data_type, read_only);
        let def = TaskDefinition { client_id, address, data_type, read_only, interval_ms };
        let ghost t0 = self.tasks@;
        let ghost m0 = self.task_map@;
        let ghost idx0 = self.index@;
        assert(key_of(def) == key);
        assert(coherent(self@));
        assert(self@.tasks == m0 && self@.by_interval == idx0);
        match self.find_task(key) {
            Some(i) => {
                let old_interval = self.tasks[i].interval_ms;
                self.tasks.set(i, def);
                self.task_map = Ghost(m0.insert(key, def));
                proof {
                    assert(m0.contains_key(key) && m0[key] == t0[i as int]);
                    assert(idx0.contains_key(old_interval) && idx0[old_interval].contains(key));
                }
                if old_interval != interval_ms {
                    self.remove_key(old_interval, key);
                    proof {
                        let idx1 = self.index@;
                        assert forall|v: u64| #[trigger] idx1.contains_key(v) implies !idx1[v].contains(key) by {
                            if v != old_interval && idx0[v].contains(key) {
                                assert(m0[key].interval_ms == v);
                            }
                        }
                    }
                    self.add_key(interval_ms, key);
                }
                proof {
                    let t1 = self.tasks@;
                    let m1 = self.task_map@;
                    let idx1 = self.index@;
                    assert forall|x: int| 0 <= x < t1.len() implies m1.contains_key(key_of(#[trigger] t1[x])) && m1[key_of(t1[x])]
                        == t1[x] by {
                        if x != i {
                            assert(t1[x] == t0[x]);
                            assert(key_of(t0[x]) != key_of(t0[i as int]));
                        }
                    }
                    assert forall|k: TaskKey| #[trigger] m1.contains_key(k) implies exists|x: int| 0 <= x < t1.len() && key_of(t1[x]) == k by {
                        if k == key {
                            assert(key_of(t1[i as int]) == k);
                        } else {
                            let x = choose|x: int| 0 <= x < t0.len() && key_of(t0[x]) == k;
                            assert(x != i);
                            assert(t1[x] == t0[x]);
                        }
                    }
                    assert forall|x: int, y: int| 0 <= x < t1.len() && 0 <= y < t1.len() && x != y implies key_of(#[trigger] t1[x])
                        != key_of(#[trigger] t1[y]) by {
                        assert(key_of(t0[x]) != key_of(t0[y]));
                    }
                    assert forall|k: TaskKey| #[trigger] m1.contains_key(k) implies {
                        &&& idx1.contains_key(m1[k].interval_ms)
                        &&& idx1[m1[k].interval_ms].contains(k)
                        &&& key_of(m1[k]) == k
                        &&& m1[k].interval_ms >= 1
                    } by {
                        if k != key {
                            assert(m0.contains_key(k));
                            if old_interval != interval_ms {
                                assert(idx0[m0[k].interval_ms].contains(k));
                                assert(m0[k].interval_ms == old_interval ==> idx0[old_interval].remove(key).contains(k));
                            }
                        }
                    }
                    assert forall|v: u64, k: TaskKey| idx1.contains_key(v) && #[trigger] idx1[v].contains(k) implies m1.contains_key(k)
                        && m1[k].interval_ms == v by {
                        if k != key {
                            if old_interval != interval_ms {
                                if v == interval_ms {
                                    if idx0.contains_key(v) {
                                        assert(idx0[v].contains(k));
                                    }
                                } else if v == old_interval {
                                    assert(idx0[v].contains(k));
                                } else {
                                    assert(idx0[v].contains(k));
                                }
                            } else {
                                assert(idx0[v].contains(k));
                            }
                        } else {
                            if old_interval != interval_ms {
                                if v != interval_ms {
                                    assert(!idx1[v].contains(key));
                                }
                            } else {
                                assert(idx0[v].contains(key));
                                assert(m0[key].interval_ms == v);
                            }
                        }
                    }
                    assert forall|v: u64| #[trigger] idx1.contains_key(v) implies idx1[v] != Set::<TaskKey>::empty() by {
                        if v == interval_ms {
                            assert(idx1[v].contains(key));
                        } else {
                            assert(idx0.contains_key(v));
                        }
                    }
                    assert(self.wf());
                    assert(self@ == (SchedulerView { tasks: m0.insert(key, def), ..self@ }));
                }
            },
            None => {
                proof {
                    assert(!m0.contains_key(key)) by {
                        if m0.contains_key(key) {
                            let x = choose|x: int| 0 <= x < t0.len() && key_of(t0[x]) == key;
                        }
                    }
                    assert forall|v: u64| #[trigger] idx0.contains_key(v) implies !idx0[v].contains(key) by {
                        if idx0[v].contains(key) {
                            assert(m0.contains_key(key));
                        }
                    }
                }
                self.tasks.push(def);
                self.task_map = Ghost(m0.insert(key, def));
                self.add_key(interval_ms, key);
                proof {
                    let t1 = self.tasks@;
                    let m1 = self.task_map@;
                    let idx1 = self.index@;
                    let n = t0.len() as int;
                    assert forall|x: int| 0 <= x < t1.len() implies m1.contains_key(key_of(#[trigger] t1[x])) && m1[key_of(t1[x])]
                        == t1[x] by {
                        if x < n {
                            assert(t1[x] == t0[x]);
                            assert(m0.contains_key(key_of(t0[x])));
                        }
                    }
                    assert forall|k: TaskKey| #[trigger] m1.contains_key(k) implies exists|x: int| 0 <= x < t1.len() && key_of(t1[x]) == k by {
                        if k == key {
                            assert(key_of(t1[n]) == k);
                        } else {
                            let x = choose|x: int| 0 <= x < t0.len() && key_of(t0[x]) == k;
                            assert(t1[x] == t0[x]);
                        }
                    }
                    assert forall|x: int, y: int| 0 <= x < t1.len() && 0 <= y < t1.len() && x != y implies key_of(#[trigger] t1[x])
                        != key_of(#[trigger] t1[y]) by {
                        if x < n && y < n {
                            assert(key_of(t0[x]) != key_of(t0[y]));
                        } else if x < n {
                            assert(m0.contains_key(key_of(t0[x])));
                        } else if y < n {
                            assert(m0.contains_key(key_of(t0[y])));
                        }
                    }
                    assert forall|k: TaskKey| #[trigger] m1.contains_key(k) implies {
                        &&& idx1.contains_key(m1[k].interval_ms)
                        &&& idx1[m1[k].interval_ms].contains(k)
                        &&& key_of(m1[k]) == k
                        &&& m1[k].interval_ms >= 1
                    } by {
                        if k != key {
                            assert(m0.contains_key(k));
                        }
                    }
                    assert forall|v: u64, k: TaskKey| idx1.contains_key(v) && #[trigger] idx1[v].contains(k) implies m1.contains_key(k)
                        && m1[k].interval_ms == v by {
                        if k != key {
                            if v == interval_ms && !idx0.contains_key(v) {
                                assert(idx1[v] == set![key]);
                            }
                            assert(idx0.contains_key(v));
                            assert(idx0[v].contains(k));
                        } else if v != interval_ms {
                            assert(idx0.contains_key(v));
                            assert(idx0[v].contains(k));
                        }
                    }
                    assert forall|v: u64| #[trigger] idx1.contains_key(v) implies idx1[v] != Set::<TaskKey>::empty() by {
                        if v == interval_ms {
                            assert(idx1[v].contains(key));
                        } else {
                            assert(idx0.contains_key(v));
                        }
                    }
                    assert(self.wf());
                    assert(self@ == (SchedulerView { tasks: m0.insert(key, def), ..self@ }));
                }
            },
        }
        Ok(())
    }
}

impl TaskScheduler {
    /// Removes the task with the key these parameters give. Fails with
    /// `TaskNotFound` when there is none, and then nothing changes.
    pub fn unregister_task(&mut self, client_id: i64, address: u16, data_type: u8, read_only: bool) -> (r: Result<
        (),
        PLCError,
    >)
        requires
            old(self).wf(),
        ensures
            final(self).wf(),
            coherent(final(self)@),
            old(self)@.tasks.contains_key(task_key(client_id, address, data_type_of(data_type), read_only)) ==> r is Ok
                && final(self)@ == (SchedulerView {
                tasks: old(self)@.tasks.remove(task_key(client_id, address, data_type_of(data_type), read_only)),
                ..final(self)@
            }),
            !old(self)@.tasks.contains_key(task_key(client_id, address, data_type_of(data_type), read_only))
                ==> final(self)@ == old(self)@ && r == Err::<(), PLCError>(PLCError::TaskNotFound { client_id, address }),
            final(self)@.counter == old(self)@.counter,
            final(self)@.running == old(self)@.running,
    {
        let data_type = DataType::from(data_type);
        let key = generate_task_key(client_id, address, data_type, read_only);
        let ghost t0 = self.tasks@;
        let ghost m0 = self.task_map@;
        let ghost idx0 = self.index@;
        assert(coherent(self@));
        assert(self@.tasks == m0 && self@.by_interval == idx0);
        match self.find_task(key) {
            None => {
                proof {
                    if m0.contains_key(key) {
                        let x = choose|x: int| 0 <= x < t0.len() && key_of(t0[x]) == key;
                        assert(key_of(t0[x]) != key);
                    }
                }
                Err(PLCError::TaskNotFound { client_id, address })
            },
            Some(i) => {
                let removed = self.tasks.remove(i);
                let interval = removed.interval_ms;
                self.task_map = Ghost(m0.remove(key));
                proof {
                    assert(removed == t0[i as int]);
                    assert(m0.contains_key(key) && m0[key] == removed);
                    assert(idx0.contains_key(interval) && idx0[interval].contains(key));
                }
                self.remove_key(interval, key);
                proof {
                    let t1 = self.tasks@;
                    let m1 = self.task_map@;
                    let idx1 = self.index@;
                    assert(t1 == t0.remove(i as int));
                    assert forall|x: int| 0 <= x < t1.len() implies m1.contains_key(key_of(#[trigger] t1[x])) && m1[key_of(t1[x])]
                        == t1[x] by {
                        let x0 = if x < i { x } else { x + 1 };
                        assert(t1[x] == t0[x0]);
                        assert(key_of(t0[x0]) != key_of(t0[i as int]));
                        assert(m0.contains_key(key_of(t0[x0])));
                    }
                    assert forall|k: TaskKey| #[trigger] m1.contains_key(k) implies exists|x: int| 0 <= x < t1.len() && key_of(t1[x]) == k by {
                        assert(m0.contains_key(k));
                        let x0 = choose|x: int| 0 <= x < t0.len() && key_of(t0[x]) == k;
                        assert(x0 != i);
                        let x = if x0 < i { x0 } else { x0 - 1 };
                        assert(t1[x] == t0[x0]);
                    }
                    assert forall|x: int, y: int| 0 <= x < t1.len() && 0 <= y < t1.len() && x != y implies key_of(#[trigger] t1[x])
                        != key_of(#[trigger] t1[y]) by {
                        let x0 = if x < i { x } else { x + 1 };
                        let y0 = if y < i { y } else { y + 1 };
                        assert(t1[x] == t0[x0]);
                        assert(t1[y] == t0[y0]);
                    }
                    assert forall|k: TaskKey| #[trigger] m1.contains_key(k) implies {
                        &&& idx1.contains_key(m1[k].interval_ms)
                        &&& idx1[m1[k].interval_ms].contains(k)
                        &&& key_of(m1[k]) == k
                        &&& m1[k].interval_ms >= 1
                    } by {
                        assert(m0.contains_key(k));
                        assert(idx0[m0[k].interval_ms].contains(k));
                        if m0[k].interval_ms == interval {
                            assert(idx0[interval].remove(key).contains(k));
                        }
                    }
                    assert forall|v: u64, k: TaskKey| idx1.contains_key(v) && #[trigger] idx1[v].contains(k) implies m1.contains_key(k)
                        && m1[k].interval_ms == v by {
                        assert(idx0.contains_key(v));
                        assert(idx0[v].contains(k));
                        if k == key {
                            assert(m0[key].interval_ms == v);
                            assert(!idx0[interval].remove(key).contains(key));
                        }
                    }
                    assert forall|v: u64| #[trigger] idx1.contains_key(v) implies idx1[v] != Set::<TaskKey>::empty() by {
                        assert(idx0.contains_key(v));
                    }
                    assert(self.wf());
                }
                Ok(())
            },
        }
    }
}

impl TaskScheduler {
    fn due_tasks(&self, t: u64) -> (r: Vec<TaskDefinition>)
        requires
            self.wf(),
        ensures
            dispatches(r@, self@.tasks, due_keys(self@.tasks, t)),
    {
        let ghost m = self.task_map@;
        let ghost idx = self.index@;
        let ghost g = self.groups@;
        assert(coherent(self@));
        assert(self@.tasks == m && self@.by_interval == idx);
        let mut r: Vec<TaskDefinition> = Vec::new();
        let mut a: usize = 0;
        while a < self.groups.len()
            invariant
                self.wf(),
                m == self.task_map@,
                idx == self.index@,
                g == self.groups@,
                coherent(self@),
                self@.tasks == m && self@.by_interval == idx,
                a <= g.len(),
                forall|i: int| 0 <= i < r.len() ==> m.contains_key(key_of(#[trigger] r@[i])) && m[key_of(r@[i])] == r@[i]
                    && t % r@[i].interval_ms == 0,
                forall|i: int| 0 <= i < r.len() ==> due_keys(m, t).contains(key_of(#[trigger] r@[i])),
                forall|i: int| 0 <= i < r.len() ==> exists|b: int| 0 <= b < a && g[b].interval_ms == (#[trigger] r@[i]).interval_ms,
                forall|b: int, j: int|
                    0 <= b < a && 0 <= j < g[b].keys@.len() && g[b].interval_ms != 0 && t % g[b].interval_ms == 0 ==> listed(
                        r@,
                        #[trigger] g[b].keys@[j],
                    ),
                forall|x: int, y: int| 0 <= x < r.len() && 0 <= y < r.len() && x != y ==> key_of(#[trigger] r@[x]) != key_of(
                    #[trigger] r@[y],
                ),
            decreases g.len() - a,
        {
            let iv = self.groups[a].interval_ms;
            if iv != 0 && t % iv == 0 {
                let ghost n0 = r.len() as int;
                let ghost keys = g[a as int].keys@;
                proof {
                    assert(idx.contains_key(iv));
                    assert(keys.no_duplicates());
                }
                let mut j: usize = 0;
                while j < self.groups[a].keys.len()
                    invariant
                        self.wf(),
                        m == self.task_map@,
                        idx == self.index@,
                        g == self.groups@,
                        coherent(self@),
                        self@.tasks == m && self@.by_interval == idx,
                        a < g.len(),
                        iv == g[a as int].interval_ms,
                        iv != 0 && t % iv == 0,
                        keys == g[a as int].keys@,
                        keys.no_duplicates(),
                        idx.contains_key(iv),
                        j <= keys.len(),
                        0 <= n0,
                        r.len() == n0 + j,
                        forall|i: int| 0 <= i < r.len() ==> m.contains_key(key_of(#[trigger] r@[i])) && m[key_of(r@[i])] == r@[i]
                            && t % r@[i].interval_ms == 0,
                        forall|i: int| 0 <= i < n0 ==> exists|b: int| 0 <= b < a && g[b].interval_ms == (#[trigger] r@[i]).interval_ms,
                        forall|i: int| n0 <= i < r.len() ==> key_of(#[trigger] r@[i]) == keys[i - n0] && r@[i].interval_ms == iv,
                        forall|b: int, jj: int|
                            0 <= b < a && 0 <= jj < g[b].keys@.len() && g[b].interval_ms != 0 && t % g[b].interval_ms == 0 ==> listed(
                                r@,
                                #[trigger] g[b].keys@[jj],
                            ),
                        forall|x: int, y: int| 0 <= x < r.len() && 0 <= y < r.len() && x != y ==> key_of(#[trigger] r@[x]) != key_of(
                            #[trigger] r@[y],
                        ),
                    decreases keys.len() - j,
                {
                    let key = self.groups[a].keys[j];
                    proof {
                        assert(keys[j as int] == key);
                        assert(keys.contains(key));
                        assert(idx[g[a as int].interval_ms].contains(key));
                        assert(m.contains_key(key) && m[key].interval_ms == iv);
                    }
                    match self.find_task(key) {
                        Some(x) => {
                            let def = self.tasks[x];
                            proof {
                                assert(m[key_of(self.tasks@[x as int])] == def);
                            }
                            let ghost r0 = r@;
                            r.push(def);
                            proof {
                                assert(r@ == r0.push(def));
                                assert forall|y: int| 0 <= y < r0.len() implies key_of(r0[y]) != key by {
                                    if y < n0 {
                                        let b = choose|b: int| 0 <= b < a && g[b].interval_ms == r0[y].interval_ms;
                                        assert(g[b].interval_ms != g[a as int].interval_ms);
                                    } else {
                                        assert(key_of(r0[y]) == keys[y - n0]);
                                        assert(y - n0 != j);
                                    }
                                }
                                assert forall|i: int| 0 <= i < r.len() implies m.contains_key(key_of(#[trigger] r@[i])) && m[key_of(
                                    r@[i],
                                )] == r@[i] && t % r@[i].interval_ms == 0 by {
                                    if i < r0.len() {
                                        assert(r@[i] == r0[i]);
                                    }
                                }
                                assert forall|i: int| 0 <= i < n0 implies exists|b: int| 0 <= b < a && g[b].interval_ms == (
                                #[trigger] r@[i]).interval_ms by {
                                    assert(r@[i] == r0[i]);
                                }
                                assert forall|i: int| n0 <= i < r.len() implies key_of(#[trigger] r@[i]) == keys[i - n0] && r@[i].interval_ms
                                    == iv by {
                                    if i < r0.len() {
                                        assert(r0.push(def)[i] == r0[i]);
                                        assert(key_of(r0[i]) == keys[i - n0]);
                                    } else {
                                        assert(i == n0 + j);
                                        assert(r0.push(def)[i] == def);
                                    }
                                }
                                assert forall|b: int, jj: int|
                                    0 <= b < a && 0 <= jj < g[b].keys@.len() && g[b].interval_ms != 0 && t % g[b].interval_ms
                                        == 0 implies listed(r@, #[trigger] g[b].keys@[jj]) by {
                                    lemma_listed_push(r0, def, g[b].keys@[jj]);
                                }
                                assert forall|x: int, y: int| 0 <= x < r.len() && 0 <= y < r.len() && x != y implies key_of(
                                    #[trigger] r@[x],
                                ) != key_of(#[trigger] r@[y]) by {
                                    if x < r0.len() && y < r0.len() {
                                        assert(r@[x] == r0[x] && r@[y] == r0[y]);
                                    } else if x < r0.len() {
                                        assert(r@[x] == r0[x]);
                                    } else if y < r0.len() {
                                        assert(r@[y] == r0[y]);
                                    }
                                }
                            }
                        },
                        None => {
                            proof {
                                let x = choose|x: int| 0 <= x < self.tasks@.len() && key_of(self.tasks@[x]) == key;
                                assert(key_of(self.tasks@[x]) != key);
                            }
                        },
                    }
                    j = j + 1;
                }
                proof {
                    assert forall|b: int, jj: int|
                        0 <= b < a + 1 && 0 <= jj < g[b].keys@.len() && g[b].interval_ms != 0 && t % g[b].interval_ms
                            == 0 implies listed(r@, #[trigger] g[b].keys@[jj]) by {
                        if b == a {
                            assert(key_of(r@[n0 + jj]) == keys[jj]);
                        }
                    }
                    assert forall|i: int| 0 <= i < r.len() implies exists|b: int| 0 <= b < a + 1 && g[b].interval_ms == (
                    #[trigger] r@[i]).interval_ms by {
                        if i >= n0 {
                            assert(g[a as int].interval_ms == r@[i].interval_ms);
                        }
                    }
                }
            }
            a = a + 1;
        }
        proof {
            assert forall|k: TaskKey| #[trigger] due_keys(m, t).contains(k) implies exists|i: int| 0 <= i < r.len() && key_of(r@[i]) == k by {
                let iv = m[k].interval_ms;
                assert(idx.contains_key(iv) && idx[iv].contains(k));
                let b = choose|b: int| 0 <= b < g.len() && g[b].interval_ms == iv;
                assert(g[b].keys@.contains(k));
                let jj = choose|jj: int| 0 <= jj < g[b].keys@.len() && g[b].keys@[jj] == k;
                assert(listed(r@, g[b].keys@[jj]));
            }
        }
        r
    }

    /// One wake of the driver. When the scheduler runs, the counter advances
    /// by one (wrapping) and the tasks due on the new count are returned, each
    /// once; the order among them is not fixed. When it is idle nothing
    /// changes and nothing is returned.
    pub fn tick(&mut self) -> (r: Vec<TaskDefinition>)
        requires
            old(self).wf(),
        ensures
            final(self).wf(),
            final(self)@ == after_tick(old(self)@),
            dispatches(r@, old(self)@.tasks, tick_keys(old(self)@)),
            !old(self)@.running ==> r@.len() == 0,
    {
        if !self.running {
            let r: Vec<TaskDefinition> = Vec::new();
            proof {
                assert(tick_keys(self@) =~= Set::<TaskKey>::empty());
            }
            return r;
        }
        let ghost v0 = self@;
        assert(coherent(v0));
        if self.counter == u64::MAX {
            self.counter = 0;
        } else {
            self.counter = self.counter + 1;
        }
        assert(self@ == SchedulerView { counter: self.counter, ..v0 });
        assert(coherent(self@));
        self.due_tasks(self.counter)
    }

    /// Marks the scheduler running. Returns whether it was idle, that is
    /// whether a driver has to be started now.
    pub fn start(&mut self) -> (r: bool)
        requires
            old(self).wf(),
        ensures
            final(self).wf(),
            r == !old(self)@.running,
            final(self)@ == (SchedulerView { running: true, ..old(self)@ }),
    {
        if self.running {
            return false;
        }
        self.running = true;
        true
    }

    /// Marks the scheduler idle. Returns whether it was running, that is
    /// whether its driver has to be cancelled now.
    pub fn stop(&mut self) -> (r: bool)
        requires
            old(self).wf(),
        ensures
            final(self).wf(),
            r == old(self)@.running,
            final(self)@ == (SchedulerView { running: false, ..old(self)@ }),
    {
        if !self.running {
            return false;
        }
        self.running = false;
        true
    }

    /// Whether the scheduler runs.
    pub fn is_running(&self) -> (r: bool)
        ensures
            r == self@.running,
    {
        self.running
    }

    /// The number of ticks counted so far, modulo 2^64.
    pub fn counter(&self) -> (r: u64)
        ensures
            r == self@.counter,
    {
        self.counter
    }
}

impl TaskScheduler {
    /// The read a dispatched task issues; `None` once the scheduler no longer
    /// runs, in which case the task is dropped.
    pub fn begin_task(&self, task: &TaskDefinition) -> (r: Option<Request>)
        ensures
            self@.running ==> r == Some(read_plan(task.data_type, task.read_only, task.address)),
            !self@.running ==> r is None,
    {
        if !self.running {
            return None;
        }
        Some(read_request(task.data_type, task.read_only, task.address))
    }

    /// The update to emit for a dispatched task once its read returned. A
    /// failed or short read emits nothing, and so does a scheduler that has
    /// stopped meanwhile.
    pub fn finish_task(&self, task: &TaskDefinition, reply: Result<Reply, ModbusError>) -> (r: Option<Update>)
        ensures
            !self@.running ==> r is None,
            self@.running && reply is Err ==> r is None,
            self@.running && reply is Ok ==> r == (match decoded(task.data_type, reply->Ok_0) {
                Some(x) => Some(update_of(*task, x)),
                None => None::<Update>,
            }),
    {
        if !self.running {
            return None;
        }
        match reply {
            Err(_) => None,
            Ok(rep) => match decode_reply(task.data_type, &rep) {
                Ok(x) => Some(make_update(task, x)),
                Err(_) => None,
            },
        }
    }
}

fn find_group(groups: &Vec<IntervalGroup>, iv: u64) -> (r: Option<usize>)
    ensures
        match r {
            Some(a) => a < groups.len() && groups@[a as int].interval_ms == iv,
            None => forall|a: int| 0 <= a < groups.len() ==> (#[trigger] groups@[a]).interval_ms != iv,
        },
{
    let mut a: usize = 0;
    while a < groups.len()
        invariant
            a <= groups.len(),
            forall|b: int| 0 <= b < a ==> (#[trigger] groups@[b]).interval_ms != iv,
        decreases groups.len() - a,
    {
        if groups[a].interval_ms == iv {
            return Some(a);
        }
        a = a + 1;
    }
    None
}

fn find_key(keys: &Vec<TaskKey>, key: TaskKey) -> (r: Option<usize>)
    ensures
        match r {
            Some(j) => j < keys.len() && keys@[j as int] == key,
            None => !keys@.contains(key),
        },
{
    let mut j: usize = 0;
    while j < keys.len()
        invariant
            j <= keys.len(),
            forall|b: int| 0 <= b < j ==> keys@[b] != key,
        decreases keys.len() - j,
    {
        if keys[j] == key {
            return Some(j);
        }
        j = j + 1;
    }
    None
}

} // verus!

verus! {

/// Every registered task sits in the bucket of its own interval, every key
/// in a bucket names a task of that interval, and no bucket is empty.
pub proof fn lemma_index_coherence(s: &TaskScheduler)
    requires
        s.wf(),
    ensures
        coherent(s@),
        forall|k: TaskKey| #[trigger]
            s@.tasks.contains_key(k) ==> s@.by_interval.contains_key(s@.tasks[k].interval_ms)
                && s@.by_interval[s@.tasks[k].interval_ms].contains(k),
        forall|iv: u64| #[trigger]
            s@.by_interval.contains_key(iv) ==> s@.by_interval[iv] != Set::<TaskKey>::empty(),
{
}

/// While the scheduler runs, a registered task is dispatched on a tick
/// exactly when the new tick count is a multiple of its interval.
pub proof fn lemma_dispatch_law(v: SchedulerView, k: TaskKey)
    requires
        coherent(v),
        v.running,
        v.tasks.contains_key(k),
    ensures
        tick_keys(v).contains(k) <==> next_count(v.counter) % v.tasks[k].interval_ms == 0,
{
}

/// How many of the next `m` wakes of the driver dispatch the task `k`.
pub open spec fn dispatch_total(v: SchedulerView, k: TaskKey, m: nat) -> nat
    decreases m,
{
    if m == 0 {
        0
    } else {
        (if tick_keys(v).contains(k) {
            1nat
        } else {
            0nat
        }) + dispatch_total(after_tick(v), k, (m - 1) as nat)
    }
}

proof fn lemma_next_multiple(x: int, d: int)
    requires
        x >= 0,
        d >= 1,
    ensures
        (x + 1) / d - x / d == (if (x + 1) % d == 0 {
            1int
        } else {
            0int
        }),
{
    let q = x / d;
    let r = x % d;
    vstd::arithmetic::div_mod::lemma_fundamental_div_mod(x, d);
    vstd::arithmetic::div_mod::lemma_mod_pos_bound(x, d);
    assert(x == q * d + r) by (nonlinear_arith)
        requires
            x == d * q + r,
    ;
    if r == d - 1 {
        assert(x + 1 == (q + 1) * d + 0) by (nonlinear_arith)
            requires
                x == q * d + r,
                r == d - 1,
        ;
        vstd::arithmetic::div_mod::lemma_fundamental_div_mod_converse(x + 1, d, q + 1, 0);
    } else {
        vstd::arithmetic::div_mod::lemma_fundamental_div_mod_converse(x + 1, d, q, r + 1);
    }
}

/// A running scheduler that counts from `c` without wrapping dispatches a
/// task of interval `k` on each multiple of `k` in `c + 1 ..= c + m`, that is
/// `(c + m) / k - c / k` times in `m` ticks.
pub proof fn lemma_dispatch_count(v: SchedulerView, k: TaskKey, m: nat)
    requires
        coherent(v),
        v.running,
        v.tasks.contains_key(k),
        v.counter + m <= u64::MAX,
    ensures
        dispatch_total(v, k, m) == (v.counter as int + m) / (v.tasks[k].interval_ms as int) - (v.counter as int) / (
        v.tasks[k].interval_ms as int),
    decreases m,
{
    let d = v.tasks[k].interval_ms as int;
    if m > 0 {
        let w = after_tick(v);
        assert(w.counter == v.counter + 1);
        assert(coherent(w));
        lemma_dispatch_count(w, k, (m - 1) as nat);
        lemma_next_multiple(v.counter as int, d);
    }
}

/// Once stopped, the scheduler dispatches nothing, however many wakes of the
/// driver follow, and its counter stands still.
pub proof fn lemma_no_dispatch_after_stop(v: SchedulerView, k: TaskKey, m: nat)
    ensures
        tick_keys(SchedulerView { running: false, ..v }) == Set::<TaskKey>::empty(),
        after_tick(SchedulerView { running: false, ..v }) == (SchedulerView { running: false, ..v }),
        dispatch_total(SchedulerView { running: false, ..v }, k, m) == 0,
    decreases m,
{
    if m > 0 {
        lemma_no_dispatch_after_stop(v, k, (m - 1) as nat);
    }
}

/// The interval index is a function of the task map: two coherent states
/// with the same tasks have the same buckets.
pub proof fn lemma_index_determined(v: SchedulerView, w: SchedulerView)
    requires
        coherent(v),
        coherent(w),
        v.tasks == w.tasks,
    ensures
        v.by_interval == w.by_interval,
{
    assert forall|iv: u64| #[trigger] v.by_interval.contains_key(iv) implies w.by_interval.contains_key(iv) by {
        lemma_bucket_member(v, iv);
    }
    assert forall|iv: u64| #[trigger] w.by_interval.contains_key(iv) implies v.by_interval.contains_key(iv) by {
        lemma_bucket_member(w, iv);
    }
    assert forall|iv: u64| #[trigger] v.by_interval.contains_key(iv) implies v.by_interval[iv] == w.by_interval[iv] by {
        assert(v.by_interval[iv] =~= w.by_interval[iv]);
    }
    assert(v.by_interval =~= w.by_interval);
}

proof fn lemma_bucket_member(v: SchedulerView, iv: u64)
    requires
        coherent(v),
        v.by_interval.contains_key(iv),
    ensures
        exists|k: TaskKey| v.tasks.contains_key(k) && v.tasks[k].interval_ms == iv,
{
    let b = v.by_interval[iv];
    if forall|k: TaskKey| !b.contains(k) {
        assert(b =~= Set::<TaskKey>::empty());
    }
    let k = choose|k: TaskKey| b.contains(k);
    assert(v.by_interval[iv].contains(k));
}

} // verus!
