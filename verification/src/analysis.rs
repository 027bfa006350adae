//! Stack-resource-policy response-time analysis. Given task declarations and
//! measured worst-case traces, derives resource ceiling priorities, blocking
//! time, preemption (by fixed point) and response time against declared
//! deadlines.

use crate::trace::{Trace, TraceModel};
use vstd::prelude::*;

verus! {

/// The model of a task declaration.
pub struct TaskModel {
    pub name: Seq<char>,
    pub priority: u8,
    pub deadline: u32,
    pub inter_arrival: u32,
    pub trace: Option<TraceModel>,
}

/// A task declaration: the task's name, its scheduling priority
/// (numerically higher is more urgent), its deadline and inter-arrival time
/// in clock cycles, and the measured worst-case trace once one is attached.
#[derive(Debug)]
pub struct Task {
    /// The name of the task (same as the function name).
    pub name: String,
    /// The priority of the task.
    pub priority: u8,
    /// The expected deadline (in clock cycles).
    pub deadline: u32,
    /// The expected inter-arrival time (in clock cycles).
    pub inter_arrival: u32,
    /// The measured worst-case trace.
    pub trace: Option<Trace>,
}

impl View for Task {
    type V = TaskModel;

    open spec fn view(&self) -> TaskModel {
        TaskModel {
            name: self.name@,
            priority: self.priority,
            deadline: self.deadline,
            inter_arrival: self.inter_arrival,
            trace: match self.trace {
                Some(t) => Some(t@),
                None => None,
            },
        }
    }
}

/// A list of task declarations.
#[derive(Debug)]
pub struct Tasks {
    pub tasks: Vec<Task>,
}

/// A resource and its ceiling priority.
#[derive(Debug, PartialEq, Eq)]
pub struct Resource {
    /// The name of the resource.
    pub name: String,
    /// The priority ceiling of the resource.
    pub priority: u8,
}

/// The model of a priority map: name/priority pairs, earlier entries
/// shadowing later ones.
pub type PrioMap = Seq<(Seq<char>, u8)>;

/// The first priority bound to `k` at or after index `i`.
pub open spec fn prio_lookup_from(m: PrioMap, k: Seq<char>, i: int) -> Option<u8>
    decreases m.len() - i,
{
    if i < 0 || i >= m.len() {
        None
    } else if m[i].0 == k {
        Some(m[i].1)
    } else {
        prio_lookup_from(m, k, i + 1)
    }
}

/// The priority bound to `k`.
pub open spec fn prio_lookup(m: PrioMap, k: Seq<char>) -> Option<u8> {
    prio_lookup_from(m, k, 0)
}

/// The first index bound to `k` at or after index `i`.
pub open spec fn prio_index_from(m: PrioMap, k: Seq<char>, i: int) -> Option<int>
    decreases m.len() - i,
{
    if i < 0 || i >= m.len() {
        None
    } else if m[i].0 == k {
        Some(i)
    } else {
        prio_index_from(m, k, i + 1)
    }
}

/// Binding a key: the first entry for the key is replaced, or a new entry
/// appended.
pub open spec fn prio_insert(m: PrioMap, k: Seq<char>, v: u8) -> PrioMap {
    match prio_index_from(m, k, 0) {
        Some(i) => m.update(i, (k, v)),
        None => m.push((k, v)),
    }
}

/// A map of task and resource names to their priorities. For a resource the
/// priority is its ceiling: the highest priority of any task that locks it.
#[derive(Debug)]
pub struct Priorities {
    pub entries: Vec<(String, u8)>,
}

impl View for Priorities {
    type V = PrioMap;

    open spec fn view(&self) -> PrioMap {
        self.entries@.map_values(|p: (String, u8)| (p.0@, p.1))
    }
}

impl Priorities {
    /// An empty priority map.
    pub fn new() -> (r: Priorities)
        ensures
            r@ == Seq::<(Seq<char>, u8)>::empty(),
    {
        let r = Priorities { entries: Vec::new() };
        proof {
            assert(r@ =~= Seq::<(Seq<char>, u8)>::empty());
        }
        r
    }

    /// The priority bound to `k`, if any.
    pub fn get(&self, k: &String) -> (r: Option<u8>)
        ensures
            r == prio_lookup(self@, k@),
    {
        let n = self.entries.len();
        let mut i: usize = 0;
        while i < n
            invariant
                n == self.entries.len(),
                i <= n,
                prio_lookup(self@, k@) == prio_lookup_from(self@, k@, i as int),
            decreases n - i,
        {
            if self.entries[i].0 == *k {
                return Some(self.entries[i].1);
            }
            i += 1;
        }
        None
    }

    /// Bind `k` to `v`, replacing any earlier binding.
    pub fn insert(&mut self, k: String, v: u8)
        ensures
            final(self)@ == prio_insert(old(self)@, k@, v),
    {
        let n = self.entries.len();
        let mut i: usize = 0;
        while i < n
            invariant
                n == self.entries.len(),
                i <= n,
                self == old(self),
                prio_index_from(self@, k@, 0) == prio_index_from(self@, k@, i as int),
            decreases n - i,
        {
            if self.entries[i].0 == k {
                self.entries[i] = (k, v);
                proof {
                    assert(final(self)@ =~= prio_insert(old(self)@, k@, v));
                }
                return ;
            }
            i += 1;
        }
        self.entries.push((k, v));
        proof {
            assert(final(self)@ =~= prio_insert(old(self)@, k@, v));
        }
    }
}

/// The model of a task-resources map: each task name paired with the names
/// of the resources it locks, in first-seen order and without repetition.
pub type ResMap = Seq<(Seq<char>, Seq<Seq<char>>)>;

/// The first resource list bound to `k` at or after index `i`.
pub open spec fn res_lookup_from(m: ResMap, k: Seq<char>, i: int) -> Option<Seq<Seq<char>>>
    decreases m.len() - i,
{
    if i < 0 || i >= m.len() {
        None
    } else if m[i].0 == k {
        Some(m[i].1)
    } else {
        res_lookup_from(m, k, i + 1)
    }
}

/// The resource list bound to `k`.
pub open spec fn res_lookup(m: ResMap, k: Seq<char>) -> Option<Seq<Seq<char>>> {
    res_lookup_from(m, k, 0)
}

/// The first index bound to `k` at or after index `i`.
pub open spec fn res_index_from(m: ResMap, k: Seq<char>, i: int) -> Option<int>
    decreases m.len() - i,
{
    if i < 0 || i >= m.len() {
        None
    } else if m[i].0 == k {
        Some(i)
    } else {
        res_index_from(m, k, i + 1)
    }
}

/// Whether `x` occurs in `s` at or after index `i`.
pub open spec fn name_in_from(s: Seq<Seq<char>>, x: Seq<char>, i: int) -> bool
    decreases s.len() - i,
{
    if i < 0 || i >= s.len() {
        false
    } else if s[i] == x {
        true
    } else {
        name_in_from(s, x, i + 1)
    }
}

/// Whether `x` occurs in `s`.
pub open spec fn name_in(s: Seq<Seq<char>>, x: Seq<char>) -> bool {
    name_in_from(s, x, 0)
}

/// Adding resource `r` to task `k`'s set: appended to `k`'s list unless
/// already present; a new entry is made if `k` has none.
pub open spec fn res_add(m: ResMap, k: Seq<char>, r: Seq<char>) -> ResMap {
    match res_index_from(m, k, 0) {
        Some(i) => {
            let s = m[i].1;
            if name_in(s, r) {
                m
            } else {
                m.update(i, (k, s.push(r)))
            }
        },
        None => m.push((k, seq![r])),
    }
}

/// A map of task names to the set of resource names the task locks,
/// transitively through its trace tree.
#[derive(Debug)]
pub struct TaskResources {
    pub entries: Vec<(String, Vec<String>)>,
}

impl View for TaskResources {
    type V = ResMap;

    open spec fn view(&self) -> ResMap {
        self.entries@.map_values(
            |p: (String, Vec<String>)| (p.0@, p.1@.map_values(|r: String| r@)),
        )
    }
}

impl TaskResources {
    /// An empty task-resources map.
    pub fn new() -> (r: TaskResources)
        ensures
            r@ == Seq::<(Seq<char>, Seq<Seq<char>>)>::empty(),
    {
        let r = TaskResources { entries: Vec::new() };
        proof {
            assert(r@ =~= Seq::<(Seq<char>, Seq<Seq<char>>)>::empty());
        }
        r
    }

    /// The resource list of task `k`, if any.
    pub fn get(&self, k: &String) -> (r: Option<&Vec<String>>)
        ensures
            match r {
                Some(v) => res_lookup(self@, k@) == Some(v@.map_values(|r: String| r@)),
                None => res_lookup(self@, k@) is None,
            },
    {
        let n = self.entries.len();
        let mut i: usize = 0;
        while i < n
            invariant
                n == self.entries.len(),
                i <= n,
                res_lookup(self@, k@) == res_lookup_from(self@, k@, i as int),
            decreases n - i,
        {
            if self.entries[i].0 == *k {
                return Some(&self.entries[i].1);
            }
            i += 1;
        }
        None
    }

    /// Record that task `k` locks resource `r`.
    pub fn add(&mut self, k: &String, r: &String)
        ensures
            final(self)@ == res_add(old(self)@, k@, r@),
    {
        let n = self.entries.len();
        let mut i: usize = 0;
        while i < n
            invariant
                n == self.entries.len(),
                i <= n,
                self == old(self),
                res_index_from(self@, k@, 0) == res_index_from(self@, k@, i as int),
            decreases n - i,
        {
            proof {
                assert(self@[i as int].0 == self.entries@[i as int].0@);
            }
            if self.entries[i].0 == *k {
                let ghost s = self@[i as int].1;
                proof {
                    assert(res_index_from(self@, k@, i as int) == Some(i as int));
                }
                let m = self.entries[i].1.len();
                let mut j: usize = 0;
                while j < m
                    invariant
                        n == self.entries.len(),
                        i < n,
                        m == self.entries[i as int].1.len(),
                        j <= m,
                        self == old(self),
                        s == self@[i as int].1,
                        self@[i as int].0 == k@,
                        res_index_from(self@, k@, 0) == Some(i as int),
                        name_in(s, r@) == name_in_from(s, r@, j as int),
                    decreases m - j,
                {
                    proof {
                        assert(s[j as int] == self.entries@[i as int].1@[j as int]@);
                    }
                    if self.entries[i].1[j] == *r {
                        proof {
                            assert(name_in(s, r@));
                            assert(final(self)@ == res_add(old(self)@, k@, r@));
                        }
                        return ;
                    }
                    j += 1;
                }
                let mut entry = self.entries.remove(i);
                entry.1.push(r.clone());
                self.entries.insert(i, entry);
                proof {
                    assert(!name_in(s, r@));
                    assert(entry.1@.map_values(|x: String| x@) =~= s.push(r@));
                    assert(final(self)@ =~~= old(self)@.update(i as int, (k@, s.push(r@))));
                }
                return ;
            }
            i += 1;
        }
        let mut list: Vec<String> = Vec::new();
        list.push(r.clone());
        self.entries.push((k.clone(), list));
        proof {
            assert(res_index_from(old(self)@, k@, 0) is None);
            assert(list@.map_values(|x: String| x@) =~= seq![r@]);
            assert(final(self)@ =~~= old(self)@.push((k@, seq![r@])));
        }
    }
}

/// The models of a list of tasks.
pub open spec fn tasks_model(v: Seq<Task>) -> Seq<TaskModel> {
    v.map_values(|t: Task| t@)
}

/// Why the analyzer rejected a task set.
#[derive(Debug, Clone, Copy, PartialEq, Eq, Structural)]
pub enum AnalysisError {
    /// The response-time recurrence passed the task's declared deadline.
    DeadlineExceeded,
}

/// The measured worst-case execution time of a task: the extent of its
/// attached trace.
pub open spec fn spec_wcet(t: TaskModel) -> int
    recommends
        t.trace is Some,
{
    t.trace.unwrap().end - t.trace.unwrap().start
}

/// A task declaration fit for analysis: it has a well-formed measured
/// trace and a positive inter-arrival time.
pub open spec fn task_ready(t: TaskModel) -> bool {
    &&& t.trace is Some
    &&& crate::trace::trace_wf(t.trace.unwrap())
    &&& t.inter_arrival >= 1
}

/// The priority a name is assigned, or zero when the map has no entry.
pub open spec fn spec_prio_or_zero(ip: PrioMap, name: Seq<char>) -> u8 {
    match prio_lookup(ip, name) {
        Some(p) => p,
        None => 0,
    }
}

/// The resource set of a task, or the empty list when the map has no entry.
pub open spec fn spec_resources_or_empty(tr: ResMap, name: Seq<char>) -> Seq<Seq<char>> {
    match res_lookup(tr, name) {
        Some(s) => s,
        None => Seq::empty(),
    }
}

/// The WCET of a task's attached trace.
pub fn wcet(task: &Task) -> (r: u32)
    requires
        task@.trace is Some,
        task@.trace.unwrap().start <= task@.trace.unwrap().end,
    ensures
        r == spec_wcet(task@),
{
    match &task.trace {
        Some(t) => t.end - t.start,
        None => {
            proof {
                assert(false);
            }
            0
        },
    }
}

/// The greater of two integers.
pub open spec fn max2(a: int, b: int) -> int {
    if a >= b {
        a
    } else {
        b
    }
}

/// The longest extent of a node named `name` in the tree `t`, zero if none.
pub open spec fn spec_max_hold(t: TraceModel, name: Seq<char>) -> int
    decreases t,
{
    max2(
        if t.name == name {
            t.end - t.start
        } else {
            0
        },
        spec_max_hold_upto(t.inner, name, t.inner.len() as int),
    )
}

/// The longest extent of a node named `name` in the first `n` trees.
pub open spec fn spec_max_hold_upto(ts: Seq<TraceModel>, name: Seq<char>, n: int) -> int
    decreases ts, n,
{
    if n <= 0 || n > ts.len() {
        0
    } else {
        max2(spec_max_hold_upto(ts, name, n - 1), spec_max_hold(ts[n - 1], name))
    }
}

proof fn lemma_max_hold_bounds(t: TraceModel, name: Seq<char>)
    requires
        crate::trace::trace_wf(t),
    ensures
        0 <= spec_max_hold(t, name) <= u32::MAX,
    decreases t,
{
    lemma_max_hold_upto_bounds(t.inner, name, t.inner.len() as int);
}

proof fn lemma_max_hold_upto_bounds(ts: Seq<TraceModel>, name: Seq<char>, n: int)
    requires
        forall|i: int| 0 <= i < ts.len() ==> crate::trace::trace_wf(#[trigger] ts[i]),
    ensures
        0 <= spec_max_hold_upto(ts, name, n) <= u32::MAX,
    decreases ts, n,
{
    if 0 < n <= ts.len() {
        lemma_max_hold_upto_bounds(ts, name, n - 1);
        lemma_max_hold_bounds(ts[n - 1], name);
    }
}

/// The longest time the resource `res_name` is held anywhere in `trace`.
fn max_time_hold_resource(trace: &Trace, res_name: &String) -> (r: u32)
    requires
        crate::trace::trace_wf(trace@),
    ensures
        r == spec_max_hold(trace@, res_name@),
    decreases *trace,
{
    let mut max_time: u32 = 0;
    if trace.name == *res_name {
        max_time = trace.end - trace.start;
    }
    let ghost tm = trace@;
    proof {
        crate::trace::lemma_trace_model_inner(*trace);
    }
    let n = trace.inner.len();
    let mut i: usize = 0;
    while i < n
        invariant
            n == trace.inner.len(),
            i <= n,
            tm == trace@,
            crate::trace::trace_wf(tm),
            tm.inner.len() == n,
            forall|j: int| 0 <= j < n ==> tm.inner[j] == trace.inner[j]@,
            max_time == max2(
                if tm.name == res_name@ {
                    tm.end - tm.start
                } else {
                    0
                },
                spec_max_hold_upto(tm.inner, res_name@, i as int),
            ),
        decreases n - i,
    {
        proof {
            lemma_max_hold_bounds(tm.inner[i as int], res_name@);
        }
        let time = max_time_hold_resource(&trace.inner[i], res_name);
        if time > max_time {
            max_time = time;
        }
        i += 1;
    }
    max_time
}

/// The largest hold, in one lower-priority task's trace, of any of that
/// task's first `m` resources whose ceiling is at least the analyzed
/// task's priority.
pub open spec fn spec_block_res_upto(
    resources: Seq<Seq<char>>,
    trace: TraceModel,
    ip: PrioMap,
    task_prio: u8,
    m: int,
) -> int
    decreases m,
{
    if m <= 0 || m > resources.len() {
        0
    } else {
        let r = resources[m - 1];
        let cand = match prio_lookup(ip, r) {
            Some(r_ceil) => {
                if r_ceil >= task_prio {
                    spec_max_hold(trace, r)
                } else {
                    0
                }
            },
            None => 0,
        };
        max2(spec_block_res_upto(resources, trace, ip, task_prio, m - 1), cand)
    }
}

/// The largest blocking candidate among the first `n` tasks: each task of
/// priority strictly below the analyzed task's contributes the longest
/// hold, anywhere in its trace, of a resource in its own resource set
/// whose ceiling is at least the analyzed task's priority.
pub open spec fn spec_block_tasks_upto(
    tasks: Seq<TaskModel>,
    ip: PrioMap,
    tr: ResMap,
    task_prio: u8,
    n: int,
) -> int
    decreases n,
{
    if n <= 0 || n > tasks.len() {
        0
    } else {
        let t = tasks[n - 1];
        let cand = match prio_lookup(ip, t.name) {
            Some(t_prio) => {
                if t_prio < task_prio {
                    let resources = spec_resources_or_empty(tr, t.name);
                    spec_block_res_upto(
                        resources,
                        t.trace.unwrap(),
                        ip,
                        task_prio,
                        resources.len() as int,
                    )
                } else {
                    0
                }
            },
            None => 0,
        };
        max2(spec_block_tasks_upto(tasks, ip, tr, task_prio, n - 1), cand)
    }
}

/// The blocking time of a task: the longest time it can be blocked by a
/// lower-priority task holding one of that lower task's resources whose
/// ceiling is at least the analyzed task's priority.
pub open spec fn spec_blocking(
    task: TaskModel,
    tasks: Seq<TaskModel>,
    ip: PrioMap,
    tr: ResMap,
) -> int {
    let task_prio = spec_prio_or_zero(ip, task.name);
    spec_block_tasks_upto(tasks, ip, tr, task_prio, tasks.len() as int)
}

proof fn lemma_block_res_bounds(
    resources: Seq<Seq<char>>,
    trace: TraceModel,
    ip: PrioMap,
    task_prio: u8,
    m: int,
)
    requires
        crate::trace::trace_wf(trace),
    ensures
        0 <= spec_block_res_upto(resources, trace, ip, task_prio, m) <= u32::MAX,
    decreases m,
{
    if 0 < m <= resources.len() {
        lemma_block_res_bounds(resources, trace, ip, task_prio, m - 1);
        lemma_max_hold_bounds(trace, resources[m - 1]);
    }
}

proof fn lemma_block_tasks_bounds(
    tasks: Seq<TaskModel>,
    ip: PrioMap,
    tr: ResMap,
    task_prio: u8,
    n: int,
)
    requires
        forall|i: int| 0 <= i < tasks.len() ==> task_ready(#[trigger] tasks[i]),
    ensures
        0 <= spec_block_tasks_upto(tasks, ip, tr, task_prio, n) <= u32::MAX,
    decreases n,
{
    if 0 < n <= tasks.len() {
        lemma_block_tasks_bounds(tasks, ip, tr, task_prio, n - 1);
        let t = tasks[n - 1];
        let resources = spec_resources_or_empty(tr, t.name);
        lemma_block_res_bounds(
            resources,
            t.trace.unwrap(),
            ip,
            task_prio,
            resources.len() as int,
        );
    }
}

/// The largest amount of time `task` may be blocked by a lower-priority
/// task holding one of that task's resources, where the resource's ceiling
/// is at least `task`'s priority.
pub fn blocking_time(task: &Task, tasks: &Vec<Task>, ip: &Priorities, tr: &TaskResources) -> (r:
    u32)
    requires
        forall|i: int| 0 <= i < tasks@.len() ==> task_ready(#[trigger] tasks_model(tasks@)[i]),
    ensures
        r == spec_blocking(task@, tasks_model(tasks@), ip@, tr@),
{
    let mut max_block_time: u32 = 0;
    let mut task_prio: u8 = 0;
    if let Some(prio) = ip.get(&task.name) {
        task_prio = prio;
    }
    let ghost tm = tasks_model(tasks@);
    let n = tasks.len();
    let mut ti: usize = 0;
    while ti < n
        invariant
            n == tasks.len(),
            ti <= n,
            tm == tasks_model(tasks@),
            forall|i: int| 0 <= i < tasks@.len() ==> task_ready(#[trigger] tm[i]),
            tm.len() == n,
            task_prio == spec_prio_or_zero(ip@, task@.name),
            max_block_time == spec_block_tasks_upto(tm, ip@, tr@, task_prio, ti as int),
        decreases n - ti,
    {
        let t = &tasks[ti];
        proof {
            assert(tm[ti as int] == t@);
            assert(task_ready(tm[ti as int]));
        }
        let mut cand: u32 = 0;
        let ghost resources_spec = spec_resources_or_empty(tr@, t@.name);
        if let Some(t_prio) = ip.get(&t.name) {
            if t_prio < task_prio {
                match tr.get(&t.name) {
                    Some(resources) => {
                        proof {
                            assert(resources_spec == resources@.map_values(|x: String| x@));
                        }
                        let m = resources.len();
                        let mut ri: usize = 0;
                        while ri < m
                            invariant
                                m == resources.len(),
                                ri <= m,
                                ti < n,
                                n == tasks.len(),
                                tm == tasks_model(tasks@),
                                tm[ti as int] == tasks@[ti as int]@,
                                t@ == tm[ti as int],
                                task_ready(tm[ti as int]),
                                resources_spec == resources@.map_values(|x: String| x@),
                                resources_spec.len() == m,
                                cand == spec_block_res_upto(
                                    resources_spec,
                                    tm[ti as int].trace.unwrap(),
                                    ip@,
                                    task_prio,
                                    ri as int,
                                ),
                            decreases m - ri,
                        {
                            let r = &resources[ri];
                            proof {
                                assert(resources_spec[ri as int] == r@);
                            }
                            if let Some(r_ceil) = ip.get(r) {
                                if r_ceil >= task_prio {
                                    if let Some(trace0) = &t.trace {
                                        proof {
                                            lemma_max_hold_bounds(
                                                tm[ti as int].trace.unwrap(),
                                                r@,
                                            );
                                        }
                                        let time = max_time_hold_resource(trace0, r);
                                        if time > cand {
                                            cand = time;
                                        }
                                    } else {
                                        proof {
                                            assert(false);
                                        }
                                    }
                                }
                            }
                            ri += 1;
                        }
                    },
                    None => {
                        proof {
                            assert(resources_spec =~= Seq::<Seq<char>>::empty());
                        }
                    },
                }
            }
        }
        if cand > max_block_time {
            max_block_time = cand;
        }
        proof {
            assert(spec_block_tasks_upto(tm, ip@, tr@, task_prio, ti + 1) == max2(
                spec_block_tasks_upto(tm, ip@, tr@, task_prio, ti as int),
                spec_block_res_upto(
                    resources_spec,
                    tm[ti as int].trace.unwrap(),
                    ip@,
                    task_prio,
                    resources_spec.len() as int,
                ),
            ) || spec_block_tasks_upto(tm, ip@, tr@, task_prio, ti + 1) == max2(
                spec_block_tasks_upto(tm, ip@, tr@, task_prio, ti as int),
                0,
            ));
        }
        ti += 1;
    }
    max_block_time
}

/// The ceiling of `a / b` for non-negative `a` and positive `b`.
pub open spec fn ceil_div(a: int, b: int) -> int
    recommends
        a >= 0,
        b >= 1,
{
    (a + b - 1) / b
}

/// One task's preemption contribution for a response-time candidate
/// `prev`: its WCET times the number of its arrivals within `prev`, if its
/// priority is above `task_prio`.
pub open spec fn spec_rt_term(t: TaskModel, ip: PrioMap, task_prio: u8, prev: int) -> int {
    match prio_lookup(ip, t.name) {
        Some(t_prio) => {
            if t_prio > task_prio {
                spec_wcet(t) * ceil_div(prev, t.inter_arrival as int)
            } else {
                0
            }
        },
        None => 0,
    }
}

/// The sum of the first `n` tasks' preemption contributions.
pub open spec fn spec_rt_sum(
    tasks: Seq<TaskModel>,
    ip: PrioMap,
    task_prio: u8,
    prev: int,
    n: int,
) -> int
    decreases n,
{
    if n <= 0 || n > tasks.len() {
        0
    } else {
        spec_rt_sum(tasks, ip, task_prio, prev, n - 1) + spec_rt_term(
            tasks[n - 1],
            ip,
            task_prio,
            prev,
        )
    }
}

/// The response-time recurrence, iterated until it reaches a fixed point or
/// passes the deadline. The fuel only bounds the iteration count; with fuel
/// `deadline + 2` it never runs out, because each step either converges,
/// fails, or strictly increases the candidate, which stays at most the
/// deadline.
pub open spec fn spec_rt_fix(
    tasks: Seq<TaskModel>,
    ip: PrioMap,
    task_prio: u8,
    base: int,
    deadline: int,
    prev: int,
    fuel: nat,
) -> Result<int, AnalysisError>
    decreases fuel,
{
    if fuel == 0 {
        Err(AnalysisError::DeadlineExceeded)
    } else {
        let next = base + spec_rt_sum(tasks, ip, task_prio, prev, tasks.len() as int);
        if next > deadline {
            Err(AnalysisError::DeadlineExceeded)
        } else if next == prev {
            Ok(next)
        } else {
            spec_rt_fix(tasks, ip, task_prio, base, deadline, next, (fuel - 1) as nat)
        }
    }
}

/// The preemption time of a task: the converged response time less its WCET
/// and blocking time, or the error when the recurrence passes the deadline.
pub open spec fn spec_preemption(
    task: TaskModel,
    tasks: Seq<TaskModel>,
    ip: PrioMap,
    tr: ResMap,
) -> Result<int, AnalysisError> {
    let task_prio = spec_prio_or_zero(ip, task.name);
    let base = spec_wcet(task) + spec_blocking(task, tasks, ip, tr);
    match spec_rt_fix(
        tasks,
        ip,
        task_prio,
        base,
        task.deadline as int,
        base,
        (task.deadline + 2) as nat,
    ) {
        Ok(r) => Ok(r - base),
        Err(e) => Err(e),
    }
}

proof fn lemma_rt_term_bounds(t: TaskModel, ip: PrioMap, task_prio: u8, prev: int)
    requires
        task_ready(t),
        0 <= prev <= u32::MAX,
    ensures
        0 <= spec_rt_term(t, ip, task_prio, prev) <= (u32::MAX as int) * (u32::MAX as int),
        spec_rt_term(t, ip, task_prio, prev) == 0 || spec_rt_term(t, ip, task_prio, prev)
            == spec_wcet(t) * ceil_div(prev, t.inter_arrival as int),
        0 <= ceil_div(prev, t.inter_arrival as int) <= u32::MAX,
{
    let b = t.inter_arrival as int;
    let c = spec_wcet(t);
    let ce = ceil_div(prev, b);
    assert(0 <= c <= u32::MAX);
    assert(ce >= 0) by {
        vstd::arithmetic::div_mod::lemma_div_pos_is_pos(prev + b - 1, b);
    }
    assert(ce <= u32::MAX) by {
        assert(prev + b - 1 <= (u32::MAX as int) * b + b - 1) by (nonlinear_arith)
            requires
                prev <= u32::MAX,
                b >= 1,
        ;
        assert((prev + b - 1) / b <= ((u32::MAX as int) * b + b - 1) / b) by {
            vstd::arithmetic::div_mod::lemma_div_is_ordered(
                prev + b - 1,
                (u32::MAX as int) * b + b - 1,
                b,
            );
        }
        assert(((u32::MAX as int) * b + b - 1) / b == u32::MAX as int + (b - 1) / b) by {
            vstd::arithmetic::div_mod::lemma_hoist_over_denominator(
                b - 1,
                u32::MAX as int + 0,
                b as nat,
            );
        }
        assert((b - 1) / b == 0) by {
            vstd::arithmetic::div_mod::lemma_basic_div(b - 1, b);
        }
    }
    assert(0 <= c * ce <= (u32::MAX as int) * (u32::MAX as int)) by (nonlinear_arith)
        requires
            0 <= c <= u32::MAX,
            0 <= ce <= u32::MAX,
    ;
}

proof fn lemma_rt_sum_bounds(tasks: Seq<TaskModel>, ip: PrioMap, task_prio: u8, prev: int, n: int)
    requires
        forall|i: int| 0 <= i < tasks.len() ==> task_ready(#[trigger] tasks[i]),
        0 <= prev <= u32::MAX,
    ensures
        0 <= spec_rt_sum(tasks, ip, task_prio, prev, n),
    decreases n,
{
    if 0 < n <= tasks.len() {
        lemma_rt_sum_bounds(tasks, ip, task_prio, prev, n - 1);
        lemma_rt_term_bounds(tasks[n - 1], ip, task_prio, prev);
    }
}

proof fn lemma_rt_term_monotone(t: TaskModel, ip: PrioMap, task_prio: u8, p1: int, p2: int)
    requires
        task_ready(t),
        0 <= p1 <= p2,
    ensures
        spec_rt_term(t, ip, task_prio, p1) <= spec_rt_term(t, ip, task_prio, p2),
{
    let b = t.inter_arrival as int;
    let c = spec_wcet(t);
    assert(ceil_div(p1, b) <= ceil_div(p2, b)) by {
        vstd::arithmetic::div_mod::lemma_div_is_ordered(p1 + b - 1, p2 + b - 1, b);
    }
    assert(c >= 0);
    assert(ceil_div(p1, b) >= 0) by {
        vstd::arithmetic::div_mod::lemma_div_pos_is_pos(p1 + b - 1, b);
    }
    assert(c * ceil_div(p1, b) <= c * ceil_div(p2, b)) by (nonlinear_arith)
        requires
            c >= 0,
            ceil_div(p1, b) <= ceil_div(p2, b),
    ;
}

proof fn lemma_rt_sum_monotone(
    tasks: Seq<TaskModel>,
    ip: PrioMap,
    task_prio: u8,
    p1: int,
    p2: int,
    n: int,
)
    requires
        forall|i: int| 0 <= i < tasks.len() ==> task_ready(#[trigger] tasks[i]),
        0 <= p1 <= p2,
    ensures
        spec_rt_sum(tasks, ip, task_prio, p1, n) <= spec_rt_sum(tasks, ip, task_prio, p2, n),
    decreases n,
{
    if 0 < n <= tasks.len() {
        lemma_rt_sum_monotone(tasks, ip, task_prio, p1, p2, n - 1);
        lemma_rt_term_monotone(tasks[n - 1], ip, task_prio, p1, p2);
    }
}

/// Whatever the recurrence converges to is at most the deadline.
pub proof fn lemma_rt_fix_le_deadline(
    tasks: Seq<TaskModel>,
    ip: PrioMap,
    task_prio: u8,
    base: int,
    deadline: int,
    prev: int,
    fuel: nat,
    r: int,
)
    requires
        spec_rt_fix(tasks, ip, task_prio, base, deadline, prev, fuel) == Ok::<int, AnalysisError>(
            r,
        ),
    ensures
        r <= deadline,
        r == base + spec_rt_sum(tasks, ip, task_prio, r, tasks.len() as int),
    decreases fuel,
{
    if fuel > 0 {
        let next = base + spec_rt_sum(tasks, ip, task_prio, prev, tasks.len() as int);
        if next <= deadline && next != prev {
            lemma_rt_fix_le_deadline(
                tasks,
                ip,
                task_prio,
                base,
                deadline,
                next,
                (fuel - 1) as nat,
                r,
            );
        }
    }
}

proof fn lemma_rt_sum_nonneg(tasks: Seq<TaskModel>, ip: PrioMap, task_prio: u8, prev: int, n: int)
    requires
        forall|i: int| 0 <= i < tasks.len() ==> task_ready(#[trigger] tasks[i]),
        prev >= 0,
    ensures
        0 <= spec_rt_sum(tasks, ip, task_prio, prev, n),
    decreases n,
{
    if 0 < n <= tasks.len() {
        lemma_rt_sum_nonneg(tasks, ip, task_prio, prev, n - 1);
        let t = tasks[n - 1];
        let b = t.inter_arrival as int;
        let c = spec_wcet(t);
        assert(ceil_div(prev, b) >= 0) by {
            vstd::arithmetic::div_mod::lemma_div_pos_is_pos(prev + b - 1, b);
        }
        assert(c * ceil_div(prev, b) >= 0) by (nonlinear_arith)
            requires
                c >= 0,
                ceil_div(prev, b) >= 0,
        ;
    }
}

proof fn lemma_rt_sum_mono_n(tasks: Seq<TaskModel>, ip: PrioMap, task_prio: u8, prev: int, i: int, j: int)
    requires
        forall|k: int| 0 <= k < tasks.len() ==> task_ready(#[trigger] tasks[k]),
        prev >= 0,
        0 <= i <= j <= tasks.len(),
    ensures
        spec_rt_sum(tasks, ip, task_prio, prev, i) <= spec_rt_sum(tasks, ip, task_prio, prev, j),
    decreases j - i,
{
    if i < j {
        lemma_rt_sum_mono_n(tasks, ip, task_prio, prev, i, j - 1);
        if 0 < j <= tasks.len() {
            let t = tasks[j - 1];
            let b = t.inter_arrival as int;
            let c = spec_wcet(t);
            assert(ceil_div(prev, b) >= 0) by {
                vstd::arithmetic::div_mod::lemma_div_pos_is_pos(prev + b - 1, b);
            }
            assert(c * ceil_div(prev, b) >= 0) by (nonlinear_arith)
                requires
                    c >= 0,
                    ceil_div(prev, b) >= 0,
            ;
        }
    }
}

/// The next response-time candidate: `base` plus every higher-priority
/// task's preemption contribution at candidate `prev`. `None` when the
/// value would pass the deadline.
fn rt_next(
    tasks: &Vec<Task>,
    ip: &Priorities,
    task_prio: u8,
    base: u64,
    deadline: u64,
    prev: u64,
) -> (r: Option<u64>)
    requires
        forall|i: int| 0 <= i < tasks@.len() ==> task_ready(#[trigger] tasks_model(tasks@)[i]),
        base <= prev <= deadline,
        deadline <= u32::MAX,
    ensures
        ({
            let next = base + spec_rt_sum(
                tasks_model(tasks@),
                ip@,
                task_prio,
                prev as int,
                tasks@.len() as int,
            );
            match r {
                Some(v) => v == next && v <= deadline,
                None => next > deadline,
            }
        }),
{
    let ghost tm = tasks_model(tasks@);
    let n = tasks.len();
    let mut acc: u64 = 0;
    let mut i: usize = 0;
    while i < n
        invariant
            n == tasks.len(),
            i <= n,
            tm == tasks_model(tasks@),
            forall|k: int| 0 <= k < tm.len() ==> task_ready(#[trigger] tm[k]),
            tm.len() == n,
            base <= prev <= deadline <= u32::MAX,
            acc == spec_rt_sum(tm, ip@, task_prio, prev as int, i as int),
            base + acc <= deadline,
        decreases n - i,
    {
        let t = &tasks[i];
        proof {
            assert(tm[i as int] == t@);
            assert(task_ready(tm[i as int]));
        }
        let mut term: u64 = 0;
        let t_prio_opt = ip.get(&t.name);
        if let Some(t_prio) = t_prio_opt {
            if t_prio > task_prio {
                proof {
                    lemma_rt_term_bounds(t@, ip@, task_prio, prev as int);
                }
                let c = wcet(t) as u64;
                let ia = t.inter_arrival as u64;
                let ce = (prev + ia - 1) / ia;
                proof {
                    assert(ce == ceil_div(prev as int, ia as int));
                    assert(spec_rt_term(t@, ip@, task_prio, prev as int) == c * ce);
                    assert(c * ce <= (u32::MAX as int) * (u32::MAX as int));
                    assert(c <= u32::MAX && ce <= u32::MAX);
                    assert(c * ce < 18446744073709551615) by (nonlinear_arith)
                        requires
                            0 <= c <= u32::MAX,
                            0 <= ce <= u32::MAX,
                    ;
                }
                term = c * ce;
            }
        }
        proof {
            assert(term == spec_rt_term(t@, ip@, task_prio, prev as int));
            assert(spec_rt_sum(tm, ip@, task_prio, prev as int, i + 1) == acc + term);
        }
        if term > deadline - base - acc {
            proof {
                lemma_rt_sum_mono_n(tm, ip@, task_prio, prev as int, i + 1, n as int);
            }
            return None;
        }
        acc = acc + term;
        i += 1;
    }
    Some(base + acc)
}

/// The preemption time `I` of a task: the converged response time of the
/// recurrence `R = C + B + sum of higher-priority interference`, less
/// `C + B`. Fails when the recurrence passes the task's deadline.
pub fn preemption(task: &Task, tasks: &Vec<Task>, ip: &Priorities, tr: &TaskResources) -> (r:
    Result<u32, AnalysisError>)
    requires
        task_ready(task@),
        forall|i: int| 0 <= i < tasks@.len() ==> task_ready(#[trigger] tasks_model(tasks@)[i]),
    ensures
        match r {
            Ok(v) => spec_preemption(task@, tasks_model(tasks@), ip@, tr@) == Ok::<
                int,
                AnalysisError,
            >(v as int),
            Err(e) => spec_preemption(task@, tasks_model(tasks@), ip@, tr@) == Err::<
                int,
                AnalysisError,
            >(e),
        },
{
    let ghost tm = tasks_model(tasks@);
    let c = wcet(task);
    let b = blocking_time(task, tasks, ip, tr);
    let task_prio = match ip.get(&task.name) {
        Some(p) => p,
        None => 0,
    };
    let base: u64 = c as u64 + b as u64;
    let deadline: u64 = task.deadline as u64;
    let ghost fuel0 = (task@.deadline + 2) as nat;
    proof {
        lemma_rt_sum_nonneg(tm, ip@, task_prio, base as int, tm.len() as int);
    }
    if base > deadline {
        proof {
            assert(spec_rt_fix(
                tm,
                ip@,
                task_prio,
                base as int,
                deadline as int,
                base as int,
                fuel0,
            ) == Err::<int, AnalysisError>(AnalysisError::DeadlineExceeded));
        }
        return Err(AnalysisError::DeadlineExceeded);
    }
    let mut prev: u64 = base;
    let ghost mut fuel: nat = fuel0;
    loop
        invariant
            tm == tasks_model(tasks@),
            forall|k: int| 0 <= k < tm.len() ==> task_ready(#[trigger] tm[k]),
            task_ready(task@),
            base == spec_wcet(task@) + spec_blocking(task@, tm, ip@, tr@),
            task_prio == spec_prio_or_zero(ip@, task@.name),
            deadline == task@.deadline,
            deadline <= u32::MAX,
            fuel0 == (task@.deadline + 2) as nat,
            base <= prev <= deadline,
            prev <= base + spec_rt_sum(tm, ip@, task_prio, prev as int, tm.len() as int),
            fuel >= deadline - prev + 2,
            spec_rt_fix(tm, ip@, task_prio, base as int, deadline as int, prev as int, fuel)
                == spec_rt_fix(
                tm,
                ip@,
                task_prio,
                base as int,
                deadline as int,
                base as int,
                fuel0,
            ),
        decreases fuel,
    {
        let next_opt = rt_next(tasks, ip, task_prio, base, deadline, prev);
        match next_opt {
            None => {
                proof {
                    assert(spec_rt_fix(
                        tm,
                        ip@,
                        task_prio,
                        base as int,
                        deadline as int,
                        prev as int,
                        fuel,
                    ) == Err::<int, AnalysisError>(AnalysisError::DeadlineExceeded));
                    assert(spec_rt_fix(
                        tm,
                        ip@,
                        spec_prio_or_zero(ip@, task@.name),
                        spec_wcet(task@) + spec_blocking(task@, tm, ip@, tr@),
                        task@.deadline as int,
                        spec_wcet(task@) + spec_blocking(task@, tm, ip@, tr@),
                        (task@.deadline + 2) as nat,
                    ) == Err::<int, AnalysisError>(AnalysisError::DeadlineExceeded));
                    assert(spec_preemption(task@, tm, ip@, tr@) == Err::<int, AnalysisError>(
                        AnalysisError::DeadlineExceeded,
                    ));
                }
                return Err(AnalysisError::DeadlineExceeded);
            },
            Some(next) => {
                if next == prev {
                    proof {
                        assert(spec_rt_fix(
                            tm,
                            ip@,
                            task_prio,
                            base as int,
                            deadline as int,
                            prev as int,
                            fuel,
                        ) == Ok::<int, AnalysisError>(next as int));
                        assert(spec_rt_fix(
                            tm,
                            ip@,
                            spec_prio_or_zero(ip@, task@.name),
                            spec_wcet(task@) + spec_blocking(task@, tm, ip@, tr@),
                            task@.deadline as int,
                            spec_wcet(task@) + spec_blocking(task@, tm, ip@, tr@),
                            (task@.deadline + 2) as nat,
                        ) == Ok::<int, AnalysisError>(next as int));
                        assert(spec_preemption(task@, tm, ip@, tr@) == Ok::<int, AnalysisError>(
                            (next - base) as int,
                        ));
                    }
                    return Ok((next - base) as u32);
                }
                proof {
                    lemma_rt_sum_monotone(
                        tm,
                        ip@,
                        task_prio,
                        prev as int,
                        next as int,
                        tm.len() as int,
                    );
                    fuel = (fuel - 1) as nat;
                }
                prev = next;
            },
        }
    }
}

/// The model of one analysis row.
#[verifier::ext_equal]
pub struct AnalysisResultModel {
    pub name: Seq<char>,
    pub response_time: int,
    pub wcet: int,
    pub blocking_time: int,
    pub preemption_time: int,
}

/// One row of the response-time report: `response_time` is
/// `wcet + blocking_time + preemption_time`.
#[derive(Debug, PartialEq, Eq)]
pub struct AnalysisResult {
    /// The task's name.
    pub name: String,
    /// The response time `R = C + B + I`.
    pub response_time: u32,
    /// The measured worst-case execution time `C`.
    pub wcet: u32,
    /// The blocking time `B`.
    pub blocking_time: u32,
    /// The preemption time `I`.
    pub preemption_time: u32,
}

impl View for AnalysisResult {
    type V = AnalysisResultModel;

    open spec fn view(&self) -> AnalysisResultModel {
        AnalysisResultModel {
            name: self.name@,
            response_time: self.response_time as int,
            wcet: self.wcet as int,
            blocking_time: self.blocking_time as int,
            preemption_time: self.preemption_time as int,
        }
    }
}

/// The analysis rows of the first `n` tasks, or the first error.
pub open spec fn spec_run_upto(
    tasks: Seq<TaskModel>,
    ip: PrioMap,
    tr: ResMap,
    n: int,
) -> Result<Seq<AnalysisResultModel>, AnalysisError>
    decreases n,
{
    if n <= 0 || n > tasks.len() {
        Ok(Seq::empty())
    } else {
        match spec_run_upto(tasks, ip, tr, n - 1) {
            Ok(rows) => {
                let t = tasks[n - 1];
                match spec_preemption(t, tasks, ip, tr) {
                    Ok(i) => {
                        let c = spec_wcet(t);
                        let b = spec_blocking(t, tasks, ip, tr);
                        Ok(
                            rows.push(
                                AnalysisResultModel {
                                    name: t.name,
                                    response_time: c + b + i,
                                    wcet: c,
                                    blocking_time: b,
                                    preemption_time: i,
                                },
                            ),
                        )
                    },
                    Err(e) => Err(e),
                }
            },
            Err(e) => Err(e),
        }
    }
}

/// The whole response-time report: for each task its WCET, blocking time,
/// preemption time and response time, or the first deadline failure.
pub open spec fn spec_run_analysis(tasks: Seq<TaskModel>, ip: PrioMap, tr: ResMap) -> Result<
    Seq<AnalysisResultModel>,
    AnalysisError,
> {
    spec_run_upto(tasks, ip, tr, tasks.len() as int)
}

/// The models of a list of analysis rows.
pub open spec fn results_model(v: Seq<AnalysisResult>) -> Seq<AnalysisResultModel> {
    v.map_values(|r: AnalysisResult| r@)
}

/// Calculates the response time `R = C + B + I` of every task, and fails
/// with the first task whose recurrence passes its deadline.
pub fn run_analysis(tasks: &Vec<Task>, priorities: &Priorities, tr: &TaskResources) -> (r: Result<
    Vec<AnalysisResult>,
    AnalysisError,
>)
    requires
        forall|i: int| 0 <= i < tasks@.len() ==> task_ready(#[trigger] tasks_model(tasks@)[i]),
    ensures
        match r {
            Ok(rows) => spec_run_analysis(tasks_model(tasks@), priorities@, tr@) == Ok::<
                Seq<AnalysisResultModel>,
                AnalysisError,
            >(results_model(rows@)),
            Err(e) => spec_run_analysis(tasks_model(tasks@), priorities@, tr@) == Err::<
                Seq<AnalysisResultModel>,
                AnalysisError,
            >(e),
        },
{
    let ghost tm = tasks_model(tasks@);
    let mut res: Vec<AnalysisResult> = Vec::new();
    let n = tasks.len();
    proof {
        assert(results_model(res@) =~= Seq::<AnalysisResultModel>::empty());
    }
    let mut i: usize = 0;
    while i < n
        invariant
            n == tasks.len(),
            i <= n,
            tm == tasks_model(tasks@),
            forall|k: int| 0 <= k < tm.len() ==> task_ready(#[trigger] tm[k]),
            tm.len() == n,
            spec_run_upto(tm, priorities@, tr@, i as int) == Ok::<
                Seq<AnalysisResultModel>,
                AnalysisError,
            >(results_model(res@)),
        decreases n - i,
    {
        let task = &tasks[i];
        proof {
            assert(tm[i as int] == task@);
            assert(task_ready(tm[i as int]));
        }
        let c = wcet(task);
        let b = blocking_time(task, tasks, priorities, tr);
        let premp = preemption(task, tasks, priorities, tr);
        match premp {
            Ok(p) => {
                proof {
                    lemma_rt_fix_le_deadline(
                        tm,
                        priorities@,
                        spec_prio_or_zero(priorities@, task@.name),
                        spec_wcet(task@) + spec_blocking(task@, tm, priorities@, tr@),
                        task@.deadline as int,
                        spec_wcet(task@) + spec_blocking(task@, tm, priorities@, tr@),
                        (task@.deadline + 2) as nat,
                        (c + b + p) as int,
                    );
                }
                let rt = c as u64 + b as u64 + p as u64;
                let row = AnalysisResult {
                    name: task.name.clone(),
                    response_time: rt as u32,
                    wcet: c,
                    blocking_time: b,
                    preemption_time: p,
                };
                res.push(row);
                proof {
                    assert(results_model(res@) =~= spec_run_upto(
                        tm,
                        priorities@,
                        tr@,
                        i as int,
                    ).unwrap().push(row@));
                }
            },
            Err(e) => {
                proof {
                    assert(spec_run_upto(tm, priorities@, tr@, i + 1) == Err::<
                        Seq<AnalysisResultModel>,
                        AnalysisError,
                    >(e));
                    lemma_run_err_to_end(tm, priorities@, tr@, i + 1, e);
                }
                return Err(e);
            },
        }
        i += 1;
    }
    Ok(res)
}

proof fn lemma_run_err_to_end(
    tasks: Seq<TaskModel>,
    ip: PrioMap,
    tr: ResMap,
    m: int,
    e: AnalysisError,
)
    requires
        0 < m <= tasks.len(),
        spec_run_upto(tasks, ip, tr, m) == Err::<Seq<AnalysisResultModel>, AnalysisError>(e),
    ensures
        spec_run_upto(tasks, ip, tr, tasks.len() as int) == Err::<
            Seq<AnalysisResultModel>,
            AnalysisError,
        >(e),
    decreases tasks.len() - m,
{
    if m < tasks.len() {
        assert(spec_run_upto(tasks, ip, tr, m + 1) == Err::<
            Seq<AnalysisResultModel>,
            AnalysisError,
        >(e));
        lemma_run_err_to_end(tasks, ip, tr, m + 1, e);
    }
}

/// Every row the analyzer returns respects its task's deadline:
/// `response_time <= deadline`.
pub proof fn lemma_response_within_deadline(
    tasks: Seq<TaskModel>,
    ip: PrioMap,
    tr: ResMap,
    rows: Seq<AnalysisResultModel>,
    n: int,
)
    requires
        spec_run_upto(tasks, ip, tr, n) == Ok::<Seq<AnalysisResultModel>, AnalysisError>(rows),
        n <= tasks.len(),
    ensures
        rows.len() == if n <= 0 {
            0
        } else {
            n
        },
        forall|i: int| 0 <= i < rows.len() ==> (#[trigger] rows[i]).response_time <= tasks[i].deadline,
    decreases n,
{
    if n > 0 {
        let prev = spec_run_upto(tasks, ip, tr, n - 1).unwrap();
        lemma_response_within_deadline(tasks, ip, tr, prev, n - 1);
        let t = tasks[n - 1];
        let i = spec_preemption(t, tasks, ip, tr).unwrap();
        let base = spec_wcet(t) + spec_blocking(t, tasks, ip, tr);
        let fix = spec_rt_fix(
            tasks,
            ip,
            spec_prio_or_zero(ip, t.name),
            base,
            t.deadline as int,
            base,
            (t.deadline + 2) as nat,
        );
        lemma_rt_fix_le_deadline(
            tasks,
            ip,
            spec_prio_or_zero(ip, t.name),
            base,
            t.deadline as int,
            base,
            (t.deadline + 2) as nat,
            fix.unwrap(),
        );
        assert(rows =~= prev.push(rows.last()));
    }
}

/// The analysis is a function of its inputs: two runs on the same task
/// set, priorities and task resources return the same rows.
pub proof fn lemma_analysis_deterministic(
    tasks: Seq<TaskModel>,
    ip: PrioMap,
    tr: ResMap,
    r1: Seq<AnalysisResultModel>,
    r2: Seq<AnalysisResultModel>,
)
    requires
        spec_run_analysis(tasks, ip, tr) == Ok::<Seq<AnalysisResultModel>, AnalysisError>(r1),
        spec_run_analysis(tasks, ip, tr) == Ok::<Seq<AnalysisResultModel>, AnalysisError>(r2),
    ensures
        r1 == r2,
{
}

impl Task {
    /// A deep copy whose model is the model of `self`.
    pub fn duplicate(&self) -> (r: Task)
        ensures
            r@ == self@,
    {
        Task {
            name: self.name.clone(),
            priority: self.priority,
            deadline: self.deadline,
            inter_arrival: self.inter_arrival,
            trace: match &self.trace {
                Some(t) => Some(t.duplicate()),
                None => None,
            },
        }
    }
}

/// The first task named `k` at or after index `i`.
pub open spec fn task_lookup_from(m: Seq<TaskModel>, k: Seq<char>, i: int) -> Option<TaskModel>
    decreases m.len() - i,
{
    if i < 0 || i >= m.len() {
        None
    } else if m[i].name == k {
        Some(m[i])
    } else {
        task_lookup_from(m, k, i + 1)
    }
}

/// The task named `k`, if any.
pub open spec fn task_lookup(m: Seq<TaskModel>, k: Seq<char>) -> Option<TaskModel> {
    task_lookup_from(m, k, 0)
}

/// A task found under a name bears that name.
pub proof fn lemma_task_lookup_name(m: Seq<TaskModel>, k: Seq<char>, i: int)
    requires
        task_lookup_from(m, k, i) is Some,
    ensures
        task_lookup_from(m, k, i).unwrap().name == k,
    decreases m.len() - i,
{
    if 0 <= i < m.len() && m[i].name != k {
        lemma_task_lookup_name(m, k, i + 1);
    }
}

/// A collection of task declarations addressed by name.
#[derive(Debug)]
pub struct TaskMap {
    pub entries: Vec<Task>,
}

impl View for TaskMap {
    type V = Seq<TaskModel>;

    open spec fn view(&self) -> Seq<TaskModel> {
        tasks_model(self.entries@)
    }
}

impl TaskMap {
    /// An empty task map.
    pub fn new() -> (r: TaskMap)
        ensures
            r@ == Seq::<TaskModel>::empty(),
    {
        let r = TaskMap { entries: Vec::new() };
        proof {
            assert(r@ =~= Seq::<TaskModel>::empty());
        }
        r
    }

    /// The task named `k`, if any.
    pub fn get(&self, k: &String) -> (r: Option<&Task>)
        ensures
            match r {
                Some(t) => task_lookup(self@, k@) == Some(t@),
                None => task_lookup(self@, k@) is None,
            },
    {
        let n = self.entries.len();
        let mut i: usize = 0;
        while i < n
            invariant
                n == self.entries.len(),
                i <= n,
                task_lookup(self@, k@) == task_lookup_from(self@, k@, i as int),
            decreases n - i,
        {
            if self.entries[i].name == *k {
                return Some(&self.entries[i]);
            }
            i += 1;
        }
        None
    }
}

/// The longest-extent trace named `name` among the first `n` traces; an
/// earlier trace wins ties.
pub open spec fn spec_longest_upto(name: Seq<char>, ts: Seq<TraceModel>, n: int) -> Option<
    TraceModel,
>
    decreases n,
{
    if n <= 0 || n > ts.len() {
        None
    } else {
        let prev = spec_longest_upto(name, ts, n - 1);
        let t = ts[n - 1];
        if t.name == name {
            match prev {
                Some(w) => {
                    if t.end - t.start > w.end - w.start {
                        Some(t)
                    } else {
                        Some(w)
                    }
                },
                None => Some(t),
            }
        } else {
            prev
        }
    }
}

/// The trace of the longest measured WCET for a task.
fn get_longest_wcet_trace(task: &Task, traces: &Vec<Trace>) -> (r: Option<Trace>)
    requires
        forall|i: int|
            0 <= i < traces@.len() ==> (#[trigger] crate::trace::traces_model(traces@)[i]).start
                <= crate::trace::traces_model(traces@)[i].end,
    ensures
        match r {
            Some(t) => spec_longest_upto(
                task@.name,
                crate::trace::traces_model(traces@),
                traces@.len() as int,
            ) == Some(t@),
            None => spec_longest_upto(
                task@.name,
                crate::trace::traces_model(traces@),
                traces@.len() as int,
            ) is None,
        },
{
    let ghost ts = crate::trace::traces_model(traces@);
    let n = traces.len();
    let mut best: Option<usize> = None;
    let mut i: usize = 0;
    while i < n
        invariant
            n == traces.len(),
            i <= n,
            ts == crate::trace::traces_model(traces@),
            ts.len() == n,
            forall|j: int| 0 <= j < n ==> (#[trigger] ts[j]).start <= ts[j].end,
            match best {
                Some(b) => b < i && spec_longest_upto(task@.name, ts, i as int) == Some(ts[b as int]),
                None => spec_longest_upto(task@.name, ts, i as int) is None,
            },
        decreases n - i,
    {
        let t = &traces[i];
        proof {
            assert(ts[i as int] == t@);
        }
        if t.name == task.name {
            match best {
                Some(b) => {
                    let w = &traces[b];
                    proof {
                        assert(ts[b as int] == w@);
                    }
                    if t.end - t.start > w.end - w.start {
                        best = Some(i);
                    }
                },
                None => {
                    best = Some(i);
                },
            }
        }
        i += 1;
    }
    match best {
        Some(b) => Some(traces[b].duplicate()),
        None => None,
    }
}

/// The resource sets after recording, for the task called `name`, every
/// node of the forest `ts` (at any depth) as a locked resource.
pub open spec fn spec_collect(name: Seq<char>, ts: Seq<TraceModel>, tr: ResMap) -> ResMap
    decreases ts,
{
    if ts.len() == 0 {
        tr
    } else {
        spec_collect(
            name,
            ts.drop_first(),
            spec_collect(name, ts[0].inner, res_add(tr, name, ts[0].name)),
        )
    }
}

proof fn lemma_collect_concat(name: Seq<char>, ts1: Seq<TraceModel>, ts2: Seq<TraceModel>, tr: ResMap)
    ensures
        spec_collect(name, ts1 + ts2, tr) == spec_collect(name, ts2, spec_collect(name, ts1, tr)),
    decreases ts1.len(),
{
    if ts1.len() == 0 {
        assert(ts1 + ts2 =~= ts2);
    } else {
        assert((ts1 + ts2)[0] == ts1[0]);
        assert((ts1 + ts2).drop_first() =~= ts1.drop_first() + ts2);
        lemma_collect_concat(
            name,
            ts1.drop_first(),
            ts2,
            spec_collect(name, ts1[0].inner, res_add(tr, name, ts1[0].name)),
        );
    }
}

proof fn lemma_collect_snoc(name: Seq<char>, ts: Seq<TraceModel>, x: TraceModel, tr: ResMap)
    ensures
        spec_collect(name, ts.push(x), tr) == spec_collect(
            name,
            x.inner,
            res_add(spec_collect(name, ts, tr), name, x.name),
        ),
{
    reveal_with_fuel(spec_collect, 3);
    assert(ts.push(x) =~= ts + seq![x]);
    lemma_collect_concat(name, ts, seq![x], tr);
    let m = spec_collect(name, ts, tr);
    assert(seq![x][0] == x);
    assert(seq![x].drop_first() =~= Seq::<TraceModel>::empty());
    assert(spec_collect(name, seq![x], m) == spec_collect(
        name,
        seq![x].drop_first(),
        spec_collect(name, x.inner, res_add(m, name, x.name)),
    ));
}

fn update_task_resources(task: &Task, traces: &Vec<Trace>, task_resources: &mut TaskResources)
    ensures
        final(task_resources)@ == spec_collect(
            task@.name,
            crate::trace::traces_model(traces@),
            old(task_resources)@,
        ),
    decreases *traces,
{
    let ghost ts = crate::trace::traces_model(traces@);
    let ghost tr0 = task_resources@;
    let n = traces.len();
    proof {
        assert(ts.take(0) =~= Seq::<TraceModel>::empty());
    }
    let mut i: usize = 0;
    while i < n
        invariant
            n == traces.len(),
            i <= n,
            ts == crate::trace::traces_model(traces@),
            ts.len() == n,
            task_resources@ == spec_collect(task@.name, ts.take(i as int), tr0),
        decreases n - i,
    {
        let t = &traces[i];
        proof {
            assert(ts[i as int] == t@);
            assert(ts.take(i + 1) =~= ts.take(i as int).push(ts[i as int]));
            lemma_collect_snoc(task@.name, ts.take(i as int), ts[i as int], tr0);
            crate::trace::lemma_trace_model_inner(*t);
            assert(crate::trace::traces_model(t.inner@) =~= ts[i as int].inner);
        }
        task_resources.add(&task.name, &t.name);
        update_task_resources(task, &t.inner, task_resources);
        i += 1;
    }
    proof {
        assert(ts.take(n as int) =~= ts);
    }
}

/// The resource sets gathered from a forest of WCET traces: each root that
/// names a declared task contributes every node inside it.
pub open spec fn spec_gather_upto(
    ts: Seq<TraceModel>,
    tasks: Seq<TaskModel>,
    tr: ResMap,
    n: int,
) -> ResMap
    decreases n,
{
    if n <= 0 || n > ts.len() {
        tr
    } else {
        let prev = spec_gather_upto(ts, tasks, tr, n - 1);
        if task_lookup(tasks, ts[n - 1].name) is Some {
            spec_collect(ts[n - 1].name, ts[n - 1].inner, prev)
        } else {
            prev
        }
    }
}

/// Returns a map of tasks and the resources they access, walked from the
/// given WCET traces.
pub fn get_task_resources(traces: &Vec<Trace>, tasks: &TaskMap) -> (r: TaskResources)
    ensures
        r@ == spec_gather_upto(
            crate::trace::traces_model(traces@),
            tasks@,
            Seq::empty(),
            traces@.len() as int,
        ),
{
    let ghost ts = crate::trace::traces_model(traces@);
    let mut task_resources = TaskResources::new();
    let n = traces.len();
    let mut i: usize = 0;
    while i < n
        invariant
            n == traces.len(),
            ts == crate::trace::traces_model(traces@),
            ts.len() == n,
            i <= n,
            task_resources@ == spec_gather_upto(ts, tasks@, Seq::empty(), i as int),
        decreases n - i,
    {
        let t = &traces[i];
        proof {
            assert(ts[i as int] == t@);
        }
        if let Some(task) = tasks.get(&t.name) {
            proof {
                crate::trace::lemma_trace_model_inner(*t);
                assert(crate::trace::traces_model(t.inner@) =~= ts[i as int].inner);
                lemma_task_lookup_name(tasks@, t.name@, 0);
                assert(task@.name == ts[i as int].name);
            }
            update_task_resources(task, &t.inner, &mut task_resources);
        }
        i += 1;
    }
    task_resources
}

/// Raising a resource's ceiling: bound to `p` if absent, raised to `p` if
/// a lower value is bound, otherwise unchanged.
pub open spec fn spec_raise(m: PrioMap, r: Seq<char>, p: u8) -> PrioMap {
    match prio_lookup(m, r) {
        Some(q) => {
            if p > q {
                prio_insert(m, r, p)
            } else {
                m
            }
        },
        None => prio_insert(m, r, p),
    }
}

/// The priority map after raising the ceilings of the first `j` resources
/// of a task with priority `p`.
pub open spec fn spec_raise_upto(resources: Seq<Seq<char>>, p: u8, m: PrioMap, j: int) -> PrioMap
    decreases j,
{
    if j <= 0 || j > resources.len() {
        m
    } else {
        spec_raise(spec_raise_upto(resources, p, m, j - 1), resources[j - 1], p)
    }
}

/// The priority map after the first `n` tasks: each task's own priority is
/// bound to its name, and each of its resources' ceilings is raised to at
/// least the task's priority.
pub open spec fn spec_prios_upto(tasks: Seq<TaskModel>, tr: ResMap, n: int) -> PrioMap
    decreases n,
{
    if n <= 0 || n > tasks.len() {
        Seq::empty()
    } else {
        let t = tasks[n - 1];
        let m = prio_insert(spec_prios_upto(tasks, tr, n - 1), t.name, t.priority);
        let resources = spec_resources_or_empty(tr, t.name);
        spec_raise_upto(resources, t.priority, m, resources.len() as int)
    }
}

/// The task and resource priorities derived from a task set: a task's own
/// declared priority under its name, and under each resource name the
/// ceiling over the tasks that lock it.
pub open spec fn spec_get_priorites(tasks: Seq<TaskModel>, tr: ResMap) -> PrioMap {
    spec_prios_upto(tasks, tr, tasks.len() as int)
}

/// Returns a map of tasks and resources with their respective priorities
/// and ceilings.
pub fn get_priorites(tasks: &Vec<Task>, task_resources: &mut TaskResources) -> (r: Priorities)
    ensures
        final(task_resources)@ == old(task_resources)@,
        r@ == spec_get_priorites(tasks_model(tasks@), old(task_resources)@),
{
    let ghost tm = tasks_model(tasks@);
    let ghost trm = task_resources@;
    let mut priorities = Priorities::new();
    let n = tasks.len();
    let mut i: usize = 0;
    while i < n
        invariant
            n == tasks.len(),
            i <= n,
            tm == tasks_model(tasks@),
            tm.len() == n,
            task_resources@ == trm,
            priorities@ == spec_prios_upto(tm, trm, i as int),
        decreases n - i,
    {
        let task = &tasks[i];
        proof {
            assert(tm[i as int] == task@);
        }
        priorities.insert(task.name.clone(), task.priority);
        let ghost m_after_task = priorities@;
        let ghost resources_spec = spec_resources_or_empty(trm, task@.name);
        match task_resources.get(&task.name) {
            Some(resources) => {
                proof {
                    assert(resources_spec == resources@.map_values(|x: String| x@));
                }
                let k = resources.len();
                let mut j: usize = 0;
                while j < k
                    invariant
                        k == resources.len(),
                        j <= k,
                        resources_spec == resources@.map_values(|x: String| x@),
                        resources_spec.len() == k,
                        i < n,
                        n == tasks.len(),
                        tm == tasks_model(tasks@),
                        tm[i as int] == tasks@[i as int]@,
                        priorities@ == spec_raise_upto(
                            resources_spec,
                            tm[i as int].priority,
                            m_after_task,
                            j as int,
                        ),
                    decreases k - j,
                {
                    let resource = &resources[j];
                    proof {
                        assert(resources_spec[j as int] == resource@);
                    }
                    match priorities.get(resource) {
                        Some(priority) => {
                            if tasks[i].priority > priority {
                                priorities.insert(resource.clone(), tasks[i].priority);
                            }
                        },
                        None => {
                            priorities.insert(resource.clone(), tasks[i].priority);
                        },
                    }
                    j += 1;
                }
            },
            None => {
                proof {
                    assert(resources_spec =~= Seq::<Seq<char>>::empty());
                }
            },
        }
        i += 1;
    }
    priorities
}

/// Returns the task resources, the priority ceilings and the per-task WCET
/// traces for the analysis: for each task the longest trace bearing its
/// name is selected, resource use is gathered from those traces, and
/// ceilings are derived.
pub fn pre_analysis(tasks: &Vec<Task>, traces: &Vec<Trace>) -> (r: (
    TaskResources,
    Priorities,
    Vec<Trace>,
))
    requires
        forall|i: int|
            0 <= i < traces@.len() ==> (#[trigger] crate::trace::traces_model(traces@)[i]).start
                <= crate::trace::traces_model(traces@)[i].end,
    ensures
        ({
            let tm = tasks_model(tasks@);
            let wt = crate::trace::traces_model(r.2@);
            &&& wt == spec_wcet_traces_upto(
                tm,
                crate::trace::traces_model(traces@),
                tasks@.len() as int,
            )
            &&& r.0@ == spec_gather_upto(wt, tm, Seq::empty(), wt.len() as int)
            &&& r.1@ == spec_get_priorites(tm, r.0@)
        }),
{
    let ghost tm = tasks_model(tasks@);
    let ghost ts = crate::trace::traces_model(traces@);
    let mut task_map = TaskMap::new();
    let mut wcet_traces: Vec<Trace> = Vec::new();
    let n = tasks.len();
    proof {
        assert(crate::trace::traces_model(wcet_traces@) =~= Seq::<TraceModel>::empty());
        assert(tasks_model(task_map.entries@) =~= Seq::<TaskModel>::empty());
    }
    let mut i: usize = 0;
    while i < n
        invariant
            n == tasks.len(),
            i <= n,
            tm == tasks_model(tasks@),
            tm.len() == n,
            ts == crate::trace::traces_model(traces@),
            forall|j: int| 0 <= j < ts.len() ==> (#[trigger] ts[j]).start <= ts[j].end,
            task_map@ == tm.take(i as int),
            crate::trace::traces_model(wcet_traces@) == spec_wcet_traces_upto(tm, ts, i as int),
        decreases n - i,
    {
        let task = &tasks[i];
        proof {
            assert(tm[i as int] == task@);
        }
        let dup = task.duplicate();
        task_map.entries.push(dup);
        proof {
            assert(tm.take(i + 1) =~= tm.take(i as int).push(tm[i as int]));
            assert(task_map@ =~= tm.take(i + 1));
        }
        if let Some(trace) = get_longest_wcet_trace(task, traces) {
            let ghost prev = crate::trace::traces_model(wcet_traces@);
            wcet_traces.push(trace);
            proof {
                assert(crate::trace::traces_model(wcet_traces@) =~= prev.push(
                    spec_longest_upto(tm[i as int].name, ts, ts.len() as int).unwrap(),
                ));
            }
        }
        i += 1;
    }
    proof {
        assert(tm.take(n as int) =~= tm);
    }
    let mut task_resources = get_task_resources(&wcet_traces, &task_map);
    let priorities = get_priorites(&tasks, &mut task_resources);
    (task_resources, priorities, wcet_traces)
}

/// The WCET traces selected for the first `n` tasks: for each task, the
/// longest trace bearing its name, where one exists.
pub open spec fn spec_wcet_traces_upto(
    tasks: Seq<TaskModel>,
    ts: Seq<TraceModel>,
    n: int,
) -> Seq<TraceModel>
    decreases n,
{
    if n <= 0 || n > tasks.len() {
        Seq::empty()
    } else {
        let prev = spec_wcet_traces_upto(tasks, ts, n - 1);
        match spec_longest_upto(tasks[n - 1].name, ts, ts.len() as int) {
            Some(t) => prev.push(t),
            None => prev,
        }
    }
}

proof fn lemma_index_lookup(m: PrioMap, k: Seq<char>, i: int)
    ensures
        prio_index_from(m, k, i) is None ==> prio_lookup_from(m, k, i) is None,
        prio_index_from(m, k, i) matches Some(idx) ==> {
            &&& i <= idx < m.len()
            &&& m[idx].0 == k
            &&& forall|j: int| i <= j < idx ==> (#[trigger] m[j]).0 != k
            &&& prio_lookup_from(m, k, i) == Some(m[idx].1)
        },
    decreases m.len() - i,
{
    if 0 <= i < m.len() && m[i].0 != k {
        lemma_index_lookup(m, k, i + 1);
    }
}

proof fn lemma_lookup_push(m: PrioMap, e: (Seq<char>, u8), k2: Seq<char>, i: int)
    requires
        0 <= i,
    ensures
        prio_lookup_from(m.push(e), k2, i) == (match prio_lookup_from(m, k2, i) {
            Some(v) => Some(v),
            None => {
                if i <= m.len() && e.0 == k2 {
                    Some(e.1)
                } else {
                    None
                }
            },
        }),
    decreases m.len() + 1 - i,
{
    let mp = m.push(e);
    if i < m.len() {
        assert(mp[i] == m[i]);
        lemma_lookup_push(m, e, k2, i + 1);
        assert(prio_lookup_from(mp, k2, i) == (if m[i].0 == k2 {
            Some(m[i].1)
        } else {
            prio_lookup_from(mp, k2, i + 1)
        }));
        assert(prio_lookup_from(m, k2, i) == (if m[i].0 == k2 {
            Some(m[i].1)
        } else {
            prio_lookup_from(m, k2, i + 1)
        }));
    } else if i == m.len() {
        assert(mp[i] == e);
        assert(prio_lookup_from(mp, k2, i + 1) is None);
        assert(prio_lookup_from(mp, k2, i) == (if e.0 == k2 {
            Some(e.1)
        } else {
            prio_lookup_from(mp, k2, i + 1)
        }));
        assert(prio_lookup_from(m, k2, i) is None);
    } else {
        assert(prio_lookup_from(mp, k2, i) is None);
        assert(prio_lookup_from(m, k2, i) is None);
    }
}

proof fn lemma_lookup_update(m: PrioMap, idx: int, v: u8, k2: Seq<char>, i: int)
    requires
        0 <= idx < m.len(),
    ensures
        k2 != m[idx].0 ==> prio_lookup_from(m.update(idx, (m[idx].0, v)), k2, i)
            == prio_lookup_from(m, k2, i),
        (k2 == m[idx].0 && 0 <= i <= idx && (forall|j: int|
            i <= j < idx ==> (#[trigger] m[j]).0 != k2)) ==> prio_lookup_from(
            m.update(idx, (m[idx].0, v)),
            k2,
            i,
        ) == Some(v),
    decreases m.len() - i,
{
    let m2 = m.update(idx, (m[idx].0, v));
    assert(m2.len() == m.len());
    if 0 <= i < m.len() {
        assert(m2[i].0 == m[i].0);
        lemma_lookup_update(m, idx, v, k2, i + 1);
        if i == idx {
            assert(m2[i] == (m[idx].0, v));
        } else {
            assert(m2[i] == m[i]);
        }
        assert(prio_lookup_from(m2, k2, i) == (if m2[i].0 == k2 {
            Some(m2[i].1)
        } else {
            prio_lookup_from(m2, k2, i + 1)
        }));
        assert(prio_lookup_from(m, k2, i) == (if m[i].0 == k2 {
            Some(m[i].1)
        } else {
            prio_lookup_from(m, k2, i + 1)
        }));
    }
}

/// What a binding does to lookups: the bound key reads back the new value,
/// every other key is unchanged.
pub proof fn lemma_insert_lookup(m: PrioMap, k: Seq<char>, v: u8, k2: Seq<char>)
    ensures
        prio_lookup(prio_insert(m, k, v), k2) == (if k2 == k {
            Some(v)
        } else {
            prio_lookup(m, k2)
        }),
{
    lemma_index_lookup(m, k, 0);
    match prio_index_from(m, k, 0) {
        Some(idx) => {
            lemma_lookup_update(m, idx, v, k2, 0);
        },
        None => {
            lemma_lookup_push(m, (k, v), k2, 0);
        },
    }
}

/// `a` bounds at least what `b` bounds, no lower.
pub open spec fn opt_prio_ge(a: Option<u8>, b: Option<u8>) -> bool {
    match b {
        None => true,
        Some(q) => a is Some && a.unwrap() >= q,
    }
}

proof fn lemma_raise_ge(m: PrioMap, r2: Seq<char>, p2: u8, r: Seq<char>)
    ensures
        opt_prio_ge(prio_lookup(spec_raise(m, r2, p2), r), prio_lookup(m, r)),
{
    match prio_lookup(m, r2) {
        Some(q) => {
            if p2 > q {
                lemma_insert_lookup(m, r2, p2, r);
            }
        },
        None => {
            lemma_insert_lookup(m, r2, p2, r);
        },
    }
}

proof fn lemma_raise_sets(m: PrioMap, r: Seq<char>, p: u8)
    ensures
        prio_lookup(spec_raise(m, r, p), r) is Some,
        prio_lookup(spec_raise(m, r, p), r).unwrap() >= p,
{
    lemma_insert_lookup(m, r, p, r);
}

proof fn lemma_raise_upto_ge(resources: Seq<Seq<char>>, p: u8, m: PrioMap, j: int, r: Seq<char>)
    ensures
        opt_prio_ge(prio_lookup(spec_raise_upto(resources, p, m, j), r), prio_lookup(m, r)),
    decreases j,
{
    if 0 < j <= resources.len() {
        lemma_raise_upto_ge(resources, p, m, j - 1, r);
        lemma_raise_ge(spec_raise_upto(resources, p, m, j - 1), resources[j - 1], p, r);
    }
}

proof fn lemma_raise_upto_sets(resources: Seq<Seq<char>>, p: u8, m: PrioMap, j: int, r: Seq<char>)
    requires
        exists|idx: int| 0 <= idx < j && idx < resources.len() && resources[idx] == r,
        j <= resources.len(),
    ensures
        prio_lookup(spec_raise_upto(resources, p, m, j), r) is Some,
        prio_lookup(spec_raise_upto(resources, p, m, j), r).unwrap() >= p,
    decreases j,
{
    let prev = spec_raise_upto(resources, p, m, j - 1);
    if resources[j - 1] == r {
        lemma_raise_sets(prev, r, p);
    } else {
        lemma_raise_upto_sets(resources, p, m, j - 1, r);
        lemma_raise_ge(prev, resources[j - 1], p, r);
    }
}

/// Membership in a name list is witnessed by an index.
pub proof fn lemma_name_in_exists(s: Seq<Seq<char>>, x: Seq<char>, i: int)
    requires
        name_in_from(s, x, i),
    ensures
        exists|idx: int| i <= idx < s.len() && s[idx] == x,
    decreases s.len() - i,
{
    if 0 <= i < s.len() && s[i] != x {
        lemma_name_in_exists(s, x, i + 1);
    }
}

proof fn lemma_prios_prefix_ge(tasks: Seq<TaskModel>, tr: ResMap, r: Seq<char>, n1: int, n2: int)
    requires
        0 <= n1 <= n2 <= tasks.len(),
        forall|j: int| 0 <= j < tasks.len() ==> r != (#[trigger] tasks[j]).name,
    ensures
        opt_prio_ge(
            prio_lookup(spec_prios_upto(tasks, tr, n2), r),
            prio_lookup(spec_prios_upto(tasks, tr, n1), r),
        ),
    decreases n2 - n1,
{
    if n1 < n2 {
        lemma_prios_prefix_ge(tasks, tr, r, n1, n2 - 1);
        let t = tasks[n2 - 1];
        let m_prev = spec_prios_upto(tasks, tr, n2 - 1);
        let m_task = prio_insert(m_prev, t.name, t.priority);
        lemma_insert_lookup(m_prev, t.name, t.priority, r);
        let resources = spec_resources_or_empty(tr, t.name);
        lemma_raise_upto_ge(resources, t.priority, m_task, resources.len() as int, r);
    }
}

/// The ceiling law: for every task and every resource in that task's
/// resource set, the derived priority of the resource is at least the
/// task's priority, provided no resource shares a name with a task.
pub proof fn lemma_ceiling_at_least_task_priority(
    tasks: Seq<TaskModel>,
    tr: ResMap,
    i: int,
    r: Seq<char>,
)
    requires
        0 <= i < tasks.len(),
        name_in(spec_resources_or_empty(tr, tasks[i].name), r),
        forall|j: int| 0 <= j < tasks.len() ==> r != (#[trigger] tasks[j]).name,
    ensures
        prio_lookup(spec_get_priorites(tasks, tr), r) is Some,
        prio_lookup(spec_get_priorites(tasks, tr), r).unwrap() >= tasks[i].priority,
{
    let t = tasks[i];
    let m_prev = spec_prios_upto(tasks, tr, i);
    let m_task = prio_insert(m_prev, t.name, t.priority);
    let resources = spec_resources_or_empty(tr, t.name);
    lemma_name_in_exists(resources, r, 0);
    lemma_raise_upto_sets(resources, t.priority, m_task, resources.len() as int, r);
    assert(spec_prios_upto(tasks, tr, i + 1) == spec_raise_upto(
        resources,
        t.priority,
        m_task,
        resources.len() as int,
    ));
    lemma_prios_prefix_ge(tasks, tr, r, i + 1, tasks.len() as int);
}

} // verus!
