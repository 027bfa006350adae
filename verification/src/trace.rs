//! Trace building. A linear list of measured breakpoint samples is folded
//! into a forest of nested task and critical-section intervals, with strict
//! scope validation: every entry marker must be closed by the exit marker
//! whose code sums with it to 255.

use crate::breakpoints::{Breakpoint, EntryBreakpoint};
use vstd::prelude::*;

verus! {

/// The different types a Trace can be.
#[derive(Debug, Clone, Copy, PartialEq, Eq, Structural)]
pub enum TraceType {
    SoftwareTask,
    HardwareTask,
    ResourceLock,
}

/// The trace type opened by an entry marker.
pub open spec fn spec_trace_type(e: EntryBreakpoint) -> TraceType {
    match e {
        EntryBreakpoint::SoftwareTaskStart => TraceType::SoftwareTask,
        EntryBreakpoint::HardwareTaskStart => TraceType::HardwareTask,
        EntryBreakpoint::ResourceLockStart => TraceType::ResourceLock,
    }
}

impl From<EntryBreakpoint> for TraceType {
    /// The trace type opened by an entry marker.
    fn from(e: EntryBreakpoint) -> (t: TraceType)
        ensures
            t == spec_trace_type(e),
    {
        match e {
            EntryBreakpoint::SoftwareTaskStart => TraceType::SoftwareTask,
            EntryBreakpoint::HardwareTaskStart => TraceType::HardwareTask,
            EntryBreakpoint::ResourceLockStart => TraceType::ResourceLock,
        }
    }
}

impl vstd::std_specs::convert::FromSpecImpl<EntryBreakpoint> for TraceType {
    open spec fn obeys_from_spec() -> bool {
        true
    }

    open spec fn from_spec(e: EntryBreakpoint) -> TraceType {
        spec_trace_type(e)
    }
}

/// The mathematical model of a trace node: an interval tree over cycle
/// counts, with a name and a kind at every node.
#[verifier::ext_equal]
pub struct TraceModel {
    pub name: Seq<char>,
    pub ttype: TraceType,
    pub start: u32,
    pub inner: Seq<TraceModel>,
    pub end: u32,
}

/// An analysis trace. Contains the measured intervals of one replayed
/// test vector.
#[derive(Debug, PartialEq)]
pub struct Trace {
    /// The name of the object.
    pub name: String,
    /// The type of trace of the object.
    pub ttype: TraceType,
    /// Clock cycle when this object starts executing.
    pub start: u32,
    /// List of critical sections and blocking objects inside this one.
    pub inner: Vec<Trace>,
    /// Clock cycle when this object has finished executing.
    pub end: u32,
}

/// The model of a trace node.
pub open spec fn trace_model(t: Trace) -> TraceModel
    decreases t,
    via trace_model_dec
{
    TraceModel {
        name: t.name@,
        ttype: t.ttype,
        start: t.start,
        inner: Seq::new(
            t.inner@.len(),
            |i: int|
                if 0 <= i < t.inner@.len() {
                    trace_model(t.inner[i])
                } else {
                    arbitrary()
                },
        ),
        end: t.end,
    }
}

#[via_fn]
proof fn trace_model_dec(t: Trace) {
    assert forall|i: int| 0 <= i < t.inner@.len() implies #[trigger] (decreases_to!(t => t.inner[i])) by {
        assert(decreases_to!(t.inner => t.inner[i]));
        assert(decreases_to!(t => t.inner));
    }
}

impl View for Trace {
    type V = TraceModel;

    open spec fn view(&self) -> TraceModel {
        trace_model(*self)
    }
}

/// The children of a trace node's model are the models of its children.
pub proof fn lemma_trace_model_inner(t: Trace)
    ensures
        trace_model(t).inner == t.inner@.map_values(|c: Trace| trace_model(c)),
{
    assert(trace_model(t).inner =~= t.inner@.map_values(|c: Trace| trace_model(c)));
}

impl Trace {
    /// Build a trace node from its parts.
    pub fn new(name: String, ttype: TraceType, start: u32, inner: Vec<Trace>, end: u32) -> (t:
        Trace)
        ensures
            t.name == name,
            t.ttype == ttype,
            t.start == start,
            t.inner == inner,
            t.end == end,
    {
        Trace { name, ttype, start, inner, end }
    }

    /// A deep copy whose model is the model of `self`.
    pub fn duplicate(&self) -> (r: Trace)
        ensures
            r@ == self@,
        decreases *self,
    {
        let mut inner: Vec<Trace> = Vec::new();
        let n = self.inner.len();
        for i in 0..n
            invariant
                n == self.inner.len(),
                inner@.len() == i,
                forall|j: int| 0 <= j < i ==> inner@[j]@ == self.inner@[j]@,
            decreases n - i,
        {
            inner.push(self.inner[i].duplicate());
        }
        let r = Trace {
            name: self.name.clone(),
            ttype: self.ttype,
            start: self.start,
            inner,
            end: self.end,
        };
        proof {
            assert(r@.inner =~= self@.inner);
            assert(r@ =~= self@);
        }
        r
    }
}

/// Well-formedness of a trace node: the interval is ordered, every child
/// lies inside it, children are sorted by start and do not overlap, and
/// every child is itself well-formed.
pub open spec fn trace_wf(t: TraceModel) -> bool
    decreases t,
{
    &&& t.start <= t.end
    &&& forall|i: int|
        0 <= i < t.inner.len() ==> {
            &&& t.start <= (#[trigger] t.inner[i]).start
            &&& t.inner[i].end <= t.end
            &&& trace_wf(t.inner[i])
        }
    &&& forall|i: int, j: int|
        0 <= i < j < t.inner.len() ==> (#[trigger] t.inner[i]).end <= (#[trigger] t.inner[j]).start
}

/// Result of measuring on hardware: the breakpoint type, the name of the
/// object (a task or resource name), and the cycle count at that breakpoint.
pub type MeasurementResult = (Breakpoint, String, u32);

/// The model of one measured sample.
pub type SampleModel = (Breakpoint, Seq<char>, u32);

/// The model of a sample list.
pub open spec fn samples_model(ms: Seq<MeasurementResult>) -> Seq<SampleModel> {
    ms.map_values(|m: MeasurementResult| (m.0, m.1@, m.2))
}

/// Why the trace builder rejected a sample list.
#[derive(Debug, Clone, Copy, PartialEq, Eq, Structural)]
pub enum TraceError {
    /// The sample list was empty, or an entry marker was never closed.
    EmptyInput,
    /// An exit marker did not match the innermost open entry marker, or
    /// arrived with no scope open.
    ScopeMismatch,
    /// An auxiliary marker reached the analysis; those are consumed during
    /// measurement and must not appear here.
    UnsupportedMarkerInAnalysis,
}

/// An open scope while folding: the entry marker that opened it, its name
/// and start time, and the children collected so far.
#[verifier::ext_equal]
pub struct FrameModel {
    pub entry: EntryBreakpoint,
    pub name: Seq<char>,
    pub start: u32,
    pub children: Seq<TraceModel>,
}

/// The state of the fold: finished root traces, and the stack of open scopes
/// (outermost first).
#[verifier::ext_equal]
pub struct BuildState {
    pub done: Seq<TraceModel>,
    pub open: Seq<FrameModel>,
}

/// The state the fold starts from.
pub open spec fn build_init() -> BuildState {
    BuildState { done: Seq::empty(), open: Seq::empty() }
}

/// One step of the fold, on one sample.
pub open spec fn build_step(st: BuildState, s: SampleModel) -> Result<BuildState, TraceError> {
    match s.0 {
        Breakpoint::Entry(e) => Ok(
            BuildState {
                done: st.done,
                open: st.open.push(
                    FrameModel { entry: e, name: s.1, start: s.2, children: Seq::empty() },
                ),
            },
        ),
        Breakpoint::Exit(x) => {
            if st.open.len() == 0 {
                Err(TraceError::ScopeMismatch)
            } else {
                let f = st.open.last();
                if f.entry.spec_code() + x.spec_code() != 255 {
                    Err(TraceError::ScopeMismatch)
                } else {
                    let t = TraceModel {
                        name: f.name,
                        ttype: spec_trace_type(f.entry),
                        start: f.start,
                        inner: f.children,
                        end: s.2,
                    };
                    let rest = st.open.drop_last();
                    if rest.len() == 0 {
                        Ok(BuildState { done: st.done.push(t), open: rest })
                    } else {
                        let parent = rest.last();
                        Ok(
                            BuildState {
                                done: st.done,
                                open: rest.drop_last().push(
                                    FrameModel {
                                        entry: parent.entry,
                                        name: parent.name,
                                        start: parent.start,
                                        children: parent.children.push(t),
                                    },
                                ),
                            },
                        )
                    }
                }
            }
        },
        Breakpoint::Other(_) => Err(TraceError::UnsupportedMarkerInAnalysis),
    }
}

/// The fold over a whole sample list, from a given state.
pub open spec fn build_run(st: BuildState, s: Seq<SampleModel>) -> Result<BuildState, TraceError>
    decreases s.len(),
{
    if s.len() == 0 {
        Ok(st)
    } else {
        match build_step(st, s[0]) {
            Ok(st2) => build_run(st2, s.skip(1)),
            Err(e) => Err(e),
        }
    }
}

/// What the trace builder returns on a sample list: the forest of closed
/// scopes, or the error that rejected the list.
pub open spec fn spec_wcet_analysis(s: Seq<SampleModel>) -> Result<Seq<TraceModel>, TraceError> {
    if s.len() == 0 {
        Err(TraceError::EmptyInput)
    } else {
        match build_run(build_init(), s) {
            Ok(st) => {
                if st.open.len() == 0 {
                    Ok(st.done)
                } else {
                    Err(TraceError::EmptyInput)
                }
            },
            Err(e) => Err(e),
        }
    }
}

struct Frame {
    entry: EntryBreakpoint,
    name: String,
    start: u32,
    children: Vec<Trace>,
}

/// The models of a list of exec traces.
pub open spec fn traces_model(v: Seq<Trace>) -> Seq<TraceModel> {
    v.map_values(|t: Trace| t@)
}

spec fn frame_model(f: Frame) -> FrameModel {
    FrameModel { entry: f.entry, name: f.name@, start: f.start, children: traces_model(f.children@) }
}

spec fn frames_model(v: Seq<Frame>) -> Seq<FrameModel> {
    v.map_values(|f: Frame| frame_model(f))
}

proof fn lemma_run_snoc(st: BuildState, s: Seq<SampleModel>, x: SampleModel)
    ensures
        build_run(st, s.push(x)) == (match build_run(st, s) {
            Ok(m) => build_step(m, x),
            Err(e) => Err(e),
        }),
    decreases s.len(),
{
    reveal_with_fuel(build_run, 3);
    if s.len() == 0 {
        assert(s.push(x)[0] == x);
        assert(s.push(x).skip(1) =~= Seq::<SampleModel>::empty());
    } else {
        assert(s.push(x)[0] == s[0]);
        assert(s.push(x).skip(1) =~= s.skip(1).push(x));
        match build_step(st, s[0]) {
            Ok(st2) => {
                assert(build_run(st, s) == build_run(st2, s.skip(1)));
                assert(build_run(st, s.push(x)) == build_run(st2, s.push(x).skip(1)));
                lemma_run_snoc(st2, s.skip(1), x);
                assert(build_run(st2, s.push(x).skip(1)) == build_run(st2, s.skip(1).push(x)));
            },
            Err(e) => {
                assert(build_run(st, s) == Err::<BuildState, TraceError>(e));
                assert(build_run(st, s.push(x)) == Err::<BuildState, TraceError>(e));
            },
        }
    }
}

/// Run a WCET analysis on the given measurements and return the forest of
/// traces, outermost scopes as roots. The list is rejected if it is empty,
/// if an exit marker does not close the innermost open entry marker, if an
/// entry marker is never closed, or if an auxiliary marker appears.
pub fn wcet_analysis(measurements: Vec<MeasurementResult>) -> (r: Result<Vec<Trace>, TraceError>)
    ensures
        match r {
            Ok(ts) => spec_wcet_analysis(samples_model(measurements@)) == Ok::<
                Seq<TraceModel>,
                TraceError,
            >(traces_model(ts@)),
            Err(e) => spec_wcet_analysis(samples_model(measurements@)) == Err::<
                Seq<TraceModel>,
                TraceError,
            >(e),
        },
{
    let ghost s = samples_model(measurements@);
    if measurements.len() == 0 {
        return Err(TraceError::EmptyInput);
    }
    let mut done: Vec<Trace> = Vec::new();
    let mut open: Vec<Frame> = Vec::new();
    proof {
        assert(s.take(0) =~= Seq::<SampleModel>::empty());
        assert(traces_model(done@) =~= Seq::<TraceModel>::empty());
        assert(frames_model(open@) =~= Seq::<FrameModel>::empty());
        assert(BuildState { done: traces_model(done@), open: frames_model(open@) }
            =~~= build_init());
    }
    let n = measurements.len();
    let mut idx: usize = 0;
    while idx < n
        invariant
            n == measurements.len(),
            idx <= n,
            s == samples_model(measurements@),
            s.len() == n,
            build_run(build_init(), s.take(idx as int)) == Ok::<BuildState, TraceError>(
                BuildState { done: traces_model(done@), open: frames_model(open@) },
            ),
        decreases n - idx,
    {
        let ghost pre = s.take(idx as int);
        let ghost st_model = BuildState { done: traces_model(done@), open: frames_model(open@) };
        proof {
            assert(s.take(idx + 1) =~= pre.push(s[idx as int]));
            lemma_run_snoc(build_init(), pre, s[idx as int]);
        }
        let ghost sm = s[idx as int];
        let sample = &measurements[idx];
        let cyccnt = sample.2;
        match &sample.0 {
            Breakpoint::Entry(e) => {
                open.push(
                    Frame { entry: *e, name: sample.1.clone(), start: cyccnt, children: Vec::new() },
                );
                proof {
                    assert(sm.0 == Breakpoint::Entry(*e));
                    let newf = FrameModel {
                        entry: *e,
                        name: sm.1,
                        start: sm.2,
                        children: Seq::empty(),
                    };
                    assert(frames_model(open@) =~~= st_model.open.push(newf));
                    assert(build_step(st_model, sm) == Ok::<BuildState, TraceError>(
                        BuildState { done: traces_model(done@), open: frames_model(open@) },
                    ));
                }
            },
            Breakpoint::Exit(x) => {
                if open.len() == 0 {
                    proof {
                        lemma_run_err(build_init(), s, idx as int, TraceError::ScopeMismatch);
                    }
                    return Err(TraceError::ScopeMismatch);
                }
                let f = open.pop().unwrap();
                let fcode = f.entry.code();
                let xcode = x.code();
                if fcode as u16 + xcode as u16 != 255 {
                    proof {
                        lemma_run_err(build_init(), s, idx as int, TraceError::ScopeMismatch);
                    }
                    return Err(TraceError::ScopeMismatch);
                }
                proof {
                    assert(st_model.open.last() =~~= frame_model(f));
                }
                let ghost fm = st_model.open.last();
                let ghost tm = TraceModel {
                    name: fm.name,
                    ttype: spec_trace_type(fm.entry),
                    start: fm.start,
                    inner: fm.children,
                    end: sm.2,
                };
                let t = Trace {
                    name: f.name,
                    ttype: TraceType::from(f.entry),
                    start: f.start,
                    inner: f.children,
                    end: cyccnt,
                };
                proof {
                    lemma_trace_model_inner(t);
                    assert(t@.inner =~= traces_model(f.children@));
                    assert(t@ =~~= tm);
                }
                if open.len() == 0 {
                    done.push(t);
                    proof {
                        assert(traces_model(done@) =~~= st_model.done.push(tm));
                        assert(frames_model(open@) =~~= st_model.open.drop_last());
                        assert(build_step(st_model, sm) == Ok::<BuildState, TraceError>(
                            BuildState { done: traces_model(done@), open: frames_model(open@) },
                        ));
                    }
                } else {
                    let mut parent = open.pop().unwrap();
                    parent.children.push(t);
                    open.push(parent);
                    proof {
                        let rest = st_model.open.drop_last();
                        let p = rest.last();
                        assert(traces_model(parent.children@) =~~= p.children.push(tm));
                        assert(frames_model(open@) =~~= rest.drop_last().push(
                            FrameModel {
                                entry: p.entry,
                                name: p.name,
                                start: p.start,
                                children: p.children.push(tm),
                            },
                        ));
                        assert(build_step(st_model, sm) == Ok::<BuildState, TraceError>(
                            BuildState { done: traces_model(done@), open: frames_model(open@) },
                        ));
                    }
                }
            },
            Breakpoint::Other(_) => {
                proof {
                    lemma_run_err(
                        build_init(),
                        s,
                        idx as int,
                        TraceError::UnsupportedMarkerInAnalysis,
                    );
                }
                return Err(TraceError::UnsupportedMarkerInAnalysis);
            },
        }
        idx += 1;
    }
    proof {
        assert(s.take(n as int) =~= s);
    }
    if open.len() > 0 {
        return Err(TraceError::EmptyInput);
    }
    proof {
        assert(frames_model(open@).len() == 0);
    }
    Ok(done)
}

/// If the fold reaches an error at position `i`, the whole run errs the
/// same way.
proof fn lemma_run_err(st0: BuildState, s: Seq<SampleModel>, i: int, e: TraceError)
    requires
        0 <= i < s.len(),
        build_run(st0, s.take(i)) matches Ok(m) && build_step(m, s[i]) == Err::<
            BuildState,
            TraceError,
        >(e),
    ensures
        build_run(st0, s) == Err::<BuildState, TraceError>(e),
    decreases s.len(),
{
    if i == 0 {
        assert(s.take(0) =~= Seq::<SampleModel>::empty());
        assert(build_run(st0, s.take(0)) == Ok::<BuildState, TraceError>(st0));
    } else {
        assert(s.take(i)[0] == s[0]);
        let st1 = match build_step(st0, s[0]) {
            Ok(m) => m,
            Err(_) => st0,
        };
        assert(build_run(st0, s.take(i)) == build_run(st1, s.take(i).skip(1)));
        assert(s.take(i).skip(1) =~= s.skip(1).take(i - 1));
        assert(s.skip(1)[i - 1] == s[i]);
        lemma_run_err(st1, s.skip(1), i - 1, e);
    }
}

/// The models of a list of sample lists.
pub open spec fn measurement_lists_model(v: Seq<Vec<MeasurementResult>>) -> Seq<Seq<SampleModel>> {
    v.map_values(|m: Vec<MeasurementResult>| samples_model(m@))
}

/// The traces of the first `n` vectors whose sample lists the builder
/// accepts, in order; rejected vectors contribute nothing.
pub open spec fn spec_post_measurement_upto(ms: Seq<Seq<SampleModel>>, n: int) -> Seq<TraceModel>
    decreases n,
{
    if n <= 0 || n > ms.len() {
        Seq::empty()
    } else {
        let prev = spec_post_measurement_upto(ms, n - 1);
        match spec_wcet_analysis(ms[n - 1]) {
            Ok(ts) => prev + ts,
            Err(_) => prev,
        }
    }
}

/// Builds the trace forest of every measured vector. A vector whose
/// sample list the builder rejects is discarded; the others' traces are
/// collected in order.
pub fn post_measurement_analysis(measurements: Vec<Vec<MeasurementResult>>) -> (r: Vec<Trace>)
    ensures
        traces_model(r@) == spec_post_measurement_upto(
            measurement_lists_model(measurements@),
            measurements@.len() as int,
        ),
{
    let ghost ms = measurement_lists_model(measurements@);
    let ghost n = measurements@.len() as int;
    let mut remaining = measurements;
    let mut traces: Vec<Trace> = Vec::new();
    let ghost mut k: int = 0;
    proof {
        assert(traces_model(traces@) =~= Seq::<TraceModel>::empty());
        assert(measurement_lists_model(remaining@) =~= ms.skip(0));
    }
    while remaining.len() > 0
        invariant
            0 <= k <= n,
            n == ms.len(),
            measurement_lists_model(remaining@) == ms.skip(k),
            remaining@.len() == n - k,
            traces_model(traces@) == spec_post_measurement_upto(ms, k),
        decreases remaining@.len(),
    {
        let ghost old_traces = traces_model(traces@);
        let ghost rem_before = remaining@;
        let measurement = remaining.remove(0);
        proof {
            assert(measurement == rem_before[0]);
            assert(measurement_lists_model(rem_before)[0] == samples_model(rem_before[0]@));
            assert(measurement_lists_model(rem_before) == ms.skip(k));
            assert(samples_model(measurement@) == ms.skip(k)[0]);
            assert(ms.skip(k).len() == n - k);
            assert(ms.skip(k) =~= ms.subrange(k, n));
            assert(ms.skip(k)[0] == ms[k]);
            assert(remaining@ =~= rem_before.drop_first());
            assert(ms.skip(k + 1).len() == n - k - 1);
            assert forall|j: int| 0 <= j < remaining@.len() implies #[trigger] measurement_lists_model(
                remaining@,
            )[j] == ms.skip(k + 1)[j] by {
                assert(remaining@[j] == rem_before[j + 1]);
                assert(measurement_lists_model(remaining@)[j] == samples_model(remaining@[j]@));
                assert(measurement_lists_model(rem_before)[j + 1] == samples_model(
                    rem_before[j + 1]@,
                ));
                assert(ms.skip(k)[j + 1] == ms[k + 1 + j]);
                assert(ms.skip(k + 1)[j] == ms[k + 1 + j]);
            }
            assert(measurement_lists_model(remaining@) =~= ms.skip(k + 1));
        }
        match wcet_analysis(measurement) {
            Ok(built) => {
                let mut built = built;
                let ghost built_models = traces_model(built@);
                while built.len() > 0
                    invariant
                        traces_model(traces@) + traces_model(built@) == old_traces
                            + built_models,
                    decreases built@.len(),
                {
                    let ghost ts_m = traces_model(traces@);
                    let ghost b_m = traces_model(built@);
                    let x = built.remove(0);
                    traces.push(x);
                    proof {
                        assert(traces_model(traces@) =~= ts_m.push(b_m[0]));
                        assert(traces_model(built@) =~= b_m.drop_first());
                        assert(traces_model(traces@) + traces_model(built@) =~= ts_m + b_m);
                    }
                }
                proof {
                    assert(traces_model(built@) =~= Seq::<TraceModel>::empty());
                    assert(traces_model(traces@) =~= old_traces + built_models);
                    assert(spec_post_measurement_upto(ms, k + 1) == old_traces + built_models);
                }
            },
            Err(_) => {
                proof {
                    assert(spec_post_measurement_upto(ms, k + 1) == old_traces);
                }
            },
        }
        proof {
            k = k + 1;
        }
    }
    traces
}

/// Samples in execution order: cycle counts never decrease.
pub open spec fn samples_monotone(s: Seq<SampleModel>) -> bool {
    forall|i: int, j: int| 0 <= i < j < s.len() ==> (#[trigger] s[i]).2 <= (#[trigger] s[j]).2
}

spec fn frame_bound(open: Seq<FrameModel>, i: int, bound: u32) -> u32 {
    if i == open.len() - 1 {
        bound
    } else {
        open[i + 1].start
    }
}

spec fn frame_ok(open: Seq<FrameModel>, i: int, bound: u32) -> bool {
    let f = open[i];
    &&& f.start <= bound
    &&& forall|c: int|
        0 <= c < f.children.len() ==> {
            &&& trace_wf(#[trigger] f.children[c])
            &&& f.start <= f.children[c].start
            &&& f.children[c].end <= frame_bound(open, i, bound)
        }
    &&& forall|c1: int, c2: int|
        0 <= c1 < c2 < f.children.len() ==> (#[trigger] f.children[c1]).end <= (
        #[trigger] f.children[c2]).start
}

spec fn state_inv(st: BuildState, bound: u32) -> bool {
    &&& forall|i: int| 0 <= i < st.done.len() ==> trace_wf(#[trigger] st.done[i])
    &&& forall|i: int| 0 <= i < st.open.len() ==> frame_ok(st.open, i, bound)
    &&& forall|i: int|
        0 <= i && i + 1 < st.open.len() ==> (#[trigger] st.open[i]).start <= st.open[i + 1].start
}

#[verifier::rlimit(100)]
proof fn lemma_step_preserves_inv(st: BuildState, s: SampleModel, bound: u32)
    requires
        state_inv(st, bound),
        bound <= s.2,
        build_step(st, s) matches Ok(_),
    ensures
        state_inv(build_step(st, s).unwrap(), s.2),
{
    let st2 = build_step(st, s).unwrap();
    match s.0 {
        Breakpoint::Entry(e) => {
            let k = st.open.len() as int;
            assert forall|i: int| 0 <= i < st2.open.len() implies frame_ok(st2.open, i, s.2) by {
                if i < k {
                    assert(frame_ok(st.open, i, bound));
                    assert(st2.open[i] == st.open[i]);
                    if i + 1 == k {
                        assert(frame_bound(st2.open, i, s.2) == s.2);
                        assert(frame_bound(st.open, i, bound) == bound);
                    } else {
                        assert(st2.open[i + 1] == st.open[i + 1]);
                        assert(frame_bound(st2.open, i, s.2) == frame_bound(st.open, i, bound));
                    }
                }
            }
            assert forall|i: int| 0 <= i && i + 1 < st2.open.len() implies (
            #[trigger] st2.open[i]).start <= st2.open[i + 1].start by {
                if i + 1 < k {
                } else {
                    assert(frame_ok(st.open, i, bound));
                    assert(st2.open[i + 1].start == s.2);
                }
            }
        },
        Breakpoint::Exit(x) => {
            let k = st.open.len() as int;
            let f = st.open.last();
            assert(frame_ok(st.open, k - 1, bound));
            let tnew = TraceModel {
                name: f.name,
                ttype: spec_trace_type(f.entry),
                start: f.start,
                inner: f.children,
                end: s.2,
            };
            assert(trace_wf(tnew));
            let rest = st.open.drop_last();
            if rest.len() == 0 {
                assert forall|i: int| 0 <= i < st2.done.len() implies trace_wf(
                    #[trigger] st2.done[i],
                ) by {
                    if i < st.done.len() {
                        assert(st2.done[i] == st.done[i]);
                    } else {
                        assert(st2.done[i] == tnew);
                    }
                }
            } else {
                let p = rest.last();
                assert(frame_ok(st.open, k - 2, bound));
                assert(frame_bound(st.open, k - 2, bound) == f.start);
                assert forall|i: int| 0 <= i < st2.open.len() implies frame_ok(
                    st2.open,
                    i,
                    s.2,
                ) by {
                    if i < st2.open.len() - 1 {
                        assert(frame_ok(st.open, i, bound));
                        assert(st2.open[i] == st.open[i]);
                        assert(frame_bound(st2.open, i, s.2) == frame_bound(st.open, i, bound));
                    } else {
                        let pf = st2.open[i];
                        assert(pf.children == p.children.push(tnew));
                        assert(frame_ok(st.open, i, bound));
                        assert forall|c: int| 0 <= c < pf.children.len() implies {
                            &&& trace_wf(#[trigger] pf.children[c])
                            &&& pf.start <= pf.children[c].start
                            &&& pf.children[c].end <= frame_bound(st2.open, i, s.2)
                        } by {
                            if c < p.children.len() {
                                assert(pf.children[c] == p.children[c]);
                            } else {
                                assert(pf.children[c] == tnew);
                            }
                        }
                    }
                }
            }
        },
        Breakpoint::Other(_) => {},
    }
}

spec fn end_bound(s: Seq<SampleModel>, bound: u32) -> u32 {
    if s.len() == 0 {
        bound
    } else {
        s.last().2
    }
}

#[verifier::rlimit(60)]
proof fn lemma_run_preserves_inv(st: BuildState, s: Seq<SampleModel>, bound: u32)
    requires
        state_inv(st, bound),
        samples_monotone(s),
        forall|i: int| 0 <= i < s.len() ==> bound <= (#[trigger] s[i]).2,
        build_run(st, s) matches Ok(_),
    ensures
        state_inv(build_run(st, s).unwrap(), end_bound(s, bound)),
    decreases s.len(),
{
    if s.len() > 0 {
        let st1 = build_step(st, s[0]).unwrap();
        lemma_step_preserves_inv(st, s[0], bound);
        assert forall|i: int| 0 <= i < s.skip(1).len() implies s[0].2 <= (
        #[trigger] s.skip(1)[i]).2 by {
            assert(s.skip(1)[i] == s[i + 1]);
        }
        assert(samples_monotone(s.skip(1))) by {
            assert forall|i: int, j: int| 0 <= i < j < s.skip(1).len() implies (
            #[trigger] s.skip(1)[i]).2 <= (#[trigger] s.skip(1)[j]).2 by {
                assert(s.skip(1)[i] == s[i + 1]);
                assert(s.skip(1)[j] == s[j + 1]);
            }
        }
        lemma_run_preserves_inv(st1, s.skip(1), s[0].2);
        if s.len() == 1 {
            assert(end_bound(s.skip(1), s[0].2) == s[0].2);
        } else {
            assert(s.skip(1).last() == s.last());
        }
    }
}

/// Every trace forest the builder accepts, on samples in execution order,
/// is well-formed: in each tree the interval is ordered, children lie
/// inside their parent, and siblings are sorted and do not overlap.
#[verifier::rlimit(60)]
pub proof fn lemma_built_traces_wf(s: Seq<SampleModel>, ts: Seq<TraceModel>)
    requires
        samples_monotone(s),
        spec_wcet_analysis(s) == Ok::<Seq<TraceModel>, TraceError>(ts),
    ensures
        forall|i: int| 0 <= i < ts.len() ==> trace_wf(#[trigger] ts[i]),
{
    let st = build_run(build_init(), s).unwrap();
    assert(state_inv(build_init(), 0));
    if s.len() > 0 {
        lemma_run_preserves_inv(build_init(), s, 0);
    }
}

/// The number of entry markers in a sample list.
pub open spec fn count_entries(s: Seq<SampleModel>) -> int
    decreases s.len(),
{
    if s.len() == 0 {
        0
    } else {
        (if s[0].0 is Entry {
            1int
        } else {
            0int
        }) + count_entries(s.skip(1))
    }
}

/// The number of exit markers in a sample list.
pub open spec fn count_exits(s: Seq<SampleModel>) -> int
    decreases s.len(),
{
    if s.len() == 0 {
        0
    } else {
        (if s[0].0 is Exit {
            1int
        } else {
            0int
        }) + count_exits(s.skip(1))
    }
}

proof fn lemma_run_open_len(st: BuildState, s: Seq<SampleModel>)
    requires
        build_run(st, s) matches Ok(_),
    ensures
        build_run(st, s).unwrap().open.len() == st.open.len() + count_entries(s) - count_exits(s),
    decreases s.len(),
{
    if s.len() > 0 {
        let st1 = build_step(st, s[0]).unwrap();
        lemma_run_open_len(st1, s.skip(1));
    }
}

proof fn lemma_run_no_other_err(st: BuildState, s: Seq<SampleModel>)
    requires
        forall|i: int| 0 <= i < s.len() ==> !((#[trigger] s[i]).0 is Other),
        build_run(st, s) matches Err(_),
    ensures
        build_run(st, s) == Err::<BuildState, TraceError>(TraceError::ScopeMismatch),
    decreases s.len(),
{
    if s.len() > 0 {
        assert(!(s[0].0 is Other));
        match build_step(st, s[0]) {
            Ok(st1) => {
                assert forall|i: int| 0 <= i < s.skip(1).len() implies !((
                #[trigger] s.skip(1)[i]).0 is Other) by {
                    assert(s.skip(1)[i] == s[i + 1]);
                }
                lemma_run_no_other_err(st1, s.skip(1));
            },
            Err(_) => {},
        }
    }
}

/// A sample list of entry and exit markers only, with more entries than
/// exits, is always rejected: some scope cannot be closed, so the builder
/// fails with a scope mismatch or with an unclosed-input error.
pub proof fn lemma_more_entries_fails(s: Seq<SampleModel>)
    requires
        forall|i: int| 0 <= i < s.len() ==> !((#[trigger] s[i]).0 is Other),
        count_entries(s) > count_exits(s),
    ensures
        spec_wcet_analysis(s) == Err::<Seq<TraceModel>, TraceError>(TraceError::EmptyInput)
            || spec_wcet_analysis(s) == Err::<Seq<TraceModel>, TraceError>(
            TraceError::ScopeMismatch,
        ),
{
    if s.len() == 0 {
    } else {
        match build_run(build_init(), s) {
            Ok(st) => {
                lemma_run_open_len(build_init(), s);
                assert(st.open.len() > 0);
            },
            Err(_) => {
                lemma_run_no_other_err(build_init(), s);
            },
        }
    }
}

} // verus!
