//! The DWARF index: subprograms, inlined subroutines and variable
//! locations extracted from the replay binary's debug information, with the
//! range queries the measurement loop uses, and the derived views that
//! classify subroutines into resource locks and hardware-register
//! accessors.

use crate::text;
use vstd::prelude::*;

verus! {

/// The model of a subprogram.
#[verifier::ext_equal]
pub struct SubprogramModel {
    pub name: Seq<char>,
    pub linkage_name: Seq<char>,
    pub low_pc: u64,
    pub high_pc: u64,
}

/// A subprogram from the debug information: an out-of-line function and
/// its program-counter range.
#[derive(Debug, PartialEq, Eq)]
pub struct Subprogram {
    /// The source name of the subprogram.
    pub name: String,
    /// The demangled linkage name of this subprogram.
    pub linkage_name: String,
    /// The starting address of this subprogram.
    pub low_pc: u64,
    /// The ending address of this subprogram.
    pub high_pc: u64,
}

impl View for Subprogram {
    type V = SubprogramModel;

    open spec fn view(&self) -> SubprogramModel {
        SubprogramModel {
            name: self.name@,
            linkage_name: self.linkage_name@,
            low_pc: self.low_pc,
            high_pc: self.high_pc,
        }
    }
}

/// Whether `address` lies in the subprogram's range.
pub open spec fn spec_sp_in_range(sp: SubprogramModel, address: u64) -> bool {
    sp.low_pc <= address <= sp.high_pc
}

impl Subprogram {
    /// Checks if `address` is inside this subprogram's range.
    pub fn address_in_range(&self, address: u64) -> (r: bool)
        ensures
            r == spec_sp_in_range(self@, address),
    {
        self.low_pc <= address && address <= self.high_pc
    }

    fn duplicate(&self) -> (r: Subprogram)
        ensures
            r@ == self@,
    {
        Subprogram {
            name: self.name.clone(),
            linkage_name: self.linkage_name.clone(),
            low_pc: self.low_pc,
            high_pc: self.high_pc,
        }
    }
}

/// The model of an inlined subroutine.
#[verifier::ext_equal]
pub struct SubroutineModel {
    pub name: Seq<char>,
    pub ranges: Seq<(u64, u64)>,
}

/// An inlined subroutine from the debug information: an inlined function
/// whose instances the compiler may have scattered over several
/// program-counter ranges.
#[derive(Debug, PartialEq, Eq)]
pub struct Subroutine {
    /// The demangled name of the subroutine.
    pub name: String,
    /// The (low_pc, high_pc) ranges where this subroutine is inlined.
    pub ranges: Vec<(u64, u64)>,
}

impl View for Subroutine {
    type V = SubroutineModel;

    open spec fn view(&self) -> SubroutineModel {
        SubroutineModel { name: self.name@, ranges: self.ranges@ }
    }
}

/// The last range of `sub` that contains `address`, if any.
pub open spec fn spec_range_from_address_upto(
    ranges: Seq<(u64, u64)>,
    address: u64,
    n: int,
) -> Option<(u64, u64)>
    decreases n,
{
    if n <= 0 || n > ranges.len() {
        None
    } else {
        let r = ranges[n - 1];
        if r.0 <= address <= r.1 {
            Some(r)
        } else {
            spec_range_from_address_upto(ranges, address, n - 1)
        }
    }
}

impl Subroutine {
    /// Checks if `address` is inside one of this subroutine's ranges and
    /// returns that range if so.
    pub fn range_from_address(&self, address: u64) -> (r: Option<(u64, u64)>)
        ensures
            r == spec_range_from_address_upto(self@.ranges, address, self@.ranges.len() as int),
    {
        let mut res: Option<(u64, u64)> = None;
        let n = self.ranges.len();
        let mut i: usize = 0;
        while i < n
            invariant
                n == self.ranges.len(),
                i <= n,
                res == spec_range_from_address_upto(self@.ranges, address, i as int),
            decreases n - i,
        {
            let (low_pc, high_pc) = self.ranges[i];
            if low_pc <= address && address <= high_pc {
                res = Some((low_pc, high_pc));
            }
            i += 1;
        }
        res
    }

    fn duplicate(&self) -> (r: Subroutine)
        ensures
            r@ == self@,
    {
        let mut ranges: Vec<(u64, u64)> = Vec::new();
        let n = self.ranges.len();
        let mut i: usize = 0;
        while i < n
            invariant
                n == self.ranges.len(),
                i <= n,
                ranges@ == self.ranges@.take(i as int),
            decreases n - i,
        {
            ranges.push(self.ranges[i]);
            proof {
                assert(self.ranges@.take(i + 1) =~= self.ranges@.take(i as int).push(
                    self.ranges@[i as int],
                ));
            }
            i += 1;
        }
        proof {
            assert(self.ranges@.take(n as int) =~= self.ranges@);
        }
        Subroutine { name: self.name.clone(), ranges }
    }
}

/// Details about a replay variable and its location in RAM.
#[derive(Debug)]
pub struct ObjectLocation {
    /// The name of the object.
    pub name: String,
    /// The address location of the object.
    pub address: Option<u64>,
}

/// The models of a list of subprograms.
pub open spec fn subprograms_model(v: Seq<Subprogram>) -> Seq<SubprogramModel> {
    v.map_values(|s: Subprogram| s@)
}

/// The models of a list of subroutines.
pub open spec fn subroutines_model(v: Seq<Subroutine>) -> Seq<SubroutineModel> {
    v.map_values(|s: Subroutine| s@)
}

/// The subprograms among the first `n` whose range contains `address`.
pub open spec fn spec_sps_at_address_upto(
    ms: Seq<SubprogramModel>,
    address: u64,
    n: int,
) -> Seq<SubprogramModel>
    decreases n,
{
    if n <= 0 || n > ms.len() {
        Seq::empty()
    } else {
        let prev = spec_sps_at_address_upto(ms, address, n - 1);
        if spec_sp_in_range(ms[n - 1], address) {
            prev.push(ms[n - 1])
        } else {
            prev
        }
    }
}

/// Returns a new list of the subprograms where the given address is in
/// range.
pub fn get_subprograms_address_in_range(subprograms: &Vec<Subprogram>, address: u64) -> (r: Vec<
    Subprogram,
>)
    ensures
        subprograms_model(r@) == spec_sps_at_address_upto(
            subprograms_model(subprograms@),
            address,
            subprograms@.len() as int,
        ),
{
    let ghost ms = subprograms_model(subprograms@);
    let mut ok: Vec<Subprogram> = Vec::new();
    let n = subprograms.len();
    proof {
        assert(subprograms_model(ok@) =~= Seq::<SubprogramModel>::empty());
    }
    let mut i: usize = 0;
    while i < n
        invariant
            n == subprograms.len(),
            i <= n,
            ms == subprograms_model(subprograms@),
            ms.len() == n,
            subprograms_model(ok@) == spec_sps_at_address_upto(ms, address, i as int),
        decreases n - i,
    {
        let sp = &subprograms[i];
        proof {
            assert(ms[i as int] == sp@);
        }
        if sp.address_in_range(address) {
            let ghost prev = subprograms_model(ok@);
            ok.push(sp.duplicate());
            proof {
                assert(subprograms_model(ok@) =~= prev.push(ms[i as int]));
            }
        }
        i += 1;
    }
    ok
}

/// Returns a new list of the subprograms where the given address is in
/// range.
pub fn get_subprograms_in_range(subprograms: &Vec<Subprogram>, address: u64) -> (r: Vec<Subprogram>)
    ensures
        subprograms_model(r@) == spec_sps_at_address_upto(
            subprograms_model(subprograms@),
            address,
            subprograms@.len() as int,
        ),
{
    get_subprograms_address_in_range(subprograms, address)
}

/// The shortest-range subprogram among the first `n`, paired with the
/// shortest extent seen so far; earlier entries win ties.
pub open spec fn spec_shortest_sp_upto(ms: Seq<SubprogramModel>, n: int) -> (
    Option<SubprogramModel>,
    u64,
)
    decreases n,
{
    if n <= 0 || n > ms.len() {
        (None, u64::MAX)
    } else {
        let (prev, shortest) = spec_shortest_sp_upto(ms, n - 1);
        let sp = ms[n - 1];
        if sp.high_pc - sp.low_pc < shortest {
            (Some(sp), (sp.high_pc - sp.low_pc) as u64)
        } else {
            (prev, shortest)
        }
    }
}

/// Returns the subprogram in the given list with the shortest range.
pub fn get_shortest_range_subprogram(subprograms_in_range: &Vec<Subprogram>) -> (r: Option<
    Subprogram,
>)
    requires
        forall|i: int|
            0 <= i < subprograms_in_range@.len() ==> (#[trigger] subprograms_model(
                subprograms_in_range@,
            )[i]).low_pc <= subprograms_model(subprograms_in_range@)[i].high_pc,
    ensures
        ({
            let (sel, _) = spec_shortest_sp_upto(
                subprograms_model(subprograms_in_range@),
                subprograms_in_range@.len() as int,
            );
            match r {
                Some(sp) => sel == Some(sp@),
                None => sel is None,
            }
        }),
{
    let ghost ms = subprograms_model(subprograms_in_range@);
    let mut ok: Option<Subprogram> = None;
    let mut shortest_range: u64 = u64::MAX;
    let n = subprograms_in_range.len();
    let mut i: usize = 0;
    while i < n
        invariant
            n == subprograms_in_range.len(),
            i <= n,
            ms == subprograms_model(subprograms_in_range@),
            ms.len() == n,
            forall|j: int| 0 <= j < n ==> (#[trigger] ms[j]).low_pc <= ms[j].high_pc,
            ({
                let (sel, sh) = spec_shortest_sp_upto(ms, i as int);
                &&& sh == shortest_range
                &&& match ok {
                    Some(sp) => sel == Some(sp@),
                    None => sel is None,
                }
            }),
        decreases n - i,
    {
        let sp = &subprograms_in_range[i];
        proof {
            assert(ms[i as int] == sp@);
        }
        let sp_range = sp.high_pc - sp.low_pc;
        if sp_range < shortest_range {
            shortest_range = sp_range;
            ok = Some(sp.duplicate());
        }
        i += 1;
    }
    ok
}

/// The subroutines among the first `n` with a range containing `address`,
/// each reduced to that single range.
pub open spec fn spec_subs_at_address_upto(
    ms: Seq<SubroutineModel>,
    address: u64,
    n: int,
) -> Seq<SubroutineModel>
    decreases n,
{
    if n <= 0 || n > ms.len() {
        Seq::empty()
    } else {
        let prev = spec_subs_at_address_upto(ms, address, n - 1);
        let sub = ms[n - 1];
        match spec_range_from_address_upto(sub.ranges, address, sub.ranges.len() as int) {
            Some(r) => prev.push(SubroutineModel { name: sub.name, ranges: seq![r] }),
            None => prev,
        }
    }
}

/// Returns a list of subroutines where the given address is in range, each
/// with only the matching range kept.
pub fn get_subroutines_address_in_range(subroutines: &Vec<Subroutine>, address: u64) -> (r: Vec<
    Subroutine,
>)
    ensures
        subroutines_model(r@) == spec_subs_at_address_upto(
            subroutines_model(subroutines@),
            address,
            subroutines@.len() as int,
        ),
{
    let ghost ms = subroutines_model(subroutines@);
    let mut ok: Vec<Subroutine> = Vec::new();
    let n = subroutines.len();
    proof {
        assert(subroutines_model(ok@) =~= Seq::<SubroutineModel>::empty());
    }
    let mut i: usize = 0;
    while i < n
        invariant
            n == subroutines.len(),
            i <= n,
            ms == subroutines_model(subroutines@),
            ms.len() == n,
            subroutines_model(ok@) == spec_subs_at_address_upto(ms, address, i as int),
        decreases n - i,
    {
        let sub = &subroutines[i];
        proof {
            assert(ms[i as int] == sub@);
        }
        if let Some(res) = sub.range_from_address(address) {
            let ghost prev = subroutines_model(ok@);
            let mut ranges: Vec<(u64, u64)> = Vec::new();
            ranges.push(res);
            let copy = Subroutine { name: sub.name.clone(), ranges };
            proof {
                assert(copy@.ranges =~= seq![res]);
            }
            ok.push(copy);
            proof {
                assert(subroutines_model(ok@) =~~= prev.push(
                    SubroutineModel { name: ms[i as int].name, ranges: seq![res] },
                ));
            }
        }
        i += 1;
    }
    ok
}

/// Whether every range of `sub` lies fully inside `[low_pc, high_pc]`.
pub open spec fn spec_sub_within(sub: SubroutineModel, low_pc: u64, high_pc: u64) -> bool {
    forall|i: int|
        0 <= i < sub.ranges.len() ==> low_pc <= (#[trigger] sub.ranges[i]).0 && sub.ranges[i].1
            <= high_pc
}

/// The subroutines among the first `n` whose ranges all lie inside
/// `[low_pc, high_pc]`.
pub open spec fn spec_subs_within_upto(
    ms: Seq<SubroutineModel>,
    low_pc: u64,
    high_pc: u64,
    n: int,
) -> Seq<SubroutineModel>
    decreases n,
{
    if n <= 0 || n > ms.len() {
        Seq::empty()
    } else {
        let prev = spec_subs_within_upto(ms, low_pc, high_pc, n - 1);
        if spec_sub_within(ms[n - 1], low_pc, high_pc) {
            prev.push(ms[n - 1])
        } else {
            prev
        }
    }
}

/// Returns a list of the subroutines whose ranges lie fully inside
/// `[low_pc, high_pc]`.
pub fn get_subroutines_in_range(subroutines: &Vec<Subroutine>, low_pc: u64, high_pc: u64) -> (r:
    Vec<Subroutine>)
    ensures
        subroutines_model(r@) == spec_subs_within_upto(
            subroutines_model(subroutines@),
            low_pc,
            high_pc,
            subroutines@.len() as int,
        ),
{
    let ghost ms = subroutines_model(subroutines@);
    let mut ok: Vec<Subroutine> = Vec::new();
    let n = subroutines.len();
    proof {
        assert(subroutines_model(ok@) =~= Seq::<SubroutineModel>::empty());
    }
    let mut i: usize = 0;
    while i < n
        invariant
            n == subroutines.len(),
            i <= n,
            ms == subroutines_model(subroutines@),
            ms.len() == n,
            subroutines_model(ok@) == spec_subs_within_upto(ms, low_pc, high_pc, i as int),
        decreases n - i,
    {
        let sub = &subroutines[i];
        proof {
            assert(ms[i as int] == sub@);
        }
        let m = sub.ranges.len();
        let mut all_inside = true;
        let mut j: usize = 0;
        while j < m
            invariant
                m == sub.ranges.len(),
                j <= m,
                all_inside == (forall|q: int|
                    0 <= q < j ==> low_pc <= (#[trigger] sub.ranges@[q]).0 && sub.ranges@[q].1
                        <= high_pc),
            decreases m - j,
        {
            let (lo, hi) = sub.ranges[j];
            if !(low_pc <= lo && hi <= high_pc) {
                all_inside = false;
            }
            j += 1;
        }
        proof {
            if all_inside {
                assert forall|q: int| 0 <= q < ms[i as int].ranges.len() implies low_pc <= (
                #[trigger] ms[i as int].ranges[q]).0 && ms[i as int].ranges[q].1 <= high_pc by {
                    assert(ms[i as int].ranges[q] == sub.ranges@[q]);
                }
                assert(spec_sub_within(ms[i as int], low_pc, high_pc));
            } else {
                let q0 = choose|q: int|
                    0 <= q < sub.ranges@.len() && !(low_pc <= (#[trigger] sub.ranges@[q]).0
                        && sub.ranges@[q].1 <= high_pc);
                assert(ms[i as int].ranges[q0] == sub.ranges@[q0]);
                assert(!spec_sub_within(ms[i as int], low_pc, high_pc));
            }
        }
        if all_inside {
            let ghost prev = subroutines_model(ok@);
            ok.push(sub.duplicate());
            proof {
                assert(subroutines_model(ok@) =~= prev.push(ms[i as int]));
            }
        }
        i += 1;
    }
    ok
}

/// Why a query over the index failed.
#[derive(Debug, Clone, Copy, PartialEq, Eq, Structural)]
pub enum DwarfError {
    /// A subroutine carries no address ranges.
    MissingRanges,
}

/// The shortest-range subroutine among the first `n`, measured on each
/// subroutine's first range, or the error if one has no ranges.
pub open spec fn spec_shortest_sub_upto(ms: Seq<SubroutineModel>, n: int) -> Result<
    (Option<SubroutineModel>, u64),
    DwarfError,
>
    decreases n,
{
    if n <= 0 || n > ms.len() {
        Ok((None, u64::MAX))
    } else {
        match spec_shortest_sub_upto(ms, n - 1) {
            Ok((prev, shortest)) => {
                let sub = ms[n - 1];
                if sub.ranges.len() == 0 {
                    Err(DwarfError::MissingRanges)
                } else {
                    let r = sub.ranges[0];
                    if r.1 - r.0 < shortest {
                        Ok((Some(sub), (r.1 - r.0) as u64))
                    } else {
                        Ok((prev, shortest))
                    }
                }
            },
            Err(e) => Err(e),
        }
    }
}

/// Returns the subroutine in the given list with the shortest first
/// range; fails if a subroutine has no address ranges.
pub fn get_shortest_range_subroutine(subroutines_in_range: &Vec<Subroutine>) -> (r: Result<
    Option<Subroutine>,
    DwarfError,
>)
    requires
        forall|i: int, j: int|
            0 <= i < subroutines_in_range@.len() && 0 <= j < (#[trigger] subroutines_model(
                subroutines_in_range@,
            )[i]).ranges.len() ==> (#[trigger] subroutines_model(subroutines_in_range@)[i].ranges[j]).0
                <= subroutines_model(subroutines_in_range@)[i].ranges[j].1,
    ensures
        ({
            let spec = spec_shortest_sub_upto(
                subroutines_model(subroutines_in_range@),
                subroutines_in_range@.len() as int,
            );
            match r {
                Ok(Some(sub)) => spec matches Ok((sel, _)) && sel == Some(sub@),
                Ok(None) => spec matches Ok((sel, _)) && sel is None,
                Err(e) => spec == Err::<(Option<SubroutineModel>, u64), DwarfError>(e),
            }
        }),
{
    let ghost ms = subroutines_model(subroutines_in_range@);
    let mut ok: Option<Subroutine> = None;
    let mut shortest_range: u64 = u64::MAX;
    let n = subroutines_in_range.len();
    let mut i: usize = 0;
    while i < n
        invariant
            n == subroutines_in_range.len(),
            i <= n,
            ms == subroutines_model(subroutines_in_range@),
            ms.len() == n,
            forall|a: int, b: int|
                0 <= a < n && 0 <= b < (#[trigger] ms[a]).ranges.len() ==> (
                #[trigger] ms[a].ranges[b]).0 <= ms[a].ranges[b].1,
            ({
                let spec = spec_shortest_sub_upto(ms, i as int);
                &&& spec matches Ok((sel, sh))
                &&& spec_shortest_sub_upto(ms, i as int).unwrap().1 == shortest_range
                &&& match ok {
                    Some(sub) => spec_shortest_sub_upto(ms, i as int).unwrap().0 == Some(sub@),
                    None => spec_shortest_sub_upto(ms, i as int).unwrap().0 is None,
                }
            }),
        decreases n - i,
    {
        let sub = &subroutines_in_range[i];
        proof {
            assert(ms[i as int] == sub@);
        }
        if sub.ranges.len() == 0 {
            proof {
                assert(spec_shortest_sub_upto(ms, i + 1) == Err::<
                    (Option<SubroutineModel>, u64),
                    DwarfError,
                >(DwarfError::MissingRanges));
                lemma_shortest_sub_err_prop(ms, i + 1);
            }
            return Err(DwarfError::MissingRanges);
        }
        let (low, high) = sub.ranges[0];
        proof {
            assert(ms[i as int].ranges[0] == sub.ranges@[0]);
            assert(ms[i as int].ranges[0].0 <= ms[i as int].ranges[0].1);
        }
        let sp_range = high - low;
        if sp_range < shortest_range {
            shortest_range = sp_range;
            ok = Some(sub.duplicate());
        }
        i += 1;
    }
    Ok(ok)
}

proof fn lemma_shortest_sub_err_prop(ms: Seq<SubroutineModel>, m: int)
    requires
        0 < m <= ms.len(),
        spec_shortest_sub_upto(ms, m) matches Err(_),
    ensures
        spec_shortest_sub_upto(ms, ms.len() as int) == spec_shortest_sub_upto(ms, m),
    decreases ms.len() - m,
{
    if m < ms.len() {
        lemma_shortest_sub_err_prop(ms, m + 1);
    }
}

/// What `rustc_demangle::demangle` returns for a mangled symbol. The
/// result depends on the symbol's characters alone.
pub uninterp spec fn demangled_of(s: Seq<char>) -> Seq<char>;

/// Relies on rustc_demangle::demangle: turns a mangled linkage name into
/// its demangled, human-readable form.
#[verifier::external_body]
fn demangle_name(s: &str) -> (r: String)
    ensures
        r@ == demangled_of(s@),
{
    rustc_demangle::demangle(s).to_string()
}

/// The pattern that opens a resource-lock specialization's demangled name.
pub open spec fn lock_prefix() -> Seq<char> {
    "impl rtic_core::Mutex for "@
}

/// The pattern that closes a resource-lock specialization's demangled name.
pub open spec fn lock_suffix() -> Seq<char> {
    ">::lock"@
}

/// The resource name captured from a demangled lock name: the part after
/// the last `impl rtic_core::Mutex for ` and before the first following
/// `>::lock`, if the former occurs at all.
pub open spec fn spec_resource_name(s: Seq<char>) -> Option<Seq<char>> {
    match text::spec_last_match(s, lock_prefix()) {
        Some(i) => {
            let rest = s.subrange(i + lock_prefix().len(), s.len() as int);
            match text::first_match_from(rest, lock_suffix(), 0) {
                Some(j) => Some(rest.subrange(0, j)),
                None => Some(rest),
            }
        },
        None => None,
    }
}

/// Tries to parse the name of the resource from the demangled name of its
/// lock specialization. Returns `None` if the name is not a resource lock.
fn parse_resource_name_from_lock(unmangled_name: &String) -> (r: Option<String>)
    ensures
        match r {
            Some(name) => spec_resource_name(unmangled_name@) == Some(name@),
            None => spec_resource_name(unmangled_name@) is None,
        },
{
    let s = unmangled_name.as_str();
    let prefix = "impl rtic_core::Mutex for ";
    match text::find_last(s, prefix) {
        Some(i) => {
            proof {
                text::lemma_last_match_is_match(
                    s@,
                    prefix@,
                    s@.len() - prefix@.len(),
                    i as int,
                );
            }
            let plen = prefix.unicode_len();
            let slen = s.unicode_len();
            let rest = text::substring(s, i + plen, slen);
            match text::find_first(rest.as_str(), ">::lock") {
                Some(j) => {
                    proof {
                        text::lemma_first_match_is_match(rest@, ">::lock"@, 0, j as int);
                    }
                    Some(text::substring(rest.as_str(), 0, j))
                },
                None => Some(rest),
            }
        },
        None => None,
    }
}

/// The resource-lock view of the first `n` subroutines: those whose name
/// matches the lock pattern, renamed to the captured resource name.
pub open spec fn spec_resources_upto(ms: Seq<SubroutineModel>, n: int) -> Seq<SubroutineModel>
    decreases n,
{
    if n <= 0 || n > ms.len() {
        Seq::empty()
    } else {
        let prev = spec_resources_upto(ms, n - 1);
        match spec_resource_name(ms[n - 1].name) {
            Some(name) => prev.push(SubroutineModel { name, ranges: ms[n - 1].ranges }),
            None => prev,
        }
    }
}

/// From a list of subroutines, returns the subroutines that are resource
/// locks, renamed to their resource's name.
pub fn get_resources_from_subroutines(subroutines: &Vec<Subroutine>) -> (r: Vec<Subroutine>)
    ensures
        subroutines_model(r@) == spec_resources_upto(
            subroutines_model(subroutines@),
            subroutines@.len() as int,
        ),
{
    let ghost ms = subroutines_model(subroutines@);
    let mut resources: Vec<Subroutine> = Vec::new();
    let n = subroutines.len();
    proof {
        assert(subroutines_model(resources@) =~= Seq::<SubroutineModel>::empty());
    }
    let mut i: usize = 0;
    while i < n
        invariant
            n == subroutines.len(),
            i <= n,
            ms == subroutines_model(subroutines@),
            ms.len() == n,
            subroutines_model(resources@) == spec_resources_upto(ms, i as int),
        decreases n - i,
    {
        let sub = &subroutines[i];
        proof {
            assert(ms[i as int] == sub@);
        }
        if let Some(resource_name) = parse_resource_name_from_lock(&sub.name) {
            let ghost prev = subroutines_model(resources@);
            let mut copy = sub.duplicate();
            copy.name = resource_name;
            resources.push(copy);
            proof {
                assert(subroutines_model(resources@) =~~= prev.push(
                    SubroutineModel {
                        name: spec_resource_name(ms[i as int].name).unwrap(),
                        ranges: ms[i as int].ranges,
                    },
                ));
            }
        }
        i += 1;
    }
    resources
}

/// Whether a subroutine's name marks a hardware-register accessor: it
/// mentions `vcell` together with `get` or `as_ptr`.
pub open spec fn spec_is_vcell(name: Seq<char>) -> bool {
    text::spec_contains(name, "vcell"@) && (text::spec_contains(name, "get"@)
        || text::spec_contains(name, "as_ptr"@))
}

/// The hardware-accessor view of the first `n` subroutines.
pub open spec fn spec_vcells_upto(ms: Seq<SubroutineModel>, n: int) -> Seq<SubroutineModel>
    decreases n,
{
    if n <= 0 || n > ms.len() {
        Seq::empty()
    } else {
        let prev = spec_vcells_upto(ms, n - 1);
        if spec_is_vcell(ms[n - 1].name) {
            prev.push(ms[n - 1])
        } else {
            prev
        }
    }
}

/// From a list of subroutines, returns the subroutines that are hardware
/// register readings, that is `vcell::get` or `vcell::as_ptr`.
pub fn get_vcell_from_subroutines(subroutines: &Vec<Subroutine>) -> (r: Vec<Subroutine>)
    ensures
        subroutines_model(r@) == spec_vcells_upto(
            subroutines_model(subroutines@),
            subroutines@.len() as int,
        ),
{
    let ghost ms = subroutines_model(subroutines@);
    let mut vcells: Vec<Subroutine> = Vec::new();
    let n = subroutines.len();
    proof {
        assert(subroutines_model(vcells@) =~= Seq::<SubroutineModel>::empty());
    }
    let mut i: usize = 0;
    while i < n
        invariant
            n == subroutines.len(),
            i <= n,
            ms == subroutines_model(subroutines@),
            ms.len() == n,
            subroutines_model(vcells@) == spec_vcells_upto(ms, i as int),
        decreases n - i,
    {
        let sub = &subroutines[i];
        proof {
            assert(ms[i as int] == sub@);
        }
        if text::contains_str(sub.name.as_str(), "vcell") && (text::contains_str(
            sub.name.as_str(),
            "get",
        ) || text::contains_str(sub.name.as_str(), "as_ptr")) {
            let ghost prev = subroutines_model(vcells@);
            vcells.push(sub.duplicate());
            proof {
                assert(subroutines_model(vcells@) =~= prev.push(ms[i as int]));
            }
        }
        i += 1;
    }
    vcells
}

/// The subprograms among the first `n` that mention `name` in their source
/// name or their linkage name.
pub open spec fn spec_sps_with_name_upto(
    ms: Seq<SubprogramModel>,
    name: Seq<char>,
    n: int,
) -> Seq<SubprogramModel>
    decreases n,
{
    if n <= 0 || n > ms.len() {
        Seq::empty()
    } else {
        let prev = spec_sps_with_name_upto(ms, name, n - 1);
        if text::spec_contains(ms[n - 1].name, name) || text::spec_contains(
            ms[n - 1].linkage_name,
            name,
        ) {
            prev.push(ms[n - 1])
        } else {
            prev
        }
    }
}

/// Returns a list with the subprograms containing `name` as a substring of
/// their source name or linkage name.
pub fn get_subprograms_with_name(subprograms: &Vec<Subprogram>, name: &str) -> (r: Vec<Subprogram>)
    ensures
        subprograms_model(r@) == spec_sps_with_name_upto(
            subprograms_model(subprograms@),
            name@,
            subprograms@.len() as int,
        ),
{
    let ghost ms = subprograms_model(subprograms@);
    let mut ok: Vec<Subprogram> = Vec::new();
    let n = subprograms.len();
    proof {
        assert(subprograms_model(ok@) =~= Seq::<SubprogramModel>::empty());
    }
    let mut i: usize = 0;
    while i < n
        invariant
            n == subprograms.len(),
            i <= n,
            ms == subprograms_model(subprograms@),
            ms.len() == n,
            subprograms_model(ok@) == spec_sps_with_name_upto(ms, name@, i as int),
        decreases n - i,
    {
        let sp = &subprograms[i];
        proof {
            assert(ms[i as int] == sp@);
        }
        if text::contains_str(sp.name.as_str(), name) || text::contains_str(
            sp.linkage_name.as_str(),
            name,
        ) {
            let ghost prev = subprograms_model(ok@);
            ok.push(sp.duplicate());
            proof {
                assert(subprograms_model(ok@) =~= prev.push(ms[i as int]));
            }
        }
        i += 1;
    }
    ok
}

/// The model of an object-location map entry list.
pub type LocMap = Seq<(Seq<char>, Option<u64>)>;

/// The first location bound to `k` at or after index `i`.
pub open spec fn loc_lookup_from(m: LocMap, k: Seq<char>, i: int) -> Option<Option<u64>>
    decreases m.len() - i,
{
    if i < 0 || i >= m.len() {
        None
    } else if m[i].0 == k {
        Some(m[i].1)
    } else {
        loc_lookup_from(m, k, i + 1)
    }
}

/// The location bound to `k`.
pub open spec fn loc_lookup(m: LocMap, k: Seq<char>) -> Option<Option<u64>> {
    loc_lookup_from(m, k, 0)
}

/// The first index bound to `k` at or after index `i`.
pub open spec fn loc_index_from(m: LocMap, k: Seq<char>, i: int) -> Option<int>
    decreases m.len() - i,
{
    if i < 0 || i >= m.len() {
        None
    } else if m[i].0 == k {
        Some(i)
    } else {
        loc_index_from(m, k, i + 1)
    }
}

/// Binding a name: the first entry for the name is replaced, or a new
/// entry appended.
pub open spec fn loc_insert(m: LocMap, k: Seq<char>, v: Option<u64>) -> LocMap {
    match loc_index_from(m, k, 0) {
        Some(i) => m.update(i, (k, v)),
        None => m.push((k, v)),
    }
}

/// A map from the name of a replay variable to its memory location.
#[derive(Debug)]
pub struct ObjectLocationMap {
    pub entries: Vec<(String, Option<u64>)>,
}

impl View for ObjectLocationMap {
    type V = LocMap;

    open spec fn view(&self) -> LocMap {
        self.entries@.map_values(|p: (String, Option<u64>)| (p.0@, p.1))
    }
}

impl ObjectLocationMap {
    /// An empty location map.
    pub fn new() -> (r: ObjectLocationMap)
        ensures
            r@ == Seq::<(Seq<char>, Option<u64>)>::empty(),
    {
        let r = ObjectLocationMap { entries: Vec::new() };
        proof {
            assert(r@ =~= Seq::<(Seq<char>, Option<u64>)>::empty());
        }
        r
    }

    /// The location of the variable named `k`, if one is recorded.
    pub fn get(&self, k: &String) -> (r: Option<Option<u64>>)
        ensures
            r == loc_lookup(self@, k@),
    {
        let n = self.entries.len();
        let mut i: usize = 0;
        while i < n
            invariant
                n == self.entries.len(),
                i <= n,
                loc_lookup(self@, k@) == loc_lookup_from(self@, k@, i as int),
            decreases n - i,
        {
            if self.entries[i].0 == *k {
                return Some(self.entries[i].1);
            }
            i += 1;
        }
        None
    }

    /// Bind the variable named `k` to location `v`.
    pub fn insert(&mut self, k: String, v: Option<u64>)
        ensures
            final(self)@ == loc_insert(old(self)@, k@, v),
    {
        let n = self.entries.len();
        let mut i: usize = 0;
        while i < n
            invariant
                n == self.entries.len(),
                i <= n,
                self == old(self),
                loc_index_from(self@, k@, 0) == loc_index_from(self@, k@, i as int),
            decreases n - i,
        {
            if self.entries[i].0 == k {
                self.entries[i] = (k, v);
                proof {
                    assert(final(self)@ =~= loc_insert(old(self)@, k@, v));
                }
                return ;
            }
            i += 1;
        }
        self.entries.push((k, v));
        proof {
            assert(final(self)@ =~= loc_insert(old(self)@, k@, v));
        }
    }
}

/// The model of one debug-information attribute.
pub enum DebugAttrModel {
    Name(Seq<char>),
    LinkageName(Seq<char>),
    AbstractOriginLinkage(Seq<char>),
    LowPc(u64),
    HighPcOffset(u64),
    External,
    LocAddress(u64),
    LocValue(u64),
    Ranges(Seq<(u64, u64)>),
    Other,
}

/// One attribute of a debug-information entry, already evaluated to plain
/// values: names and linkage names as strings, the location expression's
/// outcome as an address or a value, and range lists as address pairs.
#[derive(Debug)]
pub enum DebugAttr {
    /// The entry's source name.
    Name(String),
    /// The entry's mangled linkage name.
    LinkageName(String),
    /// The mangled linkage name of the entry's abstract origin.
    AbstractOriginLinkage(String),
    /// The entry's starting address.
    LowPc(u64),
    /// The entry's size: its ending address relative to the start.
    HighPcOffset(u64),
    /// The entry is external.
    External,
    /// The evaluated location: a memory address.
    LocAddress(u64),
    /// The evaluated location: a plain value.
    LocValue(u64),
    /// The entry's address ranges.
    Ranges(Vec<(u64, u64)>),
    /// Any attribute the index does not read.
    Other,
}

impl View for DebugAttr {
    type V = DebugAttrModel;

    open spec fn view(&self) -> DebugAttrModel {
        match self {
            DebugAttr::Name(s) => DebugAttrModel::Name(s@),
            DebugAttr::LinkageName(s) => DebugAttrModel::LinkageName(s@),
            DebugAttr::AbstractOriginLinkage(s) => DebugAttrModel::AbstractOriginLinkage(s@),
            DebugAttr::LowPc(a) => DebugAttrModel::LowPc(*a),
            DebugAttr::HighPcOffset(a) => DebugAttrModel::HighPcOffset(*a),
            DebugAttr::External => DebugAttrModel::External,
            DebugAttr::LocAddress(a) => DebugAttrModel::LocAddress(*a),
            DebugAttr::LocValue(v) => DebugAttrModel::LocValue(*v),
            DebugAttr::Ranges(rs) => DebugAttrModel::Ranges(rs@),
            DebugAttr::Other => DebugAttrModel::Other,
        }
    }
}

/// The kind of a debug-information entry.
#[derive(Debug, Clone, Copy, PartialEq, Eq, Structural)]
pub enum DebugTag {
    /// A `DW_TAG_variable` entry.
    Variable,
    /// A `DW_TAG_subprogram` entry.
    Subprogram,
    /// A `DW_TAG_inlined_subroutine` entry.
    InlinedSubroutine,
    /// Any other entry.
    Other,
}

/// The model of a debug-information entry.
pub struct DebugEntryModel {
    pub tag: DebugTag,
    pub attrs: Seq<DebugAttrModel>,
}

/// A debug-information entry reduced to plain values: its tag and its
/// attributes.
#[derive(Debug)]
pub struct DebugEntry {
    /// The entry's tag.
    pub tag: DebugTag,
    /// The entry's attributes, in their order in the debug information.
    pub attrs: Vec<DebugAttr>,
}

impl View for DebugEntry {
    type V = DebugEntryModel;

    open spec fn view(&self) -> DebugEntryModel {
        DebugEntryModel {
            tag: self.tag,
            attrs: self.attrs@.map_values(|a: DebugAttr| a@),
        }
    }
}

/// The models of a list of debug entries.
pub open spec fn entries_model(v: Seq<DebugEntry>) -> Seq<DebugEntryModel> {
    v.map_values(|e: DebugEntry| e@)
}

/// The RAM threshold above which a location expression's plain value is
/// itself taken as a RAM pointer.
pub const RAM_ADDRESS_START: u64 = 0x2000_0000;

/// The model of a replay variable's location.
#[verifier::ext_equal]
pub struct ObjectLocationModel {
    pub name: Seq<char>,
    pub address: Option<u64>,
}

impl View for ObjectLocation {
    type V = ObjectLocationModel;

    open spec fn view(&self) -> ObjectLocationModel {
        ObjectLocationModel { name: self.name@, address: self.address }
    }
}

/// The state after folding the first `n` attributes of a variable entry:
/// the name seen so far, the location seen so far, and whether the entry
/// was marked external.
pub open spec fn spec_variable_fold(attrs: Seq<DebugAttrModel>, n: int) -> (
    Seq<char>,
    Option<u64>,
    bool,
)
    decreases n,
{
    if n <= 0 || n > attrs.len() {
        (Seq::empty(), None, false)
    } else {
        let (name, loc, ext) = spec_variable_fold(attrs, n - 1);
        match attrs[n - 1] {
            DebugAttrModel::Name(s) => (s, loc, ext),
            DebugAttrModel::LocAddress(a) => (name, Some(a), ext),
            DebugAttrModel::LocValue(v) => {
                if v >= RAM_ADDRESS_START {
                    (name, Some(v), ext)
                } else {
                    (name, loc, ext)
                }
            },
            DebugAttrModel::External => (name, loc, true),
            _ => (name, loc, ext),
        }
    }
}

/// The replay-variable location a variable entry yields: its name and
/// address, unless the entry is external or no concrete location was
/// computed.
pub open spec fn spec_object_location(attrs: Seq<DebugAttrModel>) -> Option<ObjectLocationModel> {
    let (name, loc, ext) = spec_variable_fold(attrs, attrs.len() as int);
    if ext {
        None
    } else if loc is Some {
        Some(ObjectLocationModel { name, address: loc })
    } else {
        None
    }
}

/// Tries to find the variable information (location and name) for a
/// variable entry. External objects are ignored, and a plain location
/// value counts only if it points into RAM.
fn parse_object_location(attrs: &Vec<DebugAttr>) -> (r: Option<ObjectLocation>)
    ensures
        match r {
            Some(o) => spec_object_location(attrs@.map_values(|a: DebugAttr| a@)) == Some(o@),
            None => spec_object_location(attrs@.map_values(|a: DebugAttr| a@)) is None,
        },
{
    let ghost ams = attrs@.map_values(|a: DebugAttr| a@);
    let mut name = String::new();
    let mut location: Option<u64> = None;
    let n = attrs.len();
    let mut i: usize = 0;
    while i < n
        invariant
            n == attrs.len(),
            i <= n,
            ams == attrs@.map_values(|a: DebugAttr| a@),
            ams.len() == n,
            spec_variable_fold(ams, i as int) == (name@, location, false),
        decreases n - i,
    {
        proof {
            assert(ams[i as int] == attrs@[i as int]@);
        }
        match &attrs[i] {
            DebugAttr::Name(s) => {
                name = s.clone();
            },
            DebugAttr::LocAddress(a) => {
                location = Some(*a);
            },
            DebugAttr::LocValue(v) => {
                if *v >= RAM_ADDRESS_START {
                    location = Some(*v);
                }
            },
            DebugAttr::External => {
                proof {
                    lemma_variable_fold_external(ams, i as int, n as int);
                }
                return None;
            },
            _ => {},
        }
        i += 1;
    }
    if location.is_some() {
        Some(ObjectLocation { name, address: location })
    } else {
        None
    }
}

/// Once marked external, a variable entry stays external.
proof fn lemma_variable_fold_external(attrs: Seq<DebugAttrModel>, i: int, n: int)
    requires
        0 <= i < n <= attrs.len(),
        attrs[i] is External,
        !spec_variable_fold(attrs, i).2,
    ensures
        spec_variable_fold(attrs, n).2,
    decreases n,
{
    if n > i + 1 {
        lemma_variable_fold_external(attrs, i, n - 1);
    }
}

/// Whether a source name is reserved: it begins with two underscores.
pub open spec fn spec_reserved_name(s: Seq<char>) -> bool {
    s.len() >= 2 && s[0] == '_' && s[1] == '_'
}

/// The state after folding the first `n` attributes of a subprogram entry:
/// the accepted source name, the demangled linkage name, and the low and
/// high program-counter attributes.
pub open spec fn spec_subprogram_fold(attrs: Seq<DebugAttrModel>, n: int) -> (
    Option<Seq<char>>,
    Seq<char>,
    Option<u64>,
    Option<u64>,
)
    decreases n,
{
    if n <= 0 || n > attrs.len() {
        (None, Seq::empty(), None, None)
    } else {
        let (name, linkage, low, high) = spec_subprogram_fold(attrs, n - 1);
        match attrs[n - 1] {
            DebugAttrModel::Name(s) => {
                if spec_reserved_name(s) {
                    (name, linkage, low, high)
                } else {
                    (Some(s), linkage, low, high)
                }
            },
            DebugAttrModel::LinkageName(s) => (name, demangled_of(s), low, high),
            DebugAttrModel::LowPc(a) => (name, linkage, Some(a), high),
            DebugAttrModel::HighPcOffset(a) => (name, linkage, low, Some(a)),
            _ => (name, linkage, low, high),
        }
    }
}

/// The subprogram a subprogram entry yields: it needs an unreserved source
/// name and both bounds, and its end is the start plus the size, dropped
/// if that sum leaves the address space.
pub open spec fn spec_subprogram(attrs: Seq<DebugAttrModel>) -> Option<SubprogramModel> {
    let (name, linkage, low, high) = spec_subprogram_fold(attrs, attrs.len() as int);
    match (name, low, high) {
        (Some(name), Some(low), Some(high)) => {
            if low + high <= u64::MAX {
                Some(
                    SubprogramModel {
                        name,
                        linkage_name: linkage,
                        low_pc: low,
                        high_pc: (low + high) as u64,
                    },
                )
            } else {
                None
            }
        },
        _ => None,
    }
}

/// Tries to parse a subprogram from a subprogram entry's attributes.
/// Reserved names beginning with `__` are ignored.
fn parse_subprogram(attrs: &Vec<DebugAttr>) -> (r: Option<Subprogram>)
    ensures
        match r {
            Some(sp) => spec_subprogram(attrs@.map_values(|a: DebugAttr| a@)) == Some(sp@),
            None => spec_subprogram(attrs@.map_values(|a: DebugAttr| a@)) is None,
        },
{
    let ghost ams = attrs@.map_values(|a: DebugAttr| a@);
    let mut name: Option<String> = None;
    let mut linkage_name: String = String::new();
    let mut low_pc: Option<u64> = None;
    let mut high_pc: Option<u64> = None;
    let n = attrs.len();
    let mut i: usize = 0;
    while i < n
        invariant
            n == attrs.len(),
            i <= n,
            ams == attrs@.map_values(|a: DebugAttr| a@),
            ams.len() == n,
            ({
                let (sname, slinkage, slow, shigh) = spec_subprogram_fold(ams, i as int);
                &&& match name {
                    Some(s) => sname == Some(s@),
                    None => sname is None,
                }
                &&& slinkage == linkage_name@
                &&& slow == low_pc
                &&& shigh == high_pc
            }),
        decreases n - i,
    {
        proof {
            assert(ams[i as int] == attrs@[i as int]@);
        }
        match &attrs[i] {
            DebugAttr::Name(s) => {
                let reserved = s.unicode_len() >= 2 && s.as_str().get_char(0) == '_'
                    && s.as_str().get_char(1) == '_';
                if !reserved {
                    name = Some(s.clone());
                }
            },
            DebugAttr::LinkageName(s) => {
                linkage_name = demangle_name(s.as_str());
            },
            DebugAttr::LowPc(a) => {
                low_pc = Some(*a);
            },
            DebugAttr::HighPcOffset(a) => {
                high_pc = Some(*a);
            },
            _ => {},
        }
        i += 1;
    }
    match (name, low_pc, high_pc) {
        (Some(name), Some(low), Some(high)) => {
            match low.checked_add(high) {
                Some(end) => Some(
                    Subprogram { name, linkage_name, low_pc: low, high_pc: end },
                ),
                None => None,
            }
        },
        _ => None,
    }
}

/// The state after folding the first `n` attributes of an inlined
/// subroutine entry: the demangled abstract-origin name, the low and high
/// bounds, and the ranges gathered from range lists.
pub open spec fn spec_subroutine_fold(attrs: Seq<DebugAttrModel>, n: int) -> (
    Option<Seq<char>>,
    Option<u64>,
    Option<u64>,
    Seq<(u64, u64)>,
)
    decreases n,
{
    if n <= 0 || n > attrs.len() {
        (None, None, None, Seq::empty())
    } else {
        let (name, low, high, ranges) = spec_subroutine_fold(attrs, n - 1);
        match attrs[n - 1] {
            DebugAttrModel::AbstractOriginLinkage(s) => (Some(demangled_of(s)), low, high, ranges),
            DebugAttrModel::LowPc(a) => (name, Some(a), high, ranges),
            DebugAttrModel::HighPcOffset(a) => (name, low, Some(a), ranges),
            DebugAttrModel::Ranges(rs) => (name, low, high, ranges + rs),
            _ => (name, low, high, ranges),
        }
    }
}

/// The subroutine an inlined-subroutine entry yields: its name is the
/// demangled abstract-origin linkage name, its ranges are the union of its
/// range lists and, if both bounds are present and their sum stays in the
/// address space, the interval from the start over the size.
pub open spec fn spec_subroutine(attrs: Seq<DebugAttrModel>) -> Option<SubroutineModel> {
    let (name, low, high, ranges) = spec_subroutine_fold(attrs, attrs.len() as int);
    let all_ranges = match (low, high) {
        (Some(low), Some(high)) => {
            if low + high <= u64::MAX {
                ranges.push((low, (low + high) as u64))
            } else {
                ranges
            }
        },
        _ => ranges,
    };
    match name {
        Some(name) => {
            if all_ranges.len() == 0 {
                None
            } else {
                Some(SubroutineModel { name, ranges: all_ranges })
            }
        },
        None => None,
    }
}

/// Tries to parse an inlined subroutine from an entry's attributes; it
/// must carry a name and at least one address range.
fn parse_inlined_subroutine(attrs: &Vec<DebugAttr>) -> (r: Option<Subroutine>)
    ensures
        match r {
            Some(sub) => spec_subroutine(attrs@.map_values(|a: DebugAttr| a@)) == Some(sub@),
            None => spec_subroutine(attrs@.map_values(|a: DebugAttr| a@)) is None,
        },
{
    let ghost ams = attrs@.map_values(|a: DebugAttr| a@);
    let mut name: Option<String> = None;
    let mut low_pc: Option<u64> = None;
    let mut high_pc: Option<u64> = None;
    let mut ranges: Vec<(u64, u64)> = Vec::new();
    let n = attrs.len();
    proof {
        assert(ranges@ =~= Seq::<(u64, u64)>::empty());
    }
    let mut i: usize = 0;
    while i < n
        invariant
            n == attrs.len(),
            i <= n,
            ams == attrs@.map_values(|a: DebugAttr| a@),
            ams.len() == n,
            ({
                let (sname, slow, shigh, sranges) = spec_subroutine_fold(ams, i as int);
                &&& match name {
                    Some(s) => sname == Some(s@),
                    None => sname is None,
                }
                &&& slow == low_pc
                &&& shigh == high_pc
                &&& sranges == ranges@
            }),
        decreases n - i,
    {
        proof {
            assert(ams[i as int] == attrs@[i as int]@);
        }
        match &attrs[i] {
            DebugAttr::AbstractOriginLinkage(s) => {
                name = Some(demangle_name(s.as_str()));
            },
            DebugAttr::LowPc(a) => {
                low_pc = Some(*a);
            },
            DebugAttr::HighPcOffset(a) => {
                high_pc = Some(*a);
            },
            DebugAttr::Ranges(rs) => {
                let ghost prev = ranges@;
                let m = rs.len();
                let mut j: usize = 0;
                while j < m
                    invariant
                        m == rs.len(),
                        j <= m,
                        ranges@ == prev + rs@.take(j as int),
                    decreases m - j,
                {
                    ranges.push(rs[j]);
                    proof {
                        assert(prev + rs@.take(j + 1) =~= (prev + rs@.take(j as int)).push(
                            rs@[j as int],
                        ));
                    }
                    j += 1;
                }
                proof {
                    assert(rs@.take(m as int) =~= rs@);
                }
            },
            _ => {},
        }
        i += 1;
    }
    if let (Some(low), Some(high)) = (low_pc, high_pc) {
        if let Some(end) = low.checked_add(high) {
            ranges.push((low, end));
        }
    }
    match name {
        Some(name) => {
            if ranges.len() == 0 {
                None
            } else {
                Some(Subroutine { name, ranges })
            }
        },
        None => None,
    }
}

/// The object-location map gathered from the first `n` debug entries'
/// variable entries.
pub open spec fn spec_replay_addresses_upto(ms: Seq<DebugEntryModel>, n: int) -> LocMap
    decreases n,
{
    if n <= 0 || n > ms.len() {
        Seq::empty()
    } else {
        let prev = spec_replay_addresses_upto(ms, n - 1);
        if ms[n - 1].tag is Variable {
            match spec_object_location(ms[n - 1].attrs) {
                Some(o) => loc_insert(prev, o.name, o.address),
                None => prev,
            }
        } else {
            prev
        }
    }
}

/// Reads the debug entries and returns a map of replay variables and
/// their memory location addresses.
pub fn get_replay_addresses(entries: &Vec<DebugEntry>) -> (r: ObjectLocationMap)
    ensures
        r@ == spec_replay_addresses_upto(entries_model(entries@), entries@.len() as int),
{
    let ghost ms = entries_model(entries@);
    let mut objects = ObjectLocationMap::new();
    let n = entries.len();
    let mut i: usize = 0;
    while i < n
        invariant
            n == entries.len(),
            i <= n,
            ms == entries_model(entries@),
            ms.len() == n,
            objects@ == spec_replay_addresses_upto(ms, i as int),
        decreases n - i,
    {
        let entry = &entries[i];
        proof {
            assert(ms[i as int] == entry@);
        }
        if let DebugTag::Variable = entry.tag {
            if let Some(variable) = parse_object_location(&entry.attrs) {
                objects.insert(variable.name, variable.address);
            }
        }
        i += 1;
    }
    objects
}

/// The subprograms parsed from the first `n` debug entries.
pub open spec fn spec_subprograms_upto(ms: Seq<DebugEntryModel>, n: int) -> Seq<SubprogramModel>
    decreases n,
{
    if n <= 0 || n > ms.len() {
        Seq::empty()
    } else {
        let prev = spec_subprograms_upto(ms, n - 1);
        if ms[n - 1].tag is Subprogram {
            match spec_subprogram(ms[n - 1].attrs) {
                Some(sp) => prev.push(sp),
                None => prev,
            }
        } else {
            prev
        }
    }
}

/// Reads the debug entries and returns a list of all subprograms in them.
pub fn get_subprograms(entries: &Vec<DebugEntry>) -> (r: Vec<Subprogram>)
    ensures
        subprograms_model(r@) == spec_subprograms_upto(
            entries_model(entries@),
            entries@.len() as int,
        ),
{
    let ghost ms = entries_model(entries@);
    let mut programs: Vec<Subprogram> = Vec::new();
    let n = entries.len();
    proof {
        assert(subprograms_model(programs@) =~= Seq::<SubprogramModel>::empty());
    }
    let mut i: usize = 0;
    while i < n
        invariant
            n == entries.len(),
            i <= n,
            ms == entries_model(entries@),
            ms.len() == n,
            subprograms_model(programs@) == spec_subprograms_upto(ms, i as int),
        decreases n - i,
    {
        let entry = &entries[i];
        proof {
            assert(ms[i as int] == entry@);
        }
        if let DebugTag::Subprogram = entry.tag {
            if let Some(program) = parse_subprogram(&entry.attrs) {
                let ghost prev = subprograms_model(programs@);
                let ghost pm = program@;
                programs.push(program);
                proof {
                    assert(subprograms_model(programs@) =~= prev.push(pm));
                }
            }
        }
        i += 1;
    }
    programs
}

/// The subroutines parsed from the first `n` debug entries.
pub open spec fn spec_subroutines_upto(ms: Seq<DebugEntryModel>, n: int) -> Seq<SubroutineModel>
    decreases n,
{
    if n <= 0 || n > ms.len() {
        Seq::empty()
    } else {
        let prev = spec_subroutines_upto(ms, n - 1);
        if ms[n - 1].tag is InlinedSubroutine {
            match spec_subroutine(ms[n - 1].attrs) {
                Some(sub) => prev.push(sub),
                None => prev,
            }
        } else {
            prev
        }
    }
}

/// Reads the debug entries and returns a list of the inlined subroutines
/// in them, with their address ranges.
pub fn get_subroutines(entries: &Vec<DebugEntry>) -> (r: Vec<Subroutine>)
    ensures
        subroutines_model(r@) == spec_subroutines_upto(
            entries_model(entries@),
            entries@.len() as int,
        ),
{
    let ghost ms = entries_model(entries@);
    let mut subroutines: Vec<Subroutine> = Vec::new();
    let n = entries.len();
    proof {
        assert(subroutines_model(subroutines@) =~= Seq::<SubroutineModel>::empty());
    }
    let mut i: usize = 0;
    while i < n
        invariant
            n == entries.len(),
            i <= n,
            ms == entries_model(entries@),
            ms.len() == n,
            subroutines_model(subroutines@) == spec_subroutines_upto(ms, i as int),
        decreases n - i,
    {
        let entry = &entries[i];
        proof {
            assert(ms[i as int] == entry@);
        }
        if let DebugTag::InlinedSubroutine = entry.tag {
            if let Some(subroutine) = parse_inlined_subroutine(&entry.attrs) {
                let ghost prev = subroutines_model(subroutines@);
                let ghost sm = subroutine@;
                subroutines.push(subroutine);
                proof {
                    assert(subroutines_model(subroutines@) =~= prev.push(sm));
                }
            }
        }
        i += 1;
    }
    subroutines
}

} // verus!
