//! The replay-and-measurement engine's decisions. The probe loop in the
//! surrounding program runs the target, waits for halts, and performs the
//! actions decided here: every classification of a halt, every name
//! refinement, every hardware-breakpoint placement and every register
//! value is computed by these functions.

use crate::breakpoints::{Breakpoint, OtherBreakpoint};
use crate::dwarf::{
    self, ObjectLocationMap, Subprogram, Subroutine, SubroutineModel,
};
use crate::ktest::{KTest, KTestObject};
use crate::objdump::{instr_lookup, Objdump};
use crate::text;
use crate::trace::MeasurementResult;
use vstd::prelude::*;

verus! {

/// The name a sample carries until an auxiliary marker refines it.
pub open spec fn unknown_name() -> Seq<char> {
    "<unknown>"@
}

/// The opcode high byte of a software breakpoint instruction.
pub const SOFTWARE_BKPT_HIGH_BYTE: u8 = 0b1011_1110;

/// Whether two instruction bytes at the program counter are a software
/// breakpoint: the high byte carries the breakpoint opcode.
pub fn is_software_breakpoint(low: u8, high: u8) -> (r: bool)
    ensures
        r == (high == SOFTWARE_BKPT_HIGH_BYTE),
{
    high == SOFTWARE_BKPT_HIGH_BYTE
}

/// The marker immediate of a software breakpoint instruction: its low
/// byte.
pub fn breakpoint_immediate(low: u8, high: u8) -> (r: Option<u8>)
    ensures
        r == if high == SOFTWARE_BKPT_HIGH_BYTE {
            Some(low)
        } else {
            None::<u8>
        },
{
    if high == SOFTWARE_BKPT_HIGH_BYTE {
        Some(low)
    } else {
        None
    }
}

/// Whether a marker immediate is the replay-start marker.
pub fn is_replay_start(imm: u8) -> (r: bool)
    ensures
        r == (Breakpoint::spec_from(imm) == Breakpoint::Other(OtherBreakpoint::ReplayStart)),
{
    imm == 255
}

/// Why a halt could not be handled.
#[derive(Debug, Clone, Copy, PartialEq, Eq, Structural)]
pub enum MeasurementError {
    /// The core halted, but not on a software breakpoint and not on the
    /// pending hardware breakpoint.
    HaltedWithoutBreakpoint,
    /// No instruction is known at the address before a hardware
    /// breakpoint.
    NoInstruction,
    /// The instruction before a hardware breakpoint is not a load with a
    /// recognizable destination register.
    NoLoadRegister,
    /// An accessor subroutine carries no address ranges.
    MissingRanges,
    /// A name refinement arrived before any sample was recorded.
    NameWithoutSample,
}

/// The first position of a separator (space or comma) at or after `i`.
pub open spec fn spec_find_sep(s: Seq<char>, i: int) -> int
    decreases s.len() - i,
{
    if i < 0 || i >= s.len() {
        s.len() as int
    } else if s[i] == ' ' || s[i] == ',' {
        i
    } else {
        spec_find_sep(s, i + 1)
    }
}

/// The destination register of a load instruction: if the mnemonic (the
/// text before the first separator) mentions `ld`, the second token names
/// the register, `r0` through `r7`.
pub open spec fn spec_load_register(s: Seq<char>) -> Option<u16> {
    let m_end = spec_find_sep(s, 0);
    let mnemonic = s.subrange(0, m_end);
    if !text::spec_contains(mnemonic, "ld"@) {
        None
    } else if m_end >= s.len() {
        None
    } else {
        let r_end = spec_find_sep(s, m_end + 1);
        let reg = s.subrange(m_end + 1, r_end);
        if reg.len() == 2 && reg[0] == 'r' && '0' <= reg[1] <= '7' {
            Some((reg[1] as u16 - '0' as u16) as u16)
        } else {
            None
        }
    }
}

/// The first separator position in `s` at or after `from`.
fn find_sep(s: &str, from: usize) -> (r: usize)
    requires
        from <= s@.len(),
    ensures
        r == spec_find_sep(s@, from as int),
        from <= r <= s@.len(),
{
    let n = s.unicode_len();
    let mut i: usize = from;
    while i < n
        invariant
            n == s@.len(),
            from <= i <= n,
            spec_find_sep(s@, from as int) == spec_find_sep(s@, i as int),
        decreases n - i,
    {
        let c = s.get_char(i);
        if c == ' ' || c == ',' {
            return i;
        }
        i += 1;
    }
    n
}

/// Parses the destination register that a load instruction loads to.
pub fn parse_reg_from_load_instruction(instruction: &String) -> (r: Option<u16>)
    ensures
        r == spec_load_register(instruction@),
{
    let s = instruction.as_str();
    let n = s.unicode_len();
    let m_end = find_sep(s, 0);
    let mnemonic = text::substring(s, 0, m_end);
    if !text::contains_str(mnemonic.as_str(), "ld") {
        return None;
    }
    if m_end >= n {
        return None;
    }
    let r_end = find_sep(s, m_end + 1);
    let reg = text::substring(s, m_end + 1, r_end);
    let rs = reg.as_str();
    if rs.unicode_len() == 2 && rs.get_char(0) == 'r' {
        let d = rs.get_char(1);
        if '0' <= d && d <= '7' {
            return Some(d as u16 - '0' as u16);
        }
    }
    None
}

/// The register a hardware-read interception must overwrite, decided from
/// the disassembly: in release builds, the destination of the load two
/// bytes before the breakpoint; in debug builds, register zero.
pub open spec fn spec_output_reg(
    instructions: crate::objdump::InstrMap,
    release: bool,
    breakpoint_address: u32,
) -> Result<u16, MeasurementError> {
    if !release {
        Ok(0)
    } else if breakpoint_address < 2 {
        Err(MeasurementError::NoInstruction)
    } else {
        match instr_lookup(instructions, (breakpoint_address - 2) as u64) {
            Some(ins) => match spec_load_register(ins) {
                Some(reg) => Ok(reg),
                None => Err(MeasurementError::NoLoadRegister),
            },
            None => Err(MeasurementError::NoInstruction),
        }
    }
}

/// Tries to get the output register from the instruction preceding the
/// current hardware breakpoint.
pub fn get_output_reg_from_breakpoint_addr(
    objdump: &Objdump,
    release: bool,
    breakpoint_address: u32,
) -> (r: Result<u16, MeasurementError>)
    ensures
        r == spec_output_reg(objdump@, release, breakpoint_address),
{
    if !release {
        return Ok(0);
    }
    if breakpoint_address < 2 {
        return Err(MeasurementError::NoInstruction);
    }
    let prev_insn_addr = (breakpoint_address - 2) as u64;
    match objdump.get_instruction(&prev_insn_addr) {
        Some(instruction) => match parse_reg_from_load_instruction(&instruction) {
            Some(reg) => Ok(reg),
            None => Err(MeasurementError::NoLoadRegister),
        },
        None => Err(MeasurementError::NoInstruction),
    }
}

/// The register value a hardware-read test object supplies: its four bytes
/// decoded little-endian, or nothing if it is not exactly four bytes long.
pub open spec fn spec_vcell_value(o: crate::ktest::KTestObjectModel) -> Option<u32> {
    if o.num_bytes == 4 && o.bytes.len() == 4 {
        Some(
            (o.bytes[0] + o.bytes[1] * 0x100 + o.bytes[2] * 0x10000 + o.bytes[3] * 0x1000000) as u32,
        )
    } else {
        None
    }
}

/// The value to write for a hardware read: the test object's four bytes
/// decoded little-endian. Objects of any other length supply nothing and
/// are skipped.
pub fn vcell_register_value(test: &KTestObject) -> (r: Option<u32>)
    ensures
        r == spec_vcell_value(test@),
{
    if test.num_bytes == 4 && test.bytes.len() == 4 {
        let b0 = test.bytes[0] as u32;
        let b1 = test.bytes[1] as u32;
        let b2 = test.bytes[2] as u32;
        let b3 = test.bytes[3] as u32;
        Some(b0 + b1 * 0x100 + b2 * 0x10000 + b3 * 0x1000000)
    } else {
        None
    }
}

/// The name of the task or resource a link-register value points into:
/// that of the shortest covering subprogram, or the unknown sentinel.
pub open spec fn spec_name_from_lr(
    ms: Seq<crate::dwarf::SubprogramModel>,
    lr: u64,
) -> Seq<char> {
    let in_range = dwarf::spec_sps_at_address_upto(ms, lr, ms.len() as int);
    let (sel, _) = dwarf::spec_shortest_sp_upto(in_range, in_range.len() as int);
    match sel {
        Some(sp) => sp.name,
        None => unknown_name(),
    }
}

/// Tries to read the name of the current task from the subprograms: the
/// link register points inside the task's subprogram, and the shortest
/// covering range wins.
pub fn read_breakpoint_task_name(lr: u32, subprograms: &Vec<Subprogram>) -> (r: String)
    requires
        forall|i: int|
            0 <= i < subprograms@.len() ==> (#[trigger] dwarf::subprograms_model(subprograms@)[i]).low_pc
                <= dwarf::subprograms_model(subprograms@)[i].high_pc,
    ensures
        r@ == spec_name_from_lr(dwarf::subprograms_model(subprograms@), lr as u64),
{
    let in_range = dwarf::get_subprograms_address_in_range(subprograms, lr as u64);
    proof {
        lemma_sps_in_range_ordered(dwarf::subprograms_model(subprograms@), lr as u64);
        let ms = dwarf::subprograms_model(subprograms@);
        assert(ms.len() == subprograms@.len());
        let filtered = dwarf::spec_sps_at_address_upto(ms, lr as u64, ms.len() as int);
        assert(dwarf::subprograms_model(in_range@) == filtered);
        assert forall|i: int| 0 <= i < in_range@.len() implies (#[trigger] dwarf::subprograms_model(
            in_range@,
        )[i]).low_pc <= dwarf::subprograms_model(in_range@)[i].high_pc by {
            assert(dwarf::subprograms_model(in_range@)[i] == filtered[i]);
        }
    }
    match dwarf::get_shortest_range_subprogram(&in_range) {
        Some(sp) => sp.name,
        None => {
            let r = String::from_str("<unknown>");
            r
        },
    }
}

proof fn lemma_sps_in_range_ordered(ms: Seq<crate::dwarf::SubprogramModel>, address: u64)
    requires
        forall|i: int| 0 <= i < ms.len() ==> (#[trigger] ms[i]).low_pc <= ms[i].high_pc,
    ensures
        ({
            let filtered = dwarf::spec_sps_at_address_upto(ms, address, ms.len() as int);
            forall|i: int|
                0 <= i < filtered.len() ==> (#[trigger] filtered[i]).low_pc <= filtered[i].high_pc
        }),
{
    lemma_sps_in_range_ordered_upto(ms, address, ms.len() as int);
}

proof fn lemma_sps_in_range_ordered_upto(
    ms: Seq<crate::dwarf::SubprogramModel>,
    address: u64,
    n: int,
)
    requires
        forall|i: int| 0 <= i < ms.len() ==> (#[trigger] ms[i]).low_pc <= ms[i].high_pc,
        n <= ms.len(),
    ensures
        ({
            let filtered = dwarf::spec_sps_at_address_upto(ms, address, n);
            forall|i: int|
                0 <= i < filtered.len() ==> (#[trigger] filtered[i]).low_pc <= filtered[i].high_pc
        }),
    decreases n,
{
    if 0 < n {
        lemma_sps_in_range_ordered_upto(ms, address, n - 1);
        let prev = dwarf::spec_sps_at_address_upto(ms, address, n - 1);
        let filtered = dwarf::spec_sps_at_address_upto(ms, address, n);
        assert forall|i: int| 0 <= i < filtered.len() implies (#[trigger] filtered[i]).low_pc
            <= filtered[i].high_pc by {
            if i < prev.len() {
                assert(filtered[i] == prev[i]);
            } else {
                assert(filtered[i] == ms[n - 1]);
            }
        }
    }
}

/// The name of the resource a link-register value points into: that of
/// the shortest covering lock subroutine, or the unknown sentinel.
pub open spec fn spec_lock_name_from_lr(ms: Seq<SubroutineModel>, lr: u64) -> Result<
    Seq<char>,
    MeasurementError,
> {
    let in_range = dwarf::spec_subs_at_address_upto(ms, lr, ms.len() as int);
    match dwarf::spec_shortest_sub_upto(in_range, in_range.len() as int) {
        Ok((sel, _)) => Ok(
            match sel {
                Some(sub) => sub.name,
                None => unknown_name(),
            },
        ),
        Err(_) => Err(MeasurementError::MissingRanges),
    }
}

/// Tries to read the name of the resource that is currently locked from
/// the lock subroutines, via the link register.
pub fn read_breakpoint_lock_name(lr: u32, resource_locks: &Vec<Subroutine>) -> (r: Result<
    String,
    MeasurementError,
>)
    requires
        forall|i: int, j: int|
            0 <= i < resource_locks@.len() && 0 <= j < (#[trigger] dwarf::subroutines_model(
                resource_locks@,
            )[i]).ranges.len() ==> (#[trigger] dwarf::subroutines_model(resource_locks@)[i].ranges[j]).0
                <= dwarf::subroutines_model(resource_locks@)[i].ranges[j].1,
    ensures
        match r {
            Ok(name) => spec_lock_name_from_lr(dwarf::subroutines_model(resource_locks@), lr as u64)
                == Ok::<Seq<char>, MeasurementError>(name@),
            Err(e) => spec_lock_name_from_lr(dwarf::subroutines_model(resource_locks@), lr as u64)
                == Err::<Seq<char>, MeasurementError>(e),
        },
{
    let in_range = dwarf::get_subroutines_address_in_range(resource_locks, lr as u64);
    proof {
        lemma_subs_in_range_ordered(dwarf::subroutines_model(resource_locks@), lr as u64);
    }
    match dwarf::get_shortest_range_subroutine(&in_range) {
        Ok(Some(sub)) => Ok(sub.name),
        Ok(None) => Ok(String::from_str("<unknown>")),
        Err(_) => Err(MeasurementError::MissingRanges),
    }
}

proof fn lemma_subs_in_range_ordered(ms: Seq<SubroutineModel>, address: u64)
    ensures
        ({
            let filtered = dwarf::spec_subs_at_address_upto(ms, address, ms.len() as int);
            forall|i: int, j: int|
                0 <= i < filtered.len() && 0 <= j < (#[trigger] filtered[i]).ranges.len() ==> (
                #[trigger] filtered[i].ranges[j]).0 <= filtered[i].ranges[j].1
        }),
{
    lemma_subs_in_range_ordered_upto(ms, address, ms.len() as int);
}

proof fn lemma_subs_in_range_ordered_upto(ms: Seq<SubroutineModel>, address: u64, n: int)
    requires
        n <= ms.len(),
    ensures
        ({
            let filtered = dwarf::spec_subs_at_address_upto(ms, address, n);
            forall|i: int, j: int|
                0 <= i < filtered.len() && 0 <= j < (#[trigger] filtered[i]).ranges.len() ==> (
                #[trigger] filtered[i].ranges[j]).0 <= filtered[i].ranges[j].1
        }),
    decreases n,
{
    if 0 < n {
        lemma_subs_in_range_ordered_upto(ms, address, n - 1);
        let prev = dwarf::spec_subs_at_address_upto(ms, address, n - 1);
        let filtered = dwarf::spec_subs_at_address_upto(ms, address, n);
        if filtered.len() > prev.len() {
            let sub = ms[n - 1];
            let sel = dwarf::spec_range_from_address_upto(
                sub.ranges,
                address,
                sub.ranges.len() as int,
            );
            lemma_range_from_address_ordered(sub.ranges, address, sub.ranges.len() as int);
        }
    }
}

/// A range found by address containment is ordered.
proof fn lemma_range_from_address_ordered(ranges: Seq<(u64, u64)>, address: u64, n: int)
    ensures
        dwarf::spec_range_from_address_upto(ranges, address, n) matches Some(r) ==> r.0 <= r.1,
    decreases n,
{
    if 0 < n <= ranges.len() {
        lemma_range_from_address_ordered(ranges, address, n - 1);
    }
}

/// The hardware accessor a link-register value points into, looked up one
/// byte back so the address stays inside the accessor.
pub fn get_current_vcell_from_lr(lr: u32, vcells: &Vec<Subroutine>) -> (r: Option<Subroutine>)
    requires
        lr >= 1,
    ensures
        ({
            let ms = dwarf::subroutines_model(vcells@);
            let in_range = dwarf::spec_subs_at_address_upto(ms, (lr - 1) as u64, ms.len() as int);
            match dwarf::spec_shortest_sub_upto(in_range, in_range.len() as int) {
                Ok((sel, _)) => match r {
                    Some(sub) => sel == Some(sub@),
                    None => sel is None,
                },
                Err(_) => r is None,
            }
        }),
{
    let lr_val = (lr - 1) as u64;
    let in_range = dwarf::get_subroutines_address_in_range(vcells, lr_val);
    proof {
        lemma_subs_in_range_ordered(dwarf::subroutines_model(vcells@), lr_val);
    }
    match dwarf::get_shortest_range_subroutine(&in_range) {
        Ok(sel) => sel,
        Err(_) => None,
    }
}

/// What the probe loop must do after a classified halt.
#[derive(Debug, Clone, Copy, PartialEq, Eq, Structural)]
pub enum LoopAction {
    /// The replay of this vector is complete.
    Break,
    /// Resume the target and wait for the next halt.
    Continue,
    /// Program a hardware breakpoint at the address, remember it as
    /// pending, then resume.
    SetHwBreakpoint(u32),
    /// Read the cycle counter, record a sample for this marker, then
    /// resume.
    Nothing,
}

/// Appends a sample for a marker: the marker, the unknown name sentinel,
/// and the cycle count.
pub fn record_sample(measurements: &mut Vec<MeasurementResult>, bkpt: Breakpoint, cyccnt: u32)
    ensures
        crate::trace::samples_model(final(measurements)@) == crate::trace::samples_model(
            old(measurements)@,
        ).push((bkpt, unknown_name(), cyccnt)),
{
    let name = String::from_str("<unknown>");
    measurements.push((bkpt, name, cyccnt));
    proof {
        assert(crate::trace::samples_model(final(measurements)@) =~= crate::trace::samples_model(
            old(measurements)@,
        ).push((bkpt, unknown_name(), cyccnt)));
    }
}

/// Renames the most recently pushed sample.
fn rename_last_sample(measurements: &mut Vec<MeasurementResult>, name: String) -> (r: Result<
    (),
    MeasurementError,
>)
    ensures
        match r {
            Ok(()) => old(measurements)@.len() > 0 && crate::trace::samples_model(
                final(measurements)@,
            ) == crate::trace::samples_model(old(measurements)@).update(
                old(measurements)@.len() - 1,
                (
                    old(measurements)@.last().0,
                    name@,
                    old(measurements)@.last().2,
                ),
            ),
            Err(e) => old(measurements)@.len() == 0 && e == MeasurementError::NameWithoutSample
                && *final(measurements) == *old(measurements),
        },
{
    if measurements.len() == 0 {
        return Err(MeasurementError::NameWithoutSample);
    }
    match measurements.pop() {
        Some((b, _, u)) => {
            measurements.push((b, name, u));
            proof {
                assert(crate::trace::samples_model(final(measurements)@)
                    =~= crate::trace::samples_model(old(measurements)@).update(
                    old(measurements)@.len() - 1,
                    (
                        old(measurements)@.last().0,
                        name@,
                        old(measurements)@.last().2,
                    ),
                ));
            }
            Ok(())
        },
        None => {
            proof {
                assert(false);
            }
            Err(MeasurementError::NameWithoutSample)
        },
    }
}

/// Classifies one software-breakpoint halt and carries out the engine's
/// side of it: a replay-start marker finishes the vector; an inside-task or
/// inside-lock marker renames the most recent sample after the subprogram
/// or lock the link register points into; an inside-hardware-read marker
/// asks for a hardware breakpoint at the end of the accessor the link
/// register points into (two bytes later in release builds, to step past
/// the accessor's final load); any other marker asks the caller to record
/// a sample.
pub fn handle_breakpoint(
    bkpt: &Breakpoint,
    lr: u32,
    measurements: &mut Vec<MeasurementResult>,
    subprograms: &Vec<Subprogram>,
    resource_locks: &Vec<Subroutine>,
    vcells: &Vec<Subroutine>,
    release: bool,
) -> (r: Result<LoopAction, MeasurementError>)
    requires
        lr >= 1,
        forall|i: int|
            0 <= i < subprograms@.len() ==> (#[trigger] dwarf::subprograms_model(subprograms@)[i]).low_pc
                <= dwarf::subprograms_model(subprograms@)[i].high_pc,
        forall|i: int, j: int|
            0 <= i < resource_locks@.len() && 0 <= j < (#[trigger] dwarf::subroutines_model(
                resource_locks@,
            )[i]).ranges.len() ==> (#[trigger] dwarf::subroutines_model(resource_locks@)[i].ranges[j]).0
                <= dwarf::subroutines_model(resource_locks@)[i].ranges[j].1,
    ensures
        match bkpt {
            Breakpoint::Other(OtherBreakpoint::ReplayStart) => r == Ok::<
                LoopAction,
                MeasurementError,
            >(LoopAction::Break) && *final(measurements) == *old(measurements),
            Breakpoint::Other(OtherBreakpoint::InsideTask) => match r {
                Ok(a) => a == LoopAction::Continue && old(measurements)@.len() > 0
                    && crate::trace::samples_model(final(measurements)@)
                    == crate::trace::samples_model(old(measurements)@).update(
                    old(measurements)@.len() - 1,
                    (
                        old(measurements)@.last().0,
                        spec_name_from_lr(dwarf::subprograms_model(subprograms@), lr as u64),
                        old(measurements)@.last().2,
                    ),
                ),
                Err(e) => e == MeasurementError::NameWithoutSample && old(measurements)@.len() == 0
                    && *final(measurements) == *old(measurements),
            },
            Breakpoint::Other(OtherBreakpoint::InsideLock) => match r {
                Ok(a) => a == LoopAction::Continue && old(measurements)@.len() > 0 && (
                spec_lock_name_from_lr(
                    dwarf::subroutines_model(resource_locks@),
                    lr as u64,
                ) matches Ok(name) && crate::trace::samples_model(final(measurements)@)
                    == crate::trace::samples_model(old(measurements)@).update(
                    old(measurements)@.len() - 1,
                    (old(measurements)@.last().0, name, old(measurements)@.last().2),
                )),
                Err(e) => *final(measurements) == *old(measurements) && (match
                    spec_lock_name_from_lr(
                    dwarf::subroutines_model(resource_locks@),
                    lr as u64,
                ) {
                    Ok(_) => e == MeasurementError::NameWithoutSample && old(
                        measurements,
                    )@.len() == 0,
                    Err(le) => e == le,
                }),
            },
            Breakpoint::Other(OtherBreakpoint::InsideHardwareRead) => *final(measurements) == *old(
                measurements,
            ),
            _ => (r matches Ok(a) && a == LoopAction::Nothing) && *final(measurements) == *old(
                measurements,
            ),
        },
{
    match bkpt {
        Breakpoint::Other(OtherBreakpoint::ReplayStart) => Ok(LoopAction::Break),
        Breakpoint::Other(OtherBreakpoint::InsideTask) => {
            let name = read_breakpoint_task_name(lr, subprograms);
            match rename_last_sample(measurements, name) {
                Ok(()) => Ok(LoopAction::Continue),
                Err(e) => Err(e),
            }
        },
        Breakpoint::Other(OtherBreakpoint::InsideLock) => {
            let name = match read_breakpoint_lock_name(lr, resource_locks) {
                Ok(name) => name,
                Err(e) => {
                    return Err(e);
                },
            };
            match rename_last_sample(measurements, name) {
                Ok(()) => Ok(LoopAction::Continue),
                Err(e) => Err(e),
            }
        },
        Breakpoint::Other(OtherBreakpoint::InsideHardwareRead) => {
            match get_current_vcell_from_lr(lr, vcells) {
                Some(current_vcell) => {
                    if current_vcell.ranges.len() == 0 {
                        return Err(MeasurementError::MissingRanges);
                    }
                    let (_, high_pc) = current_vcell.ranges[0];
                    let offset: u64 = if release {
                        2
                    } else {
                        0
                    };
                    if high_pc > 0xffff_ffffu64 - offset {
                        return Err(MeasurementError::MissingRanges);
                    }
                    let target = (high_pc + offset) as u32;
                    Ok(LoopAction::SetHwBreakpoint(target))
                },
                None => Ok(LoopAction::Continue),
            }
        },
        _ => Ok(LoopAction::Nothing),
    }
}

/// One write of a replay vector into RAM: the resolved address and the
/// bytes.
#[derive(Debug)]
pub struct PlannedWrite {
    /// The RAM address to write at.
    pub address: u32,
    /// The bytes to write.
    pub bytes: Vec<u8>,
}

/// A replay variable pinned at an address.
#[derive(Debug)]
pub struct ReplayObjectAtAddress {
    /// The name of the object.
    pub name: String,
    /// The address location of the object.
    pub address: Option<u64>,
}

/// The planned RAM writes for the first `n` objects of a vector: each
/// object whose name has a recorded address is written there; the others
/// are skipped and reported.
pub open spec fn spec_plan_writes_upto(
    locations: crate::dwarf::LocMap,
    objects: Seq<crate::ktest::KTestObjectModel>,
    n: int,
) -> (Seq<(u32, Seq<u8>)>, Seq<Seq<char>>)
    decreases n,
{
    if n <= 0 || n > objects.len() {
        (Seq::empty(), Seq::empty())
    } else {
        let (writes, skipped) = spec_plan_writes_upto(locations, objects, n - 1);
        let o = objects[n - 1];
        match crate::dwarf::loc_lookup(locations, o.name) {
            Some(Some(addr)) => (writes.push((addr as u32, o.bytes)), skipped),
            _ => (writes, skipped.push(o.name)),
        }
    }
}

/// Plans the writes of a test vector's objects into RAM: each object whose
/// name resolves to an address in the location map becomes one write; the
/// names that resolve to nothing are returned to be warned about, never
/// fatal.
pub fn plan_replay_writes(locations: &ObjectLocationMap, ktest: &KTest) -> (r: (
    Vec<PlannedWrite>,
    Vec<String>,
))
    ensures
        ({
            let (writes, skipped) = spec_plan_writes_upto(
                locations@,
                ktest@.objects,
                ktest@.objects.len() as int,
            );
            &&& r.0@.map_values(|w: PlannedWrite| (w.address, w.bytes@)) == writes
            &&& r.1@.map_values(|s: String| s@) == skipped
        }),
{
    let ghost ms = ktest@.objects;
    let mut writes: Vec<PlannedWrite> = Vec::new();
    let mut skipped: Vec<String> = Vec::new();
    let n = ktest.objects.len();
    proof {
        assert(writes@.map_values(|w: PlannedWrite| (w.address, w.bytes@)) =~= Seq::<
            (u32, Seq<u8>),
        >::empty());
        assert(skipped@.map_values(|s: String| s@) =~= Seq::<Seq<char>>::empty());
    }
    let mut i: usize = 0;
    while i < n
        invariant
            n == ktest.objects.len(),
            i <= n,
            ms == ktest@.objects,
            ms.len() == n,
            ({
                let (ws, sk) = spec_plan_writes_upto(locations@, ms, i as int);
                &&& writes@.map_values(|w: PlannedWrite| (w.address, w.bytes@)) == ws
                &&& skipped@.map_values(|s: String| s@) == sk
            }),
        decreases n - i,
    {
        let o = &ktest.objects[i];
        proof {
            assert(ms[i as int] == o@);
        }
        let ghost old_writes = writes@.map_values(|w: PlannedWrite| (w.address, w.bytes@));
        let ghost old_skipped = skipped@.map_values(|s: String| s@);
        match locations.get(&o.name) {
            Some(Some(addr)) => {
                let dup = o.duplicate();
                let w = PlannedWrite { address: #[verifier::truncate] (addr as u32), bytes: dup.bytes };
                writes.push(w);
                proof {
                    assert(writes@.map_values(|w2: PlannedWrite| (w2.address, w2.bytes@))
                        =~= old_writes.push(((addr as u32), ms[i as int].bytes)));
                }
            },
            _ => {
                skipped.push(o.name.clone());
                proof {
                    assert(skipped@.map_values(|s: String| s@) =~= old_skipped.push(
                        ms[i as int].name,
                    ));
                }
            },
        }
        i += 1;
    }
    (writes, skipped)
}

} // verus!
