//! Breakpoint markers. Every halt of the replay harness carries an 8-bit
//! immediate that encodes a semantic event: entering or leaving a task or a
//! resource lock, or an auxiliary event consumed during measurement.

use vstd::prelude::*;

verus! {

/// The type of the entry breakpoint for a new scope.
#[derive(Debug, Clone, Copy, PartialEq, Eq, Structural)]
pub enum EntryBreakpoint {
    HardwareTaskStart,
    ResourceLockStart,
    SoftwareTaskStart,
}

/// The type of the exit breakpoint for a scope.
#[derive(Debug, Clone, Copy, PartialEq, Eq, Structural)]
pub enum ExitBreakpoint {
    SoftwareTaskEnd,
    ResourceLockEnd,
    HardwareTaskEnd,
}

/// The type for breakpoints that are not part of a scope.
#[derive(Debug, Clone, Copy, PartialEq, Eq, Structural)]
pub enum OtherBreakpoint {
    /// Default breakpoints such as a plain `bkpt()`.
    Default,
    /// Inside a task body.
    InsideTask,
    /// Inside a hardware-register read.
    InsideHardwareRead,
    /// Any unknown immediate is labelled as invalid.
    Invalid,
    /// Inside a resource-lock specialization.
    InsideLock,
    /// The replay harness starts (and finishes) at this breakpoint number.
    ReplayStart,
}

/// Information about the breakpoint type for the analysis.
#[derive(Debug, Clone, Copy, PartialEq, Eq, Structural)]
pub enum Breakpoint {
    Other(OtherBreakpoint),
    Entry(EntryBreakpoint),
    Exit(ExitBreakpoint),
}

impl EntryBreakpoint {
    /// The numeric code this entry marker is encoded as.
    pub open spec fn spec_code(&self) -> u8 {
        match self {
            EntryBreakpoint::HardwareTaskStart => 2,
            EntryBreakpoint::ResourceLockStart => 3,
            EntryBreakpoint::SoftwareTaskStart => 4,
        }
    }

    /// The numeric code this entry marker is encoded as.
    #[verifier::when_used_as_spec(spec_code)]
    pub fn code(&self) -> (c: u8)
        ensures
            c == self.spec_code(),
    {
        match self {
            EntryBreakpoint::HardwareTaskStart => 2,
            EntryBreakpoint::ResourceLockStart => 3,
            EntryBreakpoint::SoftwareTaskStart => 4,
        }
    }
}

impl ExitBreakpoint {
    /// The numeric code this exit marker is encoded as.
    pub open spec fn spec_code(&self) -> u8 {
        match self {
            ExitBreakpoint::SoftwareTaskEnd => 251,
            ExitBreakpoint::ResourceLockEnd => 252,
            ExitBreakpoint::HardwareTaskEnd => 253,
        }
    }

    /// The numeric code this exit marker is encoded as.
    #[verifier::when_used_as_spec(spec_code)]
    pub fn code(&self) -> (c: u8)
        ensures
            c == self.spec_code(),
    {
        match self {
            ExitBreakpoint::SoftwareTaskEnd => 251,
            ExitBreakpoint::ResourceLockEnd => 252,
            ExitBreakpoint::HardwareTaskEnd => 253,
        }
    }

    /// The entry marker that closes correctly against this exit marker:
    /// the one whose code sums with this exit's code to 255.
    pub open spec fn matching_entry(self) -> EntryBreakpoint {
        match self {
            ExitBreakpoint::SoftwareTaskEnd => EntryBreakpoint::SoftwareTaskStart,
            ExitBreakpoint::ResourceLockEnd => EntryBreakpoint::ResourceLockStart,
            ExitBreakpoint::HardwareTaskEnd => EntryBreakpoint::HardwareTaskStart,
        }
    }
}

impl Breakpoint {
    /// True iff the breakpoint is an exit marker.
    pub open spec fn spec_is_exit(&self) -> bool {
        match self {
            Breakpoint::Exit(_) => true,
            _ => false,
        }
    }

    /// True iff the breakpoint is an exit marker.
    #[verifier::when_used_as_spec(spec_is_exit)]
    pub fn is_exit(&self) -> (r: bool)
        ensures
            r == self.spec_is_exit(),
    {
        match self {
            Breakpoint::Exit(_) => true,
            _ => false,
        }
    }

    /// The breakpoint that a raw 8-bit immediate stands for. Total:
    /// any unknown immediate maps to `Other(Invalid)`.
    pub open spec fn spec_from(u: u8) -> Breakpoint {
        if u == 0 {
            Breakpoint::Other(OtherBreakpoint::Default)
        } else if u == 1 {
            Breakpoint::Other(OtherBreakpoint::InsideTask)
        } else if u == 2 {
            Breakpoint::Entry(EntryBreakpoint::HardwareTaskStart)
        } else if u == 3 {
            Breakpoint::Entry(EntryBreakpoint::ResourceLockStart)
        } else if u == 4 {
            Breakpoint::Entry(EntryBreakpoint::SoftwareTaskStart)
        } else if u == 5 {
            Breakpoint::Other(OtherBreakpoint::InsideHardwareRead)
        } else if u == 251 {
            Breakpoint::Exit(ExitBreakpoint::SoftwareTaskEnd)
        } else if u == 252 {
            Breakpoint::Exit(ExitBreakpoint::ResourceLockEnd)
        } else if u == 253 {
            Breakpoint::Exit(ExitBreakpoint::HardwareTaskEnd)
        } else if u == 254 {
            Breakpoint::Other(OtherBreakpoint::InsideLock)
        } else if u == 255 {
            Breakpoint::Other(OtherBreakpoint::ReplayStart)
        } else {
            Breakpoint::Other(OtherBreakpoint::Invalid)
        }
    }
}

impl From<u8> for Breakpoint {
    /// Decode a raw breakpoint immediate.
    fn from(u: u8) -> (b: Breakpoint)
        ensures
            b == Breakpoint::spec_from(u),
    {
        match u {
            0 => Breakpoint::Other(OtherBreakpoint::Default),
            1 => Breakpoint::Other(OtherBreakpoint::InsideTask),
            2 => Breakpoint::Entry(EntryBreakpoint::HardwareTaskStart),
            3 => Breakpoint::Entry(EntryBreakpoint::ResourceLockStart),
            4 => Breakpoint::Entry(EntryBreakpoint::SoftwareTaskStart),
            5 => Breakpoint::Other(OtherBreakpoint::InsideHardwareRead),
            251 => Breakpoint::Exit(ExitBreakpoint::SoftwareTaskEnd),
            252 => Breakpoint::Exit(ExitBreakpoint::ResourceLockEnd),
            253 => Breakpoint::Exit(ExitBreakpoint::HardwareTaskEnd),
            254 => Breakpoint::Other(OtherBreakpoint::InsideLock),
            255 => Breakpoint::Other(OtherBreakpoint::ReplayStart),
            _ => Breakpoint::Other(OtherBreakpoint::Invalid),
        }
    }
}

impl vstd::std_specs::convert::FromSpecImpl<u8> for Breakpoint {
    open spec fn obeys_from_spec() -> bool {
        true
    }

    open spec fn from_spec(u: u8) -> Breakpoint {
        Breakpoint::spec_from(u)
    }
}

/// The decoding of raw immediates is total, and every immediate that is not
/// one of the eleven assigned codes decodes to `Other(Invalid)`.
pub proof fn lemma_from_total(u: u8)
    ensures
        u != 0 && u != 1 && u != 2 && u != 3 && u != 4 && u != 5 && u != 251 && u != 252 && u != 253
            && u != 254 && u != 255 ==> Breakpoint::spec_from(u) == Breakpoint::Other(
            OtherBreakpoint::Invalid,
        ),
{
}

/// For every entry marker and the exit marker that matches it, the two
/// numeric codes sum to 255.
pub proof fn lemma_entry_exit_codes_sum(x: ExitBreakpoint)
    ensures
        x.matching_entry().spec_code() + x.spec_code() == 255,
        forall|e: EntryBreakpoint|
            (#[trigger] e.spec_code() + x.spec_code() == 255) ==> e == x.matching_entry(),
{
}

} // verus!
