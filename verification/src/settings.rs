//! User settings and command input. A settings file can stand in for
//! missing command-line input; merging the two is decided here, while the
//! surrounding program does the reading and parsing.

use vstd::prelude::*;

verus! {

/// The general section of the settings file.
#[derive(Debug)]
pub struct General {
    /// Do not patch the project manifest.
    pub no_patch: Option<bool>,
    /// The name of the chip to attach to.
    pub chip: Option<String>,
    /// The target architecture to build for.
    pub target: Option<String>,
    /// How long to wait for the core to halt, in seconds.
    pub halt_timeout: Option<u64>,
}

/// The settings file's contents, usable in place of command input.
#[derive(Debug)]
pub struct RaukSettings {
    /// The general section, if one was given.
    pub general: Option<General>,
}

impl RaukSettings {
    /// Settings with nothing set.
    pub fn new() -> (r: RaukSettings)
        ensures
            r.general is None,
    {
        RaukSettings { general: None }
    }
}

/// The input of the flash command.
#[derive(Debug)]
pub struct FlashInput {
    /// The binary target to flash.
    pub bin: Option<String>,
    /// The example to flash.
    pub example: Option<String>,
    /// Build in release mode.
    pub release: bool,
    /// The target architecture to build for.
    pub target: Option<String>,
    /// The name of the chip to flash to.
    pub chip: Option<String>,
    /// How long to wait for the core to halt, in seconds.
    pub halt_timeout: Option<u64>,
}

/// The input of the measure command.
#[derive(Debug)]
pub struct MeasureInput {
    /// The binary target to measure.
    pub bin: Option<String>,
    /// The example to measure.
    pub example: Option<String>,
    /// Measure the release build.
    pub release: bool,
    /// The name of the chip to attach to.
    pub chip: Option<String>,
    /// How long to wait for the core to halt, in seconds.
    pub halt_timeout: Option<u64>,
    /// Path to the binary with debug information, overriding the recorded
    /// one.
    pub dwarf: Option<String>,
    /// Path to the test vectors, overriding the recorded ones.
    pub ktests: Option<String>,
}

impl FlashInput {
    /// If input is missing, take it from the settings where they have it.
    pub fn get_missing_input(&mut self, settings: &RaukSettings)
        ensures
            match settings.general {
                Some(general) => {
                    &&& final(self).target == if old(self).target is None {
                        general.target
                    } else {
                        old(self).target
                    }
                    &&& final(self).chip == if old(self).chip is None {
                        general.chip
                    } else {
                        old(self).chip
                    }
                    &&& final(self).halt_timeout == if old(self).halt_timeout is None {
                        general.halt_timeout
                    } else {
                        old(self).halt_timeout
                    }
                },
                None => *final(self) == *old(self),
            },
            final(self).bin == old(self).bin,
            final(self).example == old(self).example,
            final(self).release == old(self).release,
    {
        if let Some(general) = &settings.general {
            if self.target.is_none() {
                self.target = clone_opt_string(&general.target);
            }
            if self.chip.is_none() {
                self.chip = clone_opt_string(&general.chip);
            }
            if self.halt_timeout.is_none() {
                self.halt_timeout = match general.halt_timeout {
                    Some(v) => Some(v),
                    None => None,
                };
            }
        }
    }
}

impl MeasureInput {
    /// If input is missing, take it from the settings where they have it.
    pub fn get_missing_input(&mut self, settings: &RaukSettings)
        ensures
            match settings.general {
                Some(general) => {
                    &&& final(self).chip == if old(self).chip is None {
                        general.chip
                    } else {
                        old(self).chip
                    }
                    &&& final(self).halt_timeout == if old(self).halt_timeout is None {
                        general.halt_timeout
                    } else {
                        old(self).halt_timeout
                    }
                },
                None => *final(self) == *old(self),
            },
            final(self).bin == old(self).bin,
            final(self).example == old(self).example,
            final(self).release == old(self).release,
            final(self).dwarf == old(self).dwarf,
            final(self).ktests == old(self).ktests,
    {
        if let Some(general) = &settings.general {
            if self.chip.is_none() {
                self.chip = clone_opt_string(&general.chip);
            }
            if self.halt_timeout.is_none() {
                self.halt_timeout = match general.halt_timeout {
                    Some(v) => Some(v),
                    None => None,
                };
            }
        }
    }
}

/// A copy of an optional string, equal to the original.
fn clone_opt_string(o: &Option<String>) -> (r: Option<String>)
    ensures
        r == o,
{
    match o {
        Some(s) => Some(s.clone()),
        None => None,
    }
}

} // verus!
