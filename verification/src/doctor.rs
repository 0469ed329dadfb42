//! Summaries of the `shr doctor` checks, and the arguments of the engine
//! daemon that `shr start` spawns.

use vstd::prelude::*;

use crate::text::{push_decimal, spec_decimal};

verus! {

/// Checks of one capability and how many of them found a problem.
#[derive(Clone, Copy, Debug)]
pub struct DoctorCapability {
    pub label: &'static str,
    pub checks: usize,
    pub problems: usize,
}

impl DoctorCapability {
    /// A capability with no checks yet.
    pub fn new(label: &'static str) -> (capability: DoctorCapability)
        ensures
            capability.label@ == label@,
            capability.checks == 0,
            capability.problems == 0,
    {
        DoctorCapability { label, checks: 0, problems: 0 }
    }

    /// Count one check; a failed one is also a problem.
    pub fn record(&mut self, ok: bool)
        requires
            old(self).checks < usize::MAX,
            old(self).problems <= old(self).checks,
        ensures
            final(self).label == old(self).label,
            final(self).checks == old(self).checks + 1,
            final(self).problems == old(self).problems + if ok {
                0int
            } else {
                1int
            },
            final(self).problems <= final(self).checks,
    {
        self.checks += 1;
        if !ok {
            self.problems += 1;
        }
    }

    pub open spec fn spec_summary(self) -> Seq<char> {
        if self.checks == 0 {
            "[--] "@ + self.label@ + ": not configured"@
        } else if self.problems == 0 {
            "[ok] "@ + self.label@ + ": "@ + spec_decimal(self.checks as nat) + "/"@ + spec_decimal(
                self.checks as nat,
            ) + " checks ready"@
        } else {
            "[!!] "@ + self.label@ + ": "@ + spec_decimal(self.problems as nat) + "/"@ + spec_decimal(
                self.checks as nat,
            ) + " checks need attention"@
        }
    }

    /// One line: not configured, all checks ready, or how many need attention.
    pub fn summary(self) -> (summary: String)
        ensures
            summary@ == self.spec_summary(),
    {
        let mut text = String::new();
        if self.checks == 0 {
            text.append("[--] ");
            text.append(self.label);
            text.append(": not configured");
        } else if self.problems == 0 {
            text.append("[ok] ");
            text.append(self.label);
            text.append(": ");
            push_decimal(&mut text, self.checks);
            text.append("/");
            push_decimal(&mut text, self.checks);
            text.append(" checks ready");
        } else {
            text.append("[!!] ");
            text.append(self.label);
            text.append(": ");
            push_decimal(&mut text, self.problems);
            text.append("/");
            push_decimal(&mut text, self.checks);
            text.append(" checks need attention");
        }
        proof {
            assert(text@ =~= self.spec_summary());
        }
        text
    }
}

/// The CPU handed to the audio tuning helper, or `none`.
pub fn audio_tuning_doctor_target(cpu: Option<usize>) -> (target: String)
    ensures
        target@ == match cpu {
            Some(value) => spec_decimal(value as nat),
            None => "none"@,
        },
{
    match cpu {
        Some(value) => {
            let mut text = String::new();
            push_decimal(&mut text, value);
            assert(text@ =~= spec_decimal(value as nat));
            text
        },
        None => String::from_str("none"),
    }
}

/// The arguments that start the engine daemon for the preset `selector`;
/// the selector is passed on as given, so an index selector keeps naming the
/// same preset among duplicates.
pub fn daemon_args(selector: &str) -> (args: [&str; 2])
    ensures
        args[0]@ == "daemon"@,
        args[1]@ == selector@,
{
    ["daemon", selector]
}

} // verus!
