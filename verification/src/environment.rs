//! What the host offers, probed once by the caller, and what the checks make
//! of it.

use crate::commands::texts;
use crate::text::{chars_of, is_text};
use vstd::prelude::*;

verus! {

/// The facts about the host that the checks read.
#[derive(Clone, Debug)]
pub struct Environment {
    /// Whether the program runs with root privileges.
    pub root: bool,
    /// The feature flags of the first processor.
    pub cpu_flags: Vec<String>,
    /// Whether the system was started in UEFI mode.
    pub uefi: bool,
    /// Whether the system has an IOMMU that is switched on.
    pub iommu: bool,
}

/// What an `Environment` holds, its flags as character sequences.
pub struct EnvironmentView {
    pub root: bool,
    pub cpu_flags: Seq<Seq<char>>,
    pub uefi: bool,
    pub iommu: bool,
}

impl View for Environment {
    type V = EnvironmentView;

    open spec fn view(&self) -> EnvironmentView {
        EnvironmentView {
            root: self.root,
            cpu_flags: texts(self.cpu_flags@),
            uefi: self.uefi,
            iommu: self.iommu,
        }
    }
}

/// The virtualization extension of the processor.
#[derive(Clone, Copy, Debug, PartialEq, Eq, Structural)]
pub enum Virtualization {
    /// The flag `svm` is set.
    Svm,
    /// The flag `vmx` is set, and `svm` is not.
    Vmx,
    /// Neither flag is set.
    Unsupported,
}

/// The result of the checks, one entry for each.
#[derive(Clone, Copy, Debug, PartialEq, Eq, Structural)]
pub struct SecurityReport {
    pub root: bool,
    pub virtualization: Virtualization,
    pub uefi: bool,
    pub iommu: bool,
}

/// The virtualization extension that the flags `flags` announce.
pub open spec fn virtualization_of(flags: Seq<Seq<char>>) -> Virtualization {
    if flags.contains("svm"@) {
        Virtualization::Svm
    } else if flags.contains("vmx"@) {
        Virtualization::Vmx
    } else {
        Virtualization::Unsupported
    }
}

/// The report on the environment `env`.
pub open spec fn report_of(env: EnvironmentView) -> SecurityReport {
    SecurityReport {
        root: env.root,
        virtualization: virtualization_of(env.cpu_flags),
        uefi: env.uefi,
        iommu: env.iommu,
    }
}

impl SecurityReport {
    /// Whether the host passed every check.
    pub open spec fn all_passed(self) -> bool {
        self.root && self.virtualization != Virtualization::Unsupported && self.uefi && self.iommu
    }

    /// Whether the host passed every check.
    pub fn passed(&self) -> (b: bool)
        ensures
            b == self.all_passed(),
    {
        let virtualized = match self.virtualization {
            Virtualization::Unsupported => false,
            _ => true,
        };
        self.root && virtualized && self.uefi && self.iommu
    }
}

/// Whether `flag` is among `flags`.
pub fn has_flag(flags: &Vec<String>, flag: &str) -> (b: bool)
    ensures
        b == texts(flags@).contains(flag@),
{
    let mut i: usize = 0;
    while i < flags.len()
        invariant
            i <= flags.len(),
            forall|j: int| 0 <= j < i ==> texts(flags@)[j] != flag@,
        decreases flags.len() - i,
    {
        let chars = chars_of(flags[i].as_str());
        if is_text(chars.as_slice(), flag) {
            assert(texts(flags@)[i as int] == flag@);
            return true;
        }
        i += 1;
    }
    false
}

/// Checks the host: privileges, virtualization extension, firmware mode and
/// IOMMU. The checks report and never stop the program.
pub fn security_checks(env: &Environment) -> (report: SecurityReport)
    ensures
        report == report_of(env@),
{
    let virtualization = if has_flag(&env.cpu_flags, "svm") {
        Virtualization::Svm
    } else if has_flag(&env.cpu_flags, "vmx") {
        Virtualization::Vmx
    } else {
        Virtualization::Unsupported
    };
    SecurityReport { root: env.root, virtualization, uefi: env.uefi, iommu: env.iommu }
}

} // verus!
