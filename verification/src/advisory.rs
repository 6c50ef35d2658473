//! Structured advisory records.
//!
//! An advisory describes a known vulnerability or notice for one package,
//! with the version range it affects, optional platform constraints, and a
//! category deciding whether a match blocks the run or is informational.

use vstd::prelude::*;

use crate::vrange::{range_wf, AffectedRange, RangeView};

verus! {

/// CPU architectures an advisory may be constrained to.
#[derive(Clone, Copy, Debug, PartialEq, Eq, Structural)]
pub enum Arch {
    Aarch64,
    Arm,
    Mips,
    PowerPc,
    Riscv,
    S390X,
    Sparc,
    Wasm32,
    X86,
    X86_64,
}

/// Operating systems an advisory may be constrained to.
#[derive(Clone, Copy, Debug, PartialEq, Eq, Structural)]
pub enum Os {
    Android,
    FreeBsd,
    Fuchsia,
    Ios,
    Linux,
    MacOs,
    NetBsd,
    OpenBsd,
    Redox,
    Windows,
}

/// Advisory severity.
#[derive(Clone, Copy, Debug, PartialEq, Eq, Structural)]
pub enum Severity {
    Low,
    Medium,
    High,
    Critical,
}

/// Category of an advisory: vulnerabilities block, the others inform.
#[derive(Clone, Copy, Debug, PartialEq, Eq, Structural)]
pub enum Category {
    Vulnerability,
    Unmaintained,
    Notice,
}

/// A calendar date, kept as plain numbers.
#[derive(Clone, Copy, Debug, PartialEq, Eq, Structural)]
pub struct Date {
    pub year: u64,
    pub month: u64,
    pub day: u64,
}

pub open spec fn date_wf(d: Date) -> bool {
    1 <= d.month <= 12 && 1 <= d.day <= 31
}

/// One advisory record.
#[derive(Debug)]
pub struct AdvisoryRecord {
    pub id: Vec<u8>,
    pub package: Vec<u8>,
    pub affected: AffectedRange,
    pub aliases: Vec<Vec<u8>>,
    pub severity: Option<Severity>,
    pub date: Date,
    pub arch_constraint: Option<Vec<Arch>>,
    pub os_constraint: Option<Vec<Os>>,
    pub withdrawn: Option<Date>,
    pub category: Category,
}

#[verifier::ext_equal]
pub ghost struct AdvisoryView {
    pub id: Seq<u8>,
    pub package: Seq<u8>,
    pub affected: RangeView,
    pub aliases: Seq<Seq<u8>>,
    pub severity: Option<Severity>,
    pub date: Date,
    pub arch_constraint: Option<Seq<Arch>>,
    pub os_constraint: Option<Seq<Os>>,
    pub withdrawn: Option<Date>,
    pub category: Category,
}

impl View for AdvisoryRecord {
    type V = AdvisoryView;

    open spec fn view(&self) -> AdvisoryView {
        AdvisoryView {
            id: self.id@,
            package: self.package@,
            affected: self.affected@,
            aliases: self.aliases@.map_values(|a: Vec<u8>| a@),
            severity: self.severity,
            date: self.date,
            arch_constraint: match self.arch_constraint {
                Some(v) => Some(v@),
                None => None,
            },
            os_constraint: match self.os_constraint {
                Some(v) => Some(v@),
                None => None,
            },
            withdrawn: self.withdrawn,
            category: self.category,
        }
    }
}

/// Well-formedness of a record: a nonempty identifier and package name, at
/// least one affected clause, and a sensible date.
pub open spec fn advisory_wf(a: AdvisoryView) -> bool {
    &&& a.id.len() > 0
    &&& a.package.len() > 0
    &&& range_wf(a.affected)
    &&& date_wf(a.date)
}

/// An advisory with no constraint on a dimension is compatible with every
/// filter value; a constrained one only with the listed values. An unset
/// filter is compatible with everything.
pub open spec fn arch_permits(filter: Option<Arch>, constraint: Option<Seq<Arch>>) -> bool {
    match (filter, constraint) {
        (Some(f), Some(c)) => c.contains(f),
        _ => true,
    }
}

pub open spec fn os_permits(filter: Option<Os>, constraint: Option<Seq<Os>>) -> bool {
    match (filter, constraint) {
        (Some(f), Some(c)) => c.contains(f),
        _ => true,
    }
}

/// Whether the architecture list contains `f`.
pub fn arches_contain(v: &Vec<Arch>, f: Arch) -> (r: bool)
    ensures
        r == v@.contains(f),
{
    let mut i: usize = 0;
    while i < v.len()
        invariant
            i <= v.len(),
            forall|k: int| 0 <= k < i ==> v@[k] != f,
        decreases v.len() - i,
    {
        if v[i] == f {
            return true;
        }
        i = i + 1;
    }
    false
}

/// Whether the operating-system list contains `f`.
pub fn oses_contain(v: &Vec<Os>, f: Os) -> (r: bool)
    ensures
        r == v@.contains(f),
{
    let mut i: usize = 0;
    while i < v.len()
        invariant
            i <= v.len(),
            forall|k: int| 0 <= k < i ==> v@[k] != f,
        decreases v.len() - i,
    {
        if v[i] == f {
            return true;
        }
        i = i + 1;
    }
    false
}

impl AdvisoryRecord {
    /// Whether this record passes the arch filter.
    pub fn permits_arch(&self, filter: Option<Arch>) -> (r: bool)
        ensures
            r == arch_permits(filter, self@.arch_constraint),
    {
        match (filter, &self.arch_constraint) {
            (Some(f), Some(c)) => arches_contain(c, f),
            _ => true,
        }
    }

    /// Whether this record passes the os filter.
    pub fn permits_os(&self, filter: Option<Os>) -> (r: bool)
        ensures
            r == os_permits(filter, self@.os_constraint),
    {
        match (filter, &self.os_constraint) {
            (Some(f), Some(c)) => oses_contain(c, f),
            _ => true,
        }
    }
}

} // verus!
