//! Version-range expressions attached to advisories.
//!
//! A range combines "affected" clauses (vulnerable versions) with
//! "unaffected" clauses (patched or otherwise exempt versions). A clause is
//! a conjunction of comparators, each with its own inclusive or exclusive
//! operator; a version is vulnerable when some affected clause holds of it
//! and no unaffected clause does.

use vstd::prelude::*;

use crate::bytes::Order;
use crate::semver::{version_cmp, version_eq, version_le, version_lt, Version, VersionView};

verus! {

/// Relational operator of a single version bound.
#[derive(Clone, Copy, Debug, PartialEq, Eq, Structural)]
pub enum BoundOp {
    Exact,
    Greater,
    GreaterEq,
    Less,
    LessEq,
}

/// One version bound: an operator applied to a version.
#[derive(Debug)]
pub struct Comparator {
    pub op: BoundOp,
    pub version: Version,
}

#[verifier::ext_equal]
pub ghost struct ComparatorView {
    pub op: BoundOp,
    pub version: VersionView,
}

impl View for Comparator {
    type V = ComparatorView;

    open spec fn view(&self) -> ComparatorView {
        ComparatorView { op: self.op, version: self.version@ }
    }
}

/// A conjunction of comparators.
#[derive(Debug)]
pub struct Clause {
    pub comparators: Vec<Comparator>,
}

impl View for Clause {
    type V = Seq<ComparatorView>;

    open spec fn view(&self) -> Seq<ComparatorView> {
        self.comparators@.map_values(|c: Comparator| c@)
    }
}

/// The version-range expression of an advisory.
#[derive(Debug)]
pub struct AffectedRange {
    pub affected: Vec<Clause>,
    pub unaffected: Vec<Clause>,
}

#[verifier::ext_equal]
pub ghost struct RangeView {
    pub affected: Seq<Seq<ComparatorView>>,
    pub unaffected: Seq<Seq<ComparatorView>>,
}

impl View for AffectedRange {
    type V = RangeView;

    open spec fn view(&self) -> RangeView {
        RangeView {
            affected: self.affected@.map_values(|c: Clause| c@),
            unaffected: self.unaffected@.map_values(|c: Clause| c@),
        }
    }
}

/// Whether version `v` satisfies the single bound `c`.
pub open spec fn comparator_holds(v: VersionView, c: ComparatorView) -> bool {
    match c.op {
        BoundOp::Exact => version_eq(v, c.version),
        BoundOp::Greater => version_lt(c.version, v),
        BoundOp::GreaterEq => version_le(c.version, v),
        BoundOp::Less => version_lt(v, c.version),
        BoundOp::LessEq => version_le(v, c.version),
    }
}

/// Whether version `v` satisfies every bound of the clause.
pub open spec fn clause_holds(v: VersionView, cl: Seq<ComparatorView>) -> bool {
    forall|i: int| 0 <= i < cl.len() ==> comparator_holds(v, #[trigger] cl[i])
}

/// Whether some clause of the list holds of `v`.
pub open spec fn any_clause_holds(v: VersionView, cls: Seq<Seq<ComparatorView>>) -> bool {
    exists|i: int| 0 <= i < cls.len() && clause_holds(v, #[trigger] cls[i])
}

/// Version membership in a range: inside some affected clause and outside
/// every unaffected clause.
pub open spec fn range_vulnerable(v: VersionView, r: RangeView) -> bool {
    any_clause_holds(v, r.affected) && !any_clause_holds(v, r.unaffected)
}

/// A range with no affected clause admits no version and is rejected at
/// parse time; well-formedness requires at least one.
pub open spec fn range_wf(r: RangeView) -> bool {
    r.affected.len() > 0
}

impl Comparator {
    pub fn new(op: BoundOp, version: Version) -> (r: Comparator)
        ensures
            r@.op == op,
            r@.version == version@,
    {
        Comparator { op, version }
    }

    /// Whether `v` satisfies this bound.
    pub fn holds_of(&self, v: &Version) -> (r: bool)
        ensures
            r == comparator_holds(v@, self@),
    {
        let o = v.compare(&self.version);
        proof {
            crate::semver::lemma_version_cmp_antisym(v@, self.version@);
        }
        match self.op {
            BoundOp::Exact => o == Order::Equal,
            BoundOp::Greater => o == Order::Greater,
            BoundOp::GreaterEq => o != Order::Less,
            BoundOp::Less => o == Order::Less,
            BoundOp::LessEq => o != Order::Greater,
        }
    }
}

impl Clause {
    pub fn new(comparators: Vec<Comparator>) -> (r: Clause)
        ensures
            r@ == comparators@.map_values(|c: Comparator| c@),
    {
        Clause { comparators }
    }

    /// Whether `v` satisfies every bound of this clause.
    pub fn holds_of(&self, v: &Version) -> (r: bool)
        ensures
            r == clause_holds(v@, self@),
    {
        let mut i: usize = 0;
        while i < self.comparators.len()
            invariant
                i <= self.comparators.len(),
                forall|k: int| 0 <= k < i ==> comparator_holds(v@, #[trigger] self@[k]),
            decreases self.comparators.len() - i,
        {
            if !self.comparators[i].holds_of(v) {
                assert(!comparator_holds(v@, self@[i as int]));
                return false;
            }
            i = i + 1;
        }
        true
    }
}

impl AffectedRange {
    pub fn new(affected: Vec<Clause>, unaffected: Vec<Clause>) -> (r: AffectedRange)
        ensures
            r@.affected == affected@.map_values(|c: Clause| c@),
            r@.unaffected == unaffected@.map_values(|c: Clause| c@),
    {
        AffectedRange { affected, unaffected }
    }

    /// Whether `v` lies inside the affected set minus the unaffected set.
    pub fn vulnerable(&self, v: &Version) -> (r: bool)
        ensures
            r == range_vulnerable(v@, self@),
    {
        let mut hit: bool = false;
        let mut i: usize = 0;
        while i < self.affected.len()
            invariant
                i <= self.affected.len(),
                hit == exists|k: int|
                    0 <= k < i && clause_holds(v@, #[trigger] self@.affected[k]),
            decreases self.affected.len() - i,
        {
            if self.affected[i].holds_of(v) {
                assert(clause_holds(v@, self@.affected[i as int]));
                hit = true;
            }
            i = i + 1;
        }
        if !hit {
            return false;
        }
        let mut j: usize = 0;
        while j < self.unaffected.len()
            invariant
                j <= self.unaffected.len(),
                any_clause_holds(v@, self@.affected),
                forall|k: int| 0 <= k < j ==> !clause_holds(v@, #[trigger] self@.unaffected[k]),
            decreases self.unaffected.len() - j,
        {
            if self.unaffected[j].holds_of(v) {
                assert(clause_holds(v@, self@.unaffected[j as int]));
                return false;
            }
            j = j + 1;
        }
        true
    }
}

} // verus!
