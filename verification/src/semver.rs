//! Semantic versions and their precedence order.
//!
//! A version is `major.minor.patch` with an optional pre-release tail.
//! Precedence follows semantic-versioning rules: numeric components compare
//! by value, a version with a pre-release tail precedes the same version
//! without one, and pre-release tails compare identifier by identifier with
//! numeric identifiers ordering before alphanumeric ones.

use vstd::prelude::*;

use crate::bytes::{lex_cmp, order_of, bytes_cmp, Order};
use crate::bytes::{lemma_lex_cmp_antisym, lemma_lex_cmp_trans, lemma_lex_cmp_zero};

verus! {

/// One identifier of a pre-release tail: either numeric or alphanumeric.
#[derive(Debug)]
pub enum PreIdent {
    Num(u64),
    Alpha(Vec<u8>),
}

pub ghost enum PreIdentView {
    Num(int),
    Alpha(Seq<u8>),
}

impl View for PreIdent {
    type V = PreIdentView;

    open spec fn view(&self) -> PreIdentView {
        match self {
            PreIdent::Num(n) => PreIdentView::Num(*n as int),
            PreIdent::Alpha(s) => PreIdentView::Alpha(s@),
        }
    }
}

/// A semantic version.
#[derive(Debug)]
pub struct Version {
    pub major: u64,
    pub minor: u64,
    pub patch: u64,
    pub pre: Vec<PreIdent>,
}

#[verifier::ext_equal]
pub ghost struct VersionView {
    pub major: int,
    pub minor: int,
    pub patch: int,
    pub pre: Seq<PreIdentView>,
}

pub open spec fn pre_view(s: Seq<PreIdent>) -> Seq<PreIdentView> {
    s.map_values(|p: PreIdent| p@)
}

impl View for Version {
    type V = VersionView;

    open spec fn view(&self) -> VersionView {
        VersionView {
            major: self.major as int,
            minor: self.minor as int,
            patch: self.patch as int,
            pre: pre_view(self.pre@),
        }
    }
}

/// Three-way comparison of pre-release identifiers: numeric identifiers
/// order before alphanumeric ones; within a kind, by value or bytewise.
pub open spec fn ident_cmp(a: PreIdentView, b: PreIdentView) -> int {
    match (a, b) {
        (PreIdentView::Num(x), PreIdentView::Num(y)) => if x < y {
            -1
        } else if x > y {
            1
        } else {
            0
        },
        (PreIdentView::Num(_), PreIdentView::Alpha(_)) => -1,
        (PreIdentView::Alpha(_), PreIdentView::Num(_)) => 1,
        (PreIdentView::Alpha(x), PreIdentView::Alpha(y)) => lex_cmp(x, y),
    }
}

/// Three-way comparison of pre-release tails, identifier by identifier;
/// a shorter tail that is a prefix of a longer one orders first.
pub open spec fn pre_cmp(a: Seq<PreIdentView>, b: Seq<PreIdentView>) -> int
    decreases a.len(),
{
    if a.len() == 0 && b.len() == 0 {
        0
    } else if a.len() == 0 {
        -1
    } else if b.len() == 0 {
        1
    } else if ident_cmp(a[0], b[0]) != 0 {
        ident_cmp(a[0], b[0])
    } else {
        pre_cmp(a.drop_first(), b.drop_first())
    }
}

/// Three-way precedence comparison of versions.
pub open spec fn version_cmp(a: VersionView, b: VersionView) -> int {
    if a.major != b.major {
        if a.major < b.major {
            -1
        } else {
            1
        }
    } else if a.minor != b.minor {
        if a.minor < b.minor {
            -1
        } else {
            1
        }
    } else if a.patch != b.patch {
        if a.patch < b.patch {
            -1
        } else {
            1
        }
    } else if a.pre.len() == 0 && b.pre.len() == 0 {
        0
    } else if a.pre.len() == 0 {
        1
    } else if b.pre.len() == 0 {
        -1
    } else {
        pre_cmp(a.pre, b.pre)
    }
}

pub open spec fn version_eq(a: VersionView, b: VersionView) -> bool {
    version_cmp(a, b) == 0
}

pub open spec fn version_lt(a: VersionView, b: VersionView) -> bool {
    version_cmp(a, b) < 0
}

pub open spec fn version_le(a: VersionView, b: VersionView) -> bool {
    version_cmp(a, b) <= 0
}

pub proof fn lemma_ident_cmp_antisym(a: PreIdentView, b: PreIdentView)
    ensures
        ident_cmp(a, b) == -ident_cmp(b, a),
{
    match (a, b) {
        (PreIdentView::Alpha(x), PreIdentView::Alpha(y)) => lemma_lex_cmp_antisym(x, y),
        _ => {},
    }
}

pub proof fn lemma_ident_cmp_zero(a: PreIdentView, b: PreIdentView)
    ensures
        ident_cmp(a, b) == 0 ==> a == b,
{
    match (a, b) {
        (PreIdentView::Alpha(x), PreIdentView::Alpha(y)) => lemma_lex_cmp_zero(x, y),
        _ => {},
    }
}

pub proof fn lemma_ident_cmp_trans(a: PreIdentView, b: PreIdentView, c: PreIdentView)
    ensures
        ident_cmp(a, b) <= 0 && ident_cmp(b, c) <= 0 ==> ident_cmp(a, c) <= 0,
        ident_cmp(a, b) <= 0 && ident_cmp(b, c) < 0 ==> ident_cmp(a, c) < 0,
        ident_cmp(a, b) < 0 && ident_cmp(b, c) <= 0 ==> ident_cmp(a, c) < 0,
{
    match (a, b, c) {
        (PreIdentView::Alpha(x), PreIdentView::Alpha(y), PreIdentView::Alpha(z)) => {
            lemma_lex_cmp_trans(x, y, z)
        },
        _ => {},
    }
}

pub proof fn lemma_pre_cmp_antisym(a: Seq<PreIdentView>, b: Seq<PreIdentView>)
    ensures
        pre_cmp(a, b) == -pre_cmp(b, a),
    decreases a.len(),
{
    if a.len() > 0 && b.len() > 0 {
        lemma_ident_cmp_antisym(a[0], b[0]);
        if ident_cmp(a[0], b[0]) == 0 {
            lemma_pre_cmp_antisym(a.drop_first(), b.drop_first());
        }
    }
}

pub proof fn lemma_pre_cmp_zero(a: Seq<PreIdentView>, b: Seq<PreIdentView>)
    ensures
        pre_cmp(a, b) == 0 ==> a == b,
    decreases a.len(),
{
    if a.len() > 0 && b.len() > 0 && ident_cmp(a[0], b[0]) == 0 {
        lemma_ident_cmp_zero(a[0], b[0]);
        lemma_pre_cmp_zero(a.drop_first(), b.drop_first());
        if pre_cmp(a, b) == 0 {
            assert(a =~= seq![a[0]] + a.drop_first());
            assert(b =~= seq![b[0]] + b.drop_first());
        }
    }
}

pub proof fn lemma_pre_cmp_trans(a: Seq<PreIdentView>, b: Seq<PreIdentView>, c: Seq<PreIdentView>)
    ensures
        pre_cmp(a, b) <= 0 && pre_cmp(b, c) <= 0 ==> pre_cmp(a, c) <= 0,
        pre_cmp(a, b) <= 0 && pre_cmp(b, c) < 0 ==> pre_cmp(a, c) < 0,
        pre_cmp(a, b) < 0 && pre_cmp(b, c) <= 0 ==> pre_cmp(a, c) < 0,
    decreases a.len() + b.len() + c.len(),
{
    if a.len() > 0 && b.len() > 0 && c.len() > 0 {
        lemma_ident_cmp_trans(a[0], b[0], c[0]);
        lemma_ident_cmp_antisym(a[0], b[0]);
        lemma_ident_cmp_antisym(b[0], c[0]);
        lemma_ident_cmp_antisym(a[0], c[0]);
        lemma_ident_cmp_zero(a[0], b[0]);
        lemma_ident_cmp_zero(b[0], c[0]);
        lemma_pre_cmp_trans(a.drop_first(), b.drop_first(), c.drop_first());
    }
}

pub proof fn lemma_version_cmp_antisym(a: VersionView, b: VersionView)
    ensures
        version_cmp(a, b) == -version_cmp(b, a),
{
    lemma_pre_cmp_antisym(a.pre, b.pre);
}

pub proof fn lemma_version_cmp_zero(a: VersionView, b: VersionView)
    ensures
        version_cmp(a, b) == 0 ==> a == b,
{
    lemma_pre_cmp_zero(a.pre, b.pre);
    if version_cmp(a, b) == 0 {
        assert(a =~= b);
    }
}

pub proof fn lemma_version_cmp_trans(a: VersionView, b: VersionView, c: VersionView)
    ensures
        version_cmp(a, b) <= 0 && version_cmp(b, c) <= 0 ==> version_cmp(a, c) <= 0,
        version_cmp(a, b) <= 0 && version_cmp(b, c) < 0 ==> version_cmp(a, c) < 0,
        version_cmp(a, b) < 0 && version_cmp(b, c) <= 0 ==> version_cmp(a, c) < 0,
{
    lemma_pre_cmp_trans(a.pre, b.pre, c.pre);
}

impl PreIdent {
    /// Copies the identifier.
    pub fn duplicate(&self) -> (r: PreIdent)
        ensures
            r@ == self@,
    {
        match self {
            PreIdent::Num(n) => PreIdent::Num(*n),
            PreIdent::Alpha(s) => {
                let c = s.clone();
                proof {
                    assert(c@ =~= s@);
                }
                PreIdent::Alpha(c)
            },
        }
    }

    /// Compares two pre-release identifiers.
    pub fn compare(&self, other: &PreIdent) -> (r: Order)
        ensures
            r == order_of(ident_cmp(self@, other@)),
    {
        match (self, other) {
            (PreIdent::Num(x), PreIdent::Num(y)) => {
                if *x < *y {
                    Order::Less
                } else if *x > *y {
                    Order::Greater
                } else {
                    Order::Equal
                }
            },
            (PreIdent::Num(_), PreIdent::Alpha(_)) => Order::Less,
            (PreIdent::Alpha(_), PreIdent::Num(_)) => Order::Greater,
            (PreIdent::Alpha(x), PreIdent::Alpha(y)) => bytes_cmp(x, y),
        }
    }
}

impl Version {
    /// A release version with an empty pre-release tail.
    pub fn new(major: u64, minor: u64, patch: u64) -> (r: Version)
        ensures
            r@.major == major,
            r@.minor == minor,
            r@.patch == patch,
            r@.pre.len() == 0,
    {
        let r = Version { major, minor, patch, pre: Vec::new() };
        proof {
            assert(r@.pre =~= Seq::<PreIdentView>::empty());
        }
        r
    }

    /// A version with the given pre-release tail.
    pub fn new_pre(major: u64, minor: u64, patch: u64, pre: Vec<PreIdent>) -> (r: Version)
        ensures
            r@.major == major,
            r@.minor == minor,
            r@.patch == patch,
            r@.pre == pre_view(pre@),
    {
        Version { major, minor, patch, pre }
    }

    /// Copies the version.
    pub fn duplicate(&self) -> (r: Version)
        ensures
            r@ == self@,
    {
        let mut pre: Vec<PreIdent> = Vec::new();
        let mut i: usize = 0;
        while i < self.pre.len()
            invariant
                i <= self.pre.len(),
                pre@.len() == i,
                forall|k: int| 0 <= k < i ==> pre@[k]@ == self.pre@[k]@,
            decreases self.pre.len() - i,
        {
            pre.push(self.pre[i].duplicate());
            i = i + 1;
        }
        let r = Version { major: self.major, minor: self.minor, patch: self.patch, pre };
        proof {
            assert(pre_view(r.pre@) =~= pre_view(self.pre@));
            assert(r@ =~= self@);
        }
        r
    }

    /// Compares two versions by semantic-versioning precedence.
    pub fn compare(&self, other: &Version) -> (r: Order)
        ensures
            r == order_of(version_cmp(self@, other@)),
    {
        if self.major != other.major {
            return if self.major < other.major {
                Order::Less
            } else {
                Order::Greater
            };
        }
        if self.minor != other.minor {
            return if self.minor < other.minor {
                Order::Less
            } else {
                Order::Greater
            };
        }
        if self.patch != other.patch {
            return if self.patch < other.patch {
                Order::Less
            } else {
                Order::Greater
            };
        }
        if self.pre.len() == 0 && other.pre.len() == 0 {
            return Order::Equal;
        }
        if self.pre.len() == 0 {
            return Order::Greater;
        }
        if other.pre.len() == 0 {
            return Order::Less;
        }
        let ghost va = self@.pre;
        let ghost vb = other@.pre;
        let mut i: usize = 0;
        proof {
            assert(va.skip(0) =~= va);
            assert(vb.skip(0) =~= vb);
        }
        while i < self.pre.len() && i < other.pre.len()
            invariant
                i <= self.pre.len(),
                i <= other.pre.len(),
                va == pre_view(self.pre@),
                vb == pre_view(other.pre@),
                va.len() == self.pre.len(),
                vb.len() == other.pre.len(),
                va.len() > 0,
                vb.len() > 0,
                version_cmp(self@, other@) == pre_cmp(va, vb),
                pre_cmp(va, vb) == pre_cmp(va.skip(i as int), vb.skip(i as int)),
            decreases self.pre.len() - i,
        {
            let o = self.pre[i].compare(&other.pre[i]);
            if o != Order::Equal {
                return o;
            }
            proof {
                assert(va.skip(i as int).drop_first() =~= va.skip(i + 1));
                assert(vb.skip(i as int).drop_first() =~= vb.skip(i + 1));
            }
            i = i + 1;
        }
        if self.pre.len() == other.pre.len() {
            proof {
                assert(va.skip(i as int) =~= Seq::<PreIdentView>::empty());
                assert(vb.skip(i as int) =~= Seq::<PreIdentView>::empty());
            }
            Order::Equal
        } else if self.pre.len() < other.pre.len() {
            proof {
                assert(va.skip(i as int) =~= Seq::<PreIdentView>::empty());
            }
            Order::Less
        } else {
            proof {
                assert(vb.skip(i as int) =~= Seq::<PreIdentView>::empty());
            }
            Order::Greater
        }
    }

    /// Equality by precedence, which coincides with structural equality.
    pub fn same_as(&self, other: &Version) -> (r: bool)
        ensures
            r == version_eq(self@, other@),
    {
        self.compare(other) == Order::Equal
    }
}

} // verus!
