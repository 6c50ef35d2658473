//! Deterministic report building and the CI exit disposition.
//!
//! Matches are projected to keys of (dependency name, dependency version,
//! advisory identifier), sorted by that triple and stripped of duplicates.
//! The strict sort order groups every dependency's matches together, orders
//! groups by name (ties broken by version) and advisory identifiers within
//! a group ascending, and is the only mechanism guaranteeing byte-identical
//! report ordering across runs with identical inputs.

use vstd::prelude::*;

use vstd::relations::{sorted_by, total_ordering};
use vstd::seq_lib::{group_to_multiset_ensures, lemma_multiset_commutative, lemma_sorted_unique};

use crate::advisory::AdvisoryView;
use crate::bytes::{lex_cmp, order_of, bytes_cmp, Order};
use crate::bytes::{lemma_lex_cmp_antisym, lemma_lex_cmp_trans, lemma_lex_cmp_zero};
use crate::database::{records_view, AdvisoryDatabase};
use crate::lockfile::{deps_view, Dependency, DependencyView};
use crate::matcher::{Match, MatchSet};
use crate::semver::{version_cmp, Version, VersionView};
use crate::semver::{lemma_version_cmp_antisym, lemma_version_cmp_trans, lemma_version_cmp_zero};

verus! {

/// One line of the report: a dependency and an advisory that applies to it.
#[derive(Debug)]
pub struct MatchKey {
    pub name: Vec<u8>,
    pub version: Version,
    pub id: Vec<u8>,
}

#[verifier::ext_equal]
pub ghost struct KeyView {
    pub name: Seq<u8>,
    pub version: VersionView,
    pub id: Seq<u8>,
}

impl View for MatchKey {
    type V = KeyView;

    open spec fn view(&self) -> KeyView {
        KeyView { name: self.name@, version: self.version@, id: self.id@ }
    }
}

pub open spec fn keys_view(s: Seq<MatchKey>) -> Seq<KeyView> {
    s.map_values(|k: MatchKey| k@)
}

/// The key a match projects to.
pub open spec fn key_of(d: DependencyView, a: AdvisoryView) -> KeyView {
    KeyView { name: d.name, version: d.version, id: a.id }
}

/// Three-way report order: dependency name, then version, then advisory id.
pub open spec fn key_cmp(a: KeyView, b: KeyView) -> int {
    if lex_cmp(a.name, b.name) != 0 {
        lex_cmp(a.name, b.name)
    } else if version_cmp(a.version, b.version) != 0 {
        version_cmp(a.version, b.version)
    } else {
        lex_cmp(a.id, b.id)
    }
}

pub open spec fn key_le_fn() -> spec_fn(KeyView, KeyView) -> bool {
    |a: KeyView, b: KeyView| key_cmp(a, b) <= 0
}

/// A strictly ascending sequence of keys: sorted, with no duplicates.
pub open spec fn strictly_sorted(s: Seq<KeyView>) -> bool {
    forall|k: int, l: int| 0 <= k < l < s.len() ==> key_cmp(#[trigger] s[k], #[trigger] s[l]) < 0
}

pub proof fn lemma_key_cmp_antisym(a: KeyView, b: KeyView)
    ensures
        key_cmp(a, b) == -key_cmp(b, a),
{
    lemma_lex_cmp_antisym(a.name, b.name);
    lemma_version_cmp_antisym(a.version, b.version);
    lemma_lex_cmp_antisym(a.id, b.id);
}

pub proof fn lemma_key_cmp_zero(a: KeyView, b: KeyView)
    ensures
        key_cmp(a, b) == 0 ==> a == b,
{
    lemma_lex_cmp_zero(a.name, b.name);
    lemma_version_cmp_zero(a.version, b.version);
    lemma_lex_cmp_zero(a.id, b.id);
    if key_cmp(a, b) == 0 {
        assert(a =~= b);
    }
}

pub proof fn lemma_key_cmp_trans(a: KeyView, b: KeyView, c: KeyView)
    ensures
        key_cmp(a, b) <= 0 && key_cmp(b, c) <= 0 ==> key_cmp(a, c) <= 0,
        key_cmp(a, b) <= 0 && key_cmp(b, c) < 0 ==> key_cmp(a, c) < 0,
        key_cmp(a, b) < 0 && key_cmp(b, c) <= 0 ==> key_cmp(a, c) < 0,
{
    lemma_lex_cmp_trans(a.name, b.name, c.name);
    lemma_lex_cmp_zero(a.name, b.name);
    lemma_lex_cmp_zero(b.name, c.name);
    lemma_version_cmp_trans(a.version, b.version, c.version);
    lemma_version_cmp_zero(a.version, b.version);
    lemma_version_cmp_zero(b.version, c.version);
    lemma_lex_cmp_trans(a.id, b.id, c.id);
}

/// The report order is a total order on keys.
pub proof fn lemma_key_le_total()
    ensures
        total_ordering(key_le_fn()),
{
    let r = key_le_fn();
    assert forall|x: KeyView| #[trigger] r(x, x) by {
        lemma_key_cmp_antisym(x, x);
    }
    assert forall|x: KeyView, y: KeyView| #[trigger] r(x, y) && #[trigger] r(y, x) implies x
        == y by {
        lemma_key_cmp_antisym(x, y);
        lemma_key_cmp_zero(x, y);
    }
    assert forall|x: KeyView, y: KeyView, z: KeyView|
        #[trigger] r(x, y) && #[trigger] r(y, z) implies r(x, z) by {
        lemma_key_cmp_trans(x, y, z);
    }
    assert forall|x: KeyView, y: KeyView| #[trigger] r(x, y) || #[trigger] r(y, x) by {
        lemma_key_cmp_antisym(x, y);
    }
}

impl MatchKey {
    /// Copies the key.
    pub fn duplicate(&self) -> (r: MatchKey)
        ensures
            r@ == self@,
    {
        let name = self.name.clone();
        let id = self.id.clone();
        proof {
            assert(name@ =~= self.name@);
            assert(id@ =~= self.id@);
        }
        let r = MatchKey { name, version: self.version.duplicate(), id };
        proof {
            assert(r@ =~= self@);
        }
        r
    }

    /// Compares two keys in report order.
    pub fn compare(&self, other: &MatchKey) -> (r: Order)
        ensures
            r == order_of(key_cmp(self@, other@)),
    {
        let by_name = bytes_cmp(&self.name, &other.name);
        if by_name != Order::Equal {
            return by_name;
        }
        let by_version = self.version.compare(&other.version);
        if by_version != Order::Equal {
            return by_version;
        }
        bytes_cmp(&self.id, &other.id)
    }
}

proof fn lemma_insert_to_multiset(s: Seq<KeyView>, i: int, x: KeyView)
    requires
        0 <= i <= s.len(),
    ensures
        s.insert(i, x).to_multiset() =~= s.to_multiset().insert(x),
{
    broadcast use group_to_multiset_ensures;

    let a = s.subrange(0, i);
    let b = s.subrange(i, s.len() as int);
    lemma_multiset_commutative(a.push(x), b);
    lemma_multiset_commutative(a, b);
    assert(s =~= a + b);
}

/// The first index at which `x` may be inserted while keeping `out` sorted.
fn find_insert_pos(out: &Vec<MatchKey>, x: &MatchKey) -> (pos: usize)
    ensures
        pos <= out@.len(),
        forall|k: int| 0 <= k < pos ==> key_cmp(keys_view(out@)[k], x@) <= 0,
        pos < out@.len() ==> key_cmp(x@, keys_view(out@)[pos as int]) < 0,
{
    let mut pos: usize = 0;
    while pos < out.len()
        invariant
            pos <= out@.len(),
            forall|k: int| 0 <= k < pos ==> key_cmp(keys_view(out@)[k], x@) <= 0,
        decreases out@.len() - pos,
    {
        let o = out[pos].compare(x);
        if o == Order::Greater {
            proof {
                lemma_key_cmp_antisym(keys_view(out@)[pos as int], x@);
            }
            return pos;
        }
        pos = pos + 1;
    }
    pos
}

proof fn lemma_keys_view_insert(s: Seq<MatchKey>, i: int, x: MatchKey)
    requires
        0 <= i <= s.len(),
    ensures
        keys_view(s.insert(i, x)) =~= keys_view(s).insert(i, x@),
{
    s.insert_ensures(i, x);
    keys_view(s).insert_ensures(i, x@);
}

/// Sorts keys into the report order, keeping exactly the same multiset of
/// keys.
pub fn sort_keys(input: Vec<MatchKey>) -> (r: Vec<MatchKey>)
    ensures
        sorted_by(keys_view(r@), key_le_fn()),
        keys_view(r@).to_multiset() == keys_view(input@).to_multiset(),
{
    broadcast use group_to_multiset_ensures;

    let ghost input_m = keys_view(input@).to_multiset();
    let mut src = input;
    let mut out: Vec<MatchKey> = Vec::new();
    proof {
        assert(keys_view(out@) =~= Seq::<KeyView>::empty());
        assert(keys_view(out@).to_multiset().add(keys_view(src@).to_multiset()) =~= input_m);
    }
    while src.len() > 0
        invariant
            sorted_by(keys_view(out@), key_le_fn()),
            keys_view(out@).to_multiset().add(keys_view(src@).to_multiset()) == input_m,
        decreases src@.len(),
    {
        let ghost old_src = src@;
        let ghost old_out = out@;
        let x = src.pop().unwrap();
        proof {
            assert(keys_view(old_src) =~= keys_view(src@).push(x@));
            broadcast use group_to_multiset_ensures;

        }
        let pos = find_insert_pos(&out, &x);
        out.insert(pos, x);
        proof {
            lemma_keys_view_insert(old_out, pos as int, x);
            let kv = keys_view(old_out);
            let nv = keys_view(out@);
            assert(nv =~= kv.insert(pos as int, x@));
            kv.insert_ensures(pos as int, x@);
            assert forall|k: int, l: int| 0 <= k < l < nv.len() implies key_le_fn()(
                nv[k],
                nv[l],
            ) by {
                if l < pos {
                    assert(key_le_fn()(kv[k], kv[l]));
                } else if k < pos && l == pos {
                    assert(key_cmp(kv[k], x@) <= 0);
                } else if k < pos && l > pos {
                    assert(key_le_fn()(kv[k], kv[l - 1]));
                } else if k == pos {
                    assert(key_cmp(x@, kv[pos as int]) < 0);
                    if l - 1 > pos {
                        assert(key_le_fn()(kv[pos as int], kv[l - 1]));
                        lemma_key_cmp_trans(x@, kv[pos as int], kv[l - 1]);
                    }
                } else {
                    assert(key_le_fn()(kv[k - 1], kv[l - 1]));
                }
            }
            lemma_insert_to_multiset(kv, pos as int, x@);
            assert(keys_view(out@).to_multiset().add(keys_view(src@).to_multiset())
                =~= input_m);
        }
    }
    proof {
        assert(keys_view(src@) =~= Seq::<KeyView>::empty());
        assert(keys_view(out@).to_multiset().add(keys_view(src@).to_multiset())
            =~= keys_view(out@).to_multiset());
    }
    out
}

/// Keys that survive duplicate removal over a sorted sequence: the first of
/// every run of equal keys.
pub open spec fn dedup_spec(s: Seq<KeyView>) -> Seq<KeyView>
    decreases s.len(),
{
    if s.len() == 0 {
        Seq::empty()
    } else if s.len() == 1 {
        s
    } else if key_cmp(s[s.len() - 2], s[s.len() - 1]) == 0 {
        dedup_spec(s.drop_last())
    } else {
        dedup_spec(s.drop_last()).push(s.last())
    }
}

pub proof fn lemma_dedup_nonempty(s: Seq<KeyView>)
    ensures
        s.len() > 0 ==> dedup_spec(s).len() > 0,
    decreases s.len(),
{
    if s.len() > 1 {
        lemma_dedup_nonempty(s.drop_last());
    }
}

/// Removes adjacent duplicates from a sorted key list.
pub fn dedup_keys(v: Vec<MatchKey>) -> (r: Vec<MatchKey>)
    ensures
        keys_view(r@) == dedup_spec(keys_view(v@)),
{
    let mut out: Vec<MatchKey> = Vec::new();
    let mut i: usize = 0;
    proof {
        assert(keys_view(out@) =~= Seq::<KeyView>::empty());
        assert(keys_view(v@).take(0) =~= Seq::<KeyView>::empty());
    }
    while i < v.len()
        invariant
            i <= v@.len(),
            keys_view(out@) == dedup_spec(keys_view(v@).take(i as int)),
        decreases v@.len() - i,
    {
        let ghost old_out = out@;
        let ghost full = keys_view(v@);
        if i == 0 {
            out.push(v[0].duplicate());
            proof {
                assert(keys_view(out@) =~= keys_view(old_out).push(full[0]));
                assert(full.take(1) =~= Seq::<KeyView>::empty().push(full[0]));
                assert(keys_view(out@) =~= full.take(1));
            }
        } else {
            let o = v[i - 1].compare(&v[i]);
            proof {
                assert(full.take(i + 1).drop_last() =~= full.take(i as int));
                assert(full.take(i + 1)[i as int] == full[i as int]);
                assert(full.take(i + 1)[i - 1] == full[i - 1]);
            }
            if o != Order::Equal {
                out.push(v[i].duplicate());
                proof {
                    assert(keys_view(out@) =~= keys_view(old_out).push(full[i as int]));
                    assert(keys_view(out@) =~= dedup_spec(full.take(i + 1)));
                }
            } else {
                proof {
                    assert(keys_view(out@) =~= dedup_spec(full.take(i + 1)));
                }
            }
        }
        i = i + 1;
    }
    proof {
        assert(keys_view(v@).take(v@.len() as int) =~= keys_view(v@));
    }
    out
}

/// Over a sorted input, duplicate removal yields a strictly ascending
/// sequence holding exactly the keys of the input.
pub proof fn lemma_dedup_properties(s: Seq<KeyView>)
    requires
        sorted_by(s, key_le_fn()),
    ensures
        strictly_sorted(dedup_spec(s)),
        dedup_spec(s).to_set() =~= s.to_set(),
    decreases s.len(),
{
    if s.len() <= 1 {
        if s.len() == 1 {
            assert(s.to_set() =~= dedup_spec(s).to_set());
        }
    } else {
        let pre = s.drop_last();
        assert(forall|k: int, l: int| 0 <= k < l < pre.len() ==> key_le_fn()(
            #[trigger] pre[k],
            #[trigger] pre[l],
        ));
        lemma_dedup_properties(pre);
        let d = dedup_spec(s);
        let dp = dedup_spec(pre);
        if key_cmp(s[s.len() - 2], s[s.len() - 1]) == 0 {
            lemma_key_cmp_zero(s[s.len() - 2], s[s.len() - 1]);
            assert(s.last() == pre[s.len() - 2]);
            assert forall|x: KeyView| s.to_set().contains(x) implies dp.to_set().contains(
                x,
            ) by {
                let k = choose|k: int| 0 <= k < s.len() && s[k] == x;
                if k == s.len() - 1 {
                    assert(pre[s.len() - 2] == x);
                } else {
                    assert(pre[k] == x);
                }
            }
            assert forall|x: KeyView| dp.to_set().contains(x) implies s.to_set().contains(
                x,
            ) by {
                let k = choose|k: int| 0 <= k < pre.len() && pre[k] == x;
                assert(s[k] == x);
            }
            assert(d.to_set() =~= s.to_set());
        } else {
            // the last key is strictly greater than every key before it
            assert forall|k: int| 0 <= k < dp.len() implies key_cmp(
                dp[k],
                s.last(),
            ) < 0 by {
                assert(dp.to_set().contains(dp[k]));
                assert(pre.to_set().contains(dp[k]));
                let m = choose|m: int| 0 <= m < pre.len() && pre[m] == dp[k];
                assert(pre[m] == s[m]);
                assert(key_le_fn()(s[s.len() - 2], s[s.len() - 1]));
                if m < s.len() - 2 {
                    assert(key_le_fn()(s[m], s[s.len() - 2]));
                    lemma_key_cmp_trans(s[m], s[s.len() - 2], s.last());
                } else {
                    assert(dp[k] == s[s.len() - 2]);
                }
            }
            assert forall|x: KeyView| s.to_set().contains(x) implies d.to_set().contains(
                x,
            ) by {
                let k = choose|k: int| 0 <= k < s.len() && s[k] == x;
                if k == s.len() - 1 {
                    assert(d[d.len() - 1] == x);
                } else {
                    assert(pre[k] == x);
                    assert(dp.to_set().contains(x));
                    let m = choose|m: int| 0 <= m < dp.len() && dp[m] == x;
                    assert(d[m] == x);
                }
            }
            assert forall|x: KeyView| d.to_set().contains(x) implies s.to_set().contains(
                x,
            ) by {
                let k = choose|k: int| 0 <= k < d.len() && d[k] == x;
                if k == d.len() - 1 {
                    assert(s[s.len() - 1] == x);
                } else {
                    assert(dp.to_set().contains(x));
                    let m = choose|m: int| 0 <= m < pre.len() && pre[m] == x;
                    assert(s[m] == x);
                }
            }
            assert(d.to_set() =~= s.to_set());
        }
    }
}

/// Two strictly ascending key sequences over the same key set are equal:
/// the report order is deterministic whatever internal order produced it.
pub proof fn lemma_strictly_sorted_unique(s1: Seq<KeyView>, s2: Seq<KeyView>)
    requires
        strictly_sorted(s1),
        strictly_sorted(s2),
        s1.to_set() == s2.to_set(),
    ensures
        s1 == s2,
    decreases s1.len(),
{
    if s1.len() == 0 {
        if s2.len() > 0 {
            assert(s2.to_set().contains(s2[0]));
            assert(s1.to_set().contains(s2[0]));
        }
        assert(s1 =~= s2);
    } else if s2.len() == 0 {
        assert(s1.to_set().contains(s1[0]));
        assert(s2.to_set().contains(s1[0]));
    } else {
        // the heads are both the least element of the shared set
        assert(s1.to_set().contains(s2[0]));
        let i = choose|i: int| 0 <= i < s1.len() && s1[i] == s2[0];
        assert(s2.to_set().contains(s1[0]));
        let j = choose|j: int| 0 <= j < s2.len() && s2[j] == s1[0];
        if i > 0 {
            assert(key_cmp(s1[0], s1[i]) < 0);
        }
        if j > 0 {
            assert(key_cmp(s2[0], s2[j]) < 0);
        }
        lemma_key_cmp_antisym(s1[0], s2[0]);
        lemma_key_cmp_zero(s1[0], s2[0]);
        assert(s1[0] == s2[0]);
        let t1 = s1.drop_first();
        let t2 = s2.drop_first();
        assert forall|x: KeyView| t1.to_set().contains(x) implies t2.to_set().contains(x) by {
            let k = choose|k: int| 0 <= k < t1.len() && t1[k] == x;
            assert(s1[k + 1] == x);
            assert(key_cmp(s1[0], x) < 0);
            assert(s2.to_set().contains(x));
            let m = choose|m: int| 0 <= m < s2.len() && s2[m] == x;
            lemma_key_cmp_antisym(s2[0], x);
            assert(m != 0);
            assert(t2[m - 1] == x);
        }
        assert forall|x: KeyView| t2.to_set().contains(x) implies t1.to_set().contains(x) by {
            let k = choose|k: int| 0 <= k < t2.len() && t2[k] == x;
            assert(s2[k + 1] == x);
            assert(key_cmp(s2[0], x) < 0);
            assert(s1.to_set().contains(x));
            let m = choose|m: int| 0 <= m < s1.len() && s1[m] == x;
            lemma_key_cmp_antisym(s1[0], x);
            assert(m != 0);
            assert(t1[m - 1] == x);
        }
        assert(t1.to_set() =~= t2.to_set());
        lemma_strictly_sorted_unique(t1, t2);
        assert forall|k: int| 0 <= k < s1.len() implies s1[k] == s2[k] by {
            if k > 0 {
                assert(s1[k] == t1[k - 1]);
                assert(s2[k] == t2[k - 1]);
            }
        }
        assert(s1 =~= s2);
    }
}

/// Sorted sequences with the same key multiset are equal: re-running the
/// matcher in any internal execution order yields the same report order.
pub proof fn lemma_report_order_deterministic(s1: Seq<KeyView>, s2: Seq<KeyView>)
    requires
        sorted_by(s1, key_le_fn()),
        sorted_by(s2, key_le_fn()),
        s1.to_multiset() == s2.to_multiset(),
    ensures
        s1 == s2,
{
    lemma_key_le_total();
    lemma_sorted_unique(s1, s2, key_le_fn());
}

/// The keys a match list projects to.
pub open spec fn match_keys(
    list: Seq<Match>,
    ds: Seq<DependencyView>,
    rs: Seq<AdvisoryView>,
) -> Seq<KeyView> {
    list.map_values(|m: Match| key_of(ds[m.dep as int], rs[m.adv as int]))
}

/// Extracts the report key of every match.
fn keys_of_matches(list: &Vec<Match>, deps: &Vec<Dependency>, db: &AdvisoryDatabase) -> (r: Vec<
    MatchKey,
>)
    requires
        forall|k: int| 0 <= k < list@.len() ==> (#[trigger] list@[k]).dep < deps@.len()
            && list@[k].adv < db.records@.len(),
    ensures
        keys_view(r@) == match_keys(list@, deps_view(deps@), records_view(db.records@)),
        r@.len() == list@.len(),
{
    let ghost ds = deps_view(deps@);
    let ghost rs = records_view(db.records@);
    let mut out: Vec<MatchKey> = Vec::new();
    let mut i: usize = 0;
    while i < list.len()
        invariant
            i <= list@.len(),
            ds == deps_view(deps@),
            rs == records_view(db.records@),
            forall|k: int| 0 <= k < list@.len() ==> (#[trigger] list@[k]).dep < deps@.len()
                && list@[k].adv < db.records@.len(),
            out@.len() == i,
            forall|k: int| 0 <= k < i ==> keys_view(out@)[k] == key_of(
                ds[(#[trigger] list@[k]).dep as int],
                rs[list@[k].adv as int],
            ),
        decreases list@.len() - i,
    {
        let m = list[i];
        let dep = &deps[m.dep];
        let rec = db.record_at(m.adv);
        let name = dep.name.clone();
        let id = rec.id.clone();
        proof {
            assert(name@ =~= dep.name@);
            assert(id@ =~= rec.id@);
        }
        let key = MatchKey { name, version: dep.version.duplicate(), id };
        proof {
            assert(key@ =~= key_of(ds[m.dep as int], rs[m.adv as int]));
        }
        out.push(key);
        i = i + 1;
    }
    proof {
        assert(keys_view(out@) =~= match_keys(list@, ds, rs));
    }
    out
}

/// The finished report: blocking matches and informational findings, each
/// strictly ordered by (dependency name, version, advisory id). Built once;
/// rendering is a read-only projection.
#[derive(Debug)]
pub struct Report {
    pub entries: Vec<MatchKey>,
    pub informational: Vec<MatchKey>,
}

impl Report {
    pub open spec fn wf(&self) -> bool {
        &&& strictly_sorted(keys_view(self.entries@))
        &&& strictly_sorted(keys_view(self.informational@))
    }

    /// Number of blocking matches in the report.
    pub fn summary_count(&self) -> (n: usize)
        ensures
            n == self.entries@.len(),
    {
        self.entries.len()
    }

    /// Whether the blocking-match collection is empty.
    pub fn is_clean(&self) -> (r: bool)
        ensures
            r == (self.entries@.len() == 0),
    {
        self.entries.len() == 0
    }
}

/// Canonicalizes one match list: project to keys, sort, drop duplicates.
fn canonical_keys(list: &Vec<Match>, deps: &Vec<Dependency>, db: &AdvisoryDatabase) -> (r: Vec<
    MatchKey,
>)
    requires
        forall|k: int| 0 <= k < list@.len() ==> (#[trigger] list@[k]).dep < deps@.len()
            && list@[k].adv < db.records@.len(),
    ensures
        strictly_sorted(keys_view(r@)),
        keys_view(r@).to_set() == match_keys(
            list@,
            deps_view(deps@),
            records_view(db.records@),
        ).to_set(),
        (r@.len() == 0) <==> (list@.len() == 0),
{
    broadcast use group_to_multiset_ensures;

    let ghost mk = match_keys(list@, deps_view(deps@), records_view(db.records@));
    let raw = keys_of_matches(list, deps, db);
    let sorted = sort_keys(raw);
    proof {
        assert forall|x: KeyView| keys_view(sorted@).contains(x) == mk.contains(x) by {
            assert(keys_view(sorted@).contains(x) <==> keys_view(sorted@).to_multiset().count(x)
                > 0);
            assert(mk.contains(x) <==> mk.to_multiset().count(x) > 0);
        }
        assert(keys_view(sorted@).to_set() =~= mk.to_set());
        assert(keys_view(sorted@).len() == keys_view(sorted@).to_multiset().len());
        assert(mk.len() == mk.to_multiset().len());
    }
    let out = dedup_keys(sorted);
    proof {
        lemma_dedup_properties(keys_view(sorted@));
        lemma_dedup_nonempty(keys_view(sorted@));
    }
    out
}

/// Aggregates the matcher's output into the report: blocking matches and
/// informational findings are grouped by dependency and deterministically
/// ordered; duplicates by (dependency identity, advisory id) collapse.
pub fn build(ms: &MatchSet, deps: &Vec<Dependency>, db: &AdvisoryDatabase) -> (r: Report)
    requires
        forall|k: int| 0 <= k < ms.blocking@.len() ==> (#[trigger] ms.blocking@[k]).dep
            < deps@.len() && ms.blocking@[k].adv < db.records@.len(),
        forall|k: int| 0 <= k < ms.informational@.len() ==> (#[trigger] ms.informational@[k]).dep
            < deps@.len() && ms.informational@[k].adv < db.records@.len(),
    ensures
        r.wf(),
        keys_view(r.entries@).to_set() == match_keys(
            ms.blocking@,
            deps_view(deps@),
            records_view(db.records@),
        ).to_set(),
        keys_view(r.informational@).to_set() == match_keys(
            ms.informational@,
            deps_view(deps@),
            records_view(db.records@),
        ).to_set(),
        (r.entries@.len() == 0) <==> (ms.blocking@.len() == 0),
        (r.informational@.len() == 0) <==> (ms.informational@.len() == 0),
{
    let entries = canonical_keys(&ms.blocking, deps, db);
    let informational = canonical_keys(&ms.informational, deps, db);
    Report { entries, informational }
}

/// The CI-facing outcome of a run that reached the matcher.
#[derive(Clone, Copy, Debug, PartialEq, Eq, Structural)]
pub enum ExitCode {
    Clean,
    VulnerabilitiesFound,
}

impl ExitCode {
    /// The process exit code: zero exactly for a clean run.
    pub fn code(&self) -> (r: i32)
        ensures
            (*self == ExitCode::Clean) <==> (r == 0),
            (*self == ExitCode::VulnerabilitiesFound) ==> (r == 1),
    {
        match self {
            ExitCode::Clean => 0,
            ExitCode::VulnerabilitiesFound => 1,
        }
    }
}

/// Clean exactly when the blocking-match collection is empty; findings of
/// the informational categories never affect the disposition.
pub fn exit_disposition(report: &Report) -> (r: ExitCode)
    ensures
        (r == ExitCode::Clean) <==> (report.entries@.len() == 0),
        (r == ExitCode::VulnerabilitiesFound) <==> (report.entries@.len() > 0),
{
    if report.entries.len() == 0 {
        ExitCode::Clean
    } else {
        ExitCode::VulnerabilitiesFound
    }
}

/// The disposition with the optional warnings-as-errors mode: informational
/// findings then also block.
pub fn exit_disposition_with(report: &Report, warnings_as_errors: bool) -> (r: ExitCode)
    ensures
        (r == ExitCode::Clean) <==> (report.entries@.len() == 0 && (!warnings_as_errors
            || report.informational@.len() == 0)),
{
    if report.entries.len() == 0 && (!warnings_as_errors || report.informational.len() == 0) {
        ExitCode::Clean
    } else {
        ExitCode::VulnerabilitiesFound
    }
}

} // verus!
