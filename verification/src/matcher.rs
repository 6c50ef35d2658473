//! Cross-references dependencies against advisory records.
//!
//! A dependency matches an advisory exactly when the names agree, the
//! dependency's version lies in the advisory's affected range minus its
//! unaffected sub-ranges, the advisory is not withdrawn, its identifier is
//! not ignored, and the active arch/os filters are compatible with the
//! advisory's constraints. Vulnerability matches block the run; advisories
//! of the other categories are collected separately as informational
//! findings.

use vstd::prelude::*;

use crate::advisory::{arch_permits, os_permits, Arch, Category, Os, AdvisoryView};
use crate::bytes::{bytes_eq, views_of};
use crate::database::{records_view, AdvisoryDatabase};
use crate::lockfile::{deps_view, Dependency, DependencyView};
use crate::vrange::range_vulnerable;

verus! {

/// Advisory identifiers excluded from matching for this run, formed as the
/// union of configuration-file ignores and command-line ignores.
#[derive(Debug)]
pub struct IgnoreSet {
    pub ids: Vec<Vec<u8>>,
}

impl View for IgnoreSet {
    type V = Set<Seq<u8>>;

    open spec fn view(&self) -> Set<Seq<u8>> {
        Set::new(|x: Seq<u8>| views_of(self.ids@).contains(x))
    }
}

impl IgnoreSet {
    pub fn new() -> (r: IgnoreSet)
        ensures
            r@ == Set::<Seq<u8>>::empty(),
    {
        let r = IgnoreSet { ids: Vec::new() };
        proof {
            assert(r@ =~= Set::<Seq<u8>>::empty());
        }
        r
    }

    /// The union of the two sources of ignores; duplicates collapse and
    /// neither source takes precedence over the other.
    pub fn from_lists(config_ids: Vec<Vec<u8>>, cli_ids: Vec<Vec<u8>>) -> (r: IgnoreSet)
        ensures
            r@ == Set::new(|x: Seq<u8>| views_of(config_ids@).contains(x)).union(
                Set::new(|x: Seq<u8>| views_of(cli_ids@).contains(x)),
            ),
    {
        let ghost cfg = config_ids@;
        let mut ids = config_ids;
        let mut i: usize = 0;
        while i < cli_ids.len()
            invariant
                i <= cli_ids@.len(),
                views_of(ids@) =~= views_of(cfg) + views_of(cli_ids@).subrange(0, i as int),
            decreases cli_ids@.len() - i,
        {
            let ghost old_ids = ids@;
            let c = cli_ids[i].clone();
            proof {
                assert(c@ =~= cli_ids@[i as int]@);
            }
            ids.push(c);
            proof {
                assert(views_of(ids@) =~= views_of(old_ids).push(cli_ids@[i as int]@));
                assert(views_of(ids@) =~= views_of(cfg) + views_of(cli_ids@).subrange(
                    0,
                    i + 1,
                ));
            }
            i = i + 1;
        }
        let r = IgnoreSet { ids };
        proof {
            assert(views_of(cli_ids@).subrange(0, cli_ids@.len() as int) =~= views_of(cli_ids@));
            assert forall|x: Seq<u8>| r@.contains(x) implies Set::new(
                |x: Seq<u8>| views_of(cfg).contains(x),
            ).union(Set::new(|x: Seq<u8>| views_of(cli_ids@).contains(x))).contains(x) by {
                let k = choose|k: int| 0 <= k < views_of(r.ids@).len() && views_of(r.ids@)[k] == x;
                if k < cfg.len() {
                    assert(views_of(cfg)[k] == x);
                } else {
                    assert(views_of(cli_ids@)[k - cfg.len()] == x);
                }
            }
            assert forall|x: Seq<u8>| Set::new(|x: Seq<u8>| views_of(cfg).contains(x)).union(
                Set::new(|x: Seq<u8>| views_of(cli_ids@).contains(x)),
            ).contains(x) implies r@.contains(x) by {
                if views_of(cfg).contains(x) {
                    let k = choose|k: int| 0 <= k < views_of(cfg).len() && views_of(cfg)[k] == x;
                    assert(views_of(r.ids@)[k] == x);
                } else {
                    let k = choose|k: int|
                        0 <= k < views_of(cli_ids@).len() && views_of(cli_ids@)[k] == x;
                    assert(views_of(r.ids@)[cfg.len() + k] == x);
                }
            }
            assert(r@ =~= Set::new(|x: Seq<u8>| views_of(cfg).contains(x)).union(
                Set::new(|x: Seq<u8>| views_of(cli_ids@).contains(x)),
            ));
        }
        r
    }

    /// Builds the ignore set from a borrowed identifier list.
    pub fn from_slice(ids: &Vec<Vec<u8>>) -> (r: IgnoreSet)
        ensures
            r@ == Set::new(|x: Seq<u8>| views_of(ids@).contains(x)),
    {
        let mut out: Vec<Vec<u8>> = Vec::new();
        let mut i: usize = 0;
        while i < ids.len()
            invariant
                i <= ids@.len(),
                views_of(out@) =~= views_of(ids@).subrange(0, i as int),
            decreases ids@.len() - i,
        {
            let ghost old_out = out@;
            let c = ids[i].clone();
            proof {
                assert(c@ =~= ids@[i as int]@);
            }
            out.push(c);
            proof {
                assert(views_of(out@) =~= views_of(old_out).push(ids@[i as int]@));
                assert(views_of(out@) =~= views_of(ids@).subrange(0, i + 1));
            }
            i = i + 1;
        }
        let r = IgnoreSet { ids: out };
        proof {
            assert(views_of(r.ids@) =~= views_of(ids@));
            assert(r@ =~= Set::new(|x: Seq<u8>| views_of(ids@).contains(x)));
        }
        r
    }

    /// Adds one identifier; adding it a second time changes nothing.
    pub fn add(&mut self, id: Vec<u8>)
        ensures
            final(self)@ == old(self)@.insert(id@),
    {
        let ghost old_ids = self.ids@;
        let ghost v = id@;
        self.ids.push(id);
        proof {
            assert(views_of(self.ids@) =~= views_of(old_ids).push(v));
            assert forall|x: Seq<u8>| self@.contains(x) implies old(self)@.insert(v).contains(
                x,
            ) by {
                let k = choose|k: int|
                    0 <= k < views_of(self.ids@).len() && views_of(self.ids@)[k] == x;
                if k < old_ids.len() {
                    assert(views_of(old_ids)[k] == x);
                }
            }
            assert forall|x: Seq<u8>| old(self)@.insert(v).contains(x) implies self@.contains(
                x,
            ) by {
                if old(self)@.contains(x) {
                    let k = choose|k: int|
                        0 <= k < views_of(old_ids).len() && views_of(old_ids)[k] == x;
                    assert(views_of(self.ids@)[k] == x);
                } else {
                    assert(views_of(self.ids@)[old_ids.len() as int] == x);
                }
            }
            assert(self@ =~= old(self)@.insert(v));
        }
    }

    /// Whether the identifier is ignored.
    pub fn contains_id(&self, id: &Vec<u8>) -> (r: bool)
        ensures
            r == self@.contains(id@),
    {
        let mut k: usize = 0;
        while k < self.ids.len()
            invariant
                k <= self.ids@.len(),
                forall|m: int| 0 <= m < k ==> views_of(self.ids@)[m] != id@,
            decreases self.ids@.len() - k,
        {
            if bytes_eq(&self.ids[k], id) {
                assert(views_of(self.ids@)[k as int] == id@);
                return true;
            }
            k = k + 1;
        }
        false
    }
}

/// A confirmed association between one dependency and one advisory, both
/// given by their index in the run's input collections.
#[derive(Clone, Copy, Debug, PartialEq, Eq, Structural)]
pub struct Match {
    pub dep: usize,
    pub adv: usize,
}

/// Strict ordering of matches: by dependency index, then advisory index.
pub open spec fn match_lt(a: Match, b: Match) -> bool {
    a.dep < b.dep || (a.dep == b.dep && a.adv < b.adv)
}

/// The matcher's verdict on one dependency/advisory pair.
pub open spec fn advisory_applies(
    d: DependencyView,
    a: AdvisoryView,
    ignore: Set<Seq<u8>>,
    arch_filter: Option<Arch>,
    os_filter: Option<Os>,
) -> bool {
    &&& d.name == a.package
    &&& a.withdrawn is None
    &&& !ignore.contains(a.id)
    &&& arch_permits(arch_filter, a.arch_constraint)
    &&& os_permits(os_filter, a.os_constraint)
    &&& range_vulnerable(d.version, a.affected)
}

/// An advisory identifier in the ignore set never yields a match, whichever
/// source put it there.
pub proof fn lemma_ignored_never_matches(
    d: DependencyView,
    a: AdvisoryView,
    ignore: Set<Seq<u8>>,
    arch_filter: Option<Arch>,
    os_filter: Option<Os>,
)
    ensures
        ignore.contains(a.id) ==> !advisory_applies(d, a, ignore, arch_filter, os_filter),
{
}

/// Ignoring an identifier twice has no effect beyond ignoring it once.
pub proof fn lemma_ignore_idempotent(ignore: Set<Seq<u8>>, id: Seq<u8>)
    ensures
        ignore.insert(id).insert(id) == ignore.insert(id),
{
    assert(ignore.insert(id).insert(id) =~= ignore.insert(id));
}

proof fn lemma_contains_after_push<T>(s: Seq<T>, x: T)
    ensures
        forall|y: T| s.contains(y) ==> #[trigger] s.push(x).contains(y),
        s.push(x).contains(x),
{
    assert(s.push(x)[s.len() as int] == x);
    assert forall|y: T| s.contains(y) implies #[trigger] s.push(x).contains(y) by {
        let i = choose|i: int| 0 <= i < s.len() && s[i] == y;
        assert(s.push(x)[i] == y);
    }
}

/// The blocking matches and the informational findings of one run.
#[derive(Debug)]
pub struct MatchSet {
    pub blocking: Vec<Match>,
    pub informational: Vec<Match>,
}

/// Whether `ms` holds exactly the pairs that apply among `ds` and `rs`,
/// split by category, each collection strictly ordered.
pub open spec fn match_set_correct(
    ms: MatchSet,
    ds: Seq<DependencyView>,
    rs: Seq<AdvisoryView>,
    ignore: Set<Seq<u8>>,
    arch_filter: Option<Arch>,
    os_filter: Option<Os>,
) -> bool {
    &&& forall|k: int, l: int| 0 <= k < l < ms.blocking@.len() ==> match_lt(
        #[trigger] ms.blocking@[k],
        #[trigger] ms.blocking@[l],
    )
    &&& forall|k: int, l: int| 0 <= k < l < ms.informational@.len() ==> match_lt(
        #[trigger] ms.informational@[k],
        #[trigger] ms.informational@[l],
    )
    &&& forall|k: int| 0 <= k < ms.blocking@.len() ==> {
        let m = #[trigger] ms.blocking@[k];
        &&& m.dep < ds.len()
        &&& m.adv < rs.len()
        &&& advisory_applies(ds[m.dep as int], rs[m.adv as int], ignore, arch_filter, os_filter)
        &&& rs[m.adv as int].category == Category::Vulnerability
    }
    &&& forall|k: int| 0 <= k < ms.informational@.len() ==> {
        let m = #[trigger] ms.informational@[k];
        &&& m.dep < ds.len()
        &&& m.adv < rs.len()
        &&& advisory_applies(ds[m.dep as int], rs[m.adv as int], ignore, arch_filter, os_filter)
        &&& rs[m.adv as int].category != Category::Vulnerability
    }
    &&& forall|i: int, j: int|
        0 <= i < ds.len() && 0 <= j < rs.len() && #[trigger] advisory_applies(
            ds[i],
            rs[j],
            ignore,
            arch_filter,
            os_filter,
        ) ==> {
            if rs[j].category == Category::Vulnerability {
                ms.blocking@.contains(Match { dep: i as usize, adv: j as usize })
            } else {
                ms.informational@.contains(Match { dep: i as usize, adv: j as usize })
            }
        }
}

/// The core algorithm: a `Match(d, a)` is produced exactly when `d.name ==
/// a.package`, `d.version` lies in `a`'s affected range minus its
/// unaffected sub-ranges, `a` is not withdrawn, `a.id` is not ignored, and
/// the arch/os constraints (if present) include the active filters.
/// Advisories of non-vulnerability categories go to the informational
/// collection instead. No pair appears twice.
pub fn find_matches(
    deps: &Vec<Dependency>,
    db: &AdvisoryDatabase,
    ignore: &IgnoreSet,
    arch_filter: Option<Arch>,
    os_filter: Option<Os>,
) -> (r: MatchSet)
    requires
        db.index_wf(),
    ensures
        match_set_correct(
            r,
            deps_view(deps@),
            records_view(db.records@),
            ignore@,
            arch_filter,
            os_filter,
        ),
{
    let ghost ds = deps_view(deps@);
    let ghost rs = records_view(db.records@);
    let nrec = db.record_count();
    proof {
        assert(rs.len() <= usize::MAX);
    }
    let mut blocking: Vec<Match> = Vec::new();
    let mut informational: Vec<Match> = Vec::new();
    let mut i: usize = 0;
    while i < deps.len()
        invariant
            i <= ds.len(),
            db.index_wf(),
            ds == deps_view(deps@),
            rs == records_view(db.records@),
            ds.len() == deps@.len(),
            rs.len() == db.records@.len(),
            rs.len() <= usize::MAX,
            forall|k: int, l: int| 0 <= k < l < blocking@.len() ==> match_lt(
                #[trigger] blocking@[k],
                #[trigger] blocking@[l],
            ),
            forall|k: int, l: int| 0 <= k < l < informational@.len() ==> match_lt(
                #[trigger] informational@[k],
                #[trigger] informational@[l],
            ),
            forall|k: int| 0 <= k < blocking@.len() ==> (#[trigger] blocking@[k]).dep < i,
            forall|k: int| 0 <= k < informational@.len() ==> (#[trigger] informational@[k]).dep
                < i,
            forall|k: int| 0 <= k < blocking@.len() ==> {
                let m = #[trigger] blocking@[k];
                &&& m.adv < rs.len()
                &&& advisory_applies(
                    ds[m.dep as int],
                    rs[m.adv as int],
                    ignore@,
                    arch_filter,
                    os_filter,
                )
                &&& rs[m.adv as int].category == Category::Vulnerability
            },
            forall|k: int| 0 <= k < informational@.len() ==> {
                let m = #[trigger] informational@[k];
                &&& m.adv < rs.len()
                &&& advisory_applies(
                    ds[m.dep as int],
                    rs[m.adv as int],
                    ignore@,
                    arch_filter,
                    os_filter,
                )
                &&& rs[m.adv as int].category != Category::Vulnerability
            },
            forall|i2: int, j: int|
                0 <= i2 < i && 0 <= j < rs.len() && #[trigger] advisory_applies(
                    ds[i2],
                    rs[j],
                    ignore@,
                    arch_filter,
                    os_filter,
                ) ==> {
                    if rs[j].category == Category::Vulnerability {
                        blocking@.contains(Match { dep: i2 as usize, adv: j as usize })
                    } else {
                        informational@.contains(Match { dep: i2 as usize, adv: j as usize })
                    }
                },
        decreases deps@.len() - i,
    {
        let cands = db.records_for(&deps[i].name);
        let ghost name = ds[i as int].name;
        let mut k: usize = 0;
        while k < cands.len()
            invariant
                i < ds.len(),
                db.index_wf(),
                k <= cands@.len(),
                ds == deps_view(deps@),
                rs == records_view(db.records@),
                ds.len() == deps@.len(),
                rs.len() == db.records@.len(),
                rs.len() <= usize::MAX,
                name == ds[i as int].name,
                forall|k2: int, l: int| 0 <= k2 < l < cands@.len() ==> cands@[k2] < cands@[l],
                forall|k2: int| 0 <= k2 < cands@.len() ==> (#[trigger] cands@[k2]) < rs.len()
                    && rs[cands@[k2] as int].package == name,
                forall|j: int| 0 <= j < rs.len() && (#[trigger] rs[j]).package == name
                    ==> cands@.contains(j as usize),
                forall|k2: int, l: int| 0 <= k2 < l < blocking@.len() ==> match_lt(
                    #[trigger] blocking@[k2],
                    #[trigger] blocking@[l],
                ),
                forall|k2: int, l: int| 0 <= k2 < l < informational@.len() ==> match_lt(
                    #[trigger] informational@[k2],
                    #[trigger] informational@[l],
                ),
                forall|k2: int| 0 <= k2 < blocking@.len() ==> (#[trigger] blocking@[k2]).dep < i
                    || (blocking@[k2].dep == i && exists|m: int|
                    0 <= m < k && cands@[m] == blocking@[k2].adv),
                forall|k2: int| 0 <= k2 < informational@.len() ==> (
                #[trigger] informational@[k2]).dep < i || (informational@[k2].dep == i && exists|
                    m: int,
                |
                    0 <= m < k && cands@[m] == informational@[k2].adv),
                forall|k2: int| 0 <= k2 < blocking@.len() ==> {
                    let m = #[trigger] blocking@[k2];
                    &&& m.dep < ds.len()
                    &&& m.adv < rs.len()
                    &&& advisory_applies(
                        ds[m.dep as int],
                        rs[m.adv as int],
                        ignore@,
                        arch_filter,
                        os_filter,
                    )
                    &&& rs[m.adv as int].category == Category::Vulnerability
                },
                forall|k2: int| 0 <= k2 < informational@.len() ==> {
                    let m = #[trigger] informational@[k2];
                    &&& m.dep < ds.len()
                    &&& m.adv < rs.len()
                    &&& advisory_applies(
                        ds[m.dep as int],
                        rs[m.adv as int],
                        ignore@,
                        arch_filter,
                        os_filter,
                    )
                    &&& rs[m.adv as int].category != Category::Vulnerability
                },
                forall|i2: int, j: int|
                    0 <= i2 < i && 0 <= j < rs.len() && #[trigger] advisory_applies(
                        ds[i2],
                        rs[j],
                        ignore@,
                        arch_filter,
                        os_filter,
                    ) ==> {
                        if rs[j].category == Category::Vulnerability {
                            blocking@.contains(Match { dep: i2 as usize, adv: j as usize })
                        } else {
                            informational@.contains(Match { dep: i2 as usize, adv: j as usize })
                        }
                    },
                forall|m: int|
                    0 <= m < k && #[trigger] advisory_applies(
                        ds[i as int],
                        rs[cands@[m] as int],
                        ignore@,
                        arch_filter,
                        os_filter,
                    ) ==> {
                        if rs[cands@[m] as int].category == Category::Vulnerability {
                            blocking@.contains(Match { dep: i, adv: cands@[m] })
                        } else {
                            informational@.contains(Match { dep: i, adv: cands@[m] })
                        }
                    },
            decreases cands@.len() - k,
        {
            let j = cands[k];
            let rec = db.record_at(j);
            let withdrawn_clear = match &rec.withdrawn {
                Option::None => true,
                Option::Some(_) => false,
            };
            let not_ignored = !ignore.contains_id(&rec.id);
            let arch_ok = rec.permits_arch(arch_filter);
            let os_ok = rec.permits_os(os_filter);
            let vulnerable = rec.affected.vulnerable(&deps[i].version);
            let ghost applies_now = advisory_applies(
                ds[i as int],
                rs[j as int],
                ignore@,
                arch_filter,
                os_filter,
            );
            proof {
                assert(applies_now == (withdrawn_clear && not_ignored && arch_ok && os_ok
                    && vulnerable));
            }
            if withdrawn_clear && not_ignored && arch_ok && os_ok && vulnerable {
                let m = Match { dep: i, adv: j };
                if rec.category == Category::Vulnerability {
                    let ghost old_b = blocking@;
                    blocking.push(m);
                    proof {
                        lemma_contains_after_push(old_b, m);
                        assert forall|k2: int| 0 <= k2 < old_b.len() implies match_lt(
                            old_b[k2],
                            m,
                        ) by {
                            if old_b[k2].dep == i {
                                let m2 = choose|m2: int|
                                    0 <= m2 < k && cands@[m2] == old_b[k2].adv;
                                assert(cands@[m2] < cands@[k as int]);
                            }
                        }
                    }
                } else {
                    let ghost old_n = informational@;
                    informational.push(m);
                    proof {
                        lemma_contains_after_push(old_n, m);
                        assert forall|k2: int| 0 <= k2 < old_n.len() implies match_lt(
                            old_n[k2],
                            m,
                        ) by {
                            if old_n[k2].dep == i {
                                let m2 = choose|m2: int|
                                    0 <= m2 < k && cands@[m2] == old_n[k2].adv;
                                assert(cands@[m2] < cands@[k as int]);
                            }
                        }
                    }
                }
            }
            k = k + 1;
        }
        proof {
            assert forall|j: int|
                0 <= j < rs.len() && #[trigger] advisory_applies(
                    ds[i as int],
                    rs[j],
                    ignore@,
                    arch_filter,
                    os_filter,
                ) implies {
                if rs[j].category == Category::Vulnerability {
                    blocking@.contains(Match { dep: i, adv: j as usize })
                } else {
                    informational@.contains(Match { dep: i, adv: j as usize })
                }
            } by {
                assert(rs[j].package == name);
                assert(cands@.contains(j as usize));
                let m = choose|m: int| 0 <= m < cands@.len() && cands@[m] == j as usize;
                assert(cands@[m] as int == j);
                assert(advisory_applies(
                    ds[i as int],
                    rs[cands@[m] as int],
                    ignore@,
                    arch_filter,
                    os_filter,
                ));
            }
        }
        i = i + 1;
    }
    MatchSet { blocking, informational }
}

} // verus!
