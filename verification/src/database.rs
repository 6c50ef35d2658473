//! The local advisory database: mirror metadata, freshness, and lookup.
//!
//! The database owns the advisory records loaded from the local mirror for
//! the run's lifetime. Freshness is decided from the mirror's head-commit
//! timestamp; a mirror older than the threshold aborts the run unless
//! staleness is tolerated.

use vstd::prelude::*;

use crate::advisory::{advisory_wf, AdvisoryRecord, AdvisoryView};
use crate::bytes::{bytes_eq, views_of};
use crate::record::{parse_advisory, parse_advisory_spec};

verus! {

/// Days a mirror may lag behind before it counts as stale.
pub const DEFAULT_FRESHNESS_DAYS: u64 = 90;

/// Seconds in a day, used to turn timestamp ages into day counts.
pub const SECONDS_PER_DAY: u64 = 86400;

/// Failure modes of opening, refreshing and loading the database.
#[derive(Clone, Copy, Debug, PartialEq, Eq, Structural)]
pub enum DatabaseError {
    NotFound,
    FetchFailed,
    Stale,
    Corrupt,
    Locked,
}

/// What the mirror reports about itself after it has been opened.
#[derive(Debug)]
pub struct DatabaseMetadata {
    pub mirror_path: Vec<u8>,
    pub head_commit_timestamp: u64,
    pub fetched: bool,
}

#[verifier::ext_equal]
pub ghost struct MetadataView {
    pub mirror_path: Seq<u8>,
    pub head_commit_timestamp: u64,
    pub fetched: bool,
}

impl View for DatabaseMetadata {
    type V = MetadataView;

    open spec fn view(&self) -> MetadataView {
        MetadataView {
            mirror_path: self.mirror_path@,
            head_commit_timestamp: self.head_commit_timestamp,
            fetched: self.fetched,
        }
    }
}

/// Age of the mirror in whole days at time `now`; a head commit from the
/// future counts as age zero.
pub open spec fn age_days(now: u64, head_commit_timestamp: u64) -> int {
    if head_commit_timestamp >= now {
        0
    } else {
        ((now - head_commit_timestamp) as int) / (SECONDS_PER_DAY as int)
    }
}

/// The sequence of record views held by a record list.
pub open spec fn records_view(records: Seq<AdvisoryRecord>) -> Seq<AdvisoryView> {
    records.map_values(|r: AdvisoryRecord| r@)
}

/// Database well-formedness: every record is well formed and identifiers
/// are globally unique.
pub open spec fn records_wf(rs: Seq<AdvisoryView>) -> bool {
    &&& forall|i: int| 0 <= i < rs.len() ==> advisory_wf(#[trigger] rs[i])
    &&& forall|i: int, j: int| 0 <= i < j < rs.len() ==> (#[trigger] rs[i].id) != (#[trigger] rs[j].id)
}

/// What app code reads off the local mirror and hands to `open`: the
/// head-commit timestamp and the raw advisory entries.
#[derive(Debug)]
pub struct MirrorSnapshot {
    pub head_commit_timestamp: u64,
    pub raw_records: Vec<Vec<u8>>,
}

#[verifier::ext_equal]
pub ghost struct SnapshotView {
    pub head_commit_timestamp: u64,
    pub raw_records: Seq<Seq<u8>>,
}

impl View for MirrorSnapshot {
    type V = SnapshotView;

    open spec fn view(&self) -> SnapshotView {
        SnapshotView {
            head_commit_timestamp: self.head_commit_timestamp,
            raw_records: views_of(self.raw_records@),
        }
    }
}

/// Whether some record in the list carries this identifier.
pub open spec fn has_id(rs: Seq<AdvisoryView>, id: Seq<u8>) -> bool {
    exists|k: int| 0 <= k < rs.len() && (#[trigger] rs[k]).id == id
}

/// The records accepted from the raw mirror entries, in order: entries
/// that parse, are well formed, and whose identifier is new. Anything
/// else is skipped without aborting the load.
pub open spec fn accepted_records(raws: Seq<Seq<u8>>) -> Seq<AdvisoryView>
    decreases raws.len(),
{
    if raws.len() == 0 {
        Seq::empty()
    } else {
        let prev = accepted_records(raws.drop_last());
        match parse_advisory_spec(raws.last()) {
            Some(a) => if advisory_wf(a) && !has_id(prev, a.id) {
                prev.push(a)
            } else {
                prev
            },
            None => prev,
        }
    }
}

/// Whether the already-loaded records hold this identifier.
fn contains_record_id(rs: &Vec<AdvisoryRecord>, id: &Vec<u8>) -> (r: bool)
    ensures
        r == has_id(records_view(rs@), id@),
{
    let mut k: usize = 0;
    while k < rs.len()
        invariant
            k <= rs@.len(),
            forall|m: int| 0 <= m < k ==> (#[trigger] records_view(rs@)[m]).id != id@,
        decreases rs@.len() - k,
    {
        if bytes_eq(&rs[k].id, id) {
            assert(records_view(rs@)[k as int].id == id@);
            return true;
        }
        k = k + 1;
    }
    false
}

/// Parses every raw entry of the mirror, skipping malformed entries and
/// duplicate identifiers; fails with `Corrupt` exactly when no valid
/// record remains.
pub fn load_records(raws: &Vec<Vec<u8>>) -> (r: Result<Vec<AdvisoryRecord>, DatabaseError>)
    ensures
        match r {
            Ok(rs) => {
                &&& records_view(rs@) == accepted_records(views_of(raws@))
                &&& records_wf(records_view(rs@))
                &&& rs@.len() > 0
            },
            Err(e) => e == DatabaseError::Corrupt && accepted_records(views_of(raws@)).len()
                == 0,
        },
{
    let ghost rv = views_of(raws@);
    let mut out: Vec<AdvisoryRecord> = Vec::new();
    let mut i: usize = 0;
    proof {
        assert(rv.take(0) =~= Seq::<Seq<u8>>::empty());
        assert(records_view(out@) =~= Seq::<AdvisoryView>::empty());
    }
    while i < raws.len()
        invariant
            i <= raws@.len(),
            rv == views_of(raws@),
            rv.len() == raws@.len(),
            records_view(out@) == accepted_records(rv.take(i as int)),
            records_wf(records_view(out@)),
        decreases raws@.len() - i,
    {
        proof {
            assert(rv.take(i + 1).drop_last() =~= rv.take(i as int));
            assert(rv.take(i + 1).last() == rv[i as int]);
            assert(rv[i as int] == raws@[i as int]@);
        }
        match parse_advisory(&raws[i]) {
            Some(a) => {
                let wf_ok = a.id.len() > 0 && a.package.len() > 0 && a.affected.affected.len()
                    > 0 && a.date.month >= 1 && a.date.month <= 12 && a.date.day >= 1
                    && a.date.day <= 31;
                proof {
                    assert(wf_ok == advisory_wf(a@));
                }
                if wf_ok {
                    if !contains_record_id(&out, &a.id) {
                        let ghost old_out = out@;
                        let ghost av = a@;
                        out.push(a);
                        proof {
                            assert(records_view(out@) =~= records_view(old_out).push(av));
                            assert forall|k: int, l: int|
                                0 <= k < l < records_view(out@).len() implies (
                            #[trigger] records_view(out@)[k]).id != (
                            #[trigger] records_view(out@)[l]).id by {
                                if l == records_view(out@).len() - 1 {
                                    assert(!has_id(records_view(old_out), av.id));
                                    assert(records_view(old_out)[k].id != av.id);
                                }
                            }
                        }
                    }
                }
            },
            None => {},
        }
        i = i + 1;
    }
    proof {
        assert(rv.take(raws@.len() as int) =~= rv);
    }
    if out.len() == 0 {
        Err(DatabaseError::Corrupt)
    } else {
        Ok(out)
    }
}

/// One entry of the package index: a package name and the indices of
/// every record for it, ascending.
#[derive(Debug)]
pub struct PackageGroup {
    pub package: Vec<u8>,
    pub indices: Vec<usize>,
}

/// The group lists exactly the records of its package, in ascending order.
pub open spec fn group_ok(rs: Seq<AdvisoryView>, grp: PackageGroup) -> bool {
    &&& forall|k: int| 0 <= k < grp.indices@.len() ==> (#[trigger] grp.indices@[k]) < rs.len()
        && rs[grp.indices@[k] as int].package == grp.package@
    &&& forall|k: int, l: int| 0 <= k < l < grp.indices@.len() ==> grp.indices@[k]
        < grp.indices@[l]
    &&& forall|j: int| 0 <= j < rs.len() && (#[trigger] rs[j]).package == grp.package@
        ==> grp.indices@.contains(j as usize)
}

/// Every record among the first `j` has a group for its package.
pub open spec fn covers(rs: Seq<AdvisoryView>, gs: Seq<PackageGroup>, j: int) -> bool {
    forall|j2: int| 0 <= j2 < j ==> exists|g: int|
        0 <= g < gs.len() && gs[g].package@ == (#[trigger] rs[j2]).package
}

/// Every group's package is the package of some record among the first `j`.
pub open spec fn origins(rs: Seq<AdvisoryView>, gs: Seq<PackageGroup>, j: int) -> bool {
    forall|g: int| 0 <= g < gs.len() ==> exists|j2: int|
        0 <= j2 < j && rs[j2].package == (#[trigger] gs[g]).package@
}

/// The index holds every package exactly once, each group correct.
pub open spec fn index_wf_for(rs: Seq<AdvisoryView>, gs: Seq<PackageGroup>) -> bool {
    &&& forall|g: int| 0 <= g < gs.len() ==> group_ok(rs, #[trigger] gs[g])
    &&& covers(rs, gs, rs.len() as int)
    &&& forall|g1: int, g2: int| 0 <= g1 < g2 < gs.len() ==> (#[trigger] gs[g1].package@) != (
    #[trigger] gs[g2].package@)
}

/// Indices of every record with the given package, scanning the records.
fn collect_package_indices(records: &Vec<AdvisoryRecord>, package: &Vec<u8>) -> (r: Vec<usize>)
    ensures
        forall|k: int, l: int| 0 <= k < l < r@.len() ==> r@[k] < r@[l],
        forall|k: int| 0 <= k < r@.len() ==> (#[trigger] r@[k]) < records@.len()
            && records_view(records@)[r@[k] as int].package == package@,
        forall|j: int| 0 <= j < records@.len()
            && (#[trigger] records_view(records@)[j]).package == package@
            ==> r@.contains(j as usize),
{
    let mut out: Vec<usize> = Vec::new();
    let mut j: usize = 0;
    while j < records.len()
        invariant
            j <= records@.len(),
            forall|k: int, l: int| 0 <= k < l < out@.len() ==> out@[k] < out@[l],
            forall|k: int| 0 <= k < out@.len() ==> (#[trigger] out@[k]) < j
                && records_view(records@)[out@[k] as int].package == package@,
            forall|i: int| 0 <= i < j
                && (#[trigger] records_view(records@)[i]).package == package@
                ==> out@.contains(i as usize),
        decreases records@.len() - j,
    {
        if bytes_eq(&records[j].package, package) {
            let ghost old_out = out@;
            out.push(j);
            proof {
                assert forall|i: int| 0 <= i < j + 1
                    && (#[trigger] records_view(records@)[i]).package == package@
                    implies out@.contains(i as usize) by {
                    if i < j {
                        assert(old_out.contains(i as usize));
                        let k = choose|k: int| 0 <= k < old_out.len() && old_out[k] == i as usize;
                        assert(out@[k] == i as usize);
                    } else {
                        assert(out@[old_out.len() as int] == j as usize);
                    }
                }
            }
        }
        j = j + 1;
    }
    out
}

/// Copies an index list.
fn copy_indices(v: &Vec<usize>) -> (r: Vec<usize>)
    ensures
        r@ == v@,
{
    let mut out: Vec<usize> = Vec::new();
    let mut k: usize = 0;
    while k < v.len()
        invariant
            k <= v@.len(),
            out@ =~= v@.subrange(0, k as int),
        decreases v@.len() - k,
    {
        out.push(v[k]);
        proof {
            assert(out@ =~= v@.subrange(0, k + 1));
        }
        k = k + 1;
    }
    proof {
        assert(v@.subrange(0, v@.len() as int) =~= v@);
    }
    out
}

/// The advisory database: the loaded records, grouped by package name to
/// bound per-dependency matching work, plus the mirror metadata.
#[derive(Debug)]
pub struct AdvisoryDatabase {
    pub records: Vec<AdvisoryRecord>,
    pub groups: Vec<PackageGroup>,
    pub metadata: DatabaseMetadata,
}

impl AdvisoryDatabase {
    pub open spec fn index_wf(&self) -> bool {
        index_wf_for(records_view(self.records@), self.groups@)
    }

    pub open spec fn wf(&self) -> bool {
        records_wf(records_view(self.records@)) && self.index_wf()
    }

    /// Builds the database over the given records, grouping them by
    /// package name.
    #[verifier::rlimit(60)]
    pub fn with_records(records: Vec<AdvisoryRecord>, metadata: DatabaseMetadata) -> (r:
        AdvisoryDatabase)
        ensures
            r.records@ == records@,
            r.metadata@ == metadata@,
            r.index_wf(),
    {
        let ghost rs = records_view(records@);
        let mut groups: Vec<PackageGroup> = Vec::new();
        let mut j: usize = 0;
        while j < records.len()
            invariant
                j <= records@.len(),
                rs == records_view(records@),
                rs.len() == records@.len(),
                forall|g: int| 0 <= g < groups@.len() ==> group_ok(rs, #[trigger] groups@[g]),
                origins(rs, groups@, j as int),
                covers(rs, groups@, j as int),
                forall|g1: int, g2: int| 0 <= g1 < g2 < groups@.len() ==> (
                #[trigger] groups@[g1].package@) != (#[trigger] groups@[g2].package@),
            decreases records@.len() - j,
        {
            let mut seen = false;
            let mut g: usize = 0;
            while g < groups.len()
                invariant
                    g <= groups@.len(),
                    j < records@.len(),
                    rs == records_view(records@),
                    rs.len() == records@.len(),
                    seen == exists|g2: int|
                        0 <= g2 < g && (#[trigger] groups@[g2]).package@ == rs[j as int].package,
                    forall|g2: int| 0 <= g2 < groups@.len() ==> group_ok(
                        rs,
                        #[trigger] groups@[g2],
                    ),
                    origins(rs, groups@, j as int),
                    covers(rs, groups@, j as int),
                    forall|g1: int, g2: int| 0 <= g1 < g2 < groups@.len() ==> (
                    #[trigger] groups@[g1].package@) != (#[trigger] groups@[g2].package@),
                decreases groups@.len() - g,
            {
                if bytes_eq(&groups[g].package, &records[j].package) {
                    assert(groups@[g as int].package@ == rs[j as int].package);
                    seen = true;
                }
                g = g + 1;
            }
            if !seen {
                let package = records[j].package.clone();
                proof {
                    assert(package@ =~= rs[j as int].package);
                }
                let indices = collect_package_indices(&records, &package);
                let ghost old_groups = groups@;
                groups.push(PackageGroup { package, indices });
                proof {
                    assert(group_ok(rs, groups@[old_groups.len() as int]));
                    assert(covers(rs, groups@, j + 1)) by {
                        assert forall|j2: int| 0 <= j2 < j + 1 implies exists|g2: int|
                            0 <= g2 < groups@.len() && groups@[g2].package@ == (
                            #[trigger] rs[j2]).package by {
                            if j2 < j {
                                let g2 = choose|g2: int|
                                    0 <= g2 < old_groups.len() && old_groups[g2].package@ == rs[j2].package;
                                assert(groups@[g2].package@ == rs[j2].package);
                            } else {
                                assert(groups@[old_groups.len() as int].package@ == rs[j2].package);
                            }
                        }
                    }
                    assert(origins(rs, groups@, j + 1)) by {
                        assert forall|g2: int| 0 <= g2 < groups@.len() implies exists|j2: int|
                            0 <= j2 < j + 1 && rs[j2].package == (
                            #[trigger] groups@[g2]).package@ by {
                            if g2 < old_groups.len() {
                                let j2 = choose|j2: int|
                                    0 <= j2 < j && rs[j2].package == old_groups[g2].package@;
                                assert(rs[j2].package == groups@[g2].package@);
                            } else {
                                assert(rs[j as int].package == groups@[g2].package@);
                            }
                        }
                    }
                }
            } else {
                proof {
                    assert(covers(rs, groups@, j + 1)) by {
                        assert forall|j2: int| 0 <= j2 < j + 1 implies exists|g2: int|
                            0 <= g2 < groups@.len() && groups@[g2].package@ == (
                            #[trigger] rs[j2]).package by {
                            if j2 == j {
                                let g2 = choose|g2: int|
                                    0 <= g2 < groups@.len() && groups@[g2].package@ == rs[j as int].package;
                                assert(groups@[g2].package@ == rs[j2].package);
                            }
                        }
                    }
                    assert(origins(rs, groups@, j + 1));
                }
            }
            j = j + 1;
        }
        AdvisoryDatabase { records, groups, metadata }
    }

    /// How many records were loaded.
    pub fn record_count(&self) -> (r: usize)
        ensures
            r == self.records@.len(),
    {
        self.records.len()
    }

    /// The record at a known index.
    pub fn record_at(&self, j: usize) -> (r: &AdvisoryRecord)
        requires
            j < self.records@.len(),
        ensures
            r@ == records_view(self.records@)[j as int],
    {
        &self.records[j]
    }

    /// Indices of every record for the given package, in ascending order,
    /// answered from the package index.
    pub fn records_for(&self, package: &Vec<u8>) -> (r: Vec<usize>)
        requires
            self.index_wf(),
        ensures
            forall|k: int, l: int| 0 <= k < l < r@.len() ==> r@[k] < r@[l],
            forall|k: int| 0 <= k < r@.len() ==> (#[trigger] r@[k]) < self.records@.len()
                && records_view(self.records@)[r@[k] as int].package == package@,
            forall|j: int| 0 <= j < self.records@.len()
                && (#[trigger] records_view(self.records@)[j]).package == package@
                ==> r@.contains(j as usize),
    {
        let ghost rs = records_view(self.records@);
        let mut g: usize = 0;
        while g < self.groups.len()
            invariant
                g <= self.groups@.len(),
                rs == records_view(self.records@),
                self.index_wf(),
                forall|g2: int| 0 <= g2 < g ==> (#[trigger] self.groups@[g2]).package@
                    != package@,
            decreases self.groups@.len() - g,
        {
            if bytes_eq(&self.groups[g].package, package) {
                proof {
                    assert(group_ok(rs, self.groups@[g as int]));
                }
                return copy_indices(&self.groups[g].indices);
            }
            g = g + 1;
        }
        proof {
            assert forall|j: int| 0 <= j < rs.len() implies (#[trigger] rs[j]).package
                != package@ by {
                if rs[j].package == package@ {
                    let g2 = choose|g2: int|
                        0 <= g2 < self.groups@.len() && self.groups@[g2].package@ == rs[j].package;
                }
            }
        }
        Vec::new()
    }

    /// Opens the database from what the caller observed of the mirror.
    /// `fetch` says whether synchronization was requested and
    /// `fetch_succeeded` how it went; with `fetch` false the local mirror
    /// alone decides, and a missing mirror fails with `NotFound` — it is
    /// never answered by an implicit fetch.
    pub fn open(
        mirror_path: Vec<u8>,
        fetch: bool,
        fetch_succeeded: bool,
        locked: bool,
        snapshot: Option<MirrorSnapshot>,
    ) -> (r: Result<AdvisoryDatabase, DatabaseError>)
        ensures
            locked ==> r == Result::<AdvisoryDatabase, DatabaseError>::Err(
                DatabaseError::Locked,
            ),
            !locked && fetch && !fetch_succeeded ==> r == Result::<
                AdvisoryDatabase,
                DatabaseError,
            >::Err(DatabaseError::FetchFailed),
            !locked && (!fetch || fetch_succeeded) && snapshot is None ==> r == Result::<
                AdvisoryDatabase,
                DatabaseError,
            >::Err(DatabaseError::NotFound),
            match snapshot {
                Some(snap) => !locked && (!fetch || fetch_succeeded) ==> match r {
                    Ok(db) => {
                        &&& db.wf()
                        &&& records_view(db.records@) == accepted_records(snap@.raw_records)
                        &&& db.records@.len() > 0
                        &&& db.metadata@.head_commit_timestamp == snap@.head_commit_timestamp
                        &&& db.metadata@.fetched == fetch
                        &&& db.metadata@.mirror_path == mirror_path@
                    },
                    Err(e) => e == DatabaseError::Corrupt && accepted_records(
                        snap@.raw_records,
                    ).len() == 0,
                },
                None => true,
            },
    {
        if locked {
            return Err(DatabaseError::Locked);
        }
        if fetch && !fetch_succeeded {
            return Err(DatabaseError::FetchFailed);
        }
        let snap = match snapshot {
            Some(s) => s,
            None => {
                return Err(DatabaseError::NotFound);
            },
        };
        let records = match load_records(&snap.raw_records) {
            Ok(rs) => rs,
            Err(e) => {
                return Err(e);
            },
        };
        let metadata = DatabaseMetadata {
            mirror_path,
            head_commit_timestamp: snap.head_commit_timestamp,
            fetched: fetch,
        };
        let db = AdvisoryDatabase::with_records(records, metadata);
        proof {
            assert(records_view(db.records@) =~= records_view(records@));
        }
        Ok(db)
    }

    /// Rejects a stale mirror: fails with `Stale` exactly when the mirror's
    /// age exceeds the threshold and staleness is not tolerated.
    pub fn check_freshness(&self, now: u64, threshold_days: u64, allow_stale: bool) -> (r: Result<
        (),
        DatabaseError,
    >)
        ensures
            r is Ok <==> (allow_stale || age_days(now, self.metadata.head_commit_timestamp)
                <= threshold_days),
            r is Err ==> r == Result::<(), DatabaseError>::Err(DatabaseError::Stale),
    {
        if allow_stale {
            return Ok(());
        }
        let ts = self.metadata.head_commit_timestamp;
        if ts >= now {
            return Ok(());
        }
        let age = (now - ts) / SECONDS_PER_DAY;
        if age <= threshold_days {
            Ok(())
        } else {
            Err(DatabaseError::Stale)
        }
    }
}

} // verus!
