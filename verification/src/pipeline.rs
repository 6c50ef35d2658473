//! The synchronous audit pipeline: open and refresh the database, check
//! freshness, parse the lockfile, match, and build the report.
//!
//! All externally-blocking work — synchronizing the mirror, reading files
//! or standard input — happens outside; the pipeline consumes what was
//! observed and decides. Every fatal condition short-circuits before the
//! matcher runs, so the matcher only ever sees a database and lockfile
//! already known valid.

use vstd::prelude::*;

use crate::advisory::{Arch, Category, Os, AdvisoryView};
use crate::config::AuditConfig;
use crate::database::{
    accepted_records, age_days, records_view, AdvisoryDatabase, DatabaseError, MirrorSnapshot,
};
use crate::lockfile::{deps_view, parse_lockfile, parse_lockfile_spec, DependencyView,
    LockfileError};
use crate::matcher::{advisory_applies, find_matches, IgnoreSet, Match};
use crate::report::{
    build, exit_disposition, key_of, keys_view, ExitCode, KeyView, Report,
};

verus! {

/// A fatal condition of the pipeline.
#[derive(Clone, Copy, Debug, PartialEq, Eq, Structural)]
pub enum AuditError {
    Database(DatabaseError),
    Lockfile(LockfileError),
}

/// The ignore set a configuration induces.
pub open spec fn config_ignores(ignore: Seq<Seq<u8>>) -> Set<Seq<u8>> {
    Set::new(|x: Seq<u8>| ignore.contains(x))
}

/// The report keys owed for the blocking matches of a run.
pub open spec fn blocking_key_set(
    ds: Seq<DependencyView>,
    rs: Seq<AdvisoryView>,
    ignore: Set<Seq<u8>>,
    arch: Option<Arch>,
    os: Option<Os>,
) -> Set<KeyView> {
    Set::new(
        |x: KeyView|
            exists|i: int, j: int|
                0 <= i < ds.len() && 0 <= j < rs.len() && #[trigger] advisory_applies(
                    ds[i],
                    rs[j],
                    ignore,
                    arch,
                    os,
                ) && rs[j].category == Category::Vulnerability && x == key_of(ds[i], rs[j]),
    )
}

/// The report keys owed for the informational findings of a run.
pub open spec fn info_key_set(
    ds: Seq<DependencyView>,
    rs: Seq<AdvisoryView>,
    ignore: Set<Seq<u8>>,
    arch: Option<Arch>,
    os: Option<Os>,
) -> Set<KeyView> {
    Set::new(
        |x: KeyView|
            exists|i: int, j: int|
                0 <= i < ds.len() && 0 <= j < rs.len() && #[trigger] advisory_applies(
                    ds[i],
                    rs[j],
                    ignore,
                    arch,
                    os,
                ) && rs[j].category != Category::Vulnerability && x == key_of(ds[i], rs[j]),
    )
}

/// Whether the mirror must be synchronized before loading: exactly when
/// fetching has not been disabled. With fetching disabled no
/// mirror-mutating operation is requested under any staleness condition.
pub fn fetch_required(config: &AuditConfig) -> (r: bool)
    ensures
        r == !config@.no_fetch,
{
    !config.no_fetch
}

/// Runs the pipeline over what was observed: the mirror snapshot (if any),
/// the outcome of the fetch the caller performed (if one was required),
/// the clock, and the lockfile content (if its source existed). Fatal
/// conditions surface in pipeline order — lock contention, fetch failure,
/// missing mirror, corrupt database, staleness, then lockfile errors —
/// and a stale database fails before the lockfile is even parsed.
pub fn run_audit(
    config: &AuditConfig,
    mirror_path: Vec<u8>,
    fetch_succeeded: bool,
    locked: bool,
    snapshot: Option<MirrorSnapshot>,
    now: u64,
    threshold_days: u64,
    lockfile_content: Option<Vec<u8>>,
) -> (r: Result<(Report, ExitCode), AuditError>)
    ensures
        locked ==> r == Result::<(Report, ExitCode), AuditError>::Err(
            AuditError::Database(DatabaseError::Locked),
        ),
        !locked && !config@.no_fetch && !fetch_succeeded ==> r == Result::<
            (Report, ExitCode),
            AuditError,
        >::Err(AuditError::Database(DatabaseError::FetchFailed)),
        !locked && (config@.no_fetch || fetch_succeeded) && snapshot is None ==> r == Result::<
            (Report, ExitCode),
            AuditError,
        >::Err(AuditError::Database(DatabaseError::NotFound)),
        match snapshot {
            Some(snap) => {
                let rs = accepted_records(snap@.raw_records);
                let stale = !config@.allow_stale && age_days(now, snap@.head_commit_timestamp)
                    > threshold_days;
                &&& (!locked && (config@.no_fetch || fetch_succeeded) && rs.len() == 0 ==> r
                    == Result::<(Report, ExitCode), AuditError>::Err(
                    AuditError::Database(DatabaseError::Corrupt),
                ))
                &&& (!locked && (config@.no_fetch || fetch_succeeded) && rs.len() > 0 && stale
                    ==> r == Result::<(Report, ExitCode), AuditError>::Err(
                    AuditError::Database(DatabaseError::Stale),
                ))
                &&& (!locked && (config@.no_fetch || fetch_succeeded) && rs.len() > 0 && !stale
                    ==> match lockfile_content {
                    None => r == Result::<(Report, ExitCode), AuditError>::Err(
                        AuditError::Lockfile(LockfileError::NotFound),
                    ),
                    Some(content) => match parse_lockfile_spec(content@) {
                        None => r == Result::<(Report, ExitCode), AuditError>::Err(
                            AuditError::Lockfile(LockfileError::ParseError),
                        ),
                        Some(ds) => match r {
                            Ok((report, code)) => {
                                let ignore = config_ignores(config@.ignore);
                                &&& report.wf()
                                &&& keys_view(report.entries@).to_set() == blocking_key_set(
                                    ds,
                                    rs,
                                    ignore,
                                    config@.target_arch,
                                    config@.target_os,
                                )
                                &&& keys_view(report.informational@).to_set() == info_key_set(
                                    ds,
                                    rs,
                                    ignore,
                                    config@.target_arch,
                                    config@.target_os,
                                )
                                &&& ((code == ExitCode::Clean) <==> report.entries@.len() == 0)
                                &&& ((code == ExitCode::Clean) <==> blocking_key_set(
                                    ds,
                                    rs,
                                    ignore,
                                    config@.target_arch,
                                    config@.target_os,
                                ) =~= Set::<KeyView>::empty())
                            },
                            Err(_) => false,
                        },
                    },
                })
            },
            None => true,
        },
{
    let fetch = fetch_required(config);
    let db = match AdvisoryDatabase::open(mirror_path, fetch, fetch_succeeded, locked, snapshot) {
        Ok(db) => db,
        Err(e) => {
            return Err(AuditError::Database(e));
        },
    };
    match db.check_freshness(now, threshold_days, config.allow_stale) {
        Ok(()) => (),
        Err(e) => {
            return Err(AuditError::Database(e));
        },
    };
    let content = match lockfile_content {
        Some(c) => c,
        None => {
            return Err(AuditError::Lockfile(LockfileError::NotFound));
        },
    };
    let deps = match parse_lockfile(&content) {
        Ok(ds) => ds,
        Err(e) => {
            return Err(AuditError::Lockfile(e));
        },
    };
    let ignore = IgnoreSet::from_slice(&config.ignore);
    proof {
        assert(ignore@ =~= config_ignores(config@.ignore));
    }
    let ms = find_matches(&deps, &db, &ignore, config.target_arch, config.target_os);
    let report = build(&ms, &deps, &db);
    let code = exit_disposition(&report);
    proof {
        let ds = deps_view(deps@);
        let rs = records_view(db.records@);
        let ign = ignore@;
        let arch = config@.target_arch;
        let os = config@.target_os;
        let bk = crate::report::match_keys(ms.blocking@, ds, rs);
        assert forall|x: KeyView| bk.to_set().contains(x) implies blocking_key_set(
            ds,
            rs,
            ign,
            arch,
            os,
        ).contains(x) by {
            let k = choose|k: int| 0 <= k < bk.len() && bk[k] == x;
            let m = ms.blocking@[k];
            assert(advisory_applies(ds[m.dep as int], rs[m.adv as int], ign, arch, os));
        }
        assert forall|x: KeyView| blocking_key_set(ds, rs, ign, arch, os).contains(
            x,
        ) implies bk.to_set().contains(x) by {
            let (i, j) = choose|i: int, j: int|
                0 <= i < ds.len() && 0 <= j < rs.len() && #[trigger] advisory_applies(
                    ds[i],
                    rs[j],
                    ign,
                    arch,
                    os,
                ) && rs[j].category == Category::Vulnerability && x == key_of(ds[i], rs[j]);
            assert(ms.blocking@.contains(Match { dep: i as usize, adv: j as usize }));
            let k = choose|k: int|
                0 <= k < ms.blocking@.len() && ms.blocking@[k] == (Match {
                    dep: i as usize,
                    adv: j as usize,
                });
            assert(bk[k] == x);
        }
        assert(bk.to_set() =~= blocking_key_set(ds, rs, ign, arch, os));
        let nk = crate::report::match_keys(ms.informational@, ds, rs);
        assert forall|x: KeyView| nk.to_set().contains(x) implies info_key_set(
            ds,
            rs,
            ign,
            arch,
            os,
        ).contains(x) by {
            let k = choose|k: int| 0 <= k < nk.len() && nk[k] == x;
            let m = ms.informational@[k];
            assert(advisory_applies(ds[m.dep as int], rs[m.adv as int], ign, arch, os));
        }
        assert forall|x: KeyView| info_key_set(ds, rs, ign, arch, os).contains(
            x,
        ) implies nk.to_set().contains(x) by {
            let (i, j) = choose|i: int, j: int|
                0 <= i < ds.len() && 0 <= j < rs.len() && #[trigger] advisory_applies(
                    ds[i],
                    rs[j],
                    ign,
                    arch,
                    os,
                ) && rs[j].category != Category::Vulnerability && x == key_of(ds[i], rs[j]);
            assert(ms.informational@.contains(Match { dep: i as usize, adv: j as usize }));
            let k = choose|k: int|
                0 <= k < ms.informational@.len() && ms.informational@[k] == (Match {
                    dep: i as usize,
                    adv: j as usize,
                });
            assert(nk[k] == x);
        }
        assert(nk.to_set() =~= info_key_set(ds, rs, ign, arch, os));
        // an empty report means an empty key set, and conversely
        if report.entries@.len() == 0 {
            assert(keys_view(report.entries@).to_set() =~= Set::<KeyView>::empty());
        } else {
            let x = keys_view(report.entries@)[0];
            assert(keys_view(report.entries@).to_set().contains(x));
            assert(blocking_key_set(ds, rs, ign, arch, os).contains(x));
        }
    }
    Ok((report, code))
}

} // verus!
