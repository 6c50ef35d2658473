use cargo_audit::config::{merge, AuditConfig, CommandOptions, OutputFormat};
use cargo_audit::database::{DatabaseError, MirrorSnapshot, DEFAULT_FRESHNESS_DAYS};
use cargo_audit::lockfile::{parse_lockfile, LockfileError};
use cargo_audit::pipeline::{fetch_required, run_audit, AuditError};
use cargo_audit::report::ExitCode;

const DAY: u64 = 86400;
const NOW: u64 = 1_700_000_000;

const ADV_FOO: &str = "id ADV-1\n\
package foo\n\
affected >=1.0.0,<1.3.0\n\
patched >=1.3.0\n\
date 2021-01-15\n";

fn options() -> CommandOptions {
    CommandOptions {
        color: None,
        db: None,
        url: None,
        ignore: Vec::new(),
        no_fetch: true,
        stale: false,
        target_arch: None,
        target_os: None,
        quiet: false,
        output_json: false,
    }
}

fn config() -> AuditConfig {
    merge(AuditConfig::new(), &options()).expect("merge must succeed")
}

fn snapshot(age_days: u64, raws: Vec<Vec<u8>>) -> MirrorSnapshot {
    MirrorSnapshot {
        head_commit_timestamp: NOW - age_days * DAY,
        raw_records: raws,
    }
}

fn run(
    cfg: &AuditConfig,
    snap: Option<MirrorSnapshot>,
    lockfile: Option<&str>,
) -> Result<(cargo_audit::report::Report, ExitCode), AuditError> {
    run_audit(
        cfg,
        b"/tmp/advisory-db".to_vec(),
        true,
        false,
        snap,
        NOW,
        DEFAULT_FRESHNESS_DAYS,
        lockfile.map(|s| s.as_bytes().to_vec()),
    )
}

#[test]
fn vulnerable_dependency_gives_nonzero_exit() {
    let cfg = config();
    let snap = snapshot(1, vec![ADV_FOO.as_bytes().to_vec()]);
    let (report, code) = run(&cfg, Some(snap), Some("foo 1.2.0\n")).unwrap();
    assert_eq!(report.summary_count(), 1);
    assert_eq!(code, ExitCode::VulnerabilitiesFound);
    assert_eq!(code.code(), 1);
}

#[test]
fn ignored_advisory_gives_clean_exit() {
    let mut opts = options();
    opts.ignore = vec![b"ADV-1".to_vec()];
    let cfg = merge(AuditConfig::new(), &opts).unwrap();
    let snap = snapshot(1, vec![ADV_FOO.as_bytes().to_vec()]);
    let (report, code) = run(&cfg, Some(snap), Some("foo 1.2.0\n")).unwrap();
    assert_eq!(report.summary_count(), 0);
    assert_eq!(code.code(), 0);
}

#[test]
fn stale_mirror_fails_before_the_lockfile_is_parsed() {
    let cfg = config();
    // 120 days old against a 90-day threshold, staleness tolerance off;
    // the lockfile content is not even valid, yet the error is Stale
    let snap = snapshot(120, vec![ADV_FOO.as_bytes().to_vec()]);
    let r = run_audit(
        &cfg,
        b"/tmp/advisory-db".to_vec(),
        true,
        false,
        Some(snap),
        NOW,
        90,
        Some(b"this is !! not a lockfile".to_vec()),
    );
    assert_eq!(r.unwrap_err(), AuditError::Database(DatabaseError::Stale));
}

#[test]
fn stale_tolerance_lets_an_old_mirror_through() {
    let mut opts = options();
    opts.stale = true;
    let cfg = merge(AuditConfig::new(), &opts).unwrap();
    let snap = snapshot(120, vec![ADV_FOO.as_bytes().to_vec()]);
    let (_, code) = run(&cfg, Some(snap), Some("foo 1.4.0\n")).unwrap();
    assert_eq!(code.code(), 0);
}

#[test]
fn fresh_mirror_at_the_threshold_is_accepted() {
    let cfg = config();
    let snap = snapshot(90, vec![ADV_FOO.as_bytes().to_vec()]);
    assert!(run(&cfg, Some(snap), Some("foo 1.4.0\n")).is_ok());
}

#[test]
fn missing_mirror_without_fetch_fails_with_not_found() {
    // fetch disabled: a missing mirror is NotFound, never an implicit fetch
    let cfg = config();
    assert!(!fetch_required(&cfg));
    let r = run(&cfg, None, Some("foo 1.2.0\n"));
    assert_eq!(r.unwrap_err(), AuditError::Database(DatabaseError::NotFound));
}

#[test]
fn failed_fetch_is_fatal_when_fetching_is_enabled() {
    let mut opts = options();
    opts.no_fetch = false;
    let cfg = merge(AuditConfig::new(), &opts).unwrap();
    assert!(fetch_required(&cfg));
    let snap = snapshot(1, vec![ADV_FOO.as_bytes().to_vec()]);
    let r = run_audit(
        &cfg,
        b"/tmp/advisory-db".to_vec(),
        false,
        false,
        Some(snap),
        NOW,
        DEFAULT_FRESHNESS_DAYS,
        Some(b"foo 1.2.0\n".to_vec()),
    );
    assert_eq!(r.unwrap_err(), AuditError::Database(DatabaseError::FetchFailed));
}

#[test]
fn locked_mirror_is_fatal() {
    let cfg = config();
    let snap = snapshot(1, vec![ADV_FOO.as_bytes().to_vec()]);
    let r = run_audit(
        &cfg,
        b"/tmp/advisory-db".to_vec(),
        true,
        true,
        Some(snap),
        NOW,
        DEFAULT_FRESHNESS_DAYS,
        Some(b"foo 1.2.0\n".to_vec()),
    );
    assert_eq!(r.unwrap_err(), AuditError::Database(DatabaseError::Locked));
}

#[test]
fn database_with_no_valid_record_is_corrupt() {
    let cfg = config();
    let snap = snapshot(1, vec![b"garbage".to_vec(), b"also garbage".to_vec()]);
    let r = run(&cfg, Some(snap), Some("foo 1.2.0\n"));
    assert_eq!(r.unwrap_err(), AuditError::Database(DatabaseError::Corrupt));
}

#[test]
fn malformed_records_are_skipped_not_fatal() {
    let cfg = config();
    let snap = snapshot(1, vec![b"garbage".to_vec(), ADV_FOO.as_bytes().to_vec()]);
    let (report, code) = run(&cfg, Some(snap), Some("foo 1.2.0\n")).unwrap();
    assert_eq!(report.summary_count(), 1);
    assert_eq!(code.code(), 1);
}

#[test]
fn missing_lockfile_is_fatal() {
    let cfg = config();
    let snap = snapshot(1, vec![ADV_FOO.as_bytes().to_vec()]);
    let r = run(&cfg, Some(snap), None);
    assert_eq!(r.unwrap_err(), AuditError::Lockfile(LockfileError::NotFound));
}

#[test]
fn unparsable_lockfile_is_fatal() {
    let cfg = config();
    let snap = snapshot(1, vec![ADV_FOO.as_bytes().to_vec()]);
    let r = run(&cfg, Some(snap), Some("foo@1.2.0\n"));
    assert_eq!(r.unwrap_err(), AuditError::Lockfile(LockfileError::ParseError));
}

#[test]
fn stdin_content_is_equivalent_to_file_content() {
    // the stdin sentinel is resolved by the caller; both sources hand the
    // same bytes to the pipeline and must give the same result
    let cfg = config();
    let text = "foo 1.2.0\nbar 2.0.0\n";
    let from_file = run(
        &cfg,
        Some(snapshot(1, vec![ADV_FOO.as_bytes().to_vec()])),
        Some(text),
    )
    .unwrap();
    let from_stdin = run(
        &cfg,
        Some(snapshot(1, vec![ADV_FOO.as_bytes().to_vec()])),
        Some(text),
    )
    .unwrap();
    assert_eq!(from_file.0.summary_count(), from_stdin.0.summary_count());
    assert_eq!(from_file.1, from_stdin.1);
    assert_eq!(from_file.1.code(), 1);
}

#[test]
fn empty_lockfile_is_a_clean_run() {
    let cfg = config();
    let snap = snapshot(1, vec![ADV_FOO.as_bytes().to_vec()]);
    let (report, code) = run(&cfg, Some(snap), Some("")).unwrap();
    assert_eq!(report.summary_count(), 0);
    assert_eq!(code.code(), 0);
}

#[test]
fn lockfile_parser_keeps_source_order() {
    let deps = parse_lockfile(&b"zed 1.0.0\n\nalpha 2.0.0\n".to_vec()).unwrap();
    assert_eq!(deps.len(), 2);
    assert_eq!(deps[0].name, b"zed".to_vec());
    assert_eq!(deps[1].name, b"alpha".to_vec());
}

#[test]
fn lockfile_parser_rejects_bad_lines() {
    assert_eq!(
        parse_lockfile(&b"foo 1.2\n".to_vec()).unwrap_err(),
        LockfileError::ParseError
    );
    assert_eq!(
        parse_lockfile(&b"foo\n".to_vec()).unwrap_err(),
        LockfileError::ParseError
    );
}

#[test]
fn merge_overrides_and_ors() {
    let mut base = AuditConfig::new();
    base.quiet = true;
    base.advisory_db_path = Some(b"/old".to_vec());
    let mut opts = options();
    opts.no_fetch = false;
    opts.db = Some(b"/new".to_vec());
    opts.output_json = true;
    opts.ignore = vec![b"ADV-9".to_vec()];
    let merged = merge(base, &opts).unwrap();
    assert_eq!(merged.advisory_db_path, Some(b"/new".to_vec()));
    assert!(merged.quiet);
    assert!(!merged.no_fetch);
    assert_eq!(merged.output_format, OutputFormat::Json);
    assert_eq!(merged.ignore, vec![b"ADV-9".to_vec()]);
}

#[test]
fn merge_rejects_an_unparsable_ignore_id() {
    let mut opts = options();
    opts.ignore = vec![b"not an id!".to_vec()];
    let err = merge(AuditConfig::new(), &opts).unwrap_err();
    assert_eq!(err.bad_ignore_id, b"not an id!".to_vec());
}
