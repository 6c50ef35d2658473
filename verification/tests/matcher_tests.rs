use cargo_audit::advisory::{AdvisoryRecord, Arch, Category, Date, Os};
use cargo_audit::database::{AdvisoryDatabase, DatabaseMetadata};
use cargo_audit::lockfile::Dependency;
use cargo_audit::matcher::{find_matches, IgnoreSet};
use cargo_audit::parse::parse_version;
use cargo_audit::report::{build, exit_disposition, exit_disposition_with, ExitCode};
use cargo_audit::semver::Version;
use cargo_audit::vrange::{AffectedRange, BoundOp, Clause, Comparator};

fn ver(s: &str) -> Version {
    let bytes: Vec<u8> = s.as_bytes().to_vec();
    let n = bytes.len();
    parse_version(&bytes, 0, n).expect("version must parse")
}

fn advisory(id: &str, package: &str) -> AdvisoryRecord {
    // affected >=1.0.0,<1.3.0, patched >=1.3.0
    let affected = vec![Clause::new(vec![
        Comparator::new(BoundOp::GreaterEq, ver("1.0.0")),
        Comparator::new(BoundOp::Less, ver("1.3.0")),
    ])];
    let unaffected = vec![Clause::new(vec![Comparator::new(
        BoundOp::GreaterEq,
        ver("1.3.0"),
    )])];
    AdvisoryRecord {
        id: id.as_bytes().to_vec(),
        package: package.as_bytes().to_vec(),
        affected: AffectedRange::new(affected, unaffected),
        aliases: Vec::new(),
        severity: None,
        date: Date { year: 2021, month: 1, day: 15 },
        arch_constraint: None,
        os_constraint: None,
        withdrawn: None,
        category: Category::Vulnerability,
    }
}

fn database(records: Vec<AdvisoryRecord>) -> AdvisoryDatabase {
    AdvisoryDatabase::with_records(
        records,
        DatabaseMetadata {
            mirror_path: b"/tmp/advisory-db".to_vec(),
            head_commit_timestamp: 0,
            fetched: false,
        },
    )
}

#[test]
fn version_in_affected_range_matches() {
    let deps = vec![Dependency::new(b"foo".to_vec(), ver("1.2.0"))];
    let db = database(vec![advisory("ADV-1", "foo")]);
    let ignore = IgnoreSet::new();
    let ms = find_matches(&deps, &db, &ignore, None, None);
    assert_eq!(ms.blocking.len(), 1);
    assert_eq!(ms.blocking[0].dep, 0);
    assert_eq!(ms.blocking[0].adv, 0);
    let report = build(&ms, &deps, &db);
    assert_eq!(report.summary_count(), 1);
    let code = exit_disposition(&report);
    assert_eq!(code, ExitCode::VulnerabilitiesFound);
    assert_eq!(code.code(), 1);
}

#[test]
fn patched_version_does_not_match() {
    let deps = vec![Dependency::new(b"foo".to_vec(), ver("1.3.0"))];
    let db = database(vec![advisory("ADV-1", "foo")]);
    let ignore = IgnoreSet::new();
    let ms = find_matches(&deps, &db, &ignore, None, None);
    assert_eq!(ms.blocking.len(), 0);
}

#[test]
fn other_package_does_not_match() {
    let deps = vec![Dependency::new(b"bar".to_vec(), ver("1.2.0"))];
    let db = database(vec![advisory("ADV-1", "foo")]);
    let ignore = IgnoreSet::new();
    let ms = find_matches(&deps, &db, &ignore, None, None);
    assert_eq!(ms.blocking.len(), 0);
}

#[test]
fn ignored_advisory_never_matches() {
    let deps = vec![Dependency::new(b"foo".to_vec(), ver("1.2.0"))];
    let db = database(vec![advisory("ADV-1", "foo")]);
    let mut ignore = IgnoreSet::new();
    ignore.add(b"ADV-1".to_vec());
    let ms = find_matches(&deps, &db, &ignore, None, None);
    assert_eq!(ms.blocking.len(), 0);
    let report = build(&ms, &deps, &db);
    assert_eq!(exit_disposition(&report).code(), 0);
}

#[test]
fn ignore_is_a_union_of_both_sources() {
    let deps = vec![Dependency::new(b"foo".to_vec(), ver("1.2.0"))];
    let db = database(vec![advisory("ADV-1", "foo")]);
    // the id coming from the config file
    let from_config = IgnoreSet::from_lists(vec![b"ADV-1".to_vec()], Vec::new());
    assert_eq!(find_matches(&deps, &db, &from_config, None, None).blocking.len(), 0);
    // the same id coming from the command line
    let from_cli = IgnoreSet::from_lists(Vec::new(), vec![b"ADV-1".to_vec()]);
    assert_eq!(find_matches(&deps, &db, &from_cli, None, None).blocking.len(), 0);
    // naming it twice has no further effect
    let twice = IgnoreSet::from_lists(vec![b"ADV-1".to_vec()], vec![b"ADV-1".to_vec()]);
    assert_eq!(find_matches(&deps, &db, &twice, None, None).blocking.len(), 0);
}

#[test]
fn os_filter_respects_constraint() {
    let deps = vec![Dependency::new(b"foo".to_vec(), ver("1.2.0"))];
    let mut adv = advisory("ADV-1", "foo");
    adv.os_constraint = Some(vec![Os::Windows]);
    let db = database(vec![adv]);
    let ignore = IgnoreSet::new();
    // a linux target never hits a windows-only advisory despite the overlap
    let ms = find_matches(&deps, &db, &ignore, None, Some(Os::Linux));
    assert_eq!(ms.blocking.len(), 0);
    // a windows target does
    let ms = find_matches(&deps, &db, &ignore, None, Some(Os::Windows));
    assert_eq!(ms.blocking.len(), 1);
    // no filter matches any constraint
    let ms = find_matches(&deps, &db, &ignore, None, None);
    assert_eq!(ms.blocking.len(), 1);
}

#[test]
fn withdrawn_advisory_is_skipped() {
    let deps = vec![Dependency::new(b"foo".to_vec(), ver("1.2.0"))];
    let mut adv = advisory("ADV-1", "foo");
    adv.withdrawn = Some(Date { year: 2022, month: 3, day: 1 });
    let db = database(vec![adv]);
    let ignore = IgnoreSet::new();
    let ms = find_matches(&deps, &db, &ignore, None, None);
    assert_eq!(ms.blocking.len(), 0);
    assert_eq!(ms.informational.len(), 0);
}

#[test]
fn informational_categories_never_block() {
    let deps = vec![Dependency::new(b"foo".to_vec(), ver("1.2.0"))];
    let mut adv = advisory("ADV-2", "foo");
    adv.category = Category::Unmaintained;
    let db = database(vec![adv]);
    let ignore = IgnoreSet::new();
    let ms = find_matches(&deps, &db, &ignore, None, None);
    assert_eq!(ms.blocking.len(), 0);
    assert_eq!(ms.informational.len(), 1);
    let report = build(&ms, &deps, &db);
    assert_eq!(exit_disposition(&report).code(), 0);
    assert_eq!(report.informational.len(), 1);
}

#[test]
fn arch_filter_respects_constraint() {
    let deps = vec![Dependency::new(b"foo".to_vec(), ver("1.2.0"))];
    let mut adv = advisory("ADV-1", "foo");
    adv.arch_constraint = Some(vec![Arch::X86_64]);
    let db = database(vec![adv]);
    let ignore = IgnoreSet::new();
    let ms = find_matches(&deps, &db, &ignore, Some(Arch::Aarch64), None);
    assert_eq!(ms.blocking.len(), 0);
    let ms = find_matches(&deps, &db, &ignore, Some(Arch::X86_64), None);
    assert_eq!(ms.blocking.len(), 1);
}

#[test]
fn range_bounds_follow_their_own_operators() {
    let deps = vec![
        Dependency::new(b"foo".to_vec(), ver("1.0.0")),  // inclusive lower bound
        Dependency::new(b"foo".to_vec(), ver("1.2.9")),  // inside
        Dependency::new(b"foo".to_vec(), ver("0.9.9")),  // below
    ];
    let db = database(vec![advisory("ADV-1", "foo")]);
    let ignore = IgnoreSet::new();
    let ms = find_matches(&deps, &db, &ignore, None, None);
    let hit: Vec<usize> = ms.blocking.iter().map(|m| m.dep).collect();
    assert_eq!(hit, vec![0, 1]);
}

#[test]
fn warnings_as_errors_lets_informational_block() {
    let deps = vec![Dependency::new(b"foo".to_vec(), ver("1.2.0"))];
    let mut adv = advisory("ADV-2", "foo");
    adv.category = Category::Unmaintained;
    let db = database(vec![adv]);
    let ignore = IgnoreSet::new();
    let ms = find_matches(&deps, &db, &ignore, None, None);
    let report = build(&ms, &deps, &db);
    assert_eq!(exit_disposition_with(&report, false), ExitCode::Clean);
    assert_eq!(exit_disposition_with(&report, true), ExitCode::VulnerabilitiesFound);
}

#[test]
fn each_version_of_a_duplicate_package_matches_independently() {
    let deps = vec![
        Dependency::new(b"foo".to_vec(), ver("1.2.0")),
        Dependency::new(b"foo".to_vec(), ver("1.4.0")),
    ];
    let db = database(vec![advisory("ADV-1", "foo")]);
    let ignore = IgnoreSet::new();
    let ms = find_matches(&deps, &db, &ignore, None, None);
    assert_eq!(ms.blocking.len(), 1);
    assert_eq!(ms.blocking[0].dep, 0);
}
