use cargo_audit::advisory::{AdvisoryRecord, Category, Date};
use cargo_audit::database::{AdvisoryDatabase, DatabaseMetadata};
use cargo_audit::lockfile::Dependency;
use cargo_audit::matcher::{Match, MatchSet};
use cargo_audit::parse::parse_version;
use cargo_audit::report::{build, MatchKey, Report};
use cargo_audit::semver::Version;
use cargo_audit::vrange::{AffectedRange, BoundOp, Clause, Comparator};

fn ver(s: &str) -> Version {
    let bytes: Vec<u8> = s.as_bytes().to_vec();
    let n = bytes.len();
    parse_version(&bytes, 0, n).expect("version must parse")
}

fn advisory(id: &str, package: &str) -> AdvisoryRecord {
    AdvisoryRecord {
        id: id.as_bytes().to_vec(),
        package: package.as_bytes().to_vec(),
        affected: AffectedRange::new(
            vec![Clause::new(vec![Comparator::new(BoundOp::GreaterEq, ver("0.0.0"))])],
            Vec::new(),
        ),
        aliases: Vec::new(),
        severity: None,
        date: Date { year: 2021, month: 6, day: 1 },
        arch_constraint: None,
        os_constraint: None,
        withdrawn: None,
        category: Category::Vulnerability,
    }
}

fn database(records: Vec<AdvisoryRecord>) -> AdvisoryDatabase {
    AdvisoryDatabase::with_records(
        records,
        DatabaseMetadata {
            mirror_path: b"/tmp/advisory-db".to_vec(),
            head_commit_timestamp: 0,
            fetched: false,
        },
    )
}

fn keys_equal(a: &MatchKey, b: &MatchKey) -> bool {
    a.name == b.name && a.id == b.id && a.version.same_as(&b.version)
}

fn reports_equal(a: &Report, b: &Report) -> bool {
    a.entries.len() == b.entries.len()
        && a.informational.len() == b.informational.len()
        && a.entries.iter().zip(b.entries.iter()).all(|(x, y)| keys_equal(x, y))
        && a.informational.iter().zip(b.informational.iter()).all(|(x, y)| keys_equal(x, y))
}

#[test]
fn report_orders_by_name_version_then_id() {
    let deps = vec![
        Dependency::new(b"zlib".to_vec(), ver("1.0.0")),
        Dependency::new(b"abc".to_vec(), ver("2.0.0")),
        Dependency::new(b"abc".to_vec(), ver("1.0.0")),
    ];
    let db = database(vec![
        advisory("ADV-9", "zlib"),
        advisory("ADV-2", "abc"),
        advisory("ADV-1", "abc"),
    ]);
    let ms = MatchSet {
        blocking: vec![
            Match { dep: 0, adv: 0 },
            Match { dep: 1, adv: 1 },
            Match { dep: 1, adv: 2 },
            Match { dep: 2, adv: 1 },
            Match { dep: 2, adv: 2 },
        ],
        informational: Vec::new(),
    };
    let report = build(&ms, &deps, &db);
    let rendered: Vec<(String, String)> = report
        .entries
        .iter()
        .map(|k| {
            (
                String::from_utf8(k.name.clone()).unwrap(),
                String::from_utf8(k.id.clone()).unwrap(),
            )
        })
        .collect();
    assert_eq!(
        rendered,
        vec![
            ("abc".to_string(), "ADV-1".to_string()),
            ("abc".to_string(), "ADV-2".to_string()),
            ("abc".to_string(), "ADV-1".to_string()),
            ("abc".to_string(), "ADV-2".to_string()),
            ("zlib".to_string(), "ADV-9".to_string()),
        ]
    );
    // the two abc groups are ordered by version
    assert!(report.entries[0].version.same_as(&ver("1.0.0")));
    assert!(report.entries[2].version.same_as(&ver("2.0.0")));
}

#[test]
fn report_is_deterministic_across_match_orders() {
    let deps = vec![
        Dependency::new(b"a".to_vec(), ver("1.0.0")),
        Dependency::new(b"b".to_vec(), ver("2.0.0")),
    ];
    let db = database(vec![advisory("ADV-1", "a"), advisory("ADV-2", "b")]);
    let forward = MatchSet {
        blocking: vec![Match { dep: 0, adv: 0 }, Match { dep: 1, adv: 1 }],
        informational: Vec::new(),
    };
    let backward = MatchSet {
        blocking: vec![Match { dep: 1, adv: 1 }, Match { dep: 0, adv: 0 }],
        informational: Vec::new(),
    };
    let r1 = build(&forward, &deps, &db);
    let r2 = build(&backward, &deps, &db);
    assert!(reports_equal(&r1, &r2));
}

#[test]
fn duplicate_pairs_collapse_to_one_entry() {
    let deps = vec![Dependency::new(b"a".to_vec(), ver("1.0.0"))];
    let db = database(vec![advisory("ADV-1", "a")]);
    let ms = MatchSet {
        blocking: vec![Match { dep: 0, adv: 0 }, Match { dep: 0, adv: 0 }],
        informational: Vec::new(),
    };
    let report = build(&ms, &deps, &db);
    assert_eq!(report.entries.len(), 1);
}
