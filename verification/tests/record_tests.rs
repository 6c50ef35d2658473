use cargo_audit::advisory::{Arch, Category, Os, Severity};
use cargo_audit::record::parse_advisory;
use cargo_audit::vrange::BoundOp;

fn parse(text: &str) -> Option<cargo_audit::advisory::AdvisoryRecord> {
    parse_advisory(&text.as_bytes().to_vec())
}

const FULL: &str = "id ADV-1\n\
package foo\n\
affected >=1.0.0,<1.3.0\n\
patched >=1.3.0\n\
alias CVE-2021-0001\n\
severity high\n\
date 2021-01-15\n\
arch x86_64,aarch64\n\
os linux,windows\n\
category vulnerability\n";

#[test]
fn parses_a_full_record() {
    let a = parse(FULL).expect("record must parse");
    assert_eq!(a.id, b"ADV-1".to_vec());
    assert_eq!(a.package, b"foo".to_vec());
    assert_eq!(a.affected.affected.len(), 1);
    assert_eq!(a.affected.affected[0].comparators.len(), 2);
    assert_eq!(a.affected.unaffected.len(), 1);
    assert_eq!(a.aliases, vec![b"CVE-2021-0001".to_vec()]);
    assert_eq!(a.severity, Some(Severity::High));
    assert_eq!(a.date.year, 2021);
    assert_eq!(a.date.month, 1);
    assert_eq!(a.date.day, 15);
    assert_eq!(a.arch_constraint, Some(vec![Arch::X86_64, Arch::Aarch64]));
    assert_eq!(a.os_constraint, Some(vec![Os::Linux, Os::Windows]));
    assert!(a.withdrawn.is_none());
    assert_eq!(a.category, Category::Vulnerability);
}

#[test]
fn category_defaults_to_vulnerability() {
    let a = parse("id A-1\npackage p\naffected >=1.0.0\ndate 2020-02-02\n").unwrap();
    assert_eq!(a.category, Category::Vulnerability);
}

#[test]
fn withdrawn_and_notice_fields_parse() {
    let a = parse(
        "id A-2\npackage p\naffected <0.5.0\ndate 2020-02-02\nwithdrawn 2021-03-04\ncategory notice\n",
    )
    .unwrap();
    let w = a.withdrawn.unwrap();
    assert_eq!((w.year, w.month, w.day), (2021, 3, 4));
    assert_eq!(a.category, Category::Notice);
}

#[test]
fn record_without_affected_clause_is_rejected() {
    assert!(parse("id A-3\npackage p\ndate 2020-02-02\n").is_none());
}

#[test]
fn record_missing_required_fields_is_rejected() {
    assert!(parse("package p\naffected >=1.0.0\ndate 2020-02-02\n").is_none());
    assert!(parse("id A-4\naffected >=1.0.0\ndate 2020-02-02\n").is_none());
    assert!(parse("id A-4\npackage p\naffected >=1.0.0\n").is_none());
}

#[test]
fn duplicate_single_valued_field_is_rejected() {
    assert!(parse("id A-5\nid A-6\npackage p\naffected >=1.0.0\ndate 2020-02-02\n").is_none());
}

#[test]
fn malformed_values_are_rejected() {
    assert!(parse("id A-7\npackage p\naffected nonsense\ndate 2020-02-02\n").is_none());
    assert!(parse("id A-7\npackage p\naffected >=1.0.0\ndate 2020-13-01\n").is_none());
    assert!(parse("id A-7\npackage p\naffected >=1.0.0\ndate 2020-02-02\nos mars\n").is_none());
    assert!(parse("id A-7\npackage p\naffected >=1.0.0\ndate 2020-02-02\nmood great\n").is_none());
}

#[test]
fn comparator_operators_parse() {
    let a = parse("id A-8\npackage p\naffected >0.1.0,<=0.9.9,=0.5.5\ndate 2020-02-02\n").unwrap();
    let comps = &a.affected.affected[0].comparators;
    assert_eq!(comps.len(), 3);
    assert_eq!(comps[0].op, BoundOp::Greater);
    assert_eq!(comps[1].op, BoundOp::LessEq);
    assert_eq!(comps[2].op, BoundOp::Exact);
}
