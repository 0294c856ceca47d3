use craft::constraint::VersionConstraint;
use craft::field::{Connector, Operator, VersionField};
use craft::version::VersionImpl;

fn parse(s: &str) -> VersionConstraint {
    VersionConstraint::parse(s).unwrap()
}

#[test]
fn test_version_constraint_parse() {
    let version = parse("1.0.0");
    assert_eq!(version.major, VersionField::Exact(1));
    assert_eq!(version.minor, VersionField::Exact(0));
    assert_eq!(version.patch, VersionField::Exact(0));
    assert_eq!(version.operator, Operator::Equal);
    assert_eq!(version.pre_release, None);
    assert_eq!(version.build, None);

    let version = parse("=1.0.0");
    assert_eq!(version.major, VersionField::Exact(1));
    assert_eq!(version.minor, VersionField::Exact(0));
    assert_eq!(version.patch, VersionField::Exact(0));
    assert_eq!(version.operator, Operator::Equal);
    assert_eq!(version.pre_release, None);
    assert_eq!(version.build, None);

    let version = parse("^1.0.0-alpha");
    assert_eq!(version.major, VersionField::Exact(1));
    assert_eq!(version.minor, VersionField::Exact(0));
    assert_eq!(version.patch, VersionField::Exact(0));
    assert_eq!(version.operator, Operator::Caret);
    assert_eq!(version.pre_release, Some("alpha".to_string()));
    assert_eq!(version.build, None);

    let version = parse("~1.0.0+build");
    assert_eq!(version.major, VersionField::Exact(1));
    assert_eq!(version.minor, VersionField::Exact(0));
    assert_eq!(version.patch, VersionField::Exact(0));
    assert_eq!(version.operator, Operator::Tilde);
    assert_eq!(version.pre_release, None);
    assert_eq!(version.build, Some("build".to_string()));

    let version = parse("1.0.0-alpha+build");
    assert_eq!(version.major, VersionField::Exact(1));
    assert_eq!(version.minor, VersionField::Exact(0));
    assert_eq!(version.patch, VersionField::Exact(0));
    assert_eq!(version.operator, Operator::Equal);
    assert_eq!(version.pre_release, Some("alpha".to_string()));
    assert_eq!(version.build, Some("build".to_string()));

    let version = parse("=1.0.0");
    assert_eq!(version.major, VersionField::Exact(1));
    assert_eq!(version.minor, VersionField::Exact(0));
    assert_eq!(version.patch, VersionField::Exact(0));
    assert_eq!(version.operator, Operator::Equal);
    assert_eq!(version.pre_release, None);
    assert_eq!(version.build, None);
}

#[test]
fn test_version_constraint_to_string() {
    let version = VersionConstraint {
        major: VersionField::Exact(1),
        minor: VersionField::Exact(0),
        patch: VersionField::Exact(0),
        operator: Operator::Equal,
        pre_release: None,
        build: None,
    };
    assert_eq!(version.to_string(), "1.0.0");

    let version = VersionConstraint {
        major: VersionField::Exact(1),
        minor: VersionField::Exact(0),
        patch: VersionField::Exact(0),
        operator: Operator::GreaterThan,
        pre_release: None,
        build: None,
    };
    assert_eq!(version.to_string(), ">1.0.0");

    let version = VersionConstraint {
        major: VersionField::Exact(1),
        minor: VersionField::Exact(0),
        patch: VersionField::Exact(0),
        operator: Operator::GreaterThan,
        pre_release: Some("alpha".to_string()),
        build: None,
    };
    assert_eq!(version.to_string(), ">1.0.0-alpha");

    let version = VersionConstraint {
        major: VersionField::Exact(1),
        minor: VersionField::Exact(0),
        patch: VersionField::Exact(0),
        operator: Operator::GreaterThan,
        pre_release: Some("alpha".to_string()),
        build: Some("build".to_string()),
    };
    assert_eq!(version.to_string(), ">1.0.0-alpha+build");
}

#[test]
fn wildcard_words_match_everything() {
    for word in ["*", "x", "latest", "  latest "] {
        let c = parse(word);
        assert_eq!(c.major, VersionField::Wildcard);
        assert_eq!(c.minor, VersionField::Wildcard);
        assert_eq!(c.patch, VersionField::Wildcard);
        assert_eq!(c.operator, Operator::Equal);
        assert!(c.satisfies("3.4.5"));
    }
}

#[test]
fn partial_versions_leave_wildcards() {
    let c = parse(">=2");
    assert_eq!(c.operator, Operator::GreaterThanOrEqual);
    assert_eq!(c.major, VersionField::Exact(2));
    assert_eq!(c.minor, VersionField::Wildcard);
    assert_eq!(c.patch, VersionField::Wildcard);
    let c = parse("<=1.x.3");
    assert_eq!(c.operator, Operator::LessThanOrEqual);
    assert_eq!(c.minor, VersionField::Wildcard);
    assert_eq!(c.patch, VersionField::Exact(3));
}

#[test]
fn malformed_constraints_are_rejected_with_their_text() {
    for bad in ["", "abc", "1.0.0-", "1.0.0+", "1..0", "1.0.0 junk", "99999999999999999999"] {
        let e = VersionConstraint::parse(bad).unwrap_err();
        assert_eq!(e.input, bad);
    }
}

#[test]
fn largest_field_is_accepted() {
    let c = parse("18446744073709551615.0.0");
    assert_eq!(c.major, VersionField::Exact(u64::MAX));
    assert_eq!(c.to_string(), "18446744073709551615.0.0");
}

#[test]
fn field_wise_matching() {
    assert!(parse("1.x").satisfies("1.5.0"));
    assert!(!parse("1.x").satisfies("2.0.0"));
    assert!(parse("^1.0.0").satisfies("1.0.0"));
    assert!(!parse("^1.0.0").satisfies("1.2.0"));
    assert!(!parse("1.0.0").satisfies("not a version"));
}

#[test]
fn labels_must_be_present_and_equal() {
    let c = parse("1.0.0-alpha");
    assert!(c.satisfies("1.0.0-alpha"));
    assert!(!c.satisfies("1.0.0-beta"));
    assert!(!c.satisfies("1.0.0"));
    let c = parse("1.0.0+build");
    assert!(c.satisfies("1.0.0+build"));
    assert!(!c.satisfies("1.0.0"));
    assert!(parse("1.0.0").satisfies("1.0.0-alpha"));
}

#[test]
fn canonical_text_round_trips() {
    for text in ["1.0.0", ">1.0.0-alpha", "~1.0.0+build", ">=2.3.4-rc.1+sha-5"] {
        assert_eq!(parse(text).to_string(), text);
    }
    let c = parse("~1.0.0+build");
    assert_eq!(c.operator, Operator::Tilde);
    assert_eq!(c.build, Some("build".to_string()));
    assert_eq!(parse("=1").to_string(), "1.*.*");
}

#[test]
fn field_and_operator_text() {
    assert_eq!(VersionField::Exact(12).to_string(), "12");
    assert_eq!(VersionField::Wildcard.to_string(), "*");
    assert_eq!(Operator::GreaterThanOrEqual.to_string(), ">=");
    assert_eq!(Operator::Caret.to_string(), "^");
}

#[test]
fn field_equality() {
    for n in [0u64, 1, 7, u64::MAX] {
        assert_eq!(VersionField::Exact(n), VersionField::Exact(n));
        assert_ne!(VersionField::Wildcard, VersionField::Exact(n));
    }
}

#[test]
fn ranges_parse_into_bounds() {
    let v = VersionImpl::new(">=1.0.0 <2.0.0").unwrap();
    assert_eq!(v.groups().len(), 1);
    let g = &v.groups()[0];
    assert_eq!(g.connector, Connector::And);
    assert_eq!(g.constraints.len(), 2);
    assert_eq!(g.constraints[0].operator, Operator::GreaterThanOrEqual);
    assert_eq!(g.constraints[1].operator, Operator::LessThan);
    assert_eq!(g.constraints[1].major, VersionField::Exact(2));
    assert_eq!(v.to_string(), ">=1.0.0 <2.0.0");

    let v = VersionImpl::new(">* <3").unwrap();
    assert_eq!(v.groups()[0].constraints.len(), 1);
    assert_eq!(v.to_string(), "<3.*.*");

    let v = VersionImpl::new(">1.0.0, <=1.5").unwrap();
    assert_eq!(v.groups()[0].constraints.len(), 2);
}

#[test]
fn alternatives_parse_into_groups() {
    let v = VersionImpl::new("1.x || >=3.0.0").unwrap();
    assert_eq!(v.groups().len(), 2);
    assert_eq!(v.groups()[0].connector, Connector::Or);
    assert_eq!(v.groups()[1].connector, Connector::Or);
    assert!(v.satisfies("1.4.0"));
    assert!(!v.satisfies("2.0.0"));
    assert_eq!(v.to_string(), "1.*.* || >=3.0.0");
    let again = VersionImpl::new(&v.to_string()).unwrap();
    assert_eq!(again.to_string(), v.to_string());
}

#[test]
fn malformed_expressions_are_rejected() {
    assert_eq!(VersionImpl::new("1.0 || what").unwrap_err().input, "1.0 || what");
    assert!(VersionImpl::new(">=1.0.0 <2.0.0 <3").is_err());
}

#[test]
fn exactness() {
    assert!(VersionImpl::new("1.0.0").unwrap().is_exact());
    assert!(VersionImpl::new("=1.0.0-alpha").unwrap().is_exact());
    assert!(!VersionImpl::new("^1.0.0").unwrap().is_exact());
    assert!(!VersionImpl::new("1.0").unwrap().is_exact());
    assert!(!VersionImpl::new("1.0.0 || 1.0.0").unwrap().is_exact());
    assert!(!VersionImpl::new(">=1.0.0 <2.0.0").unwrap().is_exact());
}

#[test]
fn ranges_keep_labels() {
    let v = VersionImpl::new(">1.0.0-alpha").unwrap();
    assert_eq!(v.to_string(), ">1.0.0-alpha");
    let c = &v.groups()[0].constraints[0];
    assert_eq!(c.operator, Operator::GreaterThan);
    assert_eq!(c.pre_release, Some("alpha".to_string()));
    let v = VersionImpl::new(">=1.0.0-rc.1+b2 <2.0.0").unwrap();
    assert_eq!(v.groups()[0].constraints[0].build, Some("b2".to_string()));
    assert_eq!(v.to_string(), ">=1.0.0-rc.1+b2 <2.0.0");
    assert!(VersionImpl::new(">1.0.0-").is_err());
}

#[test]
fn empty_groups_round_trip() {
    let v = VersionImpl::new(">*").unwrap();
    assert_eq!(v.groups().len(), 1);
    assert_eq!(v.groups()[0].constraints.len(), 0);
    assert_eq!(v.to_string(), ">=*");
    let again = VersionImpl::new(&v.to_string()).unwrap();
    assert_eq!(again.groups()[0].constraints.len(), 0);
    assert!(v.satisfies("4.5.6"));

    let v = VersionImpl::new("1.0.0 || >*").unwrap();
    assert_eq!(v.to_string(), "1.0.0 || >=*");
    let again = VersionImpl::new(&v.to_string()).unwrap();
    assert_eq!(again.groups().len(), 2);
    assert_eq!(again.groups()[1].constraints.len(), 0);
    assert_eq!(again.to_string(), v.to_string());
}
