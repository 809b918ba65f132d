use cargo2port::{
    classify_source, format_cargo_crates, parse_crate_spec, record_cmp, resolve_lockfile_packages,
    version_cmp, version_string, AlignmentMode, Cmp, Error, LockfileDoc, PackageRecord, SourceKind,
    Version,
};

fn ver(major: u64, minor: u64, patch: u64) -> Version {
    Version {
        major,
        minor,
        patch,
        pre: String::new(),
        build: String::new(),
    }
}

fn rec(name: &str, v: Version, checksum: Option<&str>) -> PackageRecord {
    PackageRecord {
        name: name.to_string(),
        version: v,
        checksum: checksum.map(|c| c.to_string()),
    }
}

fn doc(packages: Vec<PackageRecord>) -> LockfileDoc {
    LockfileDoc { packages }
}

#[test]
fn version_renders_canonically() {
    assert_eq!(version_string(&ver(1, 2, 3)).as_str(), "1.2.3");
    assert_eq!(version_string(&ver(0, 0, 0)).as_str(), "0.0.0");
    assert_eq!(version_string(&ver(10, 20, 30)).as_str(), "10.20.30");
    let mut v = ver(1, 0, 0);
    v.pre = "alpha.1".to_string();
    v.build = "001".to_string();
    assert_eq!(version_string(&v).as_str(), "1.0.0-alpha.1+001");
}

#[test]
fn versions_sort_numerically_not_lexically() {
    let docs = vec![doc(vec![
        rec("pkg", ver(1, 10, 0), Some("aa")),
        rec("pkg", ver(1, 9, 0), Some("bb")),
    ])];
    let out = resolve_lockfile_packages(&docs).unwrap();
    assert_eq!(out.len(), 2);
    assert_eq!(version_string(&out[0].version).as_str(), "1.9.0");
    assert_eq!(version_string(&out[1].version).as_str(), "1.10.0");
}

#[test]
fn prerelease_sorts_before_release() {
    let mut pre = ver(1, 0, 0);
    pre.pre = "alpha".to_string();
    let docs = vec![doc(vec![
        rec("pkg", ver(1, 0, 0), Some("aa")),
        rec("pkg", pre, Some("bb")),
    ])];
    let out = resolve_lockfile_packages(&docs).unwrap();
    assert_eq!(out.len(), 2);
    assert_eq!(version_string(&out[0].version).as_str(), "1.0.0-alpha");
    assert_eq!(version_string(&out[1].version).as_str(), "1.0.0");
}

#[test]
fn numeric_prerelease_identifiers_compare_numerically() {
    let mut a2 = ver(1, 0, 0);
    a2.pre = "alpha.2".to_string();
    let mut a10 = ver(1, 0, 0);
    a10.pre = "alpha.10".to_string();
    let docs = vec![doc(vec![
        rec("pkg", a10, Some("aa")),
        rec("pkg", a2, Some("bb")),
    ])];
    let out = resolve_lockfile_packages(&docs).unwrap();
    assert_eq!(out.len(), 2);
    assert_eq!(version_string(&out[0].version).as_str(), "1.0.0-alpha.2");
    assert_eq!(version_string(&out[1].version).as_str(), "1.0.0-alpha.10");
}

#[test]
fn prerelease_precedence_follows_semver() {
    let with_pre = |pre: &str| {
        let mut v = ver(1, 0, 0);
        v.pre = pre.to_string();
        v
    };
    // Numeric identifiers sort below alphanumeric ones; a shorter
    // identifier list sorts below any extension of it.
    let expect_lt = |lo: &str, hi: &str| {
        assert!(
            matches!(version_cmp(&with_pre(lo), &with_pre(hi)), Cmp::Lt),
            "{} should precede {}",
            lo,
            hi
        );
        assert!(matches!(version_cmp(&with_pre(hi), &with_pre(lo)), Cmp::Gt));
    };
    expect_lt("1", "alpha");
    expect_lt("9", "10");
    expect_lt("alpha", "alpha.1");
    expect_lt("alpha.1", "beta");
    expect_lt("rc.1", "rc.2");
}

#[test]
fn build_metadata_orders_as_semver_does() {
    let with_build = |build: &str| {
        let mut v = ver(1, 0, 0);
        v.build = build.to_string();
        v
    };
    // 0 < 00 < 1 < 01 < 001 < 2 < 10, and no build metadata sorts first.
    let chain = ["", "0", "00", "1", "01", "001", "2", "10", "alpha"];
    for w in chain.windows(2) {
        assert!(
            matches!(version_cmp(&with_build(w[0]), &with_build(w[1])), Cmp::Lt),
            "+{} should precede +{}",
            w[0],
            w[1]
        );
    }
    assert!(matches!(
        version_cmp(&with_build("01"), &with_build("01")),
        Cmp::Eq
    ));
}

#[test]
fn duplicate_records_collapse_to_one() {
    let docs = vec![
        doc(vec![rec("serde", ver(1, 0, 0), Some("deadbeef"))]),
        doc(vec![rec("serde", ver(1, 0, 0), Some("deadbeef"))]),
    ];
    let out = resolve_lockfile_packages(&docs).unwrap();
    assert_eq!(out.len(), 1);
    assert_eq!(out[0].name.as_str(), "serde");
}

#[test]
fn records_without_checksum_never_appear() {
    let docs = vec![
        doc(vec![rec("own", ver(0, 1, 0), None)]),
        doc(vec![rec("own", ver(0, 1, 0), None)]),
    ];
    let out = resolve_lockfile_packages(&docs).unwrap();
    assert_eq!(out.len(), 0);
}

#[test]
fn resolved_output_is_sorted_by_name_version() {
    let docs = vec![doc(vec![
        rec("zebra", ver(0, 1, 0), Some("cc")),
        rec("alpha", ver(2, 0, 0), Some("aa")),
        rec("alpha", ver(1, 0, 0), Some("bb")),
    ])];
    let out = resolve_lockfile_packages(&docs).unwrap();
    assert_eq!(out.len(), 3);
    assert_eq!(out[0].name.as_str(), "alpha");
    assert_eq!(version_string(&out[0].version).as_str(), "1.0.0");
    assert_eq!(out[1].name.as_str(), "alpha");
    assert_eq!(version_string(&out[1].version).as_str(), "2.0.0");
    assert_eq!(out[2].name.as_str(), "zebra");
}

#[test]
fn resolving_in_any_order_gives_the_same_sequence() {
    let d1 = || {
        doc(vec![
            rec("a", ver(1, 0, 0), None),
            rec("b", ver(2, 0, 0), Some("deadbeef")),
        ])
    };
    let d2 = || {
        doc(vec![
            rec("b", ver(2, 0, 0), Some("deadbeef")),
            rec("c", ver(0, 1, 0), Some("cafebabe")),
        ])
    };
    let out1 = resolve_lockfile_packages(&vec![d1(), d2()]).unwrap();
    let out2 = resolve_lockfile_packages(&vec![d2(), d1()]).unwrap();
    assert_eq!(out1.len(), out2.len());
    for i in 0..out1.len() {
        assert!(matches!(record_cmp(&out1[i], &out2[i]), Cmp::Eq));
    }
    let twice = resolve_lockfile_packages(&vec![d1(), d2(), d1(), d2()]).unwrap();
    assert_eq!(twice.len(), out1.len());
    for i in 0..out1.len() {
        assert!(matches!(record_cmp(&out1[i], &twice[i]), Cmp::Eq));
    }
}

#[test]
fn end_to_end_two_documents_normal_mode() {
    let docs = vec![
        doc(vec![
            rec("a", ver(1, 0, 0), None),
            rec("b", ver(2, 0, 0), Some("deadbeef")),
        ]),
        doc(vec![
            rec("b", ver(2, 0, 0), Some("deadbeef")),
            rec("c", ver(0, 1, 0), Some("cafebabe")),
        ]),
    ];
    let out = resolve_lockfile_packages(&docs).unwrap();
    assert_eq!(out.len(), 2);
    assert_eq!(out[0].name.as_str(), "b");
    assert_eq!(version_string(&out[0].version).as_str(), "2.0.0");
    assert_eq!(out[1].name.as_str(), "c");
    assert_eq!(version_string(&out[1].version).as_str(), "0.1.0");
    let text = format_cargo_crates(out, AlignmentMode::Normal);
    let expected = format!(
        "cargo.crates \\\n    b{}     2.0.0  deadbeef \\\n    c{}     0.1.0  cafebabe",
        " ".repeat(27),
        " ".repeat(27),
    );
    assert_eq!(text, expected);
}

#[test]
fn empty_sequence_renders_header_only() {
    assert_eq!(format_cargo_crates(vec![], AlignmentMode::Normal), "cargo.crates");
    assert_eq!(format_cargo_crates(vec![], AlignmentMode::Maxlen), "cargo.crates");
    assert_eq!(format_cargo_crates(vec![], AlignmentMode::Multiline), "cargo.crates");
    assert_eq!(format_cargo_crates(vec![], AlignmentMode::Justify), "cargo.crates");
}

#[test]
fn formatter_skips_unchecksummed_records() {
    let pkgs = vec![
        rec("a", ver(1, 0, 0), None),
        rec("b", ver(2, 0, 0), Some("deadbeef")),
    ];
    let text = format_cargo_crates(pkgs, AlignmentMode::Multiline);
    assert_eq!(text, "cargo.crates \\\n    b \\\n    2.0.0 \\\n    deadbeef");
}

#[test]
fn maxlen_pads_to_longest_name_and_version() {
    // Name lengths 3 and 10; version string lengths 5 and 8.
    let pkgs = vec![
        rec("abc", ver(2, 0, 0), Some("aa")),
        rec("abcdefghij", ver(10, 20, 30), Some("bb")),
    ];
    let text = format_cargo_crates(pkgs, AlignmentMode::Maxlen);
    let expected = "cargo.crates \\\n    abc         2.0.0     aa \\\n    abcdefghij  10.20.30  bb";
    assert_eq!(text, expected);
}

#[test]
fn justify_compensates_for_combined_length() {
    // Combined name+version lengths 8 and 15: the first line's gap must be
    // (15 - 8) + 5 = 12 spaces, the second's the base 5, so both lines span
    // the same width before the checksum column.
    let pkgs = vec![
        rec("abc", ver(2, 0, 0), Some("aa")),
        rec("abcdefghij", ver(2, 0, 0), Some("bb")),
    ];
    let text = format_cargo_crates(pkgs, AlignmentMode::Justify);
    let expected = format!(
        "cargo.crates \\\n    abc{}2.0.0  aa \\\n    abcdefghij{}2.0.0  bb",
        " ".repeat(12),
        " ".repeat(5),
    );
    assert_eq!(text, expected);
    let lines: Vec<&str> = text.split('\n').collect();
    let first_pre = lines[1].find("  aa").unwrap();
    let second_pre = lines[2].find("  bb").unwrap();
    assert_eq!(first_pre, second_pre);
}

#[test]
fn normal_mode_never_truncates_wide_fields() {
    // A name wider than the 28-column field and a version wider than the
    // 8-column field pass through unpadded.
    let name = "a".repeat(30);
    let pkgs = vec![rec(&name, ver(100000, 200000, 300000), Some("cc"))];
    let text = format_cargo_crates(pkgs, AlignmentMode::Normal);
    let expected = format!("cargo.crates \\\n    {}  100000.200000.300000  cc", name);
    assert_eq!(text, expected);
}

#[test]
fn largest_numeric_component_renders() {
    let v = ver(18446744073709551615, 0, 0);
    assert_eq!(version_string(&v).as_str(), "18446744073709551615.0.0");
}

#[test]
fn crate_spec_splits_at_first_separator() {
    let (name, version) = parse_crate_spec("serde@1.0.0").unwrap();
    assert_eq!(name.as_str(), "serde");
    assert_eq!(version.as_str(), "1.0.0");
    let (name, version) = parse_crate_spec("a@b@c").unwrap();
    assert_eq!(name.as_str(), "a");
    assert_eq!(version.as_str(), "b");
}

#[test]
fn crate_spec_without_separator_is_rejected() {
    let err = parse_crate_spec("serde").unwrap_err();
    match err {
        Error::Spec(s) => assert_eq!(s.as_str(), "serde"),
        _ => panic!("expected a specifier error"),
    }
    assert_eq!(
        Error::Spec("serde".to_string()).message().as_str(),
        "invalid crate specifier: serde"
    );
}

#[test]
fn error_messages_render() {
    assert_eq!(
        Error::MissingLockfile.message().as_str(),
        "crate missing Cargo.lock file"
    );
    assert_eq!(Error::CargoLock("bad toml".to_string()).message().as_str(), "bad toml");
    assert_eq!(Error::Download("timed out".to_string()).message().as_str(), "timed out");
    assert_eq!(Error::Tar("invalid data".to_string()).message().as_str(), "invalid data");
}

#[test]
fn source_strings_classify() {
    assert!(matches!(classify_source("-"), SourceKind::Stdin));
    match classify_source("crate:serde@1.0.0") {
        SourceKind::CratesIo(spec) => assert_eq!(spec.as_str(), "serde@1.0.0"),
        _ => panic!("expected a remote source"),
    }
    match classify_source("Cargo.lock") {
        SourceKind::Path(p) => assert_eq!(p.as_str(), "Cargo.lock"),
        _ => panic!("expected a path source"),
    }
    match classify_source("--") {
        SourceKind::Path(p) => assert_eq!(p.as_str(), "--"),
        _ => panic!("expected a path source"),
    }
}
