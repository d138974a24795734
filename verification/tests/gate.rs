use toolchain_gate::compat::{check, warning_message, Outcome};
use toolchain_gate::layout::ProjectLayout;
use toolchain_gate::manifest::{load_declared_minimum_from_text, ManifestError};
use toolchain_gate::probe::{
    get_installed_version, interpret_probe, FixedProbe, HostProbe, Probe, ProbeError,
};
use toolchain_gate::version::{parse_number, parse_version, SemanticVersion};

fn v(major: u64, minor: u64, patch: u64) -> SemanticVersion {
    SemanticVersion { major, minor, patch, tag: None }
}

#[test]
fn compatible_when_installed_below_minimum() {
    let outcome = check(v(1, 39, 0), v(1, 40, 0));
    assert!(matches!(outcome, Outcome::Compatible));
}

#[test]
fn compatible_when_installed_equals_minimum() {
    let outcome = check(v(1, 40, 0), v(1, 40, 0));
    assert!(matches!(outcome, Outcome::Compatible));
}

#[test]
fn newer_than_expected_when_installed_above_minimum() {
    let outcome = check(v(1, 41, 0), v(1, 40, 0));
    match outcome {
        Outcome::NewerThanExpected(installed, declared) => {
            assert_eq!(installed.major, 1);
            assert_eq!(installed.minor, 41);
            assert_eq!(installed.patch, 0);
            assert!(installed.tag.is_none());
            assert_eq!(declared.major, 1);
            assert_eq!(declared.minor, 40);
            assert_eq!(declared.patch, 0);
            assert!(declared.tag.is_none());
        },
        Outcome::Compatible => panic!("expected a warning outcome"),
    }
}

#[test]
fn warning_holds_both_version_texts() {
    let message = warning_message(&v(1, 41, 0), &v(1, 40, 0));
    assert!(message.contains("1.41.0"));
    assert!(message.contains("1.40.0"));
    assert_eq!(
        message,
        "Found toolchain version 1.41.0, which is greater than the suggested version 1.40.0"
    );
}

#[test]
fn prerelease_ranks_below_the_release() {
    let pre = parse_version("1.40.0-beta.2").unwrap();
    let rel = v(1, 40, 0);
    assert!(matches!(check(pre, rel), Outcome::Compatible));
    let pre = parse_version("1.40.0-beta.2").unwrap();
    let rel = v(1, 40, 0);
    assert!(matches!(check(rel, pre), Outcome::NewerThanExpected(_, _)));
}

#[test]
fn triple_precedence_ignores_later_components() {
    assert!(matches!(check(v(1, 9, 9), v(2, 0, 0)), Outcome::Compatible));
    assert!(matches!(check(v(2, 0, 0), v(1, 9, 9)), Outcome::NewerThanExpected(_, _)));
    assert!(matches!(check(v(1, 2, 9), v(1, 3, 0)), Outcome::Compatible));
}

#[test]
fn parse_version_reads_a_bare_triple() {
    let p = parse_version("1.2.3").unwrap();
    assert_eq!(p.major, 1);
    assert_eq!(p.minor, 2);
    assert_eq!(p.patch, 3);
    assert!(p.tag.is_none());
}

#[test]
fn parse_version_reads_zero() {
    let p = parse_version("0.0.0").unwrap();
    assert_eq!((p.major, p.minor, p.patch), (0, 0, 0));
}

#[test]
fn parse_version_reads_the_largest_component() {
    let p = parse_version("18446744073709551615.0.0").unwrap();
    assert_eq!(p.major, u64::MAX);
}

#[test]
fn parse_version_rejects_an_overflowing_component() {
    assert!(parse_version("18446744073709551616.0.0").is_none());
}

#[test]
fn parse_version_reads_a_tag() {
    let p = parse_version("1.57.0-nightly").unwrap();
    assert_eq!((p.major, p.minor, p.patch), (1, 57, 0));
    assert_eq!(p.tag.unwrap(), "nightly");
}

#[test]
fn parse_version_keeps_the_whole_tag() {
    let p = parse_version("1.2.3-rc.1+build-5").unwrap();
    assert_eq!(p.tag.unwrap(), "rc.1+build-5");
}

#[test]
fn parse_version_rejects_malformed_texts() {
    assert!(parse_version("").is_none());
    assert!(parse_version("1").is_none());
    assert!(parse_version("1.2").is_none());
    assert!(parse_version("1.2.3.4").is_none());
    assert!(parse_version("01.2.3").is_none());
    assert!(parse_version("1.02.3").is_none());
    assert!(parse_version("a.b.c").is_none());
    assert!(parse_version("1.2.x").is_none());
    assert!(parse_version("1.2.3-").is_none());
    assert!(parse_version("1.2.3-bad tag").is_none());
    assert!(parse_version("-1.2.3").is_none());
    assert!(parse_version("1..3").is_none());
}

#[test]
fn parse_number_reads_digits() {
    assert_eq!(parse_number("42"), Some(42));
    assert_eq!(parse_number("0"), Some(0));
    assert_eq!(parse_number("007"), None);
    assert_eq!(parse_number(""), None);
    assert_eq!(parse_number("4x2"), None);
}

#[test]
fn version_renders_back_to_its_text() {
    let p = parse_version("1.41.0").unwrap();
    assert_eq!(p.to_text(), "1.41.0");
    let p = parse_version("1.57.0-rc.2").unwrap();
    assert_eq!(p.to_text(), "1.57.0-rc.2");
    assert_eq!(v(0, 10, 250).to_text(), "0.10.250");
}

#[test]
fn manifest_yields_the_declared_minimum() {
    let text = "[package]\nname = \"forc\"\nminimum-toolchain-version = \"1.40.0\"\n";
    let declared = load_declared_minimum_from_text(text).unwrap();
    assert_eq!((declared.major, declared.minor, declared.patch), (1, 40, 0));
    assert!(declared.tag.is_none());
}

#[test]
fn manifest_yields_a_tagged_minimum() {
    let text = "[package]\nminimum-toolchain-version = \"1.57.0-beta.3\"\n";
    let declared = load_declared_minimum_from_text(text).unwrap();
    assert_eq!(declared.tag.unwrap(), "beta.3");
}

#[test]
fn manifest_without_package_section_is_refused() {
    let text = "[workspace]\nmembers = []\n";
    let e = load_declared_minimum_from_text(text).unwrap_err();
    assert!(matches!(e, ManifestError::MissingPackageSection));
}

#[test]
fn manifest_without_version_field_is_refused() {
    let text = "[package]\nname = \"forc\"\n";
    let e = load_declared_minimum_from_text(text).unwrap_err();
    assert!(matches!(e, ManifestError::MissingVersionField));
}

#[test]
fn manifest_with_non_string_version_is_refused() {
    let text = "[package]\nminimum-toolchain-version = 3\n";
    let e = load_declared_minimum_from_text(text).unwrap_err();
    assert!(matches!(e, ManifestError::MissingVersionField));
}

#[test]
fn manifest_with_broken_syntax_is_refused() {
    let text = "this is ][ not a manifest";
    let e = load_declared_minimum_from_text(text).unwrap_err();
    assert!(matches!(e, ManifestError::Parse));
}

#[test]
fn manifest_with_malformed_version_is_refused() {
    let text = "[package]\nminimum-toolchain-version = \"not-a-version\"\n";
    let e = load_declared_minimum_from_text(text).unwrap_err();
    match e {
        ManifestError::InvalidVersionFormat(bad) => assert_eq!(bad, "not-a-version"),
        _ => panic!("expected an invalid-version error"),
    }
}

#[test]
fn probe_reading_accepts_a_version_text() {
    let r = interpret_probe(Ok("1.56.0".to_string())).unwrap();
    assert_eq!((r.major, r.minor, r.patch), (1, 56, 0));
}

#[test]
fn probe_reading_flags_an_unparseable_text() {
    let e = interpret_probe(Ok("borked".to_string())).unwrap_err();
    match e {
        ProbeError::Unparseable(bad) => assert_eq!(bad, "borked"),
        _ => panic!("expected an unparseable error"),
    }
}

#[test]
fn probe_reading_keeps_the_cause_of_a_failure() {
    let e = interpret_probe(Err("no compiler found".to_string())).unwrap_err();
    match e {
        ProbeError::NotFound(cause) => assert_eq!(cause, "no compiler found"),
        _ => panic!("expected a not-found error"),
    }
}

#[test]
fn probing_the_host_yields_some_outcome() {
    match get_installed_version() {
        Ok(installed) => assert_eq!(installed.to_text().is_empty(), false),
        Err(ProbeError::NotFound(_)) => {},
        Err(ProbeError::Unparseable(_)) => {},
    }
}

#[test]
fn fixed_probe_reports_its_bound_version() {
    let probe = FixedProbe::new(v(1, 41, 0)).unwrap();
    let installed = probe.installed_version().unwrap();
    assert_eq!((installed.major, installed.minor, installed.patch), (1, 41, 0));
    assert!(installed.tag.is_none());
    let declared = v(1, 40, 0);
    assert!(matches!(check(installed, declared), Outcome::NewerThanExpected(_, _)));
}

#[test]
fn fixed_probe_keeps_the_tag() {
    let bound = parse_version("1.57.0-nightly").unwrap();
    let probe = FixedProbe::new(bound).unwrap();
    let installed = probe.installed_version().unwrap();
    assert_eq!(installed.tag.unwrap(), "nightly");
}

#[test]
fn fixed_probe_refuses_a_malformed_tag() {
    let bad = SemanticVersion { major: 1, minor: 0, patch: 0, tag: Some("no spaces".to_string()) };
    assert!(FixedProbe::new(bad).is_none());
}

#[test]
fn host_probe_answers_like_the_direct_query() {
    let probe = HostProbe {};
    match probe.installed_version() {
        Ok(installed) => assert_eq!(installed.to_text().is_empty(), false),
        Err(ProbeError::NotFound(_)) => {},
        Err(ProbeError::Unparseable(_)) => {},
    }
}

#[test]
fn layout_holds_the_canonical_names() {
    let layout = ProjectLayout::new();
    assert_eq!(layout.manifest_file_name().as_str(), "Forc.toml");
    assert_eq!(layout.lock_file_name().as_str(), "Forc.lock");
    assert_eq!(layout.toolchain_manifest_file_name().as_str(), "Cargo.toml");
    assert_eq!(layout.test_directory().as_str(), "tests");
    assert_eq!(layout.source_extension().as_str(), "sw");
    assert_eq!(layout.user_directory().as_str(), ".forc");
    assert_eq!(layout.source_directory().as_str(), "src");
    assert_eq!(layout.default_node_url().as_str(), "127.0.0.1:4000");
    assert_eq!(layout.language_name().as_str(), "Sway");
    assert_eq!(layout.storage_key_prefix().as_str(), "storage_");
    assert_eq!(layout.library_entry_file_name().as_str(), "lib.sw");
    assert_eq!(layout.main_entry_file_name().as_str(), "main.sw");
}

#[test]
fn layout_reads_are_stable() {
    let layout = ProjectLayout::new();
    let first = layout.language_name().clone();
    let second = layout.language_name().clone();
    assert_eq!(first, second);
    let other = ProjectLayout::new();
    assert_eq!(layout.storage_key_prefix().as_str(), other.storage_key_prefix().as_str());
    assert_eq!(layout.default_node_url().as_str(), other.default_node_url().as_str());
}
