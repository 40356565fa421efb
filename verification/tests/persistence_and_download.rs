use rpmlock::download::{download_step, first_failure, verify_artifact, DownloadError,
    FetchOutcome, SignatureCheck, StepDecision};
use rpmlock::codec::ParseError;
use rpmlock::lockfile::{Algorithm, Checksum, Config, LocalPackage, Lockfile, Package, RepoEntry,
    RepoKeyInfo};
use rpmlock::resolve::{Resolution, ResolveError, ResolverResponse};

fn pkg(name: &str, evr: &str, digest: &str, repoid: &str, arch: Option<&str>) -> Package {
    Package {
        name: name.to_string(),
        evr: evr.to_string(),
        checksum: Checksum::new(Algorithm::SHA256, digest.to_string()),
        repoid: repoid.to_string(),
        arch: arch.map(|a| a.to_string()),
    }
}

fn strs(v: &[&str]) -> Vec<String> {
    v.iter().map(|s| s.to_string()).collect()
}

fn full_lockfile() -> Lockfile {
    Lockfile {
        pkg_specs: strs(&["curl", "my spec with spaces >= 2"]),
        packages: vec![
            pkg("curl", "1:8.0.1-1", "aa11", "base", Some("x86_64")),
            pkg("zlib", "1.2.13-2", "bb22", "extras", None),
        ],
        local_packages: vec![LocalPackage::new(
            "mylib".to_string(),
            strs(&["libc.so.6", "openssl"]),
        )],
        repo_gpg_config: vec![
            RepoEntry { repoid: "base".to_string(), info: RepoKeyInfo::new(true, strs(&[
                "KEYLINE1",
                "KEYLINE2",
            ])) },
            RepoEntry { repoid: "extras".to_string(), info: RepoKeyInfo::new(false, strs(&[])) },
        ],
        global_key_specs: strs(&["https://example.com/RPM-GPG-KEY"]),
    }
}

#[test]
fn render_and_parse_round_trip_preserves_every_field() {
    let lf = full_lockfile();
    let text = lf.render();
    let back = Lockfile::parse(&text).expect("canonical text parses");
    assert!(back.same_as(&lf));
}

#[test]
fn render_and_parse_round_trip_of_minimal_lockfile() {
    let lf = Lockfile {
        pkg_specs: Vec::new(),
        packages: Vec::new(),
        local_packages: Vec::new(),
        repo_gpg_config: Vec::new(),
        global_key_specs: Vec::new(),
    };
    let text = lf.render();
    let back = Lockfile::parse(&text).expect("empty lockfile parses");
    assert!(back.same_as(&lf));
}

#[test]
fn render_starts_with_generated_file_header() {
    let text = full_lockfile().render();
    let mut lines = text.lines();
    assert_eq!(lines.next(), Some("# This file is @generated by rpmlock"));
    assert_eq!(lines.next(), Some("# It is not intended for manual editing."));
}

#[test]
fn render_of_known_lockfile_is_exact() {
    let lf = Lockfile {
        pkg_specs: strs(&["curl"]),
        packages: vec![pkg("curl", "1.0-1", "aa", "base", Some("aarch64"))],
        local_packages: Vec::new(),
        repo_gpg_config: Vec::new(),
        global_key_specs: Vec::new(),
    };
    let expected = "# This file is @generated by rpmlock\n\
                    # It is not intended for manual editing.\n\
                    spec curl\n\
                    package curl\n\
                    evr 1.0-1\n\
                    algorithm sha256\n\
                    checksum aa\n\
                    repoid base\n\
                    arch aarch64\n";
    assert_eq!(lf.render(), expected);
}

#[test]
fn old_format_without_newer_sections_loads_with_defaults() {
    // A file written before arch, local packages, repository policies
    // and global key sources existed.
    let text = "spec curl\n\
                package curl\n\
                evr 1.0-1\n\
                algorithm sha1\n\
                checksum ab\n\
                repoid base\n";
    let lf = Lockfile::parse(text).expect("old format loads");
    assert_eq!(lf.pkg_specs(), &strs(&["curl"]));
    assert_eq!(lf.iter_packages().len(), 1);
    assert!(lf.iter_packages()[0].arch.is_none());
    assert!(lf.local_packages().is_empty());
    assert!(lf.repo_gpg_config().is_empty());
    assert!(lf.global_key_specs().is_empty());
    // Writing it back succeeds and still omits the empty optional
    // sections and the absent architecture.
    let rewritten = lf.render();
    assert!(!rewritten.contains("\narch "));
    assert!(!rewritten.contains("\nlocal "));
    assert!(!rewritten.contains("\nrepo "));
    assert!(!rewritten.contains("\nsource "));
    let reloaded = Lockfile::parse(&rewritten).expect("rewritten file loads");
    assert!(reloaded.same_as(&lf));
}

#[test]
fn parse_accepts_only_canonical_texts() {
    // Entries out of their natural order are rejected, not silently
    // re-sorted: a generated lockfile is always canonical.
    let unsorted = "package zlib\n\
                    evr 2.0\n\
                    algorithm sha256\n\
                    checksum bb\n\
                    repoid base\n\
                    package curl\n\
                    evr 1.0\n\
                    algorithm sha256\n\
                    checksum aa\n\
                    repoid base\n";
    assert!(matches!(Lockfile::parse(unsorted), Err(ParseError::NotCanonical)));
    // So is a repeated entry.
    let repeated = "package curl\n\
                    evr 1.0\n\
                    algorithm sha256\n\
                    checksum aa\n\
                    repoid base\n\
                    package curl\n\
                    evr 1.0\n\
                    algorithm sha256\n\
                    checksum aa\n\
                    repoid base\n";
    assert!(matches!(Lockfile::parse(repeated), Err(ParseError::NotCanonical)));
    // The same entries in canonical order are accepted.
    let sorted = "package curl\n\
                  evr 1.0\n\
                  algorithm sha256\n\
                  checksum aa\n\
                  repoid base\n\
                  package zlib\n\
                  evr 2.0\n\
                  algorithm sha256\n\
                  checksum bb\n\
                  repoid base\n";
    let lf = Lockfile::parse(sorted).expect("canonical text parses");
    assert_eq!(lf.iter_packages().len(), 2);
    assert_eq!(lf.iter_packages()[0].name, "curl");
    assert_eq!(lf.iter_packages()[1].name, "zlib");
}

#[test]
fn parse_rejects_unknown_lines_and_bad_fields() {
    assert!(matches!(
        Lockfile::parse("nonsense here\n"),
        Err(ParseError::Malformed { .. })
    ));
    let bad_alg = "package curl\nevr 1.0\nalgorithm sha999\nchecksum aa\nrepoid base\n";
    assert!(matches!(Lockfile::parse(bad_alg), Err(ParseError::Malformed { .. })));
    let bad_flag = "repo base\ngpgcheck maybe\n";
    assert!(matches!(Lockfile::parse(bad_flag), Err(ParseError::Malformed { .. })));
    assert!(matches!(Lockfile::parse("caf\u{e9}\n"), Err(ParseError::NotText)));
}

#[test]
fn resolution_yields_sorted_deduplicated_compatible_lockfile() {
    let cfg = Config { packages: strs(&["zlib", "curl"]), gpgkeys: strs(&["https://k"]) };
    let res = Resolution {
        packages: vec![
            pkg("zlib", "2.0", "bb", "base", None),
            pkg("curl", "1.0", "aa", "base", None),
            pkg("zlib", "2.0", "bb", "base", None),
        ],
        local_packages: vec![
            LocalPackage::new("b".to_string(), strs(&[])),
            LocalPackage::new("a".to_string(), strs(&["x"])),
        ],
        repo_gpg_config: vec![
            RepoEntry { repoid: "extras".to_string(), info: RepoKeyInfo::new(false, strs(&[])) },
            RepoEntry { repoid: "base".to_string(), info: RepoKeyInfo::new(true, strs(&["K"])) },
        ],
    };
    let lf = Lockfile::from_resolution(&cfg, ResolverResponse::Resolved(res)).expect("resolves");
    // Specs and key sources are copied verbatim, so the fresh lockfile
    // is compatible with the configuration that produced it.
    assert!(lf.is_compatible_excluding_local_rpms(&cfg));
    assert_eq!(lf.iter_packages().len(), 2);
    assert_eq!(lf.iter_packages()[0].name, "curl");
    assert_eq!(lf.iter_packages()[1].name, "zlib");
    assert_eq!(lf.local_packages().len(), 2);
    assert_eq!(lf.local_packages()[0].name(), "a");
    assert_eq!(lf.repo_gpg_config()[0].repoid, "base");
    assert_eq!(lf.repo_gpg_config()[1].repoid, "extras");
}

#[test]
fn resolver_failures_are_surfaced_distinctly() {
    let cfg = Config { packages: strs(&[]), gpgkeys: strs(&[]) };
    let unsat = Lockfile::from_resolution(
        &cfg,
        ResolverResponse::Unsatisfiable("nothing provides foo".to_string()),
    );
    assert!(matches!(unsat, Err(ResolveError::Unsatisfiable(m)) if m == "nothing provides foo"));
    let env = Lockfile::from_resolution(
        &cfg,
        ResolverResponse::Failure("resolver crashed".to_string()),
    );
    assert!(matches!(env, Err(ResolveError::Environment(m)) if m == "resolver crashed"));
}

#[test]
fn checksum_mismatch_always_fails_verification() {
    let p = pkg("curl", "1.0", "expected", "base", None);
    let wrong = Checksum::new(Algorithm::SHA256, "actual".to_string());
    let r = verify_artifact(&p, false, &wrong, SignatureCheck::Valid);
    assert!(matches!(r, Err(DownloadError::ChecksumMismatch { name }) if name == "curl"));
    // Even a valid signature cannot save a wrong digest under gpgcheck.
    let r2 = verify_artifact(&p, true, &wrong, SignatureCheck::Valid);
    assert!(matches!(r2, Err(DownloadError::ChecksumMismatch { .. })));
    // A wrong algorithm is a mismatch too, with an equal digest string.
    let wrong_alg = Checksum::new(Algorithm::MD5, "expected".to_string());
    assert!(matches!(
        verify_artifact(&p, false, &wrong_alg, SignatureCheck::Valid),
        Err(DownloadError::ChecksumMismatch { .. })
    ));
}

#[test]
fn gpgcheck_policy_decides_whether_signatures_matter() {
    let p = pkg("curl", "1.0", "d", "base", None);
    let good = Checksum::new(Algorithm::SHA256, "d".to_string());
    // The repository opted out of signature checking: no signature needed.
    assert!(verify_artifact(&p, false, &good, SignatureCheck::Missing).is_ok());
    // With checking required, a missing or mismatched signature fails.
    assert!(matches!(
        verify_artifact(&p, true, &good, SignatureCheck::Missing),
        Err(DownloadError::SignatureRejected { name }) if name == "curl"
    ));
    assert!(matches!(
        verify_artifact(&p, true, &good, SignatureCheck::Mismatch),
        Err(DownloadError::SignatureRejected { .. })
    ));
    assert!(verify_artifact(&p, true, &good, SignatureCheck::Valid).is_ok());
}

#[test]
fn transient_failures_retry_until_the_budget_is_spent() {
    let p = pkg("curl", "1.0", "d", "base", None);
    assert!(matches!(
        download_step(&p, false, &FetchOutcome::Transient, 0, 3),
        StepDecision::Retry
    ));
    assert!(matches!(
        download_step(&p, false, &FetchOutcome::Transient, 2, 3),
        StepDecision::Fail(DownloadError::FetchFailed { name }) if name == "curl"
    ));
}

#[test]
fn fetched_artifacts_are_verified_by_download_step() {
    let p = pkg("curl", "1.0", "d", "base", None);
    let good = FetchOutcome::Fetched {
        computed: Checksum::new(Algorithm::SHA256, "d".to_string()),
        signature: SignatureCheck::Missing,
    };
    assert!(matches!(download_step(&p, false, &good, 0, 3), StepDecision::Accept));
    let bad = FetchOutcome::Fetched {
        computed: Checksum::new(Algorithm::SHA256, "x".to_string()),
        signature: SignatureCheck::Valid,
    };
    assert!(matches!(
        download_step(&p, false, &bad, 0, 3),
        StepDecision::Fail(DownloadError::ChecksumMismatch { .. })
    ));
}

#[test]
fn one_integrity_failure_fails_the_whole_download_and_names_it() {
    // Fail-complete: every package's verification runs; the summary
    // then reports the first failing one.
    let packages = [
        pkg("a", "1", "da", "base", None),
        pkg("b", "1", "db", "base", None),
        pkg("c", "1", "dc", "base", None),
    ];
    let computed = [
        Checksum::new(Algorithm::SHA256, "da".to_string()),
        Checksum::new(Algorithm::SHA256, "WRONG".to_string()),
        Checksum::new(Algorithm::SHA256, "dc".to_string()),
    ];
    let mut outcomes = Vec::new();
    for (p, c) in packages.iter().zip(computed.iter()) {
        outcomes.push(verify_artifact(p, false, c, SignatureCheck::Missing));
    }
    // All three verifications completed before the summary.
    assert_eq!(outcomes.len(), 3);
    let failing = first_failure(&outcomes).expect("one package fails");
    assert_eq!(failing, 1);
    assert!(matches!(
        &outcomes[failing],
        Err(DownloadError::ChecksumMismatch { name }) if name == "b"
    ));
}

#[test]
fn download_of_all_verified_packages_succeeds() {
    let outcomes: Vec<Result<(), DownloadError>> = vec![Ok(()), Ok(()), Ok(())];
    assert!(first_failure(&outcomes).is_none());
}
