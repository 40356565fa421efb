use rpmlock::lockfile::{Algorithm, Checksum, Config, LocalPackage, Lockfile, Package, RepoEntry,
    RepoKeyInfo};
use rpmlock::updates::Update;

fn pkg(name: &str, evr: &str, digest: &str, repoid: &str, arch: Option<&str>) -> Package {
    Package {
        name: name.to_string(),
        evr: evr.to_string(),
        checksum: Checksum::new(Algorithm::SHA256, digest.to_string()),
        repoid: repoid.to_string(),
        arch: arch.map(|a| a.to_string()),
    }
}

fn strs(v: &[&str]) -> Vec<String> {
    v.iter().map(|s| s.to_string()).collect()
}

fn lockfile(specs: &[&str], packages: Vec<Package>, gpgkeys: &[&str]) -> Lockfile {
    Lockfile {
        pkg_specs: strs(specs),
        packages,
        local_packages: Vec::new(),
        repo_gpg_config: Vec::new(),
        global_key_specs: strs(gpgkeys),
    }
}

#[test]
fn compatible_when_specs_and_keys_match_exactly() {
    let lf = lockfile(&["curl", "openssl >= 3"], vec![], &["https://example.com/key"]);
    let cfg = Config {
        packages: strs(&["curl", "openssl >= 3"]),
        gpgkeys: strs(&["https://example.com/key"]),
    };
    assert!(lf.is_compatible_excluding_local_rpms(&cfg));
}

#[test]
fn incompatible_when_spec_order_differs() {
    let lf = lockfile(&["curl", "openssl"], vec![], &[]);
    let cfg = Config { packages: strs(&["openssl", "curl"]), gpgkeys: strs(&[]) };
    assert!(!lf.is_compatible_excluding_local_rpms(&cfg));
}

#[test]
fn incompatible_when_gpg_keys_differ() {
    let lf = lockfile(&["curl"], vec![], &["https://a"]);
    let cfg = Config { packages: strs(&["curl"]), gpgkeys: strs(&["https://b"]) };
    assert!(!lf.is_compatible_excluding_local_rpms(&cfg));
}

#[test]
fn incompatible_when_gpg_key_order_differs() {
    let lf = lockfile(&["curl"], vec![], &["https://a", "https://b"]);
    let cfg = Config { packages: strs(&["curl"]), gpgkeys: strs(&["https://b", "https://a"]) };
    assert!(!lf.is_compatible_excluding_local_rpms(&cfg));
}

#[test]
fn including_never_passes_when_excluding_fails() {
    let mut lf = lockfile(&["curl"], vec![], &[]);
    lf.local_packages = vec![LocalPackage::new("mylib".to_string(), strs(&["libc"]))];
    let cfg = Config { packages: strs(&["wget"]), gpgkeys: strs(&[]) };
    // The scan matches the stored requirements exactly, yet the broad
    // check must still fail because the narrow one does.
    assert!(!lf.is_compatible_including_local_rpms(&cfg, &strs(&["libc"])));
    assert!(!lf.is_compatible_excluding_local_rpms(&cfg));
}

#[test]
fn version_change_of_local_rpm_keeps_compatibility() {
    let mut lf = lockfile(&["curl"], vec![], &[]);
    lf.local_packages = vec![LocalPackage::new("mylib".to_string(), strs(&["libc", "zlib"]))];
    let cfg = Config { packages: strs(&["curl"]), gpgkeys: strs(&[]) };
    // A rebuilt local RPM with a new version reports the same
    // requirements; order and repetition of the scan do not matter.
    assert!(lf.is_compatible_including_local_rpms(&cfg, &strs(&["libc", "zlib"])));
    assert!(lf.is_compatible_including_local_rpms(&cfg, &strs(&["zlib", "libc", "libc"])));
}

#[test]
fn requirement_change_of_local_rpm_breaks_compatibility() {
    let mut lf = lockfile(&["curl"], vec![], &[]);
    lf.local_packages = vec![LocalPackage::new("mylib".to_string(), strs(&["libc"]))];
    let cfg = Config { packages: strs(&["curl"]), gpgkeys: strs(&[]) };
    assert!(lf.is_compatible_including_local_rpms(&cfg, &strs(&["libc"])));
    // An added requirement flips the decision.
    assert!(!lf.is_compatible_including_local_rpms(&cfg, &strs(&["libc", "openssl"])));
    // A removed requirement flips it too.
    assert!(!lf.is_compatible_including_local_rpms(&cfg, &strs(&[])));
}

#[test]
fn print_updates_reports_update_removal_addition_in_order() {
    let prev = lockfile(&[], vec![pkg("A", "1.0", "d1", "base", None), pkg(
        "B",
        "2.0",
        "d2",
        "base",
        None,
    )], &[]);
    let new = lockfile(&[], vec![pkg("A", "1.1", "d3", "base", None), pkg(
        "C",
        "3.0",
        "d4",
        "base",
        None,
    )], &[]);
    let report = new.print_updates(Some(&prev));
    assert_eq!(report.len(), 3);
    match &report[0] {
        Update::Updating { name, old_evr, new_evr } => {
            assert_eq!(name, "A");
            assert_eq!(old_evr, "1.0");
            assert_eq!(new_evr, "1.1");
        }
        other => panic!("expected an update first, got {:?}", other),
    }
    match &report[1] {
        Update::Removing { name, evr } => {
            assert_eq!(name, "B");
            assert_eq!(evr, "2.0");
        }
        other => panic!("expected a removal second, got {:?}", other),
    }
    match &report[2] {
        Update::Adding { name, evr } => {
            assert_eq!(name, "C");
            assert_eq!(evr, "3.0");
        }
        other => panic!("expected an addition third, got {:?}", other),
    }
}

#[test]
fn print_updates_without_previous_reports_everything_added() {
    let new = lockfile(&[], vec![pkg("X", "1.0", "d", "base", None)], &[]);
    let report = new.print_updates(None);
    assert_eq!(report.len(), 1);
    match &report[0] {
        Update::Adding { name, evr } => {
            assert_eq!(name, "X");
            assert_eq!(evr, "1.0");
        }
        other => panic!("expected an addition, got {:?}", other),
    }
}

#[test]
fn print_updates_is_silent_for_unchanged_versions() {
    let prev = lockfile(&[], vec![pkg("A", "1.0", "d1", "base", None)], &[]);
    let new = lockfile(&[], vec![pkg("A", "1.0", "d1", "base", None)], &[]);
    assert_eq!(new.print_updates(Some(&prev)).len(), 0);
}

#[test]
fn checksum_equality_is_exact() {
    let a = Checksum::new(Algorithm::SHA256, "abcd".to_string());
    let upper = Checksum::new(Algorithm::SHA256, "ABCD".to_string());
    let other_alg = Checksum::new(Algorithm::SHA512, "abcd".to_string());
    assert!(a.matches(&Checksum::new(Algorithm::SHA256, "abcd".to_string())));
    assert!(!a.matches(&upper));
    assert!(!a.matches(&other_alg));
}

#[test]
fn algorithm_serializes_to_lowercase_names() {
    assert_eq!(Algorithm::MD5.as_str(), "md5");
    assert_eq!(Algorithm::SHA1.as_str(), "sha1");
    assert_eq!(Algorithm::SHA256.as_str(), "sha256");
    assert_eq!(Algorithm::SHA384.as_str(), "sha384");
    assert_eq!(Algorithm::SHA512.as_str(), "sha512");
}

#[test]
fn accessors_expose_stored_values() {
    let mut lf = lockfile(&["curl"], vec![pkg("A", "1.0", "d1", "base", Some("x86_64"))], &[
        "https://k",
    ]);
    lf.local_packages = vec![LocalPackage::new("mylib".to_string(), strs(&["libc"]))];
    lf.repo_gpg_config = vec![RepoEntry {
        repoid: "base".to_string(),
        info: RepoKeyInfo::new(true, strs(&["KEYDATA"])),
    }];
    assert_eq!(lf.pkg_specs(), &strs(&["curl"]));
    assert_eq!(lf.iter_packages().len(), 1);
    assert_eq!(lf.iter_packages()[0].name, "A");
    assert_eq!(lf.local_packages()[0].name(), "mylib");
    assert_eq!(lf.local_packages()[0].requirements(), &strs(&["libc"]));
    assert!(lf.repo_gpg_config()[0].info.gpgcheck());
    assert_eq!(lf.repo_gpg_config()[0].info.keys(), &strs(&["KEYDATA"]));
    assert_eq!(lf.global_key_specs(), &strs(&["https://k"]));
}
