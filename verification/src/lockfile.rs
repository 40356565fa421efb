//! The lockfile data model and its compatibility decision.
//!
//! A [`Lockfile`] pins a resolved dependency set: the declared package
//! specs, the resolved remote packages, the requirement sets of locally
//! supplied RPMs, the per-repository GPG policy and the declared global
//! key sources.  The entity collections are kept strictly sorted in
//! their natural order, so a lockfile serializes deterministically.
//!
//! Local packages are pinned only by name and declared requirements:
//! neither the on-disk path nor the embedded version is recorded, so a
//! local RPM may be rebuilt with a new version without invalidating the
//! lockfile, as long as its requirements are unchanged.

use vstd::prelude::*;
use vstd::string::StringExecFns;
use crate::order::{
    chars_lt, str_seq_lt, str_eq, str_vec_cmp, str_vec_eq, lemma_str_seq_lt_asym,
    lemma_str_seq_lt_total, lemma_str_seq_lt_trans,
};

verus! {

/// Checksum algorithms supported by RPM.
#[derive(Clone, Copy, PartialEq, Eq, Structural, Debug)]
pub enum Algorithm {
    /// The MD5 algorithm
    MD5,
    /// The SHA1 algorithm
    SHA1,
    /// The SHA256 algorithm
    SHA256,
    /// The SHA384 algorithm
    SHA384,
    /// The SHA512 algorithm
    SHA512,
}

/// The lowercase name under which an algorithm serializes.
pub open spec fn alg_name(a: Algorithm) -> Seq<char> {
    match a {
        Algorithm::MD5 => "md5"@,
        Algorithm::SHA1 => "sha1"@,
        Algorithm::SHA256 => "sha256"@,
        Algorithm::SHA384 => "sha384"@,
        Algorithm::SHA512 => "sha512"@,
    }
}

/// Distinct algorithms have distinct serialized names.
pub proof fn lemma_alg_name_injective(x: Algorithm, y: Algorithm)
    requires
        alg_name(x) == alg_name(y),
    ensures
        x == y,
{
    reveal_strlit("md5");
    reveal_strlit("sha1");
    reveal_strlit("sha256");
    reveal_strlit("sha384");
    reveal_strlit("sha512");
    assert("md5"@.len() == 3);
    assert("sha1"@.len() == 4);
    assert("sha256"@.len() == 6);
    assert("sha384"@.len() == 6);
    assert("sha512"@.len() == 6);
    assert("sha256"@[3] == '2');
    assert("sha384"@[3] == '3');
    assert("sha512"@[3] == '5');
    if x != y {
        assert(false);
    }
}

impl Algorithm {
    /// The lowercase name under which this algorithm serializes.
    pub fn as_str(&self) -> (r: &'static str)
        ensures
            r@ == alg_name(*self),
    {
        match self {
            Algorithm::MD5 => "md5",
            Algorithm::SHA1 => "sha1",
            Algorithm::SHA256 => "sha256",
            Algorithm::SHA384 => "sha384",
            Algorithm::SHA512 => "sha512",
        }
    }
}

/// Checksum of an RPM package artifact.
#[derive(Clone, Debug)]
pub struct Checksum {
    /// The algorithm of the checksum
    pub algorithm: Algorithm,
    /// The checksum value
    pub checksum: String,
}

/// Mathematical model of a [`Checksum`].
#[verifier::ext_equal]
pub struct ChecksumModel {
    pub algorithm: Algorithm,
    pub digest: Seq<char>,
}

impl View for Checksum {
    type V = ChecksumModel;

    open spec fn view(&self) -> ChecksumModel {
        ChecksumModel { algorithm: self.algorithm, digest: self.checksum@ }
    }
}

impl DeepView for Checksum {
    type V = ChecksumModel;

    open spec fn deep_view(&self) -> ChecksumModel {
        self.view()
    }
}

impl Checksum {
    /// Builds a checksum from an algorithm tag and a digest string.
    /// The digest is kept exactly as given: no case normalization is
    /// performed, and equality of checksums is exact string equality.
    pub fn new(algorithm: Algorithm, checksum: String) -> (r: Checksum)
        ensures
            r@ == (ChecksumModel { algorithm, digest: checksum@ }),
    {
        Checksum { algorithm, checksum }
    }

    /// The algorithm of the checksum.
    pub fn algorithm(&self) -> (r: Algorithm)
        ensures
            r == self@.algorithm,
    {
        self.algorithm
    }

    /// The recorded digest string.
    pub fn digest(&self) -> (r: &String)
        ensures
            r@ == self@.digest,
    {
        &self.checksum
    }

    /// Exact equality of checksums: both the algorithm and the digest
    /// must match; no cross-algorithm equivalence is inferred.
    pub fn matches(&self, other: &Checksum) -> (r: bool)
        ensures
            r == (self@ == other@),
    {
        let same = self.algorithm == other.algorithm && str_eq(
            self.checksum.as_str(),
            other.checksum.as_str(),
        );
        proof {
            if same {
                assert(self@ =~= other@);
            }
        }
        same
    }
}

/// A resolved remote package.
#[derive(Clone, Debug)]
pub struct Package {
    /// The package name
    pub name: String,
    /// The package epoch-version-release
    pub evr: String,
    /// The package checksum
    pub checksum: Checksum,
    /// The id of the package's repository
    pub repoid: String,
    /// The architecture of the package.
    /// Optional to support older lockfiles: when absent it means
    /// "unknown", never a guessed default.
    pub arch: Option<String>,
}

/// Mathematical model of a [`Package`].
#[verifier::ext_equal]
pub struct PackageModel {
    pub name: Seq<char>,
    pub evr: Seq<char>,
    pub checksum: ChecksumModel,
    pub repoid: Seq<char>,
    pub arch: Option<Seq<char>>,
}

impl View for Package {
    type V = PackageModel;

    open spec fn view(&self) -> PackageModel {
        PackageModel {
            name: self.name@,
            evr: self.evr@,
            checksum: self.checksum@,
            repoid: self.repoid@,
            arch: match self.arch {
                Option::Some(a) => Option::Some(a@),
                Option::None => Option::None,
            },
        }
    }
}

impl DeepView for Package {
    type V = PackageModel;

    open spec fn deep_view(&self) -> PackageModel {
        self.view()
    }
}

/// The comparison key of a package: its fields in significance order,
/// with the architecture last and an absent architecture ordering
/// before any present one.
pub open spec fn pkg_key(p: PackageModel) -> Seq<Seq<char>> {
    let base = seq![p.name, p.evr, alg_name(p.checksum.algorithm), p.checksum.digest, p.repoid];
    match p.arch {
        Option::Some(a) => base.push(a),
        Option::None => base,
    }
}

/// The natural strict order of packages: lexicographic over the fields
/// in the order name, evr, checksum (algorithm, digest), repoid, arch.
pub open spec fn pkg_lt(a: PackageModel, b: PackageModel) -> bool {
    str_seq_lt(pkg_key(a), pkg_key(b))
}

/// Packages with equal comparison keys are equal.
pub proof fn lemma_pkg_key_injective(a: PackageModel, b: PackageModel)
    requires
        pkg_key(a) == pkg_key(b),
    ensures
        a == b,
{
    assert(pkg_key(a)[0] == pkg_key(b)[0]);
    assert(pkg_key(a)[1] == pkg_key(b)[1]);
    assert(pkg_key(a)[2] == pkg_key(b)[2]);
    assert(pkg_key(a)[3] == pkg_key(b)[3]);
    assert(pkg_key(a)[4] == pkg_key(b)[4]);
    lemma_alg_name_injective(a.checksum.algorithm, b.checksum.algorithm);
    assert(a.checksum =~= b.checksum);
    if a.arch is Some {
        assert(pkg_key(a)[5] == pkg_key(b)[5]);
    }
    assert(a =~= b);
}

/// The package order is asymmetric, and ordered packages are unequal.
pub proof fn lemma_pkg_lt_asym(a: PackageModel, b: PackageModel)
    requires
        pkg_lt(a, b),
    ensures
        !pkg_lt(b, a),
        a != b,
{
    lemma_str_seq_lt_asym(pkg_key(a), pkg_key(b));
}

/// Any two packages are ordered or equal.
pub proof fn lemma_pkg_lt_total(a: PackageModel, b: PackageModel)
    ensures
        pkg_lt(a, b) || a == b || pkg_lt(b, a),
{
    lemma_str_seq_lt_total(pkg_key(a), pkg_key(b));
    if pkg_key(a) == pkg_key(b) {
        lemma_pkg_key_injective(a, b);
    }
}

/// The package order is transitive.
pub proof fn lemma_pkg_lt_trans(a: PackageModel, b: PackageModel, c: PackageModel)
    requires
        pkg_lt(a, b),
        pkg_lt(b, c),
    ensures
        pkg_lt(a, c),
{
    lemma_str_seq_lt_trans(pkg_key(a), pkg_key(b), pkg_key(c));
}

/// Clones a string vector, preserving the element views.
pub fn clone_string_vec(v: &Vec<String>) -> (r: Vec<String>)
    ensures
        r.deep_view() == v.deep_view(),
{
    let mut r: Vec<String> = Vec::new();
    let mut i: usize = 0;
    while i < v.len()
        invariant
            0 <= i <= v.len(),
            r@.len() == i,
            forall|j: int| 0 <= j < i ==> #[trigger] r@[j]@ == v@[j]@,
        decreases v.len() - i,
    {
        r.push(v[i].clone());
        i = i + 1;
    }
    proof {
        assert forall|j: int| 0 <= j < v@.len() implies r.deep_view()[j] == v.deep_view()[j] by {
            assert(r@[j]@ == v@[j]@);
        }
        assert(r.deep_view() =~= v.deep_view());
    }
    r
}

/// The comparison key of a package, as an executable value.
fn pkg_key_exec(p: &Package) -> (r: Vec<String>)
    ensures
        r.deep_view() == pkg_key(p@),
{
    let mut v: Vec<String> = Vec::new();
    v.push(p.name.clone());
    v.push(p.evr.clone());
    v.push(String::from_str(p.checksum.algorithm.as_str()));
    v.push(p.checksum.checksum.clone());
    v.push(p.repoid.clone());
    match &p.arch {
        Option::Some(a) => {
            v.push(a.clone());
        },
        Option::None => {},
    }
    proof {
        assert(v.deep_view() =~= pkg_key(p@));
    }
    v
}

/// Three-way comparison of packages under their natural order.
pub fn pkg_cmp(a: &Package, b: &Package) -> (r: i8)
    ensures
        -1 <= r <= 1,
        (r == -1) <==> pkg_lt(a@, b@),
        (r == 0) <==> a@ == b@,
        (r == 1) <==> pkg_lt(b@, a@),
{
    let ka = pkg_key_exec(a);
    let kb = pkg_key_exec(b);
    let r = str_vec_cmp(&ka, &kb);
    proof {
        if r == 0 {
            lemma_pkg_key_injective(a@, b@);
        }
    }
    r
}

/// A package that the user supplied as an on-disk artifact.
///
/// Only the name and the declared requirements are pinned; the path and
/// the embedded version are deliberately not recorded, so that a local
/// RPM can be rebuilt without re-resolving as long as its requirements
/// are unchanged.
#[derive(Clone, Debug)]
pub struct LocalPackage {
    /// The package name
    pub name: String,
    /// The RPM requires
    pub requirements: Vec<String>,
}

/// Mathematical model of a [`LocalPackage`].
#[verifier::ext_equal]
pub struct LocalPackageModel {
    pub name: Seq<char>,
    pub requirements: Seq<Seq<char>>,
}

impl View for LocalPackage {
    type V = LocalPackageModel;

    open spec fn view(&self) -> LocalPackageModel {
        LocalPackageModel { name: self.name@, requirements: self.requirements.deep_view() }
    }
}

impl DeepView for LocalPackage {
    type V = LocalPackageModel;

    open spec fn deep_view(&self) -> LocalPackageModel {
        self.view()
    }
}

impl LocalPackage {
    /// Builds a local-package record from a name and its declared
    /// requirement strings, kept in the given order.
    pub fn new(name: String, requirements: Vec<String>) -> (r: LocalPackage)
        ensures
            r@ == (LocalPackageModel { name: name@, requirements: requirements.deep_view() }),
    {
        LocalPackage { name, requirements }
    }

    /// The package name.
    pub fn name(&self) -> (r: &String)
        ensures
            r@ == self@.name,
    {
        &self.name
    }

    /// The declared requirement strings.
    pub fn requirements(&self) -> (r: &Vec<String>)
        ensures
            r.deep_view() == self@.requirements,
    {
        &self.requirements
    }
}

/// The comparison key of a local package: its name followed by its
/// requirement strings.
pub open spec fn lp_key(p: LocalPackageModel) -> Seq<Seq<char>> {
    seq![p.name] + p.requirements
}

/// The natural strict order of local packages: by name, then by the
/// requirement sequences.
pub open spec fn lp_lt(a: LocalPackageModel, b: LocalPackageModel) -> bool {
    str_seq_lt(lp_key(a), lp_key(b))
}

/// Local packages with equal comparison keys are equal.
pub proof fn lemma_lp_key_injective(a: LocalPackageModel, b: LocalPackageModel)
    requires
        lp_key(a) == lp_key(b),
    ensures
        a == b,
{
    assert(lp_key(a)[0] == lp_key(b)[0]);
    assert(lp_key(a).len() == 1 + a.requirements.len());
    assert(lp_key(b).len() == 1 + b.requirements.len());
    assert forall|i: int| 0 <= i < a.requirements.len() implies a.requirements[i]
        == b.requirements[i] by {
        assert(lp_key(a)[i + 1] == a.requirements[i]);
        assert(lp_key(b)[i + 1] == b.requirements[i]);
    }
    assert(a.requirements =~= b.requirements);
    assert(a =~= b);
}

/// The local-package order is asymmetric, and ordered records are unequal.
pub proof fn lemma_lp_lt_asym(a: LocalPackageModel, b: LocalPackageModel)
    requires
        lp_lt(a, b),
    ensures
        !lp_lt(b, a),
        a != b,
{
    lemma_str_seq_lt_asym(lp_key(a), lp_key(b));
}

/// Any two local packages are ordered or equal.
pub proof fn lemma_lp_lt_total(a: LocalPackageModel, b: LocalPackageModel)
    ensures
        lp_lt(a, b) || a == b || lp_lt(b, a),
{
    lemma_str_seq_lt_total(lp_key(a), lp_key(b));
    if lp_key(a) == lp_key(b) {
        lemma_lp_key_injective(a, b);
    }
}

/// The local-package order is transitive.
pub proof fn lemma_lp_lt_trans(a: LocalPackageModel, b: LocalPackageModel, c: LocalPackageModel)
    requires
        lp_lt(a, b),
        lp_lt(b, c),
    ensures
        lp_lt(a, c),
{
    lemma_str_seq_lt_trans(lp_key(a), lp_key(b), lp_key(c));
}

/// The comparison key of a local package, as an executable value.
fn lp_key_exec(p: &LocalPackage) -> (r: Vec<String>)
    ensures
        r.deep_view() == lp_key(p@),
{
    let mut v: Vec<String> = Vec::new();
    v.push(p.name.clone());
    let mut i: usize = 0;
    while i < p.requirements.len()
        invariant
            0 <= i <= p.requirements.len(),
            v@.len() == i + 1,
            v@[0]@ == p.name@,
            forall|j: int| 0 <= j < i ==> #[trigger] v@[j + 1]@ == p.requirements@[j]@,
        decreases p.requirements.len() - i,
    {
        v.push(p.requirements[i].clone());
        i = i + 1;
    }
    proof {
        assert(lp_key(p@).len() == 1 + p@.requirements.len());
        assert forall|j: int| 0 <= j < v@.len() implies v.deep_view()[j] == lp_key(p@)[j] by {
            if j == 0 {
                assert(lp_key(p@)[0] == p@.name);
            } else {
                assert(lp_key(p@)[j] == p@.requirements[j - 1]);
                assert(p@.requirements[j - 1] == p.requirements@[j - 1]@);
                assert(v@[(j - 1) + 1]@ == p.requirements@[j - 1]@);
            }
        }
        assert(v.deep_view() =~= lp_key(p@));
    }
    v
}

/// Three-way comparison of local packages under their natural order.
pub fn lp_cmp(a: &LocalPackage, b: &LocalPackage) -> (r: i8)
    ensures
        -1 <= r <= 1,
        (r == -1) <==> lp_lt(a@, b@),
        (r == 0) <==> a@ == b@,
        (r == 1) <==> lp_lt(b@, a@),
{
    let ka = lp_key_exec(a);
    let kb = lp_key_exec(b);
    let r = str_vec_cmp(&ka, &kb);
    proof {
        if r == 0 {
            lemma_lp_key_injective(a@, b@);
        }
    }
    r
}

/// GPG trust policy for one repository.
#[derive(Clone, Debug)]
pub struct RepoKeyInfo {
    /// Is GPG checking enabled for this repository
    pub gpgcheck: bool,
    /// Contents of any keys specified via repository configuration
    pub keys: Vec<String>,
}

/// Mathematical model of a [`RepoKeyInfo`].
#[verifier::ext_equal]
pub struct RepoKeyInfoModel {
    pub gpgcheck: bool,
    pub keys: Seq<Seq<char>>,
}

impl View for RepoKeyInfo {
    type V = RepoKeyInfoModel;

    open spec fn view(&self) -> RepoKeyInfoModel {
        RepoKeyInfoModel { gpgcheck: self.gpgcheck, keys: self.keys.deep_view() }
    }
}

impl DeepView for RepoKeyInfo {
    type V = RepoKeyInfoModel;

    open spec fn deep_view(&self) -> RepoKeyInfoModel {
        self.view()
    }
}

impl RepoKeyInfo {
    /// Builds a repository trust policy from its gpgcheck flag and key
    /// material.
    pub fn new(gpgcheck: bool, keys: Vec<String>) -> (r: RepoKeyInfo)
        ensures
            r@ == (RepoKeyInfoModel { gpgcheck, keys: keys.deep_view() }),
    {
        RepoKeyInfo { gpgcheck, keys }
    }

    /// Whether signature checking is required for this repository.
    pub fn gpgcheck(&self) -> (r: bool)
        ensures
            r == self@.gpgcheck,
    {
        self.gpgcheck
    }

    /// The configured key material.
    pub fn keys(&self) -> (r: &Vec<String>)
        ensures
            r.deep_view() == self@.keys,
    {
        &self.keys
    }
}

/// One entry of the repository trust map: a repository id and its policy.
#[derive(Clone, Debug)]
pub struct RepoEntry {
    /// The repository id
    pub repoid: String,
    /// The repository's trust policy
    pub info: RepoKeyInfo,
}

/// Mathematical model of a [`RepoEntry`].
#[verifier::ext_equal]
pub struct RepoEntryModel {
    pub repoid: Seq<char>,
    pub info: RepoKeyInfoModel,
}

impl View for RepoEntry {
    type V = RepoEntryModel;

    open spec fn view(&self) -> RepoEntryModel {
        RepoEntryModel { repoid: self.repoid@, info: self.info@ }
    }
}

impl DeepView for RepoEntry {
    type V = RepoEntryModel;

    open spec fn deep_view(&self) -> RepoEntryModel {
        self.view()
    }
}

/// The declared configuration that a lockfile is checked against: the
/// ordered package specs and the ordered global GPG key-source URLs.
/// The lockfile subsystem only reads it.
#[derive(Clone, Debug)]
pub struct Config {
    /// The declared package specs, in declaration order
    pub packages: Vec<String>,
    /// The declared global GPG key-source URLs, in declaration order
    pub gpgkeys: Vec<String>,
}

/// Mathematical model of a [`Config`].
#[verifier::ext_equal]
pub struct ConfigModel {
    pub packages: Seq<Seq<char>>,
    pub gpgkeys: Seq<Seq<char>>,
}

impl View for Config {
    type V = ConfigModel;

    open spec fn view(&self) -> ConfigModel {
        ConfigModel { packages: self.packages.deep_view(), gpgkeys: self.gpgkeys.deep_view() }
    }
}

/// An rpm lockfile: the pinned record of a fully resolved dependency
/// set together with the declared inputs that produced it.
#[derive(Clone, Debug)]
pub struct Lockfile {
    pub pkg_specs: Vec<String>,
    pub packages: Vec<Package>,
    pub local_packages: Vec<LocalPackage>,
    pub repo_gpg_config: Vec<RepoEntry>,
    pub global_key_specs: Vec<String>,
}

/// Mathematical model of a [`Lockfile`].
#[verifier::ext_equal]
pub struct LockfileModel {
    pub pkg_specs: Seq<Seq<char>>,
    pub packages: Seq<PackageModel>,
    pub local_packages: Seq<LocalPackageModel>,
    pub repo_gpg_config: Seq<RepoEntryModel>,
    pub global_key_specs: Seq<Seq<char>>,
}

impl View for Lockfile {
    type V = LockfileModel;

    open spec fn view(&self) -> LockfileModel {
        LockfileModel {
            pkg_specs: self.pkg_specs.deep_view(),
            packages: self.packages.deep_view(),
            local_packages: self.local_packages.deep_view(),
            repo_gpg_config: self.repo_gpg_config.deep_view(),
            global_key_specs: self.global_key_specs.deep_view(),
        }
    }
}

/// The entity collections of a well-formed lockfile are strictly
/// sorted in their natural orders: packages and local packages by their
/// full comparison keys, repository entries by repository id.  Strict
/// sortedness both fixes the serialization order and rules out
/// duplicate entries.
pub open spec fn lockfile_wf(m: LockfileModel) -> bool {
    &&& forall|i: int, j: int|
        0 <= i < j < m.packages.len() ==> pkg_lt(#[trigger] m.packages[i], #[trigger] m.packages[j])
    &&& forall|i: int, j: int|
        0 <= i < j < m.local_packages.len() ==> lp_lt(
            #[trigger] m.local_packages[i],
            #[trigger] m.local_packages[j],
        )
    &&& forall|i: int, j: int|
        0 <= i < j < m.repo_gpg_config.len() ==> chars_lt(
            #[trigger] m.repo_gpg_config[i].repoid,
            #[trigger] m.repo_gpg_config[j].repoid,
        )
}

/// The narrow compatibility decision: the declared package specs and
/// global key sources match the recorded ones exactly, element for
/// element and in order.
pub open spec fn compatible_excluding_local_rpms(m: LockfileModel, cfg: ConfigModel) -> bool {
    m.pkg_specs == cfg.packages && m.global_key_specs == cfg.gpgkeys
}

/// Whether the local package `lp` declares the requirement `x`.
pub open spec fn lp_declares(lp: LocalPackageModel, x: Seq<char>) -> bool {
    lp.requirements.contains(x)
}

/// Whether some stored local package declares the requirement `x`.
pub open spec fn in_local_requires(lps: Seq<LocalPackageModel>, x: Seq<char>) -> bool {
    exists|i: int| 0 <= i < lps.len() && #[trigger] lp_declares(lps[i], x)
}

/// Whether the requirement strings recomputed from the local RPM inputs
/// are set-equal to the union of the stored local packages' requirement
/// sets.
pub open spec fn local_requires_match(lps: Seq<LocalPackageModel>, scanned: Seq<Seq<char>>) -> bool {
    forall|x: Seq<char>| #[trigger] scanned.contains(x) <==> in_local_requires(lps, x)
}

/// The broad compatibility decision: the narrow one, and the freshly
/// scanned local-RPM requirements are set-equal to the stored ones.
pub open spec fn compatible_including_local_rpms(
    m: LockfileModel,
    cfg: ConfigModel,
    scanned: Seq<Seq<char>>,
) -> bool {
    compatible_excluding_local_rpms(m, cfg) && local_requires_match(m.local_packages, scanned)
}

/// The broad compatibility check never passes while the narrow one
/// fails.
pub proof fn lemma_including_implies_excluding(
    m: LockfileModel,
    cfg: ConfigModel,
    scanned: Seq<Seq<char>>,
)
    ensures
        compatible_including_local_rpms(m, cfg, scanned)
            ==> compatible_excluding_local_rpms(m, cfg),
{
}

/// The broad compatibility decision depends on the scanned local-RPM
/// requirements only as a set: two scans with the same requirement set
/// decide alike.  In particular, rebuilding a local RPM so that only
/// its embedded version changes cannot change the decision, since the
/// version feeds into neither the lockfile nor the scan result.
pub proof fn lemma_scan_set_determines_compatibility(
    m: LockfileModel,
    cfg: ConfigModel,
    scanned1: Seq<Seq<char>>,
    scanned2: Seq<Seq<char>>,
)
    requires
        forall|x: Seq<char>| #[trigger] scanned1.contains(x) <==> #[trigger] scanned2.contains(x),
    ensures
        compatible_including_local_rpms(m, cfg, scanned1) == compatible_including_local_rpms(
            m,
            cfg,
            scanned2,
        ),
{
    if local_requires_match(m.local_packages, scanned1) {
        assert forall|x: Seq<char>| #[trigger] scanned2.contains(x) <==> in_local_requires(
            m.local_packages,
            x,
        ) by {
            assert(scanned1.contains(x) <==> scanned2.contains(x));
        }
    }
    if local_requires_match(m.local_packages, scanned2) {
        assert forall|x: Seq<char>| #[trigger] scanned1.contains(x) <==> in_local_requires(
            m.local_packages,
            x,
        ) by {
            assert(scanned1.contains(x) <==> scanned2.contains(x));
        }
    }
}

/// Changing a local RPM's declared requirements flips the broad
/// compatibility decision to false: if a lockfile was compatible with a
/// scan, any scan whose requirement set differs is incompatible.
pub proof fn lemma_requires_change_flips(
    m: LockfileModel,
    cfg: ConfigModel,
    scanned1: Seq<Seq<char>>,
    scanned2: Seq<Seq<char>>,
    witness: Seq<char>,
)
    requires
        compatible_including_local_rpms(m, cfg, scanned1),
        scanned1.contains(witness) != scanned2.contains(witness),
    ensures
        !compatible_including_local_rpms(m, cfg, scanned2),
{
    assert(scanned1.contains(witness) <==> in_local_requires(m.local_packages, witness));
}

/// Whether `v` holds a string whose view is `x`.
fn vec_contains_str(v: &Vec<String>, s: &String) -> (r: bool)
    ensures
        r == v.deep_view().contains(s@),
{
    let mut i: usize = 0;
    while i < v.len()
        invariant
            0 <= i <= v.len(),
            forall|j: int| 0 <= j < i ==> v.deep_view()[j] != s@,
        decreases v.len() - i,
    {
        proof {
            assert(v.deep_view()[i as int] == v@[i as int]@);
        }
        if str_eq(v[i].as_str(), s.as_str()) {
            proof {
                assert(v.deep_view()[i as int] == s@);
            }
            return true;
        }
        i = i + 1;
    }
    proof {
        if v.deep_view().contains(s@) {
            let j = choose|j: int| 0 <= j < v.deep_view().len() && v.deep_view()[j] == s@;
            assert(v.deep_view()[j] != s@);
        }
    }
    false
}

/// Whether any stored local package declares the requirement `s`.
fn local_requires_contain(lps: &Vec<LocalPackage>, s: &String) -> (r: bool)
    ensures
        r == in_local_requires(lps.deep_view(), s@),
{
    let mut i: usize = 0;
    while i < lps.len()
        invariant
            0 <= i <= lps.len(),
            forall|j: int| 0 <= j < i ==> !(#[trigger] lp_declares(lps.deep_view()[j], s@)),
        decreases lps.len() - i,
    {
        proof {
            assert(lps.deep_view()[i as int] == lps@[i as int]@);
        }
        if vec_contains_str(&lps[i].requirements, s) {
            proof {
                assert(lp_declares(lps.deep_view()[i as int], s@));
            }
            return true;
        }
        i = i + 1;
    }
    proof {
        if in_local_requires(lps.deep_view(), s@) {
            let j = choose|j: int|
                0 <= j < lps.deep_view().len() && #[trigger] lp_declares(lps.deep_view()[j], s@);
            assert(!lp_declares(lps.deep_view()[j], s@));
        }
    }
    false
}

impl Lockfile {
    /// Returns true iff the lockfile is compatible with the given
    /// configuration, considering only the declared package specs and
    /// global key sources.
    ///
    /// Local RPMs are not considered, so the check needs no filesystem
    /// access and can run before any local artifact is present.
    #[must_use]
    pub fn is_compatible_excluding_local_rpms(&self, cfg: &Config) -> (r: bool)
        ensures
            r == compatible_excluding_local_rpms(self@, cfg@),
    {
        str_vec_eq(&self.pkg_specs, &cfg.packages) && str_vec_eq(
            &self.global_key_specs,
            &cfg.gpgkeys,
        )
    }

    /// Returns true iff the lockfile is compatible with the given
    /// configuration, additionally requiring the requirement strings
    /// freshly recomputed from the local RPM inputs (`scanned`) to be
    /// set-equal to the stored local packages' requirements.
    ///
    /// The caller performs the scan; a scan failure is the caller's
    /// hard error and never reaches this decision.
    pub fn is_compatible_including_local_rpms(&self, cfg: &Config, scanned: &Vec<String>) -> (r:
        bool)
        ensures
            r == compatible_including_local_rpms(self@, cfg@, scanned.deep_view()),
    {
        if !self.is_compatible_excluding_local_rpms(cfg) {
            return false;
        }
        // Every scanned requirement must be declared by some stored
        // local package.
        let mut i: usize = 0;
        while i < scanned.len()
            invariant
                0 <= i <= scanned.len(),
                forall|j: int|
                    0 <= j < i ==> in_local_requires(
                        self.local_packages.deep_view(),
                        #[trigger] scanned.deep_view()[j],
                    ),
            decreases scanned.len() - i,
        {
            proof {
                assert(scanned.deep_view()[i as int] == scanned@[i as int]@);
            }
            if !local_requires_contain(&self.local_packages, &scanned[i]) {
                proof {
                    assert(scanned.deep_view().contains(scanned.deep_view()[i as int]));
                }
                return false;
            }
            i = i + 1;
        }
        // Every stored requirement must have been found by the scan.
        let mut k: usize = 0;
        while k < self.local_packages.len()
            invariant
                0 <= k <= self.local_packages.len(),
                forall|j: int, x: Seq<char>|
                    0 <= j < k && #[trigger] lp_declares(self.local_packages.deep_view()[j], x)
                        ==> scanned.deep_view().contains(x),
            decreases self.local_packages.len() - k,
        {
            proof {
                assert(self.local_packages.deep_view()[k as int] == self.local_packages@[k as int]@);
            }
            let reqs = &self.local_packages[k].requirements;
            let mut t: usize = 0;
            while t < reqs.len()
                invariant
                    0 <= t <= reqs.len(),
                    k < self.local_packages.len(),
                    reqs.deep_view() == self.local_packages.deep_view()[k as int].requirements,
                    forall|j: int|
                        0 <= j < t ==> scanned.deep_view().contains(
                            #[trigger] reqs.deep_view()[j],
                        ),
                decreases reqs.len() - t,
            {
                proof {
                    assert(reqs.deep_view()[t as int] == reqs@[t as int]@);
                }
                if !vec_contains_str(scanned, &reqs[t]) {
                    proof {
                        let lps = self.local_packages.deep_view();
                        let x = reqs.deep_view()[t as int];
                        assert(reqs.deep_view().contains(x));
                        assert(lps.len() == self.local_packages@.len());
                        assert(lp_declares(lps[k as int], x));
                        assert(in_local_requires(lps, x));
                        assert(!scanned.deep_view().contains(x));
                    }
                    return false;
                }
                t = t + 1;
            }
            proof {
                assert forall|x: Seq<char>|
                    #[trigger] lp_declares(self.local_packages.deep_view()[k as int], x)
                        implies scanned.deep_view().contains(x) by {
                    let j = choose|j: int|
                        0 <= j < reqs.deep_view().len() && reqs.deep_view()[j] == x;
                    assert(scanned.deep_view().contains(reqs.deep_view()[j]));
                }
            }
            k = k + 1;
        }
        proof {
            assert forall|x: Seq<char>| #[trigger] scanned.deep_view().contains(x) implies
                in_local_requires(self.local_packages.deep_view(), x) by {
                let j = choose|j: int|
                    0 <= j < scanned.deep_view().len() && scanned.deep_view()[j] == x;
                assert(in_local_requires(self.local_packages.deep_view(), scanned.deep_view()[j]));
            }
            assert forall|x: Seq<char>| in_local_requires(self.local_packages.deep_view(), x)
                implies scanned.deep_view().contains(x) by {
                let j = choose|j: int|
                    0 <= j < self.local_packages.deep_view().len()
                        && #[trigger] lp_declares(self.local_packages.deep_view()[j], x);
            }
        }
        true
    }

    /// The resolved remote packages, in their natural order.
    pub fn iter_packages(&self) -> (r: &Vec<Package>)
        ensures
            r.deep_view() == self@.packages,
    {
        &self.packages
    }

    /// The declared package specs, in declaration order.
    pub fn pkg_specs(&self) -> (r: &Vec<String>)
        ensures
            r.deep_view() == self@.pkg_specs,
    {
        &self.pkg_specs
    }

    /// The stored local packages, in their natural order.
    pub fn local_packages(&self) -> (r: &Vec<LocalPackage>)
        ensures
            r.deep_view() == self@.local_packages,
    {
        &self.local_packages
    }

    /// The per-repository GPG policy, ordered by repository id.
    pub fn repo_gpg_config(&self) -> (r: &Vec<RepoEntry>)
        ensures
            r.deep_view() == self@.repo_gpg_config,
    {
        &self.repo_gpg_config
    }

    /// The declared global key-source URLs, in declaration order.
    pub fn global_key_specs(&self) -> (r: &Vec<String>)
        ensures
            r.deep_view() == self@.global_key_specs,
    {
        &self.global_key_specs
    }

    /// Equality of lockfiles in all fields, by their models.
    pub fn same_as(&self, other: &Lockfile) -> (r: bool)
        ensures
            r == (self@ == other@),
    {
        let r = str_vec_eq(&self.pkg_specs, &other.pkg_specs) && pkg_vec_eq(
            &self.packages,
            &other.packages,
        ) && lp_vec_eq(&self.local_packages, &other.local_packages) && repo_vec_eq(
            &self.repo_gpg_config,
            &other.repo_gpg_config,
        ) && str_vec_eq(&self.global_key_specs, &other.global_key_specs);
        proof {
            if r {
                assert(self@ =~= other@);
            }
        }
        r
    }
}

/// Equality of package vectors, by their element models.
fn pkg_vec_eq(a: &Vec<Package>, b: &Vec<Package>) -> (r: bool)
    ensures
        r == (a.deep_view() == b.deep_view()),
{
    if a.len() != b.len() {
        proof {
            assert(a.deep_view().len() == a@.len());
            assert(b.deep_view().len() == b@.len());
        }
        return false;
    }
    let mut i: usize = 0;
    while i < a.len()
        invariant
            0 <= i <= a.len(),
            a@.len() == b@.len(),
            forall|j: int| 0 <= j < i ==> a.deep_view()[j] == b.deep_view()[j],
        decreases a.len() - i,
    {
        proof {
            assert(a.deep_view()[i as int] == a@[i as int]@);
            assert(b.deep_view()[i as int] == b@[i as int]@);
        }
        if pkg_cmp(&a[i], &b[i]) != 0 {
            proof {
                if a.deep_view() == b.deep_view() {
                    assert(a.deep_view()[i as int] == b.deep_view()[i as int]);
                }
            }
            return false;
        }
        i = i + 1;
    }
    proof {
        assert(a.deep_view() =~= b.deep_view());
    }
    true
}

/// Equality of local-package vectors, by their element models.
fn lp_vec_eq(a: &Vec<LocalPackage>, b: &Vec<LocalPackage>) -> (r: bool)
    ensures
        r == (a.deep_view() == b.deep_view()),
{
    if a.len() != b.len() {
        proof {
            assert(a.deep_view().len() == a@.len());
            assert(b.deep_view().len() == b@.len());
        }
        return false;
    }
    let mut i: usize = 0;
    while i < a.len()
        invariant
            0 <= i <= a.len(),
            a@.len() == b@.len(),
            forall|j: int| 0 <= j < i ==> a.deep_view()[j] == b.deep_view()[j],
        decreases a.len() - i,
    {
        proof {
            assert(a.deep_view()[i as int] == a@[i as int]@);
            assert(b.deep_view()[i as int] == b@[i as int]@);
        }
        if lp_cmp(&a[i], &b[i]) != 0 {
            proof {
                if a.deep_view() == b.deep_view() {
                    assert(a.deep_view()[i as int] == b.deep_view()[i as int]);
                }
            }
            return false;
        }
        i = i + 1;
    }
    proof {
        assert(a.deep_view() =~= b.deep_view());
    }
    true
}

/// Equality of repository-entry vectors, by their element models.
fn repo_vec_eq(a: &Vec<RepoEntry>, b: &Vec<RepoEntry>) -> (r: bool)
    ensures
        r == (a.deep_view() == b.deep_view()),
{
    if a.len() != b.len() {
        proof {
            assert(a.deep_view().len() == a@.len());
            assert(b.deep_view().len() == b@.len());
        }
        return false;
    }
    let mut i: usize = 0;
    while i < a.len()
        invariant
            0 <= i <= a.len(),
            a@.len() == b@.len(),
            forall|j: int| 0 <= j < i ==> a.deep_view()[j] == b.deep_view()[j],
        decreases a.len() - i,
    {
        proof {
            assert(a.deep_view()[i as int] == a@[i as int]@);
            assert(b.deep_view()[i as int] == b@[i as int]@);
        }
        let ea = &a[i];
        let eb = &b[i];
        let same = str_eq(ea.repoid.as_str(), eb.repoid.as_str()) && ea.info.gpgcheck()
            == eb.info.gpgcheck() && str_vec_eq(ea.info.keys(), eb.info.keys());
        if !same {
            proof {
                if a.deep_view() == b.deep_view() {
                    assert(a.deep_view()[i as int] == b.deep_view()[i as int]);
                }
            }
            return false;
        }
        proof {
            assert(a@[i as int]@ =~= b@[i as int]@);
        }
        i = i + 1;
    }
    proof {
        assert(a.deep_view() =~= b.deep_view());
    }
    true
}

} // verus!

