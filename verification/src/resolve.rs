//! Reconciling a resolver response into a fresh lockfile.
//!
//! The dependency solving itself happens outside this crate: the
//! caller invokes the external resolver and hands its structured
//! response over.  Here the response is either turned into a
//! well-formed [`Lockfile`] — entity collections sorted into their
//! natural order and deduplicated, declared specs and key sources
//! copied verbatim from the configuration — or classified into the
//! two failure kinds a caller must distinguish: an unsatisfiable
//! dependency set, and a resolver or environment failure.

use vstd::prelude::*;
use crate::order::{chars_lt, lemma_chars_lt_asym, lemma_chars_lt_trans};
use crate::lockfile::LockfileModel;
use crate::lockfile::{
    clone_string_vec, lemma_pkg_lt_trans, lemma_lp_lt_trans, lockfile_wf, lp_cmp, lp_lt, pkg_cmp,
    pkg_lt, Config, LocalPackage, LocalPackageModel, Lockfile, Package, PackageModel, RepoEntry,
    RepoEntryModel,
};
use crate::order::str_cmp;

verus! {

/// The structured result of a successful external resolution: the
/// resolved remote packages, one requirement record per local RPM
/// input (each recomputed from that RPM's own metadata), and the
/// effective GPG policy of every contributing repository.  Order and
/// duplication are whatever the resolver produced.
pub struct Resolution {
    /// The resolved remote packages
    pub packages: Vec<Package>,
    /// The recomputed local-package requirement records
    pub local_packages: Vec<LocalPackage>,
    /// The effective per-repository GPG configuration
    pub repo_gpg_config: Vec<RepoEntry>,
}

/// A structured response of the external resolver.
pub enum ResolverResponse {
    /// The resolver produced a resolution.
    Resolved(Resolution),
    /// No combination of available packages satisfies the declared
    /// specs and requirements; the message identifies the conflict.
    Unsatisfiable(String),
    /// The resolver could not run or its output could not be read.
    Failure(String),
}

/// A failed resolution, in the two kinds a caller must distinguish:
/// editing the package list can fix the first, only the environment
/// the second.
#[derive(Clone, Debug)]
pub enum ResolveError {
    /// The declared dependency set cannot be satisfied.
    Unsatisfiable(String),
    /// The resolver process or its environment failed.
    Environment(String),
}

/// Strict sortedness of a package sequence.
pub open spec fn pkgs_sorted(s: Seq<PackageModel>) -> bool {
    forall|i: int, j: int| 0 <= i < j < s.len() ==> pkg_lt(#[trigger] s[i], #[trigger] s[j])
}

/// Strict sortedness of a local-package sequence.
pub open spec fn lps_sorted(s: Seq<LocalPackageModel>) -> bool {
    forall|i: int, j: int| 0 <= i < j < s.len() ==> lp_lt(#[trigger] s[i], #[trigger] s[j])
}

/// Strict sortedness of a repository-entry sequence, by repository id.
pub open spec fn repos_sorted(s: Seq<RepoEntryModel>) -> bool {
    forall|i: int, j: int|
        0 <= i < j < s.len() ==> chars_lt((#[trigger] s[i]).repoid, (#[trigger] s[j]).repoid)
}

/// Whether some entry carries the repository id `id`.
pub open spec fn repo_has_key(s: Seq<RepoEntryModel>, id: Seq<char>) -> bool {
    exists|i: int| 0 <= i < s.len() && (#[trigger] s[i]).repoid == id
}

/// Whether `x` stands in `s` as the first entry carrying its
/// repository id.
pub open spec fn first_with_key(s: Seq<RepoEntryModel>, x: RepoEntryModel) -> bool {
    exists|j: int|
        0 <= j < s.len() && (#[trigger] s[j]) == x && (forall|l: int|
            0 <= l < j ==> (#[trigger] s[l]).repoid != x.repoid)
}

/// Inserts a package into a strictly sorted vector, keeping it sorted
/// and dropping the package if an equal one is already present.
#[verifier::rlimit(40)]
pub(crate) fn insert_pkg(v: &mut Vec<Package>, p: Package)
    requires
        pkgs_sorted(old(v).deep_view()),
    ensures
        pkgs_sorted(final(v).deep_view()),
        forall|x: PackageModel|
            #[trigger] final(v).deep_view().contains(x) <==> (old(v).deep_view().contains(x) || x == p@),
{
    let ghost dv0 = v.deep_view();
    let mut i: usize = 0;
    while i < v.len() && pkg_cmp(&v[i], &p) == -1
        invariant
            0 <= i <= v.len(),
            dv0 == v.deep_view(),
            pkgs_sorted(dv0),
            forall|j: int| 0 <= j < i ==> pkg_lt(#[trigger] dv0[j], p@),
        decreases v.len() - i,
    {
        proof {
            assert(v.deep_view()[i as int] == v@[i as int]@);
        }
        i = i + 1;
    }
    proof {
        assert(dv0.len() == v@.len());
        if i < v.len() {
            assert(v.deep_view()[i as int] == v@[i as int]@);
        }
    }
    if i < v.len() {
        let c = pkg_cmp(&v[i], &p);
        if c == 0 {
            proof {
                assert(dv0[i as int] == p@);
                assert(dv0.contains(p@));
            }
            return ;
        }
        proof {
            if c == -1 {
                assert(false);
            }
            assert(pkg_lt(p@, dv0[i as int]));
        }
    }
    let ghost n0 = dv0.len();
    v.insert(i, p);
    proof {
        let dv = v.deep_view();
        assert(v@ == old(v)@.insert(i as int, p));
        old(v)@.insert_ensures(i as int, p);
        assert(dv.len() == n0 + 1);
        assert forall|j: int| 0 <= j < dv.len() implies dv[j] == (if j < i {
            dv0[j]
        } else if j == i {
            p@
        } else {
            dv0[j - 1]
        }) by {
            assert(dv[j] == v@[j]@);
            if j < i {
                assert(v@[j] == old(v)@[j]);
            } else if j == i {
                assert(v@[j] == p);
            } else {
                assert(v@[(j - 1) + 1] == old(v)@[j - 1]);
            }
        }
        assert forall|j1: int, j2: int| 0 <= j1 < j2 < dv.len() implies pkg_lt(
            #[trigger] dv[j1],
            #[trigger] dv[j2],
        ) by {
            if j1 == i && j2 - 1 > i {
                lemma_pkg_lt_trans(p@, dv0[i as int], dv0[j2 - 1]);
            }
        }
        assert forall|x: PackageModel| #[trigger] dv.contains(x) implies (dv0.contains(x) || x
            == p@) by {
            let j = choose|j: int| 0 <= j < dv.len() && dv[j] == x;
            if j < i {
                assert(dv0[j] == x);
            } else if j > i {
                assert(dv0[j - 1] == x);
            }
        }
        assert forall|x: PackageModel| dv0.contains(x) || x == p@ implies #[trigger] dv.contains(
            x,
        ) by {
            if x == p@ {
                assert(dv[i as int] == x);
            } else {
                let j = choose|j: int| 0 <= j < dv0.len() && dv0[j] == x;
                if j < i {
                    assert(dv[j] == x);
                } else {
                    assert(dv[j + 1] == x);
                }
            }
        }
    }
}

/// Inserts a local package into a strictly sorted vector, keeping it
/// sorted and dropping the record if an equal one is already present.
#[verifier::rlimit(40)]
pub(crate) fn insert_lp(v: &mut Vec<LocalPackage>, p: LocalPackage)
    requires
        lps_sorted(old(v).deep_view()),
    ensures
        lps_sorted(final(v).deep_view()),
        forall|x: LocalPackageModel|
            #[trigger] final(v).deep_view().contains(x) <==> (old(v).deep_view().contains(x) || x == p@),
{
    let ghost dv0 = v.deep_view();
    let mut i: usize = 0;
    while i < v.len() && lp_cmp(&v[i], &p) == -1
        invariant
            0 <= i <= v.len(),
            dv0 == v.deep_view(),
            lps_sorted(dv0),
            forall|j: int| 0 <= j < i ==> lp_lt(#[trigger] dv0[j], p@),
        decreases v.len() - i,
    {
        proof {
            assert(v.deep_view()[i as int] == v@[i as int]@);
        }
        i = i + 1;
    }
    proof {
        assert(dv0.len() == v@.len());
        if i < v.len() {
            assert(v.deep_view()[i as int] == v@[i as int]@);
        }
    }
    if i < v.len() {
        let c = lp_cmp(&v[i], &p);
        if c == 0 {
            proof {
                assert(dv0[i as int] == p@);
                assert(dv0.contains(p@));
            }
            return ;
        }
        proof {
            if c == -1 {
                assert(false);
            }
            assert(lp_lt(p@, dv0[i as int]));
        }
    }
    let ghost n0 = dv0.len();
    v.insert(i, p);
    proof {
        let dv = v.deep_view();
        assert(v@ == old(v)@.insert(i as int, p));
        old(v)@.insert_ensures(i as int, p);
        assert(dv.len() == n0 + 1);
        assert forall|j: int| 0 <= j < dv.len() implies dv[j] == (if j < i {
            dv0[j]
        } else if j == i {
            p@
        } else {
            dv0[j - 1]
        }) by {
            assert(dv[j] == v@[j]@);
            if j < i {
                assert(v@[j] == old(v)@[j]);
            } else if j == i {
                assert(v@[j] == p);
            } else {
                assert(v@[(j - 1) + 1] == old(v)@[j - 1]);
            }
        }
        assert forall|j1: int, j2: int| 0 <= j1 < j2 < dv.len() implies lp_lt(
            #[trigger] dv[j1],
            #[trigger] dv[j2],
        ) by {
            if j1 == i && j2 - 1 > i {
                lemma_lp_lt_trans(p@, dv0[i as int], dv0[j2 - 1]);
            }
        }
        assert forall|x: LocalPackageModel| #[trigger] dv.contains(x) implies (dv0.contains(x) || x
            == p@) by {
            let j = choose|j: int| 0 <= j < dv.len() && dv[j] == x;
            if j < i {
                assert(dv0[j] == x);
            } else if j > i {
                assert(dv0[j - 1] == x);
            }
        }
        assert forall|x: LocalPackageModel| dv0.contains(x) || x == p@ implies #[trigger] dv.contains(
            x,
        ) by {
            if x == p@ {
                assert(dv[i as int] == x);
            } else {
                let j = choose|j: int| 0 <= j < dv0.len() && dv0[j] == x;
                if j < i {
                    assert(dv[j] == x);
                } else {
                    assert(dv[j + 1] == x);
                }
            }
        }
    }
}

/// Inserts a repository entry into a vector strictly sorted by
/// repository id, keeping it sorted.  An entry whose id is already
/// present is dropped: the policy first recorded for a repository
/// wins.
#[verifier::rlimit(100)]
#[verifier::spinoff_prover]
pub(crate) fn insert_repo(v: &mut Vec<RepoEntry>, e: RepoEntry)
    requires
        repos_sorted(old(v).deep_view()),
    ensures
        repos_sorted(final(v).deep_view()),
        forall|x: RepoEntryModel|
            #[trigger] final(v).deep_view().contains(x) <==> (old(v).deep_view().contains(x) || (
            x == e@ && !repo_has_key(old(v).deep_view(), e@.repoid))),
{
    let ghost dv0 = v.deep_view();
    let mut i: usize = 0;
    while i < v.len() && str_cmp(v[i].repoid.as_str(), e.repoid.as_str()) == -1
        invariant
            0 <= i <= v.len(),
            dv0 == v.deep_view(),
            repos_sorted(dv0),
            forall|j: int| 0 <= j < i ==> chars_lt((#[trigger] dv0[j]).repoid, e@.repoid),
        decreases v.len() - i,
    {
        proof {
            assert(v.deep_view()[i as int] == v@[i as int]@);
        }
        i = i + 1;
    }
    proof {
        assert(dv0.len() == v@.len());
        if i < v.len() {
            assert(v.deep_view()[i as int] == v@[i as int]@);
        }
    }
    if i < v.len() {
        let c = str_cmp(v[i].repoid.as_str(), e.repoid.as_str());
        if c == 0 {
            proof {
                assert(dv0[i as int].repoid == e@.repoid);
                assert(repo_has_key(dv0, e@.repoid));
            }
            return ;
        }
        proof {
            if c == -1 {
                assert(false);
            }
            assert(chars_lt(e@.repoid, dv0[i as int].repoid));
        }
    }
    proof {
        // No existing entry carries this id: those before position i
        // order below it, those at or after order above it.
        assert forall|j: int| 0 <= j < dv0.len() implies (#[trigger] dv0[j]).repoid != e@.repoid by {
            if j < i {
                lemma_chars_lt_asym(dv0[j].repoid, e@.repoid);
            } else if j == i {
                lemma_chars_lt_asym(e@.repoid, dv0[j].repoid);
            } else if i < dv0.len() {
                lemma_chars_lt_trans(e@.repoid, dv0[i as int].repoid, dv0[j].repoid);
                lemma_chars_lt_asym(e@.repoid, dv0[j].repoid);
            }
        }
        if repo_has_key(dv0, e@.repoid) {
            let j = choose|j: int| 0 <= j < dv0.len() && (#[trigger] dv0[j]).repoid == e@.repoid;
            assert(false);
        }
    }
    let ghost n0 = dv0.len();
    v.insert(i, e);
    proof {
        let dv = v.deep_view();
        assert(v@ == old(v)@.insert(i as int, e));
        old(v)@.insert_ensures(i as int, e);
        assert(dv.len() == n0 + 1);
        assert forall|j: int| 0 <= j < dv.len() implies dv[j] == (if j < i {
            dv0[j]
        } else if j == i {
            e@
        } else {
            dv0[j - 1]
        }) by {
            assert(dv[j] == v@[j]@);
            if j < i {
                assert(v@[j] == old(v)@[j]);
            } else if j == i {
                assert(v@[j] == e);
            } else {
                assert(v@[(j - 1) + 1] == old(v)@[j - 1]);
            }
        }
        assert forall|j1: int, j2: int| 0 <= j1 < j2 < dv.len() implies chars_lt(
            (#[trigger] dv[j1]).repoid,
            (#[trigger] dv[j2]).repoid,
        ) by {
            if j1 == i && j2 - 1 > i {
                lemma_chars_lt_trans(e@.repoid, dv0[i as int].repoid, dv0[j2 - 1].repoid);
            }
        }
        assert forall|x: RepoEntryModel| #[trigger] dv.contains(x) implies (dv0.contains(x) || (x
            == e@ && !repo_has_key(dv0, e@.repoid))) by {
            let j = choose|j: int| 0 <= j < dv.len() && dv[j] == x;
            if j < i {
                assert(dv0[j] == x);
            } else if j > i {
                assert(dv0[j - 1] == x);
            }
        }
        assert forall|x: RepoEntryModel|
            dv0.contains(x) || (x == e@ && !repo_has_key(dv0, e@.repoid)) implies
            #[trigger] dv.contains(x) by {
            if dv0.contains(x) {
                let j = choose|j: int| 0 <= j < dv0.len() && dv0[j] == x;
                if j < i {
                    assert(dv[j] == x);
                } else {
                    assert(dv[j + 1] == x);
                }
            } else {
                assert(dv[i as int] == x);
            }
        }
    }
}

impl Lockfile {
    /// Turns an external resolver response into a fresh lockfile, or
    /// the failure it reported.
    ///
    /// On success the declared package specs and global key sources
    /// are copied verbatim from the configuration, so the fresh
    /// lockfile is exactly compatible with what was declared; the
    /// entity collections hold exactly the resolver's entries, sorted
    /// into their natural order and deduplicated.  An unsatisfiable
    /// dependency set and a resolver or environment failure are
    /// surfaced as distinct errors.
    pub fn from_resolution(cfg: &Config, response: ResolverResponse) -> (r: Result<
        Lockfile,
        ResolveError,
    >)
        ensures
            match response {
                ResolverResponse::Resolved(res) => match r {
                    Result::Ok(lf) => {
                        &&& lockfile_wf(lf@)
                        &&& lf@.pkg_specs == cfg@.packages
                        &&& lf@.global_key_specs == cfg@.gpgkeys
                        &&& forall|x: PackageModel|
                            #[trigger] lf@.packages.contains(x) <==> res.packages.deep_view()
                                .contains(x)
                        &&& forall|x: LocalPackageModel|
                            #[trigger] lf@.local_packages.contains(x)
                                <==> res.local_packages.deep_view().contains(x)
                        &&& forall|x: RepoEntryModel|
                            #[trigger] lf@.repo_gpg_config.contains(x) ==> first_with_key(
                                res.repo_gpg_config.deep_view(),
                                x,
                            )
                        &&& forall|x: RepoEntryModel|
                            #[trigger] res.repo_gpg_config.deep_view().contains(x)
                                ==> repo_has_key(lf@.repo_gpg_config, x.repoid)
                    },
                    Result::Err(_) => false,
                },
                ResolverResponse::Unsatisfiable(msg) => match r {
                    Result::Err(ResolveError::Unsatisfiable(m)) => m@ == msg@,
                    _ => false,
                },
                ResolverResponse::Failure(msg) => match r {
                    Result::Err(ResolveError::Environment(m)) => m@ == msg@,
                    _ => false,
                },
            },
    {
        match response {
            ResolverResponse::Resolved(res) => {
                let Resolution { packages: mut rp, local_packages: mut rl, repo_gpg_config: mut rr }
                    = res;
                let ghost orig_p = rp.deep_view();
                let ghost orig_l = rl.deep_view();
                let ghost orig_r = rr.deep_view();

                let mut packages: Vec<Package> = Vec::new();
                let ghost mut done: int = 0;
                while rp.len() > 0
                    invariant
                        0 <= done <= orig_p.len(),
                        rp.deep_view() =~= orig_p.skip(done),
                        pkgs_sorted(packages.deep_view()),
                        forall|x: PackageModel|
                            #[trigger] packages.deep_view().contains(x) <==> orig_p.take(
                                done,
                            ).contains(x),
                    decreases rp.len(),
                {
                    proof {
                        assert(rp.deep_view().len() == orig_p.len() - done);
                        assert(rp.deep_view()[0] == orig_p[done]);
                        assert(rp@[0]@ == rp.deep_view()[0]);
                    }
                    let ghost prerp = rp@;
                    let p = rp.remove(0);
                    proof {
                        assert(p@ == orig_p[done]);
                        assert(rp@ =~= prerp.skip(1));
                        assert forall|jj: int| 0 <= jj < rp@.len() implies rp.deep_view()[jj]
                            == orig_p.skip(done + 1)[jj] by {
                            assert(rp.deep_view()[jj] == rp@[jj]@);
                            assert(rp@[jj] == prerp[jj + 1]);
                            assert(prerp[jj + 1]@ == orig_p.skip(done)[jj + 1]);
                            assert(orig_p.skip(done)[jj + 1] == orig_p[done + 1 + jj]);
                            assert(orig_p.skip(done + 1)[jj] == orig_p[done + 1 + jj]);
                        }
                        assert(rp.deep_view() =~= orig_p.skip(done + 1));
                    }
                    insert_pkg(&mut packages, p);
                    proof {
                        assert(orig_p.take(done + 1) =~= orig_p.take(done).push(orig_p[done]));
                        assert forall|x: PackageModel|
                            #[trigger] orig_p.take(done + 1).contains(x) <==> (orig_p.take(
                                done,
                            ).contains(x) || x == orig_p[done]) by {
                            lemma_push_contains(orig_p.take(done), orig_p[done], x);
                        }
                        done = done + 1;
                    }
                }
                proof {
                    assert(orig_p.take(done) =~= orig_p);
                }

                let mut local_packages: Vec<LocalPackage> = Vec::new();
                let ghost mut donel: int = 0;
                while rl.len() > 0
                    invariant
                        0 <= donel <= orig_l.len(),
                        rl.deep_view() =~= orig_l.skip(donel),
                        lps_sorted(local_packages.deep_view()),
                        forall|x: LocalPackageModel|
                            #[trigger] local_packages.deep_view().contains(x) <==> orig_l.take(
                                donel,
                            ).contains(x),
                    decreases rl.len(),
                {
                    proof {
                        assert(rl.deep_view().len() == orig_l.len() - donel);
                        assert(rl.deep_view()[0] == orig_l[donel]);
                        assert(rl@[0]@ == rl.deep_view()[0]);
                    }
                    let ghost prerl = rl@;
                    let p = rl.remove(0);
                    proof {
                        assert(p@ == orig_l[donel]);
                        assert(rl@ =~= prerl.skip(1));
                        assert forall|jj: int| 0 <= jj < rl@.len() implies rl.deep_view()[jj]
                            == orig_l.skip(donel + 1)[jj] by {
                            assert(rl.deep_view()[jj] == rl@[jj]@);
                            assert(rl@[jj] == prerl[jj + 1]);
                            assert(prerl[jj + 1]@ == orig_l.skip(donel)[jj + 1]);
                            assert(orig_l.skip(donel)[jj + 1] == orig_l[donel + 1 + jj]);
                            assert(orig_l.skip(donel + 1)[jj] == orig_l[donel + 1 + jj]);
                        }
                        assert(rl.deep_view() =~= orig_l.skip(donel + 1));
                    }
                    insert_lp(&mut local_packages, p);
                    proof {
                        assert(orig_l.take(donel + 1) =~= orig_l.take(donel).push(orig_l[donel]));
                        assert forall|x: LocalPackageModel|
                            #[trigger] orig_l.take(donel + 1).contains(x) <==> (orig_l.take(
                                donel,
                            ).contains(x) || x == orig_l[donel]) by {
                            lemma_push_contains(orig_l.take(donel), orig_l[donel], x);
                        }
                        donel = donel + 1;
                    }
                }
                proof {
                    assert(orig_l.take(donel) =~= orig_l);
                }

                let mut repo_gpg_config: Vec<RepoEntry> = Vec::new();
                let ghost mut doner: int = 0;
                while rr.len() > 0
                    invariant
                        0 <= doner <= orig_r.len(),
                        rr.deep_view() =~= orig_r.skip(doner),
                        repos_sorted(repo_gpg_config.deep_view()),
                        forall|x: RepoEntryModel|
                            #[trigger] repo_gpg_config.deep_view().contains(x) ==> first_with_key(
                                orig_r.take(doner),
                                x,
                            ),
                        forall|x: RepoEntryModel|
                            #[trigger] orig_r.take(doner).contains(x) ==> repo_has_key(
                                repo_gpg_config.deep_view(),
                                x.repoid,
                            ),
                    decreases rr.len(),
                {
                    proof {
                        assert(rr.deep_view().len() == orig_r.len() - doner);
                        assert(rr.deep_view()[0] == orig_r[doner]);
                        assert(rr@[0]@ == rr.deep_view()[0]);
                    }
                    let ghost pre = repo_gpg_config.deep_view();
                    let ghost prerr = rr@;
                    let e = rr.remove(0);
                    proof {
                        assert(e@ == orig_r[doner]);
                        assert(rr@ =~= prerr.skip(1));
                        assert forall|jj: int| 0 <= jj < rr@.len() implies rr.deep_view()[jj]
                            == orig_r.skip(doner + 1)[jj] by {
                            assert(rr.deep_view()[jj] == rr@[jj]@);
                            assert(rr@[jj] == prerr[jj + 1]);
                            assert(prerr[jj + 1]@ == orig_r.skip(doner)[jj + 1]);
                            assert(orig_r.skip(doner)[jj + 1] == orig_r[doner + 1 + jj]);
                            assert(orig_r.skip(doner + 1)[jj] == orig_r[doner + 1 + jj]);
                        }
                        assert(rr.deep_view() =~= orig_r.skip(doner + 1));
                    }
                    insert_repo(&mut repo_gpg_config, e);
                    proof {
                        let dv = repo_gpg_config.deep_view();
                        assert(orig_r.take(doner + 1) =~= orig_r.take(doner).push(orig_r[doner]));
                        assert forall|x: RepoEntryModel| #[trigger] dv.contains(x) implies
                            first_with_key(orig_r.take(doner + 1), x) by {
                            if pre.contains(x) {
                                let j = choose|j: int|
                                    0 <= j < orig_r.take(doner).len() && (#[trigger] orig_r.take(
                                        doner,
                                    )[j]) == x && (forall|l: int|
                                        0 <= l < j ==> (#[trigger] orig_r.take(doner)[l]).repoid
                                            != x.repoid);
                                assert(orig_r.take(doner + 1)[j] == orig_r.take(doner)[j]);
                                assert forall|l: int| 0 <= l < j implies (#[trigger] orig_r.take(
                                    doner + 1,
                                )[l]).repoid != x.repoid by {
                                    assert(orig_r.take(doner + 1)[l] == orig_r.take(doner)[l]);
                                }
                            } else {
                                assert(x == e@ && !repo_has_key(pre, e@.repoid));
                                assert forall|l: int| 0 <= l < doner implies (#[trigger] orig_r.take(
                                    doner + 1,
                                )[l]).repoid != x.repoid by {
                                    assert(orig_r.take(doner + 1)[l] == orig_r[l]);
                                    if orig_r[l].repoid == x.repoid {
                                        assert(orig_r.take(doner).contains(orig_r[l])) by {
                                            assert(orig_r.take(doner)[l] == orig_r[l]);
                                        }
                                        let j = choose|j: int|
                                            0 <= j < orig_r.take(doner).len() && (
                                            #[trigger] orig_r.take(doner)[j]) == orig_r[l] && (
                                            forall|t2: int|
                                                0 <= t2 < j ==> (#[trigger] orig_r.take(
                                                    doner,
                                                )[t2]).repoid != orig_r[l].repoid);
                                        assert(repo_has_key(pre, orig_r[l].repoid));
                                    }
                                }
                                assert(orig_r.take(doner + 1)[doner] == orig_r[doner]);
                            }
                        }
                        assert forall|x: RepoEntryModel|
                            #[trigger] orig_r.take(doner + 1).contains(x) implies repo_has_key(
                            dv,
                            x.repoid,
                        ) by {
                            lemma_push_contains(orig_r.take(doner), orig_r[doner], x);
                            if orig_r.take(doner).contains(x) {
                                let j = choose|j: int|
                                    0 <= j < pre.len() && (#[trigger] pre[j]).repoid == x.repoid;
                                assert(dv.contains(pre[j]));
                                let k = choose|k: int| 0 <= k < dv.len() && dv[k] == pre[j];
                                assert(dv[k].repoid == x.repoid);
                            } else {
                                if repo_has_key(pre, e@.repoid) {
                                    let j = choose|j: int|
                                        0 <= j < pre.len() && (#[trigger] pre[j]).repoid
                                            == e@.repoid;
                                    assert(dv.contains(pre[j]));
                                    let k = choose|k: int| 0 <= k < dv.len() && dv[k] == pre[j];
                                    assert(dv[k].repoid == x.repoid);
                                } else {
                                    assert(dv.contains(e@));
                                    let k = choose|k: int| 0 <= k < dv.len() && dv[k] == e@;
                                    assert(dv[k].repoid == x.repoid);
                                }
                            }
                        }
                        doner = doner + 1;
                    }
                }
                proof {
                    assert(orig_r.take(doner) =~= orig_r);
                }

                let pkg_specs = clone_string_vec(&cfg.packages);
                let global_key_specs = clone_string_vec(&cfg.gpgkeys);
                let lf = Lockfile { pkg_specs, packages, local_packages, repo_gpg_config,
                    global_key_specs };
                Result::Ok(lf)
            },
            ResolverResponse::Unsatisfiable(msg) => Result::Err(ResolveError::Unsatisfiable(msg)),
            ResolverResponse::Failure(msg) => Result::Err(ResolveError::Environment(msg)),
        }
    }
}

/// Two sequences that are strictly sorted under an irreflexive,
/// transitive order and hold the same elements are identical.
proof fn lemma_sorted_unique_eq<A>(s1: Seq<A>, s2: Seq<A>, lt: spec_fn(A, A) -> bool)
    requires
        forall|i: int, j: int| 0 <= i < j < s1.len() ==> lt(#[trigger] s1[i], #[trigger] s1[j]),
        forall|i: int, j: int| 0 <= i < j < s2.len() ==> lt(#[trigger] s2[i], #[trigger] s2[j]),
        forall|a: A| !(#[trigger] lt(a, a)),
        forall|a: A, b: A, c: A|
            #[trigger] lt(a, b) && #[trigger] lt(b, c) ==> #[trigger] lt(a, c),
        forall|x: A| s1.contains(x) <==> s2.contains(x),
    ensures
        s1 == s2,
    decreases s1.len(),
{
    if s1.len() == 0 {
        if s2.len() > 0 {
            assert(s2.contains(s2[0]));
            assert(s1.contains(s2[0]));
        }
        assert(s1 =~= s2);
    } else {
        assert(s1.contains(s1[0]));
        assert(s2.contains(s1[0]));
        let j = choose|j: int| 0 <= j < s2.len() && s2[j] == s1[0];
        assert(s2.contains(s2[0]));
        assert(s1.contains(s2[0]));
        let k = choose|k: int| 0 <= k < s1.len() && s1[k] == s2[0];
        if j > 0 {
            assert(lt(s2[0], s2[j]));
            if k > 0 {
                assert(lt(s1[0], s1[k]));
                assert(lt(s2[0], s1[0]) && lt(s1[0], s2[0]));
                assert(lt(s1[0], s1[0]));
            } else {
                assert(lt(s1[0], s1[0]));
            }
        }
        assert(s1[0] == s2[0]);
        assert forall|x: A| s1.skip(1).contains(x) <==> s2.skip(1).contains(x) by {
            lemma_tail_membership(s1, s2, lt, x);
            lemma_tail_membership(s2, s1, lt, x);
        }
        assert forall|i: int, j2: int|
            0 <= i < j2 < s1.skip(1).len() implies lt(
            #[trigger] s1.skip(1)[i],
            #[trigger] s1.skip(1)[j2],
        ) by {
            assert(s1.skip(1)[i] == s1[i + 1]);
            assert(s1.skip(1)[j2] == s1[j2 + 1]);
        }
        assert forall|i: int, j2: int|
            0 <= i < j2 < s2.skip(1).len() implies lt(
            #[trigger] s2.skip(1)[i],
            #[trigger] s2.skip(1)[j2],
        ) by {
            assert(s2.skip(1)[i] == s2[i + 1]);
            assert(s2.skip(1)[j2] == s2[j2 + 1]);
        }
        lemma_sorted_unique_eq(s1.skip(1), s2.skip(1), lt);
        assert(s1.skip(1).len() == s1.len() - 1);
        assert(s2.skip(1).len() == s2.len() - 1);
        assert forall|j: int| 0 <= j < s1.len() implies s1[j] == s2[j] by {
            if j >= 1 {
                assert(s1[j] == s1.skip(1)[j - 1]);
                assert(s2[j] == s2.skip(1)[j - 1]);
            }
        }
        assert(s1 =~= s2);
    }
}

/// An element of a strictly sorted sequence's tail sits in the tail of
/// any equal-membership strictly sorted sequence with the same head.
proof fn lemma_tail_membership<A>(s1: Seq<A>, s2: Seq<A>, lt: spec_fn(A, A) -> bool, x: A)
    requires
        s1.len() > 0,
        s2.len() > 0,
        s1[0] == s2[0],
        forall|i: int, j: int| 0 <= i < j < s1.len() ==> lt(#[trigger] s1[i], #[trigger] s1[j]),
        forall|i: int, j: int| 0 <= i < j < s2.len() ==> lt(#[trigger] s2[i], #[trigger] s2[j]),
        forall|a: A| !(#[trigger] lt(a, a)),
        forall|y: A| s1.contains(y) <==> s2.contains(y),
    ensures
        s1.skip(1).contains(x) ==> s2.skip(1).contains(x),
{
    if s1.skip(1).contains(x) {
        let t = choose|t: int| 0 <= t < s1.skip(1).len() && s1.skip(1)[t] == x;
        assert(s1.skip(1)[t] == s1[t + 1]);
        assert(lt(s1[0], x));
        assert(s1.contains(x)) by {
            assert(s1[t + 1] == x);
        }
        assert(s2.contains(x));
        let m = choose|m: int| 0 <= m < s2.len() && s2[m] == x;
        if m == 0 {
            assert(lt(x, x));
        }
        assert(s2.skip(1)[m - 1] == x);
        assert(s2.skip(1).contains(x));
    }
}

/// Resolving the same declared inputs against the same repository
/// state twice yields identical lockfiles: the declared fields are
/// copied verbatim, and set-equal sorted collections coincide.
pub proof fn lemma_resolution_deterministic(m1: LockfileModel, m2: LockfileModel)
    requires
        lockfile_wf(m1),
        lockfile_wf(m2),
        m1.pkg_specs == m2.pkg_specs,
        m1.global_key_specs == m2.global_key_specs,
        forall|x: PackageModel| m1.packages.contains(x) <==> m2.packages.contains(x),
        forall|x: LocalPackageModel|
            m1.local_packages.contains(x) <==> m2.local_packages.contains(x),
        forall|x: RepoEntryModel|
            m1.repo_gpg_config.contains(x) <==> m2.repo_gpg_config.contains(x),
    ensures
        m1 == m2,
{
    let plt = |a: PackageModel, b: PackageModel| pkg_lt(a, b);
    assert forall|a: PackageModel| !(#[trigger] plt(a, a)) by {
        crate::order::lemma_str_seq_lt_irrefl(crate::lockfile::pkg_key(a));
    }
    assert forall|a: PackageModel, b: PackageModel, c: PackageModel|
        #[trigger] plt(a, b) && #[trigger] plt(b, c) implies #[trigger] plt(a, c) by {
        lemma_pkg_lt_trans(a, b, c);
    }
    lemma_sorted_unique_eq(m1.packages, m2.packages, plt);

    let llt = |a: LocalPackageModel, b: LocalPackageModel| lp_lt(a, b);
    assert forall|a: LocalPackageModel| !(#[trigger] llt(a, a)) by {
        crate::order::lemma_str_seq_lt_irrefl(crate::lockfile::lp_key(a));
    }
    assert forall|a: LocalPackageModel, b: LocalPackageModel, c: LocalPackageModel|
        #[trigger] llt(a, b) && #[trigger] llt(b, c) implies #[trigger] llt(a, c) by {
        lemma_lp_lt_trans(a, b, c);
    }
    lemma_sorted_unique_eq(m1.local_packages, m2.local_packages, llt);

    let rlt = |a: RepoEntryModel, b: RepoEntryModel| chars_lt(a.repoid, b.repoid);
    assert forall|a: RepoEntryModel| !(#[trigger] rlt(a, a)) by {
        crate::order::lemma_chars_lt_irrefl(a.repoid);
    }
    assert forall|a: RepoEntryModel, b: RepoEntryModel, c: RepoEntryModel|
        #[trigger] rlt(a, b) && #[trigger] rlt(b, c) implies #[trigger] rlt(a, c) by {
        lemma_chars_lt_trans(a.repoid, b.repoid, c.repoid);
    }
    lemma_sorted_unique_eq(m1.repo_gpg_config, m2.repo_gpg_config, rlt);

    assert(m1 =~= m2);
}

/// Membership in a pushed sequence: the pushed element, or one of the
/// originals.
proof fn lemma_push_contains<A>(s: Seq<A>, a: A, x: A)
    ensures
        s.push(a).contains(x) <==> (s.contains(x) || x == a),
{
    if s.push(a).contains(x) {
        let j = choose|j: int| 0 <= j < s.push(a).len() && s.push(a)[j] == x;
        if j < s.len() {
            assert(s[j] == x);
        }
    }
    if s.contains(x) {
        let j = choose|j: int| 0 <= j < s.len() && s[j] == x;
        assert(s.push(a)[j] == x);
    }
    if x == a {
        assert(s.push(a)[s.len() as int] == x);
    }
}

} // verus!
