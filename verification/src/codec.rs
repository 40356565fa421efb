//! The persisted lockfile format.
//!
//! A lockfile serializes to a line-oriented, human-diffable text of
//! this crate's own syntax: a two-line generated-file header, then one
//! `tag value` line per field, sections in a fixed order (declared
//! specs, packages, local packages, repository policies, global key
//! sources).  Collections are written in their stored order, so a
//! well-formed lockfile serializes deterministically; sections empty
//! in the value are omitted entirely and default to empty when absent
//! on load, so a file written before a field existed still loads.
//! Tools that persist lockfiles in other syntaxes write files this
//! module does not read.
//!
//! A value is stored one per line, exactly as it is: there is no
//! escaping.  A string holding a newline or non-ASCII text therefore
//! has no representation here, and a lockfile holding one does not
//! survive a write-and-reload; producers keep to single-line ASCII
//! values, as RPM metadata is.  Repository key material is stored
//! line by line, one `key` entry per line of the material.
//!
//! [`Lockfile::render`] states the produced text exactly, character
//! for character.  [`Lockfile::parse`] accepts exactly the canonical
//! serializations: whenever it succeeds, the text is what the returned
//! value writes back — with the header, or without it for files that
//! predate the header — so the text fully determines the parsed
//! well-formed value.

use vstd::prelude::*;
use vstd::string::StrSliceExecFns;
use vstd::string::StringExecFns;
use crate::order::str_eq;
use crate::lockfile::{
    alg_name, lockfile_wf, Algorithm, Checksum, LocalPackage, LocalPackageModel, Lockfile,
    LockfileModel, Package, PackageModel, RepoEntry, RepoEntryModel, RepoKeyInfo,
};
use crate::resolve::{insert_lp, insert_pkg, insert_repo};

verus! {

/// The newline that ends every emitted line.
pub open spec fn nl() -> Seq<char> {
    "\n"@
}

/// One `tag value` line per string, in order.
pub open spec fn text_of_strs(tag: Seq<char>, vals: Seq<Seq<char>>) -> Seq<char>
    decreases vals.len(),
{
    if vals.len() == 0 {
        Seq::empty()
    } else {
        tag + vals[0] + nl() + text_of_strs(tag, vals.skip(1))
    }
}

/// The lines of one package: its fields in order, the architecture
/// line only when an architecture is recorded.
pub open spec fn pkg_text(p: PackageModel) -> Seq<char> {
    "package "@ + p.name + nl() + "evr "@ + p.evr + nl() + "algorithm "@ + alg_name(
        p.checksum.algorithm,
    ) + nl() + "checksum "@ + p.checksum.digest + nl() + "repoid "@ + p.repoid + nl() + (
    match p.arch {
        Option::Some(a) => "arch "@ + a + nl(),
        Option::None => Seq::empty(),
    })
}

/// The lines of all packages, in order.
pub open spec fn pkgs_text(ps: Seq<PackageModel>) -> Seq<char>
    decreases ps.len(),
{
    if ps.len() == 0 {
        Seq::empty()
    } else {
        pkg_text(ps[0]) + pkgs_text(ps.skip(1))
    }
}

/// The lines of one local package: its name, then one line per
/// declared requirement.
pub open spec fn lp_text(l: LocalPackageModel) -> Seq<char> {
    "local "@ + l.name + nl() + text_of_strs("needs "@, l.requirements)
}

/// The lines of all local packages, in order.
pub open spec fn lps_text(ls: Seq<LocalPackageModel>) -> Seq<char>
    decreases ls.len(),
{
    if ls.len() == 0 {
        Seq::empty()
    } else {
        lp_text(ls[0]) + lps_text(ls.skip(1))
    }
}

/// The lines of one repository policy: its id, its gpgcheck flag, then
/// one line per configured key.
pub open spec fn repo_text(e: RepoEntryModel) -> Seq<char> {
    "repo "@ + e.repoid + nl() + "gpgcheck "@ + (if e.info.gpgcheck {
        "true"@
    } else {
        "false"@
    }) + nl() + text_of_strs("key "@, e.info.keys)
}

/// The lines of all repository policies, in order.
pub open spec fn repos_text(es: Seq<RepoEntryModel>) -> Seq<char>
    decreases es.len(),
{
    if es.len() == 0 {
        Seq::empty()
    } else {
        repo_text(es[0]) + repos_text(es.skip(1))
    }
}

/// The two-line generated-file header.
pub open spec fn header_text() -> Seq<char> {
    "# This file is @generated by rpmlock\n"@ + "# It is not intended for manual editing.\n"@
}

/// The serialized sections of a lockfile, without the header: what a
/// file written before the header existed may still hold.
pub open spec fn body_text(m: LockfileModel) -> Seq<char> {
    text_of_strs("spec "@, m.pkg_specs) + pkgs_text(m.packages) + lps_text(m.local_packages)
        + repos_text(m.repo_gpg_config) + text_of_strs("source "@, m.global_key_specs)
}

/// The full serialized text of a lockfile: the generated-file header,
/// then the sections.
pub open spec fn render_text(m: LockfileModel) -> Seq<char> {
    header_text() + body_text(m)
}

/// Sections that are empty in the value are omitted from the text
/// entirely: a lockfile without local packages, repository policies
/// and global key sources writes nothing but its declared specs and
/// packages.
pub proof fn lemma_empty_sections_omitted(m: LockfileModel)
    requires
        m.local_packages.len() == 0,
        m.repo_gpg_config.len() == 0,
        m.global_key_specs.len() == 0,
    ensures
        body_text(m) == text_of_strs("spec "@, m.pkg_specs) + pkgs_text(m.packages),
{
    assert(body_text(m) =~= text_of_strs("spec "@, m.pkg_specs) + pkgs_text(m.packages));
}

/// A package without a recorded architecture writes no architecture
/// line.
pub proof fn lemma_absent_arch_omitted(p: PackageModel)
    requires
        p.arch is None,
    ensures
        pkg_text(p) == "package "@ + p.name + nl() + "evr "@ + p.evr + nl() + "algorithm "@
            + alg_name(p.checksum.algorithm) + nl() + "checksum "@ + p.checksum.digest + nl()
            + "repoid "@ + p.repoid + nl(),
{
    assert(pkg_text(p) =~= "package "@ + p.name + nl() + "evr "@ + p.evr + nl() + "algorithm "@
        + alg_name(p.checksum.algorithm) + nl() + "checksum "@ + p.checksum.digest + nl()
        + "repoid "@ + p.repoid + nl());
}

/// Appends `tag value` lines for every string of `vals` to `out`.
fn append_str_lines(out: &mut String, tag: &str, vals: &Vec<String>)
    ensures
        final(out)@ == old(out)@ + text_of_strs(tag@, vals.deep_view()),
{
    let ghost base = out@;
    let ghost dv = vals.deep_view();
    let mut i: usize = 0;
    proof {
        assert(dv.skip(0) =~= dv);
        assert(base + text_of_strs(tag@, dv) =~= (base + Seq::<char>::empty()) + text_of_strs(
            tag@,
            dv.skip(0),
        ));
        assert(out@ =~= base + Seq::<char>::empty());
    }
    while i < vals.len()
        invariant
            0 <= i <= vals.len(),
            dv == vals.deep_view(),
            base + text_of_strs(tag@, dv) == out@ + text_of_strs(tag@, dv.skip(i as int)),
        decreases vals.len() - i,
    {
        proof {
            assert(dv.skip(i as int)[0] == dv[i as int]);
            assert(dv.skip(i as int).skip(1) =~= dv.skip(i as int + 1));
            assert(dv[i as int] == vals@[i as int]@);
        }
        let ghost out0 = out@;
        out.append(tag);
        out.append(vals[i].as_str());
        out.append("\n");
        proof {
            let line = tag@ + dv[i as int] + nl();
            assert(out@ =~= out0 + line);
            assert(text_of_strs(tag@, dv.skip(i as int)) == line + text_of_strs(
                tag@,
                dv.skip(i as int + 1),
            ));
            assert((out0 + line) + text_of_strs(tag@, dv.skip(i as int + 1)) =~= out0 + (line
                + text_of_strs(tag@, dv.skip(i as int + 1))));
        }
        i = i + 1;
    }
    proof {
        assert(dv.skip(i as int) =~= Seq::<Seq<char>>::empty());
        assert(out@ + text_of_strs(tag@, dv.skip(i as int)) =~= out@);
    }
}

impl Lockfile {
    /// Serializes the lockfile: the generated-file header, then the
    /// sections.  The produced text is exactly [`render_text`] of the
    /// lockfile's model.
    pub fn render(&self) -> (r: String)
        ensures
            r@ == render_text(self@),
    {
        let mut out = String::new();
        out.append("# This file is @generated by rpmlock\n");
        out.append("# It is not intended for manual editing.\n");
        proof {
            assert(out@ =~= header_text());
        }
        let body = self.render_body();
        out.append(body.as_str());
        proof {
            assert(out@ =~= render_text(self@));
        }
        out
    }

    /// Serializes the sections alone: every field of every entry as
    /// one `tag value` line, sections in a fixed order and in the
    /// stored order of each collection.
    fn render_body(&self) -> (r: String)
        ensures
            r@ == body_text(self@),
    {
        let ghost m = self@;
        let mut out = String::new();
        let ghost h = out@;
        append_str_lines(&mut out, "spec ", &self.pkg_specs);

        let ghost after_specs = out@;
        proof {
            assert(after_specs == h + text_of_strs("spec "@, m.pkg_specs));
        }
        let ghost ps = m.packages;
        let mut i: usize = 0;
        proof {
            assert(ps.skip(0) =~= ps);
            assert(after_specs + pkgs_text(ps) =~= out@ + pkgs_text(ps.skip(0)));
        }
        while i < self.packages.len()
            invariant
                0 <= i <= self.packages.len(),
                ps == self.packages.deep_view(),
                after_specs + pkgs_text(ps) == out@ + pkgs_text(ps.skip(i as int)),
            decreases self.packages.len() - i,
        {
            proof {
                assert(ps.skip(i as int)[0] == ps[i as int]);
                assert(ps.skip(i as int).skip(1) =~= ps.skip(i as int + 1));
                assert(ps[i as int] == self.packages@[i as int]@);
            }
            let ghost out0 = out@;
            let p = &self.packages[i];
            out.append("package ");
            out.append(p.name.as_str());
            out.append("\n");
            out.append("evr ");
            out.append(p.evr.as_str());
            out.append("\n");
            out.append("algorithm ");
            out.append(p.checksum.algorithm().as_str());
            out.append("\n");
            out.append("checksum ");
            out.append(p.checksum.digest().as_str());
            out.append("\n");
            out.append("repoid ");
            out.append(p.repoid.as_str());
            out.append("\n");
            match &p.arch {
                Option::Some(a) => {
                    out.append("arch ");
                    out.append(a.as_str());
                    out.append("\n");
                },
                Option::None => {},
            }
            proof {
                let chunk = pkg_text(ps[i as int]);
                assert(out@ =~= out0 + chunk);
                assert(pkgs_text(ps.skip(i as int)) == chunk + pkgs_text(ps.skip(i as int + 1)));
                assert((out0 + chunk) + pkgs_text(ps.skip(i as int + 1)) =~= out0 + (chunk
                    + pkgs_text(ps.skip(i as int + 1))));
            }
            i = i + 1;
        }
        proof {
            assert(ps.skip(i as int) =~= Seq::<PackageModel>::empty());
            assert(out@ + pkgs_text(ps.skip(i as int)) =~= out@);
        }

        let ghost after_pkgs = out@;
        let ghost ls = m.local_packages;
        let mut k: usize = 0;
        proof {
            assert(ls.skip(0) =~= ls);
            assert(after_pkgs + lps_text(ls) =~= out@ + lps_text(ls.skip(0)));
        }
        while k < self.local_packages.len()
            invariant
                0 <= k <= self.local_packages.len(),
                ls == self.local_packages.deep_view(),
                after_pkgs + lps_text(ls) == out@ + lps_text(ls.skip(k as int)),
            decreases self.local_packages.len() - k,
        {
            proof {
                assert(ls.skip(k as int)[0] == ls[k as int]);
                assert(ls.skip(k as int).skip(1) =~= ls.skip(k as int + 1));
                assert(ls[k as int] == self.local_packages@[k as int]@);
            }
            let ghost out0 = out@;
            let l = &self.local_packages[k];
            out.append("local ");
            out.append(l.name().as_str());
            out.append("\n");
            proof {
                assert(out@ =~= out0 + ("local "@ + ls[k as int].name + nl()));
            }
            append_str_lines(&mut out, "needs ", l.requirements());
            proof {
                let chunk = lp_text(ls[k as int]);
                assert(out@ =~= out0 + chunk);
                assert(lps_text(ls.skip(k as int)) == chunk + lps_text(ls.skip(k as int + 1)));
                assert((out0 + chunk) + lps_text(ls.skip(k as int + 1)) =~= out0 + (chunk
                    + lps_text(ls.skip(k as int + 1))));
            }
            k = k + 1;
        }
        proof {
            assert(ls.skip(k as int) =~= Seq::<LocalPackageModel>::empty());
            assert(out@ + lps_text(ls.skip(k as int)) =~= out@);
        }

        let ghost after_lps = out@;
        let ghost es = m.repo_gpg_config;
        let mut t: usize = 0;
        proof {
            assert(es.skip(0) =~= es);
            assert(after_lps + repos_text(es) =~= out@ + repos_text(es.skip(0)));
        }
        while t < self.repo_gpg_config.len()
            invariant
                0 <= t <= self.repo_gpg_config.len(),
                es == self.repo_gpg_config.deep_view(),
                after_lps + repos_text(es) == out@ + repos_text(es.skip(t as int)),
            decreases self.repo_gpg_config.len() - t,
        {
            proof {
                assert(es.skip(t as int)[0] == es[t as int]);
                assert(es.skip(t as int).skip(1) =~= es.skip(t as int + 1));
                assert(es[t as int] == self.repo_gpg_config@[t as int]@);
            }
            let ghost out0 = out@;
            let e = &self.repo_gpg_config[t];
            out.append("repo ");
            out.append(e.repoid.as_str());
            out.append("\n");
            out.append("gpgcheck ");
            if e.info.gpgcheck() {
                out.append("true");
            } else {
                out.append("false");
            }
            out.append("\n");
            proof {
                assert(out@ =~= out0 + ("repo "@ + es[t as int].repoid + nl() + "gpgcheck "@ + (
                if es[t as int].info.gpgcheck {
                    "true"@
                } else {
                    "false"@
                }) + nl()));
            }
            append_str_lines(&mut out, "key ", e.info.keys());
            proof {
                let chunk = repo_text(es[t as int]);
                assert(out@ =~= out0 + chunk);
                assert(repos_text(es.skip(t as int)) == chunk + repos_text(es.skip(t as int + 1)));
                assert((out0 + chunk) + repos_text(es.skip(t as int + 1)) =~= out0 + (chunk
                    + repos_text(es.skip(t as int + 1))));
            }
            t = t + 1;
        }
        proof {
            assert(es.skip(t as int) =~= Seq::<RepoEntryModel>::empty());
            assert(out@ + repos_text(es.skip(t as int)) =~= out@);
        }

        append_str_lines(&mut out, "source ", &self.global_key_specs);
        proof {
            assert(out@ =~= body_text(m));
        }
        out
    }
}

/// Why a lockfile text was rejected on load.
#[derive(Clone, Debug)]
pub enum ParseError {
    /// The input is not ASCII text.
    NotText,
    /// The numbered line does not fit the format.
    Malformed { line: usize },
    /// The text is readable but is not the canonical serialization of
    /// the value it describes: its entries are out of their natural
    /// order, repeated, or interleaved with other text.
    NotCanonical,
}

/// Splits text into its lines, without the newlines.  A final
/// fragment not ended by a newline counts as a line too.
fn split_lines(s: &str) -> (r: Vec<String>) {
    let n = s.unicode_len();
    let mut lines: Vec<String> = Vec::new();
    let mut start: usize = 0;
    let mut i: usize = 0;
    while i < n
        invariant
            0 <= start <= i <= n,
            n == s@.len(),
        decreases n - i,
    {
        let c = s.get_char(i);
        if c == '\n' {
            let line = s.substring_char(start, i).to_owned();
            lines.push(line);
            start = i + 1;
        }
        i = i + 1;
    }
    if start < n {
        let line = s.substring_char(start, n).to_owned();
        lines.push(line);
    }
    lines
}

/// If `line` is `tag` followed by anything, that remainder; the tag
/// carries its trailing separator.
fn strip_tag(line: &String, tag: &str) -> (r: Option<String>) {
    let n = line.as_str().unicode_len();
    let t = tag.unicode_len();
    if n < t {
        return Option::None;
    }
    let head = line.as_str().substring_char(0, t);
    if str_eq(head, tag) {
        Option::Some(line.as_str().substring_char(t, n).to_owned())
    } else {
        Option::None
    }
}

/// Whether the line is blank or a comment.
fn is_comment(line: &String) -> (r: bool) {
    let n = line.as_str().unicode_len();
    if n == 0 {
        return true;
    }
    line.as_str().get_char(0) == '#'
}

/// The algorithm serialized under the given name, if any.
fn alg_of_str(s: &String) -> (r: Option<Algorithm>)
    ensures
        match r {
            Option::Some(a) => alg_name(a) == s@,
            Option::None => true,
        },
{
    if str_eq(s.as_str(), "md5") {
        Option::Some(Algorithm::MD5)
    } else if str_eq(s.as_str(), "sha1") {
        Option::Some(Algorithm::SHA1)
    } else if str_eq(s.as_str(), "sha256") {
        Option::Some(Algorithm::SHA256)
    } else if str_eq(s.as_str(), "sha384") {
        Option::Some(Algorithm::SHA384)
    } else if str_eq(s.as_str(), "sha512") {
        Option::Some(Algorithm::SHA512)
    } else {
        Option::None
    }
}

/// Reads the value of the expected tag at the cursor, advancing the
/// cursor past the line exactly when the tag matches.
fn next_value(lines: &Vec<String>, idx: &mut usize, tag: &str) -> (r: Option<String>)
    ensures
        *old(idx) <= *final(idx) <= *old(idx) + 1,
        *final(idx) > *old(idx) ==> *final(idx) <= lines@.len(),
{
    if *idx < lines.len() {
        match strip_tag(&lines[*idx], tag) {
            Option::Some(v) => {
                *idx = *idx + 1;
                Option::Some(v)
            },
            Option::None => Option::None,
        }
    } else {
        Option::None
    }
}

impl Lockfile {
    /// Loads a lockfile from its serialized text.
    ///
    /// Only canonical texts are accepted: on success the input is
    /// exactly what the returned value renders back to, with the
    /// generated-file header or (for a file that predates it) without
    /// it, so the text fully determines the result.  Sections absent
    /// from the text — an old file written before local packages,
    /// repository policies, global key sources or package
    /// architectures existed — default to empty or absent.  Entries
    /// out of their natural order, repeated entries, or stray text are
    /// rejected as not canonical; a generated lockfile never holds
    /// them.  Whatever is accepted is a well-formed lockfile.
    pub fn parse(s: &str) -> (r: Result<Lockfile, ParseError>)
        ensures
            match r {
                Result::Ok(lf) => lockfile_wf(lf@) && s.is_ascii() && (s@ == render_text(lf@)
                    || s@ == body_text(lf@)),
                Result::Err(ParseError::NotText) => !s.is_ascii(),
                Result::Err(ParseError::Malformed { .. }) => s.is_ascii(),
                Result::Err(ParseError::NotCanonical) => s.is_ascii(),
            },
    {
        if !s.is_ascii() {
            return Result::Err(ParseError::NotText);
        }
        let lines = split_lines(s);
        let nlines = lines.len();
        let mut idx: usize = 0;

        let mut pkg_specs: Vec<String> = Vec::new();
        let mut packages: Vec<Package> = Vec::new();
        let mut local_packages: Vec<LocalPackage> = Vec::new();
        let mut repo_gpg_config: Vec<RepoEntry> = Vec::new();
        let mut global_key_specs: Vec<String> = Vec::new();

        // Declared package specs.
        while idx < nlines
            invariant
                s.is_ascii(),
                nlines == lines@.len(),
                idx <= nlines,
            decreases nlines - idx,
        {
            if is_comment(&lines[idx]) {
                idx = idx + 1;
                continue ;
            }
            match strip_tag(&lines[idx], "spec ") {
                Option::Some(v) => {
                    pkg_specs.push(v);
                    idx = idx + 1;
                },
                Option::None => {
                    break ;
                },
            }
        }

        // Packages.
        while idx < nlines
            invariant
                s.is_ascii(),
                nlines == lines@.len(),
                idx <= nlines,
                crate::resolve::pkgs_sorted(packages.deep_view()),
            decreases nlines - idx,
        {
            if is_comment(&lines[idx]) {
                idx = idx + 1;
                continue ;
            }
            let name = match strip_tag(&lines[idx], "package ") {
                Option::Some(v) => v,
                Option::None => { break ; },
            };
            idx = idx + 1;
            let evr = match next_value(&lines, &mut idx, "evr ") {
                Option::Some(v) => v,
                Option::None => {
                    return Result::Err(ParseError::Malformed { line: idx });
                },
            };
            let algname = match next_value(&lines, &mut idx, "algorithm ") {
                Option::Some(v) => v,
                Option::None => {
                    return Result::Err(ParseError::Malformed { line: idx });
                },
            };
            let algorithm = match alg_of_str(&algname) {
                Option::Some(a) => a,
                Option::None => {
                    return Result::Err(ParseError::Malformed { line: idx });
                },
            };
            let digest = match next_value(&lines, &mut idx, "checksum ") {
                Option::Some(v) => v,
                Option::None => {
                    return Result::Err(ParseError::Malformed { line: idx });
                },
            };
            let repoid = match next_value(&lines, &mut idx, "repoid ") {
                Option::Some(v) => v,
                Option::None => {
                    return Result::Err(ParseError::Malformed { line: idx });
                },
            };
            let arch = next_value(&lines, &mut idx, "arch ");
            let pkg = Package {
                name,
                evr,
                checksum: Checksum::new(algorithm, digest),
                repoid,
                arch,
            };
            insert_pkg(&mut packages, pkg);
        }

        // Local packages.
        while idx < nlines
            invariant
                s.is_ascii(),
                nlines == lines@.len(),
                idx <= nlines,
                crate::resolve::lps_sorted(local_packages.deep_view()),
            decreases nlines - idx,
        {
            if is_comment(&lines[idx]) {
                idx = idx + 1;
                continue ;
            }
            let name = match strip_tag(&lines[idx], "local ") {
                Option::Some(v) => v,
                Option::None => { break ; },
            };
            idx = idx + 1;
            let mut requirements: Vec<String> = Vec::new();
            let ghost idx0 = idx;
            while idx < nlines
                invariant
                    nlines == lines@.len(),
                    idx0 <= idx <= nlines,
                decreases nlines - idx,
            {
                match strip_tag(&lines[idx], "needs ") {
                    Option::Some(v) => {
                        requirements.push(v);
                        idx = idx + 1;
                    },
                    Option::None => { break ; },
                }
            }
            insert_lp(&mut local_packages, LocalPackage::new(name, requirements));
        }

        // Repository policies.
        while idx < nlines
            invariant
                s.is_ascii(),
                nlines == lines@.len(),
                idx <= nlines,
                crate::resolve::repos_sorted(repo_gpg_config.deep_view()),
            decreases nlines - idx,
        {
            if is_comment(&lines[idx]) {
                idx = idx + 1;
                continue ;
            }
            let repoid = match strip_tag(&lines[idx], "repo ") {
                Option::Some(v) => v,
                Option::None => { break ; },
            };
            idx = idx + 1;
            let flag = match next_value(&lines, &mut idx, "gpgcheck ") {
                Option::Some(v) => v,
                Option::None => {
                    return Result::Err(ParseError::Malformed { line: idx });
                },
            };
            let gpgcheck = if str_eq(flag.as_str(), "true") {
                true
            } else if str_eq(flag.as_str(), "false") {
                false
            } else {
                return Result::Err(ParseError::Malformed { line: idx });
            };
            let mut keys: Vec<String> = Vec::new();
            let ghost idx0 = idx;
            while idx < nlines
                invariant
                    nlines == lines@.len(),
                    idx0 <= idx <= nlines,
                decreases nlines - idx,
            {
                match strip_tag(&lines[idx], "key ") {
                    Option::Some(v) => {
                        keys.push(v);
                        idx = idx + 1;
                    },
                    Option::None => { break ; },
                }
            }
            insert_repo(
                &mut repo_gpg_config,
                RepoEntry { repoid, info: RepoKeyInfo::new(gpgcheck, keys) },
            );
        }

        // Global key sources; nothing may follow them.
        while idx < nlines
            invariant
                s.is_ascii(),
                nlines == lines@.len(),
                idx <= nlines,
            decreases nlines - idx,
        {
            if is_comment(&lines[idx]) {
                idx = idx + 1;
                continue ;
            }
            match strip_tag(&lines[idx], "source ") {
                Option::Some(v) => {
                    global_key_specs.push(v);
                    idx = idx + 1;
                },
                Option::None => {
                    return Result::Err(ParseError::Malformed { line: idx });
                },
            }
        }

        let lf = Lockfile { pkg_specs, packages, local_packages, repo_gpg_config,
            global_key_specs };
        // Accept only the canonical serializations of the collected
        // value: the text must be exactly what the value writes back,
        // with or without the generated-file header.
        let with_header = lf.render();
        if str_eq(with_header.as_str(), s) {
            return Result::Ok(lf);
        }
        let body = lf.render_body();
        if str_eq(body.as_str(), s) {
            return Result::Ok(lf);
        }
        Result::Err(ParseError::NotCanonical)
    }
}

} // verus!
