//! Change reporting between two resolutions.
//!
//! [`Lockfile::print_updates`] classifies every package name appearing
//! in the new lockfile or in an optional previous one: present in both
//! with a different version is an update, present only in the previous
//! one a removal, present only in the new one an addition.  Changes
//! derived from the previous set come first, in its name-sorted order,
//! followed by the additions in the new set's order.  The records are
//! structured values; rendering them is the output layer's concern.

use vstd::prelude::*;
use crate::order::str_eq;
use crate::lockfile::{Lockfile, Package, PackageModel};

verus! {

/// One reported change between a previous and a new resolution.
#[derive(Clone, Debug)]
pub enum Update {
    /// The package exists in both resolutions with different versions.
    Updating { name: String, old_evr: String, new_evr: String },
    /// The package exists only in the previous resolution.
    Removing { name: String, evr: String },
    /// The package exists only in the new resolution.
    Adding { name: String, evr: String },
}

/// Mathematical model of an [`Update`].
#[verifier::ext_equal]
pub enum UpdateModel {
    Updating { name: Seq<char>, old_evr: Seq<char>, new_evr: Seq<char> },
    Removing { name: Seq<char>, evr: Seq<char> },
    Adding { name: Seq<char>, evr: Seq<char> },
}

impl View for Update {
    type V = UpdateModel;

    open spec fn view(&self) -> UpdateModel {
        match self {
            Update::Updating { name, old_evr, new_evr } => UpdateModel::Updating {
                name: name@,
                old_evr: old_evr@,
                new_evr: new_evr@,
            },
            Update::Removing { name, evr } => UpdateModel::Removing { name: name@, evr: evr@ },
            Update::Adding { name, evr } => UpdateModel::Adding { name: name@, evr: evr@ },
        }
    }
}

impl DeepView for Update {
    type V = UpdateModel;

    open spec fn deep_view(&self) -> UpdateModel {
        self.view()
    }
}

/// The name-to-version map of a package sequence, as an association
/// list in the sequence's order.  Among entries with the same name the
/// last one wins, mirroring insertion into an ordered map while walking
/// the set in ascending order.
pub open spec fn name_evr_assoc(pkgs: Seq<PackageModel>) -> Seq<(Seq<char>, Seq<char>)>
    decreases pkgs.len(),
{
    if pkgs.len() == 0 {
        Seq::empty()
    } else if pkgs.len() >= 2 && pkgs[0].name == pkgs[1].name {
        name_evr_assoc(pkgs.skip(1))
    } else {
        seq![(pkgs[0].name, pkgs[0].evr)] + name_evr_assoc(pkgs.skip(1))
    }
}

/// The version recorded for `name` in an association list: the value of
/// the first matching entry.
pub open spec fn assoc_lookup(m: Seq<(Seq<char>, Seq<char>)>, name: Seq<char>) -> Option<Seq<char>>
    decreases m.len(),
{
    if m.len() == 0 {
        Option::None
    } else if m[0].0 == name {
        Option::Some(m[0].1)
    } else {
        assoc_lookup(m.skip(1), name)
    }
}

/// The changes derived from the previous resolution, in its order:
/// an update where the name resolves to a different version now, a
/// removal where the name is gone, nothing where the version is kept.
pub open spec fn updates_from_old(
    old: Seq<(Seq<char>, Seq<char>)>,
    new: Seq<(Seq<char>, Seq<char>)>,
) -> Seq<UpdateModel>
    decreases old.len(),
{
    if old.len() == 0 {
        Seq::empty()
    } else {
        let rest = updates_from_old(old.skip(1), new);
        match assoc_lookup(new, old[0].0) {
            Option::Some(new_evr) => if new_evr != old[0].1 {
                seq![
                    UpdateModel::Updating { name: old[0].0, old_evr: old[0].1, new_evr },
                ] + rest
            } else {
                rest
            },
            Option::None => seq![UpdateModel::Removing { name: old[0].0, evr: old[0].1 }] + rest,
        }
    }
}

/// The additions: entries of the new resolution whose name the
/// previous one does not know, in the new resolution's order.
pub open spec fn updates_added(
    new: Seq<(Seq<char>, Seq<char>)>,
    old: Seq<(Seq<char>, Seq<char>)>,
) -> Seq<UpdateModel>
    decreases new.len(),
{
    if new.len() == 0 {
        Seq::empty()
    } else {
        let rest = updates_added(new.skip(1), old);
        if assoc_lookup(old, new[0].0) is None {
            seq![UpdateModel::Adding { name: new[0].0, evr: new[0].1 }] + rest
        } else {
            rest
        }
    }
}

/// The full report: the changes derived from the previous set first,
/// then the additions.
pub open spec fn update_report(prev: Seq<PackageModel>, new: Seq<PackageModel>) -> Seq<
    UpdateModel,
> {
    updates_from_old(name_evr_assoc(prev), name_evr_assoc(new)) + updates_added(
        name_evr_assoc(new),
        name_evr_assoc(prev),
    )
}

/// The name-to-version association of a package list, as a vector.
fn name_evr_assoc_exec(pkgs: &Vec<Package>) -> (r: Vec<(String, String)>)
    ensures
        r.deep_view() == name_evr_assoc(pkgs.deep_view()),
{
    let ghost full = pkgs.deep_view();
    let mut r: Vec<(String, String)> = Vec::new();
    let mut i: usize = 0;
    proof {
        assert(full.skip(0) =~= full);
        assert(r.deep_view() =~= Seq::<(Seq<char>, Seq<char>)>::empty());
        assert(r.deep_view() + name_evr_assoc(full.skip(0)) =~= name_evr_assoc(full));
    }
    while i < pkgs.len()
        invariant
            0 <= i <= pkgs.len(),
            full == pkgs.deep_view(),
            name_evr_assoc(full) == r.deep_view() + name_evr_assoc(full.skip(i as int)),
        decreases pkgs.len() - i,
    {
        proof {
            assert(full.skip(i as int).len() == full.len() - i);
            assert(full.skip(i as int)[0] == full[i as int]);
            if i + 1 < pkgs.len() {
                assert(full.skip(i as int)[1] == full[i as int + 1]);
            }
            assert(full.skip(i as int).skip(1) =~= full.skip(i as int + 1));
            assert(full[i as int] == pkgs@[i as int]@);
        }
        let skip_entry = if i + 1 < pkgs.len() {
            str_eq(pkgs[i].name.as_str(), pkgs[i + 1].name.as_str())
        } else {
            false
        };
        if !skip_entry {
            let ghost r0 = r.deep_view();
            r.push((pkgs[i].name.clone(), pkgs[i].evr.clone()));
            proof {
                let entry = (full[i as int].name, full[i as int].evr);
                assert(name_evr_assoc(full.skip(i as int)) == seq![entry] + name_evr_assoc(
                    full.skip(i as int + 1),
                ));
                assert(r.deep_view() =~= r0 + seq![entry]);
                assert((r0 + seq![entry]) + name_evr_assoc(full.skip(i as int + 1)) =~= r0 + (
                seq![entry] + name_evr_assoc(full.skip(i as int + 1))));
            }
        } else {
            proof {
                assert(name_evr_assoc(full.skip(i as int)) == name_evr_assoc(
                    full.skip(i as int + 1),
                ));
            }
        }
        i = i + 1;
    }
    proof {
        assert(full.skip(i as int) =~= Seq::<PackageModel>::empty());
        assert(r.deep_view() =~= r.deep_view() + name_evr_assoc(full.skip(i as int)));
    }
    r
}

/// The first entry of `m` named `name` decides the lookup.
proof fn lemma_assoc_lookup_found(m: Seq<(Seq<char>, Seq<char>)>, name: Seq<char>, i: int)
    requires
        0 <= i < m.len(),
        m[i].0 == name,
        forall|j: int| 0 <= j < i ==> (#[trigger] m[j]).0 != name,
    ensures
        assoc_lookup(m, name) == Option::Some(m[i].1),
    decreases i,
{
    if i == 0 {
    } else {
        assert(m[0].0 != name);
        assert(m.skip(1)[i - 1] == m[i]);
        assert(forall|j: int| 0 <= j < i - 1 ==> (#[trigger] m.skip(1)[j]) == m[j + 1]);
        lemma_assoc_lookup_found(m.skip(1), name, i - 1);
    }
}

/// A name matching no entry has no lookup result.
proof fn lemma_assoc_lookup_missing(m: Seq<(Seq<char>, Seq<char>)>, name: Seq<char>)
    requires
        forall|j: int| 0 <= j < m.len() ==> (#[trigger] m[j]).0 != name,
    ensures
        assoc_lookup(m, name) is None,
    decreases m.len(),
{
    if m.len() > 0 {
        assert(forall|j: int| 0 <= j < m.len() - 1 ==> (#[trigger] m.skip(1)[j]) == m[j + 1]);
        lemma_assoc_lookup_missing(m.skip(1), name);
    }
}

/// Looks a name up in an association vector, cloning the found version.
fn assoc_lookup_exec(m: &Vec<(String, String)>, name: &String) -> (r: Option<String>)
    ensures
        match r {
            Option::Some(evr) => assoc_lookup(m.deep_view(), name@) == Option::Some(evr@),
            Option::None => assoc_lookup(m.deep_view(), name@) is None,
        },
{
    let mut i: usize = 0;
    while i < m.len()
        invariant
            0 <= i <= m.len(),
            forall|j: int| 0 <= j < i ==> (#[trigger] m.deep_view()[j]).0 != name@,
        decreases m.len() - i,
    {
        proof {
            assert(m.deep_view()[i as int] == m@[i as int].deep_view());
        }
        if str_eq(m[i].0.as_str(), name.as_str()) {
            let evr = m[i].1.clone();
            proof {
                lemma_assoc_lookup_found(m.deep_view(), name@, i as int);
            }
            return Option::Some(evr);
        }
        i = i + 1;
    }
    proof {
        lemma_assoc_lookup_missing(m.deep_view(), name@);
    }
    Option::None
}

impl Lockfile {
    /// Computes the change report against an optional previous
    /// lockfile: updates and removals derived from the previous
    /// package set first, in its order, then the additions in this
    /// lockfile's order.  An absent previous lockfile reports every
    /// package as added.
    pub fn print_updates(&self, previous: Option<&Lockfile>) -> (r: Vec<Update>)
        ensures
            r.deep_view() == update_report(
                match previous {
                    Option::Some(p) => p@.packages,
                    Option::None => Seq::empty(),
                },
                self@.packages,
            ),
    {
        let ghost prev_pkgs: Seq<PackageModel> = match previous {
            Option::Some(p) => p@.packages,
            Option::None => Seq::empty(),
        };
        let old_assoc: Vec<(String, String)> = match previous {
            Option::Some(p) => name_evr_assoc_exec(&p.packages),
            Option::None => Vec::new(),
        };
        proof {
            if previous is None {
                assert(name_evr_assoc(prev_pkgs) =~= Seq::<(Seq<char>, Seq<char>)>::empty());
                assert(old_assoc.deep_view() =~= name_evr_assoc(prev_pkgs));
            }
        }
        let new_assoc = name_evr_assoc_exec(&self.packages);
        let ghost olds = old_assoc.deep_view();
        let ghost news = new_assoc.deep_view();
        let mut out: Vec<Update> = Vec::new();
        let mut i: usize = 0;
        proof {
            assert(olds.skip(0) =~= olds);
            assert(out.deep_view() =~= Seq::<UpdateModel>::empty());
            assert(out.deep_view() + updates_from_old(olds.skip(0), news) =~= updates_from_old(
                olds,
                news,
            ));
        }
        while i < old_assoc.len()
            invariant
                0 <= i <= old_assoc.len(),
                olds == old_assoc.deep_view(),
                news == new_assoc.deep_view(),
                updates_from_old(olds, news) == out.deep_view() + updates_from_old(
                    olds.skip(i as int),
                    news,
                ),
            decreases old_assoc.len() - i,
        {
            proof {
                assert(olds.skip(i as int)[0] == olds[i as int]);
                assert(olds.skip(i as int).skip(1) =~= olds.skip(i as int + 1));
                assert(olds[i as int] == old_assoc@[i as int].deep_view());
            }
            let found = assoc_lookup_exec(&new_assoc, &old_assoc[i].0);
            match found {
                Option::Some(new_evr) => {
                    if !str_eq(new_evr.as_str(), old_assoc[i].1.as_str()) {
                        let ghost entry = UpdateModel::Updating {
                            name: olds[i as int].0,
                            old_evr: olds[i as int].1,
                            new_evr: new_evr@,
                        };
                        let ghost out0 = out.deep_view();
                        out.push(
                            Update::Updating {
                                name: old_assoc[i].0.clone(),
                                old_evr: old_assoc[i].1.clone(),
                                new_evr,
                            },
                        );
                        proof {
                            assert(updates_from_old(olds.skip(i as int), news) == seq![entry]
                                + updates_from_old(olds.skip(i as int + 1), news));
                            assert(out.deep_view() =~= out0 + seq![entry]);
                            assert((out0 + seq![entry]) + updates_from_old(
                                olds.skip(i as int + 1),
                                news,
                            ) =~= out0 + (seq![entry] + updates_from_old(
                                olds.skip(i as int + 1),
                                news,
                            )));
                        }
                    } else {
                        proof {
                            assert(updates_from_old(olds.skip(i as int), news) == updates_from_old(
                                olds.skip(i as int + 1),
                                news,
                            ));
                        }
                    }
                },
                Option::None => {
                    let ghost entry = UpdateModel::Removing {
                        name: olds[i as int].0,
                        evr: olds[i as int].1,
                    };
                    let ghost out0 = out.deep_view();
                    out.push(
                        Update::Removing {
                            name: old_assoc[i].0.clone(),
                            evr: old_assoc[i].1.clone(),
                        },
                    );
                    proof {
                        assert(updates_from_old(olds.skip(i as int), news) == seq![entry]
                            + updates_from_old(olds.skip(i as int + 1), news));
                        assert(out.deep_view() =~= out0 + seq![entry]);
                        assert((out0 + seq![entry]) + updates_from_old(
                            olds.skip(i as int + 1),
                            news,
                        ) =~= out0 + (seq![entry] + updates_from_old(
                            olds.skip(i as int + 1),
                            news,
                        )));
                    }
                },
            }
            i = i + 1;
        }
        proof {
            assert(olds.skip(i as int) =~= Seq::<(Seq<char>, Seq<char>)>::empty());
            assert(out.deep_view() =~= out.deep_view() + updates_from_old(
                olds.skip(i as int),
                news,
            ));
            assert(out.deep_view() == updates_from_old(olds, news));
        }
        let ghost from_old = updates_from_old(olds, news);
        let mut k: usize = 0;
        proof {
            assert(news.skip(0) =~= news);
            assert(from_old + updates_added(news, olds) =~= out.deep_view() + updates_added(
                news.skip(0),
                olds,
            ));
        }
        while k < new_assoc.len()
            invariant
                0 <= k <= new_assoc.len(),
                olds == old_assoc.deep_view(),
                news == new_assoc.deep_view(),
                from_old + updates_added(news, olds) == out.deep_view() + updates_added(
                    news.skip(k as int),
                    olds,
                ),
            decreases new_assoc.len() - k,
        {
            proof {
                assert(news.skip(k as int)[0] == news[k as int]);
                assert(news.skip(k as int).skip(1) =~= news.skip(k as int + 1));
                assert(news[k as int] == new_assoc@[k as int].deep_view());
            }
            let found = assoc_lookup_exec(&old_assoc, &new_assoc[k].0);
            match found {
                Option::None => {
                    let ghost entry = UpdateModel::Adding {
                        name: news[k as int].0,
                        evr: news[k as int].1,
                    };
                    let ghost out0 = out.deep_view();
                    out.push(
                        Update::Adding {
                            name: new_assoc[k].0.clone(),
                            evr: new_assoc[k].1.clone(),
                        },
                    );
                    proof {
                        assert(updates_added(news.skip(k as int), olds) == seq![entry]
                            + updates_added(news.skip(k as int + 1), olds));
                        assert(out.deep_view() =~= out0 + seq![entry]);
                        assert((out0 + seq![entry]) + updates_added(
                            news.skip(k as int + 1),
                            olds,
                        ) =~= out0 + (seq![entry] + updates_added(
                            news.skip(k as int + 1),
                            olds,
                        )));
                    }
                },
                Option::Some(_) => {
                    proof {
                        assert(updates_added(news.skip(k as int), olds) == updates_added(
                            news.skip(k as int + 1),
                            olds,
                        ));
                    }
                },
            }
            k = k + 1;
        }
        proof {
            assert(news.skip(k as int) =~= Seq::<(Seq<char>, Seq<char>)>::empty());
            assert(out.deep_view() =~= out.deep_view() + updates_added(news.skip(k as int), olds));
            assert(out.deep_view() == update_report(prev_pkgs, self@.packages));
        }
        out
    }
}

} // verus!
