//! Finding the installed packages whose catalog entry has changed.

use crate::installed::{key_of, position_of, recorded, InstalledPackageView, InstalledPackages};
use crate::package::{
    parse_query_text, ResolvedPackage, ResolvedPackageView,
};
use crate::seqs::{lemma_deep_view_index, lemma_deep_view_push, lemma_filter_ends, lemma_filter_step};
use crate::storage::{
    looked_up, resolution, select, Criterion, CriterionView, PackageStorage, RepositoryView,
    ResolveError,
};
use crate::text::{str_eq, unicode_lowercase};
use vstd::prelude::*;

verus! {

/// Whether an installed package is out of date: whether its checksum
/// differs from the one the catalog states.
pub open spec fn is_outdated(records: Seq<InstalledPackageView>, p: ResolvedPackageView) -> bool {
    recorded(records, key_of(p)) && records[position_of(records, key_of(p))].checksum
        != p.package.bsum
}

/// The catalog entries of the installed packages: for each record, in
/// order, the first catalog entry that it describes, where there is one.
pub open spec fn installed_entries(
    repos: Seq<RepositoryView>,
    records: Seq<InstalledPackageView>,
) -> Seq<ResolvedPackageView>
    decreases records.len(),
{
    if records.len() == 0 {
        Seq::empty()
    } else {
        let found = select(repos, CriterionView::Recorded(records.last()));
        let rest = installed_entries(repos, records.drop_last());
        if found.len() > 0 {
            rest.push(found[0])
        } else {
            rest
        }
    }
}

/// What an update has to do.
#[derive(Debug, PartialEq, Eq)]
pub struct UpdatePlan {
    /// The packages to install again, in order.
    pub outdated: Vec<ResolvedPackage>,
    /// The packages that were asked for but are not installed.
    pub not_installed: Vec<ResolvedPackage>,
}

/// Updates the named packages, or all installed packages.
#[derive(Debug, PartialEq, Eq)]
pub struct Updater {
    package_names: Option<Vec<String>>,
}

impl Updater {
    /// An updater for the named packages, or for all installed packages when
    /// no names are given.
    pub fn new(package_names: Option<&[String]>) -> (r: Self)
        ensures
            match package_names {
                Some(names) => r.names() == Some(names@),
                None => r.names() is None,
            },
    {
        match package_names {
            Some(names) => {
                let mut copy: Vec<String> = Vec::new();
                let mut i: usize = 0;
                while i < names.len()
                    invariant
                        i <= names.len(),
                        copy@ == names@.take(i as int),
                    decreases names.len() - i,
                {
                    copy.push(names[i].clone());
                    assert(names@.take(i + 1) =~= names@.take(i as int).push(names@[i as int]));
                    i += 1;
                }
                assert(names@.take(names.len() as int) =~= names@);
                Updater { package_names: Some(copy) }
            },
            None => Updater { package_names: None },
        }
    }

    /// The names the updater was made for.
    pub closed spec fn names(&self) -> Option<Seq<String>> {
        match self.package_names {
            Some(names) => Some(names@),
            None => None,
        }
    }

    /// The catalog entries of all installed packages.
    pub fn installed_entries(storage: &PackageStorage, installed: &InstalledPackages) -> (r: Vec<
        ResolvedPackage,
    >)
        ensures
            r.deep_view() == installed_entries(storage@, installed@),
    {
        let ghost records = installed@;
        let mut out: Vec<ResolvedPackage> = Vec::new();
        let mut i: usize = 0;
        assert(out.deep_view() =~= Seq::<ResolvedPackageView>::empty());
        assert(records.take(0) =~= Seq::<InstalledPackageView>::empty());
        while i < installed.packages.len()
            invariant
                i <= installed.packages.len(),
                records == installed@,
                out.deep_view() == installed_entries(storage@, records.take(i as int)),
            decreases installed.packages.len() - i,
        {
            proof {
                lemma_deep_view_index(installed.packages);
                assert(records.take(i + 1).drop_last() =~= records.take(i as int));
            }
            let mut found = storage.find(&Criterion::Recorded(&installed.packages[i]));
            if found.len() > 0 {
                proof {
                    lemma_deep_view_index(found);
                }
                let first = found.swap_remove(0);
                let ghost before = out;
                out.push(first);
                proof {
                    lemma_deep_view_push(before, out, first);
                }
            }
            i += 1;
        }
        assert(records.take(installed.packages.len() as int) =~= records);
        out
    }

    /// Sorts candidates into those that are out of date and those that are
    /// not installed at all. Installed packages that are up to date are in
    /// neither list.
    pub fn plan(candidates: &Vec<ResolvedPackage>, installed: &InstalledPackages) -> (r: UpdatePlan)
        ensures
            r.outdated.deep_view() == candidates.deep_view().filter(
                |p: ResolvedPackageView| is_outdated(installed@, p),
            ),
            r.not_installed.deep_view() == candidates.deep_view().filter(
                |p: ResolvedPackageView| !recorded(installed@, key_of(p)),
            ),
    {
        let ghost all = candidates.deep_view();
        let ghost stale = |p: ResolvedPackageView| is_outdated(installed@, p);
        let ghost absent = |p: ResolvedPackageView| !recorded(installed@, key_of(p));
        let mut outdated: Vec<ResolvedPackage> = Vec::new();
        let mut not_installed: Vec<ResolvedPackage> = Vec::new();
        let mut i: usize = 0;
        proof {
            lemma_filter_ends(all, stale);
            lemma_filter_ends(all, absent);
            assert(outdated.deep_view() =~= Seq::<ResolvedPackageView>::empty());
            assert(not_installed.deep_view() =~= Seq::<ResolvedPackageView>::empty());
        }
        while i < candidates.len()
            invariant
                i <= candidates.len(),
                all == candidates.deep_view(),
                all.len() == candidates.len(),
                stale == (|p: ResolvedPackageView| is_outdated(installed@, p)),
                absent == (|p: ResolvedPackageView| !recorded(installed@, key_of(p))),
                outdated.deep_view() == all.take(i as int).filter(stale),
                not_installed.deep_view() == all.take(i as int).filter(absent),
            decreases candidates.len() - i,
        {
            proof {
                lemma_deep_view_index(*candidates);
                lemma_filter_step(all, stale, i as int);
                lemma_filter_step(all, absent, i as int);
            }
            let candidate = &candidates[i];
            match installed.find_package(candidate) {
                Some(record) => {
                    if !str_eq(record.checksum.as_str(), candidate.package.bsum.as_str()) {
                        let p = candidate.clone();
                        let ghost before = outdated;
                        outdated.push(p);
                        proof {
                            lemma_deep_view_push(before, outdated, p);
                        }
                    }
                },
                None => {
                    let p = candidate.clone();
                    let ghost before = not_installed;
                    not_installed.push(p);
                    proof {
                        lemma_deep_view_push(before, not_installed, p);
                    }
                },
            }
            i += 1;
        }
        proof {
            lemma_filter_ends(all, stale);
            lemma_filter_ends(all, absent);
        }
        UpdatePlan { outdated, not_installed }
    }

    /// The packages to look at: the catalog entries of all installed
    /// packages when the updater was made without names, else the packages
    /// that the names resolve to, the first candidate of each. Fails with
    /// the error of the first name that does not resolve.
    pub fn candidates(&self, storage: &PackageStorage, installed: &InstalledPackages) -> (r: Result<
        Vec<ResolvedPackage>,
        ResolveError,
    >)
        ensures
            self.names() is None ==> r is Ok && r->Ok_0.deep_view() == installed_entries(
                storage@,
                installed@,
            ),
            match (self.names(), r) {
                (Some(names), Ok(found)) => {
                    &&& found.len() == names.len()
                    &&& forall|i: int|
                        0 <= i < names.len() ==> resolution(
                            select(
                                storage@,
                                CriterionView::Answers(
                                    looked_up(parse_query_text(unicode_lowercase(names[i]@))),
                                ),
                            ),
                            true,
                        ) == Some(#[trigger] found[i]@)
                },
                (Some(names), Err(e)) => e is NotFound && exists|i: int|
                    0 <= i < names.len() && (#[trigger] select(
                        storage@,
                        CriterionView::Answers(
                            looked_up(parse_query_text(unicode_lowercase(names[i]@))),
                        ),
                    )).len() == 0,
                (None, _) => true,
            },
    {
        match &self.package_names {
            None => Ok(Self::installed_entries(storage, installed)),
            Some(names) => {
                let mut out: Vec<ResolvedPackage> = Vec::new();
                let mut i: usize = 0;
                while i < names.len()
                    invariant
                        i <= names.len(),
                        out.len() == i,
                        self.names() == Some(names@),
                        forall|j: int|
                            0 <= j < i ==> resolution(
                                select(
                                    storage@,
                                    CriterionView::Answers(
                                        looked_up(
                                            parse_query_text(unicode_lowercase(names@[j]@)),
                                        ),
                                    ),
                                ),
                                true,
                            ) == Some(#[trigger] out[j]@),
                    decreases names.len() - i,
                {
                    match storage.resolve_package(names[i].as_str(), true) {
                        Ok(p) => {
                            out.push(p);
                        },
                        Err(e) => {
                            assert(!(e is Ambiguous));
                            assert(select(
                                storage@,
                                CriterionView::Answers(
                                    looked_up(
                                        parse_query_text(unicode_lowercase(names@[i as int]@)),
                                    ),
                                ),
                            ).len() == 0);
                            return Err(e);
                        },
                    }
                    i += 1;
                }
                Ok(out)
            },
        }
    }
}

} // verus!
