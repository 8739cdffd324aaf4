//! Removing installed packages: which packages a name stands for, and what
//! is taken away for each.

use crate::installed::{
    key_of, record_key, InstalledPackage, InstalledPackageView, InstalledPackages,
};
use crate::package::{
    full_name_of, install_dir_name, join_path, parse_package_query, parse_query_text, path_join,
    PackageQuery, PackageQueryView, ResolvedPackage, ResolvedPackageView,
};
use vstd::string::*;
use crate::seqs::{lemma_deep_view_index, lemma_deep_view_push, lemma_filter_ends, lemma_filter_step};
use crate::storage::{select, Criterion, CriterionView, PackageStorage, RepositoryView};
use crate::text::{lowercase, str_eq, unicode_lowercase};
use vstd::prelude::*;

verus! {

/// Whether a query, whose texts are in lower case, names a record outright:
/// whether the full name that the query gives is the name of the record, in
/// the collection that the query gives, if it gives one, letter case apart.
pub open spec fn names_record(r: InstalledPackageView, q: PackageQueryView) -> bool {
    unicode_lowercase(r.name) == full_name_of(q.family, q.name, '-') && (q.collection is None
        || q.collection == Some(unicode_lowercase(r.collection)))
}

/// Whether one of the catalog entries is the package of a record.
pub open spec fn described_by(r: InstalledPackageView, entries: Seq<ResolvedPackageView>) -> bool {
    exists|i: int| 0 <= i < entries.len() && #[trigger] key_of(entries[i]) == record_key(r)
}

/// The catalog entries that a query stands for when packages are removed.
/// A query that gives a family stands for the packages of that family. One
/// that gives none stands for the packages of every family, unless `exact`
/// restricts it to packages without a family.
pub open spec fn removal_candidates(
    repos: Seq<RepositoryView>,
    q: PackageQueryView,
    exact: bool,
) -> Seq<ResolvedPackageView> {
    select(
        repos,
        if exact {
            CriterionView::AnswersExactly(q)
        } else {
            CriterionView::Answers(q)
        },
    )
}

/// Whether a record is removed for a query: whether the query names it
/// outright, or the catalog knows it as one of the packages that the query
/// stands for.
pub open spec fn is_removal_target(
    repos: Seq<RepositoryView>,
    r: InstalledPackageView,
    q: PackageQueryView,
    exact: bool,
) -> bool {
    names_record(r, q) || described_by(r, removal_candidates(repos, q, exact))
}

/// The records that are removed for a query, in the order of the record of
/// installations.
pub open spec fn removal_targets(
    repos: Seq<RepositoryView>,
    records: Seq<InstalledPackageView>,
    q: PackageQueryView,
    exact: bool,
) -> Seq<InstalledPackageView> {
    records.filter(|r: InstalledPackageView| is_removal_target(repos, r, q, exact))
}

fn names(record: &InstalledPackage, query: &PackageQuery) -> (r: bool)
    ensures
        r == names_record(record@, query@),
{
    let full = match &query.family {
        Some(f) => {
            let mut b = f.clone();
            b.push('-');
            b.append(query.name.as_str());
            b
        },
        None => query.name.clone(),
    };
    if !str_eq(lowercase(record.name.as_str()).as_str(), full.as_str()) {
        return false;
    }
    match &query.collection {
        None => true,
        Some(c) => str_eq(c.as_str(), lowercase(record.collection.as_str()).as_str()),
    }
}

fn described(record: &InstalledPackage, entries: &Vec<ResolvedPackage>) -> (r: bool)
    ensures
        r == described_by(record@, entries.deep_view()),
{
    let mut i: usize = 0;
    while i < entries.len()
        invariant
            i <= entries.len(),
            forall|j: int|
                0 <= j < i ==> #[trigger] key_of(entries.deep_view()[j]) != record_key(record@),
        decreases entries.len() - i,
    {
        proof {
            lemma_deep_view_index(*entries);
        }
        if record.describes(&entries[i]) {
            assert(key_of(entries.deep_view()[i as int]) == record_key(record@));
            return true;
        }
        i += 1;
    }
    proof {
        lemma_deep_view_index(*entries);
    }
    false
}

/// The installed packages that `query` stands for.
pub fn find_removal_targets(
    storage: &PackageStorage,
    installed: &InstalledPackages,
    query: &PackageQuery,
    exact: bool,
) -> (r: Vec<InstalledPackage>)
    ensures
        r.deep_view() == removal_targets(storage@, installed@, query@, exact),
{
    let found = if exact {
        storage.find(&Criterion::AnswersExactly(query))
    } else {
        storage.find(&Criterion::Answers(query))
    };
    let ghost all = installed@;
    let ghost meant = |r: InstalledPackageView| is_removal_target(storage@, r, query@, exact);
    let mut out: Vec<InstalledPackage> = Vec::new();
    let mut i: usize = 0;
    proof {
        lemma_filter_ends(all, meant);
        assert(out.deep_view() =~= Seq::<InstalledPackageView>::empty());
    }
    while i < installed.packages.len()
        invariant
            i <= installed.packages.len(),
            all == installed@,
            all.len() == installed.packages.len(),
            found.deep_view() == removal_candidates(storage@, query@, exact),
            meant == (|r: InstalledPackageView| is_removal_target(storage@, r, query@, exact)),
            out.deep_view() == all.take(i as int).filter(meant),
        decreases installed.packages.len() - i,
    {
        proof {
            lemma_deep_view_index(installed.packages);
            lemma_filter_step(all, meant, i as int);
        }
        let record = &installed.packages[i];
        if names(record, query) || described(record, &found) {
            let copy = record.clone();
            let ghost before = out;
            out.push(copy);
            proof {
                lemma_deep_view_push(before, out, copy);
            }
        }
        i += 1;
    }
    proof {
        lemma_filter_ends(all, meant);
    }
    out
}

/// The installed packages that the name `package_name` stands for. An empty
/// result means that the package is not installed.
pub fn resolve_removal(
    storage: &PackageStorage,
    installed: &InstalledPackages,
    package_name: &str,
    exact: bool,
) -> (r: Vec<InstalledPackage>)
    ensures
        r.deep_view() == removal_targets(
            storage@,
            installed@,
            parse_query_text(unicode_lowercase(package_name@)),
            exact,
        ),
{
    let query = parse_package_query(package_name);
    find_removal_targets(storage, installed, &query, exact)
}

/// What removing one installation takes away.
#[derive(Debug, PartialEq, Eq)]
pub struct RemovalPlan {
    /// The link of the binary; it goes only if it points at `install_path`.
    pub symlink_path: String,
    /// The installed artifact.
    pub install_path: String,
    /// The directory of the installation, which is removed with all it
    /// holds.
    pub install_dir: String,
}

/// Mathematical model of a [`RemovalPlan`].
pub struct RemovalPlanView {
    pub symlink_path: Seq<char>,
    pub install_path: Seq<char>,
    pub install_dir: Seq<char>,
}

impl View for RemovalPlan {
    type V = RemovalPlanView;

    open spec fn view(&self) -> RemovalPlanView {
        RemovalPlanView {
            symlink_path: self.symlink_path@,
            install_path: self.install_path@,
            install_dir: self.install_dir@,
        }
    }
}

/// The removal of one installation: link `<bin>/<binary>`, directory
/// `<packages>/<checksum prefix>-<full name>` and the artifact in it.
pub open spec fn removal_of(
    record: InstalledPackageView,
    bin_path: Seq<char>,
    packages_path: Seq<char>,
) -> RemovalPlanView {
    let dir = join_path(packages_path, install_dir_name(record.checksum, record.name));
    RemovalPlanView {
        symlink_path: join_path(bin_path, record.bin_name),
        install_path: join_path(dir, record.bin_name),
        install_dir: dir,
    }
}

/// Removes one installed package.
#[derive(Debug, PartialEq, Eq)]
pub struct Remover {
    package: InstalledPackage,
}

impl View for Remover {
    type V = InstalledPackageView;

    closed spec fn view(&self) -> InstalledPackageView {
        self.package@
    }
}

impl Remover {
    /// A remover for the installation that `package` records.
    pub fn new(package: &InstalledPackage) -> (r: Self)
        ensures
            r@ == package@,
    {
        Remover { package: package.clone() }
    }

    /// What is to be taken away.
    pub fn plan(&self, bin_path: &str, packages_path: &str) -> (r: RemovalPlan)
        ensures
            r@ == removal_of(self@, bin_path@, packages_path@),
    {
        let dir_name = self.package.install_dir_name();
        let install_dir = path_join(packages_path, dir_name.as_str());
        RemovalPlan {
            symlink_path: path_join(bin_path, self.package.bin_name.as_str()),
            install_path: path_join(install_dir.as_str(), self.package.bin_name.as_str()),
            install_dir,
        }
    }

    /// Whether the link of the binary is removed: only when it exists and
    /// points at the artifact of this installation. `target` is what the
    /// link points at, if it exists.
    pub fn remove_symlink(&self, target: Option<&str>, install_path: &str) -> (r: bool)
        ensures
            r == match target {
                Some(t) => t@ == install_path@,
                None => false,
            },
    {
        match target {
            Some(t) => str_eq(t, install_path),
            None => false,
        }
    }
}

} // verus!
