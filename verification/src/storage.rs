//! The in-memory index of every known package, by repository, collection and
//! name, and the lookups on it.

use crate::installed::{key_of, record_key, InstalledPackage, InstalledPackageView};
use crate::package::{
    clone_opt, full_name_of, opt_eq, opt_text, parse_lowercase_query, parse_package_query,
    parse_query_text, Package, PackageQuery, PackageQueryView, PackageView, ResolvedPackage,
    ResolvedPackageView,
};
use crate::seqs::{lemma_deep_view_index, lemma_deep_view_push, lemma_filter_ends, lemma_filter_step};
use crate::sorting::{is_stable_order, stable_order, SortKey, SortKeyView};
use crate::text::{
    chars_eq, contains, contains_text, first_index_of, from_chars, lemma_first_index_of,
    lemma_first_index_of_bounds, lowercase, str_eq, to_chars, unicode_lowercase,
};
use crate::util::{trim, trimmed};
use vstd::prelude::*;

verus! {

/// The variants published under one package name.
#[derive(Debug, PartialEq, Eq)]
pub struct PackageGroup {
    pub name: String,
    pub packages: Vec<Package>,
}

/// Mathematical model of a [`PackageGroup`].
pub struct PackageGroupView {
    pub name: Seq<char>,
    pub packages: Seq<PackageView>,
}

impl View for PackageGroup {
    type V = PackageGroupView;

    open spec fn view(&self) -> PackageGroupView {
        PackageGroupView { name: self.name@, packages: self.packages.deep_view() }
    }
}

impl DeepView for PackageGroup {
    type V = PackageGroupView;

    open spec fn deep_view(&self) -> PackageGroupView {
        self@
    }
}

/// A named bucket of a repository, holding its packages grouped by name in
/// the order in which the names first appeared.
#[derive(Debug, PartialEq, Eq)]
pub struct CollectionPackages {
    pub name: String,
    pub groups: Vec<PackageGroup>,
}

/// Mathematical model of a [`CollectionPackages`].
pub struct CollectionView {
    pub name: Seq<char>,
    pub groups: Seq<PackageGroupView>,
}

impl View for CollectionPackages {
    type V = CollectionView;

    open spec fn view(&self) -> CollectionView {
        CollectionView { name: self.name@, groups: self.groups.deep_view() }
    }
}

impl DeepView for CollectionPackages {
    type V = CollectionView;

    open spec fn deep_view(&self) -> CollectionView {
        self@
    }
}

/// The catalog of one repository: its collections in the order in which they
/// were published.
#[derive(Debug, PartialEq, Eq)]
pub struct RepositoryPackages {
    pub collection: Vec<CollectionPackages>,
}

impl View for RepositoryPackages {
    type V = Seq<CollectionView>;

    open spec fn view(&self) -> Seq<CollectionView> {
        self.collection.deep_view()
    }
}

impl DeepView for RepositoryPackages {
    type V = Seq<CollectionView>;

    open spec fn deep_view(&self) -> Seq<CollectionView> {
        self@
    }
}

/// One repository of the store.
#[derive(Debug, PartialEq, Eq)]
pub struct RepositoryEntry {
    pub name: String,
    pub packages: RepositoryPackages,
}

/// Mathematical model of a [`RepositoryEntry`].
pub struct RepositoryView {
    pub name: Seq<char>,
    pub collections: Seq<CollectionView>,
}

impl View for RepositoryEntry {
    type V = RepositoryView;

    open spec fn view(&self) -> RepositoryView {
        RepositoryView { name: self.name@, collections: self.packages@ }
    }
}

impl DeepView for RepositoryEntry {
    type V = RepositoryView;

    open spec fn deep_view(&self) -> RepositoryView {
        self@
    }
}

/// Every known package, by repository. Repositories keep the order in which
/// they were added.
#[derive(Debug, PartialEq, Eq)]
pub struct PackageStorage {
    repository: Vec<RepositoryEntry>,
}

impl View for PackageStorage {
    type V = Seq<RepositoryView>;

    closed spec fn view(&self) -> Seq<RepositoryView> {
        self.repository.deep_view()
    }
}

/// The names of a list of repositories.
pub open spec fn repository_names(repos: Seq<RepositoryView>) -> Seq<Seq<char>> {
    Seq::new(repos.len(), |i: int| repos[i].name)
}

/// The names of a list of collections.
pub open spec fn collection_names(collections: Seq<CollectionView>) -> Seq<Seq<char>> {
    Seq::new(collections.len(), |i: int| collections[i].name)
}

/// The names of a list of groups.
pub open spec fn group_names(groups: Seq<PackageGroupView>) -> Seq<Seq<char>> {
    Seq::new(groups.len(), |i: int| groups[i].name)
}

/// Whether a list of groups is what a map from names to variants holds: no
/// name stands twice, and every variant stands under its own name.
pub open spec fn groups_are_keyed(groups: Seq<PackageGroupView>) -> bool {
    &&& group_names(groups).no_duplicates()
    &&& forall|g: int, k: int|
        0 <= g < groups.len() && 0 <= k < groups[g].packages.len() ==> (
        #[trigger] groups[g].packages[k]).pkg == groups[g].name
}

/// Whether a catalog is what a map from collections to maps of names holds:
/// no collection stands twice, and in no collection a name.
pub open spec fn catalog_is_keyed(catalog: Seq<CollectionView>) -> bool {
    &&& collection_names(catalog).no_duplicates()
    &&& forall|c: int| 0 <= c < catalog.len() ==> groups_are_keyed((#[trigger] catalog[c]).groups)
}

/// Whether a store is what a map from repositories to catalogs holds: no
/// repository stands twice, and every catalog is keyed.
pub open spec fn store_is_keyed(repos: Seq<RepositoryView>) -> bool {
    &&& repository_names(repos).no_duplicates()
    &&& forall|r: int| 0 <= r < repos.len() ==> catalog_is_keyed((#[trigger] repos[r]).collections)
}

/// The store after a repository was put into it: it takes the place of the
/// repository of its name, or the place after all others.
pub open spec fn with_repository(repos: Seq<RepositoryView>, entry: RepositoryView) -> Seq<
    RepositoryView,
> {
    let at = first_index_of(repository_names(repos), entry.name);
    if at < repos.len() {
        repos.update(at, entry)
    } else {
        repos.push(entry)
    }
}

/// Putting a repository with a keyed catalog into a keyed store leaves the
/// store keyed: its name still stands once.
pub proof fn lemma_with_repository_is_keyed(repos: Seq<RepositoryView>, entry: RepositoryView)
    requires
        store_is_keyed(repos),
        catalog_is_keyed(entry.collections),
    ensures
        store_is_keyed(with_repository(repos, entry)),
{
    let names = repository_names(repos);
    let after = with_repository(repos, entry);
    let at = first_index_of(names, entry.name);
    lemma_first_index_of_bounds(names, entry.name);
    if at < repos.len() {
        assert(repository_names(after) =~= names);
    } else {
        assert(repository_names(after) =~= names.push(entry.name));
    }
    assert forall|r: int| 0 <= r < after.len() implies catalog_is_keyed(
        (#[trigger] after[r]).collections,
    ) by {
        if r != at {
            assert(after[r] == repos[r]);
        }
    }
}

/// The packages of one group, each with the repository and collection it
/// belongs to.
pub open spec fn group_entries(
    packages: Seq<PackageView>,
    repo: Seq<char>,
    collection: Seq<char>,
) -> Seq<ResolvedPackageView> {
    Seq::new(
        packages.len(),
        |i: int| ResolvedPackageView { repo_name: repo, collection, package: packages[i] },
    )
}

/// The packages of a list of groups, in order.
pub open spec fn groups_entries(
    groups: Seq<PackageGroupView>,
    repo: Seq<char>,
    collection: Seq<char>,
) -> Seq<ResolvedPackageView>
    decreases groups.len(),
{
    if groups.len() == 0 {
        Seq::empty()
    } else {
        groups_entries(groups.drop_last(), repo, collection) + group_entries(
            groups.last().packages,
            repo,
            collection,
        )
    }
}

/// The packages of a list of collections, in order.
pub open spec fn collections_entries(
    collections: Seq<CollectionView>,
    repo: Seq<char>,
) -> Seq<ResolvedPackageView>
    decreases collections.len(),
{
    if collections.len() == 0 {
        Seq::empty()
    } else {
        collections_entries(collections.drop_last(), repo) + groups_entries(
            collections.last().groups,
            repo,
            collections.last().name,
        )
    }
}

/// Every package of a list of repositories, in insertion order: repository by
/// repository, collection by collection, name by name, variant by variant.
pub open spec fn all_entries(repos: Seq<RepositoryView>) -> Seq<ResolvedPackageView>
    decreases repos.len(),
{
    if repos.len() == 0 {
        Seq::empty()
    } else {
        all_entries(repos.drop_last()) + collections_entries(
            repos.last().collections,
            repos.last().name,
        )
    }
}

/// An optional text in lower case.
pub open spec fn lowered(s: Option<Seq<char>>) -> Option<Seq<char>> {
    match s {
        Some(t) => Some(unicode_lowercase(t)),
        None => None,
    }
}

/// Whether a package answers a query, whose texts are in lower case: the
/// names are equal, and the collection and the family agree, letter case
/// apart, wherever the query gives them.
pub open spec fn answers(r: ResolvedPackageView, q: PackageQueryView) -> bool {
    &&& r.package.pkg == q.name
    &&& (q.collection is None || q.collection == Some(unicode_lowercase(r.collection)))
    &&& (q.family is None || q.family == lowered(r.package.family))
}

/// A query as it is looked up: white space around its name does not count.
pub open spec fn looked_up(q: PackageQueryView) -> PackageQueryView {
    PackageQueryView { name: trimmed(q.name), ..q }
}

/// How well a package name matches a search word: 2 when they are equal, 1
/// when the word occurs in the name, 0 otherwise. Unless the search is case
/// sensitive the name is compared in lower case.
pub open spec fn search_score(name: Seq<char>, word: Seq<char>, case_sensitive: bool) -> nat {
    let found = if case_sensitive {
        name
    } else {
        unicode_lowercase(name)
    };
    if found == word {
        2
    } else if contains_text(found, word) {
        1
    } else {
        0
    }
}

/// A condition on packages that a scan of the store selects by.
pub enum Criterion<'a> {
    /// The package answers the query.
    Answers(&'a PackageQuery),
    /// The package is in the named collection; every package when no
    /// collection is named.
    InCollection(Option<&'a str>),
    /// The package name matches `word` with exactly the given score, and the
    /// family is the given one, letter case apart, where one is given. The
    /// family is given in lower case.
    Scores { word: &'a str, family: &'a Option<String>, case_sensitive: bool, score: u8 },
    /// The package is the one that the record describes: it has the
    /// record's repository, collection and full name.
    Recorded(&'a InstalledPackage),
    /// The package answers the query and has the family that the query
    /// gives, letter case apart, and none where it gives none.
    AnswersExactly(&'a PackageQuery),
}

/// Mathematical model of a [`Criterion`].
pub enum CriterionView {
    Answers(PackageQueryView),
    InCollection(Option<Seq<char>>),
    Scores { word: Seq<char>, family: Option<Seq<char>>, case_sensitive: bool, score: u8 },
    Recorded(InstalledPackageView),
    AnswersExactly(PackageQueryView),
}

impl View for Criterion<'_> {
    type V = CriterionView;

    open spec fn view(&self) -> CriterionView {
        match self {
            Criterion::Answers(q) => CriterionView::Answers(q@),
            Criterion::InCollection(c) => CriterionView::InCollection(
                match c {
                    Some(name) => Some(name@),
                    None => None,
                },
            ),
            Criterion::Scores { word, family, case_sensitive, score } => CriterionView::Scores {
                word: word@,
                family: opt_text(**family),
                case_sensitive: *case_sensitive,
                score: *score,
            },
            Criterion::Recorded(record) => CriterionView::Recorded(record@),
            Criterion::AnswersExactly(q) => CriterionView::AnswersExactly(q@),
        }
    }
}

/// Whether a package meets a criterion.
pub open spec fn meets(c: CriterionView, r: ResolvedPackageView) -> bool {
    match c {
        CriterionView::Answers(q) => answers(r, q),
        CriterionView::InCollection(name) => name is None || name == Some(r.collection),
        CriterionView::Scores { word, family, case_sensitive, score } => {
            &&& search_score(r.package.pkg, word, case_sensitive) == score
            &&& (family is None || family == lowered(r.package.family))
        },
        CriterionView::Recorded(record) => key_of(r) == record_key(record),
        CriterionView::AnswersExactly(q) => answers(r, q) && lowered(r.package.family)
            == q.family,
    }
}

/// [`meets`] as a predicate on packages.
pub open spec fn meeting(c: CriterionView) -> spec_fn(ResolvedPackageView) -> bool {
    |r: ResolvedPackageView| meets(c, r)
}

/// The packages that meet a criterion, in insertion order.
pub open spec fn select(repos: Seq<RepositoryView>, c: CriterionView) -> Seq<ResolvedPackageView> {
    all_entries(repos).filter(meeting(c))
}

/// An optional text brought to lower case.
fn lowercase_opt(s: &Option<String>) -> (r: Option<String>)
    ensures
        opt_text(r) == lowered(opt_text(*s)),
{
    match s {
        Some(t) => Some(lowercase(t.as_str())),
        None => None,
    }
}

/// Whether a collection and a family are the ones that are wanted, where
/// any is wanted. All texts are compared as they are.
pub fn fields_agree(
    wanted_collection: &Option<String>,
    wanted_family: &Option<String>,
    collection: &str,
    family: &Option<String>,
) -> (r: bool)
    ensures
        r == ((opt_text(*wanted_collection) is None || opt_text(*wanted_collection) == Some(
            collection@,
        )) && (opt_text(*wanted_family) is None || opt_text(*wanted_family) == opt_text(
            *family,
        ))),
{
    let collection_ok = match wanted_collection {
        None => true,
        Some(c) => str_eq(c.as_str(), collection),
    };
    if !collection_ok {
        return false;
    }
    match wanted_family {
        None => true,
        Some(_) => opt_eq(wanted_family, family),
    }
}

/// Whether a package of the given collection and family agrees, letter case
/// apart, with the collection and the family that a query gives in lower
/// case.
fn agrees(
    wanted_collection: &Option<String>,
    wanted_family: &Option<String>,
    collection: &str,
    family: &Option<String>,
) -> (r: bool)
    ensures
        r == ((opt_text(*wanted_collection) is None || opt_text(*wanted_collection) == Some(
            unicode_lowercase(collection@),
        )) && (opt_text(*wanted_family) is None || opt_text(*wanted_family) == lowered(
            opt_text(*family),
        ))),
{
    let collection_lower = lowercase(collection);
    let family_lower = lowercase_opt(family);
    fields_agree(wanted_collection, wanted_family, collection_lower.as_str(), &family_lower)
}

/// The query as it is looked up.
fn lookup_form(query: &PackageQuery) -> (r: PackageQuery)
    ensures
        r@ == looked_up(query@),
{
    let name = trim(to_chars(query.name.as_str()).as_slice());
    PackageQuery {
        name: from_chars(name.as_slice()),
        family: clone_opt(&query.family),
        collection: clone_opt(&query.collection),
    }
}

impl<'a> Criterion<'a> {
    /// Whether `package`, found in `collection` of the repository `repo`,
    /// meets the criterion.
    pub fn admits(&self, package: &Package, repo: &str, collection: &str) -> (r: bool)
        ensures
            r == meets(
                self@,
                ResolvedPackageView {
                    repo_name: repo@,
                    collection: collection@,
                    package: package@,
                },
            ),
    {
        match self {
            Criterion::Answers(query) => {
                if !str_eq(package.pkg.as_str(), query.name.as_str()) {
                    return false;
                }
                agrees(&query.collection, &query.family, collection, &package.family)
            },
            Criterion::InCollection(name) => match name {
                None => true,
                Some(c) => str_eq(c, collection),
            },
            Criterion::Scores { word, family, case_sensitive, score } => {
                let found = if *case_sensitive {
                    to_chars(package.pkg.as_str())
                } else {
                    to_chars(lowercase(package.pkg.as_str()).as_str())
                };
                let w = to_chars(word);
                let actual: u8 = if chars_eq(found.as_slice(), w.as_slice()) {
                    2
                } else if contains(found.as_slice(), w.as_slice()) {
                    1
                } else {
                    0
                };
                if actual != *score {
                    return false;
                }
                match family {
                    None => true,
                    Some(_) => opt_eq(family, &lowercase_opt(&package.family)),
                }
            },
            Criterion::Recorded(record) => {
                if !str_eq(record.repo_name.as_str(), repo) || !str_eq(
                    record.collection.as_str(),
                    collection,
                ) {
                    return false;
                }
                let name = package.full_name('-');
                str_eq(record.name.as_str(), name.as_str())
            },
            Criterion::AnswersExactly(query) => {
                if !str_eq(package.pkg.as_str(), query.name.as_str()) {
                    return false;
                }
                agrees(&query.collection, &query.family, collection, &package.family)
                    && opt_eq(&query.family, &lowercase_opt(&package.family))
            },
        }
    }
}

/// Appends to `out` the packages of one group that meet `criterion`.
fn select_from_group(
    packages: &Vec<Package>,
    repo: &str,
    collection: &str,
    criterion: &Criterion,
    out: &mut Vec<ResolvedPackage>,
)
    ensures
        final(out).deep_view() == old(out).deep_view() + group_entries(
            packages.deep_view(),
            repo@,
            collection@,
        ).filter(meeting(criterion@)),
{
    let ghost pred = meeting(criterion@);
    let ghost entries = group_entries(packages.deep_view(), repo@, collection@);
    let ghost start = out.deep_view();
    let mut i: usize = 0;
    proof {
        lemma_deep_view_index(*packages);
        lemma_filter_ends(entries, pred);
        assert(start + Seq::<ResolvedPackageView>::empty() =~= start);
    }
    while i < packages.len()
        invariant
            i <= packages.len(),
            pred == meeting(criterion@),
            entries == group_entries(packages.deep_view(), repo@, collection@),
            entries.len() == packages.len(),
            out.deep_view() == start + entries.take(i as int).filter(pred),
        decreases packages.len() - i,
    {
        let p = &packages[i];
        let ghost entry = ResolvedPackageView {
            repo_name: repo@,
            collection: collection@,
            package: p@,
        };
        proof {
            lemma_deep_view_index(*packages);
            assert(entries[i as int] == entry);
            lemma_filter_step(entries, pred, i as int);
        }
        let hit = criterion.admits(p, repo, collection);
        assert(hit == pred(entry));
        if hit {
            let r = ResolvedPackage {
                repo_name: repo.to_owned(),
                collection: collection.to_owned(),
                package: p.clone(),
            };
            let ghost before = *out;
            out.push(r);
            proof {
                lemma_deep_view_push(before, *out, r);
                assert(r@ == entry);
                assert(start + entries.take(i as int).filter(pred).push(entry) =~= (start
                    + entries.take(i as int).filter(pred)).push(entry));
            }
        }
        i += 1;
    }
    proof {
        lemma_filter_ends(entries, pred);
    }
}

/// Appends to `out` the packages of a list of groups that meet `criterion`.
fn select_from_groups(
    groups: &Vec<PackageGroup>,
    repo: &str,
    collection: &str,
    criterion: &Criterion,
    out: &mut Vec<ResolvedPackage>,
)
    ensures
        final(out).deep_view() == old(out).deep_view() + groups_entries(
            groups.deep_view(),
            repo@,
            collection@,
        ).filter(meeting(criterion@)),
{
    let ghost pred = meeting(criterion@);
    let ghost all = groups.deep_view();
    let ghost start = out.deep_view();
    let mut i: usize = 0;
    proof {
        lemma_filter_ends(groups_entries(all.take(0), repo@, collection@), pred);
        assert(start + Seq::<ResolvedPackageView>::empty() =~= start);
    }
    while i < groups.len()
        invariant
            i <= groups.len(),
            pred == meeting(criterion@),
            all == groups.deep_view(),
            out.deep_view() == start + groups_entries(
                all.take(i as int),
                repo@,
                collection@,
            ).filter(pred),
        decreases groups.len() - i,
    {
        let ghost head = groups_entries(all.take(i as int), repo@, collection@);
        let ghost part = group_entries(groups[i as int].packages.deep_view(), repo@, collection@);
        proof {
            lemma_deep_view_index(*groups);
            assert(all.take(i + 1).drop_last() =~= all.take(i as int));
            assert(groups_entries(all.take(i + 1), repo@, collection@) == head + part);
            Seq::filter_distributes_over_add(head, part, pred);
            assert(start + (head.filter(pred) + part.filter(pred)) =~= (start + head.filter(pred))
                + part.filter(pred));
        }
        select_from_group(&groups[i].packages, repo, collection, criterion, out);
        i += 1;
    }
    assert(all.take(groups.len() as int) =~= all);
}

/// Appends to `out` the packages of a list of collections that meet
/// `criterion`.
fn select_from_collections(
    collections: &Vec<CollectionPackages>,
    repo: &str,
    criterion: &Criterion,
    out: &mut Vec<ResolvedPackage>,
)
    ensures
        final(out).deep_view() == old(out).deep_view() + collections_entries(
            collections.deep_view(),
            repo@,
        ).filter(meeting(criterion@)),
{
    let ghost pred = meeting(criterion@);
    let ghost all = collections.deep_view();
    let ghost start = out.deep_view();
    let mut i: usize = 0;
    proof {
        lemma_filter_ends(collections_entries(all.take(0), repo@), pred);
        assert(start + Seq::<ResolvedPackageView>::empty() =~= start);
    }
    while i < collections.len()
        invariant
            i <= collections.len(),
            pred == meeting(criterion@),
            all == collections.deep_view(),
            out.deep_view() == start + collections_entries(all.take(i as int), repo@).filter(pred),
        decreases collections.len() - i,
    {
        let ghost head = collections_entries(all.take(i as int), repo@);
        let ghost part = groups_entries(
            collections[i as int].groups.deep_view(),
            repo@,
            collections[i as int].name@,
        );
        proof {
            lemma_deep_view_index(*collections);
            assert(all.take(i + 1).drop_last() =~= all.take(i as int));
            assert(collections_entries(all.take(i + 1), repo@) == head + part);
            Seq::filter_distributes_over_add(head, part, pred);
            assert(start + (head.filter(pred) + part.filter(pred)) =~= (start + head.filter(pred))
                + part.filter(pred));
        }
        select_from_groups(
            &collections[i].groups,
            repo,
            collections[i].name.as_str(),
            criterion,
            out,
        );
        i += 1;
    }
    assert(all.take(collections.len() as int) =~= all);
}

impl PackageStorage {
    /// A store without repositories.
    pub fn new() -> (s: Self)
        ensures
            s@ == Seq::<RepositoryView>::empty(),
            store_is_keyed(s@),
    {
        let s = PackageStorage { repository: Vec::new() };
        assert(s@ =~= Seq::<RepositoryView>::empty());
        s
    }

    /// The packages that meet `criterion`, in insertion order.
    pub fn find(&self, criterion: &Criterion) -> (r: Vec<ResolvedPackage>)
        ensures
            r.deep_view() == select(self@, criterion@),
    {
        let ghost pred = meeting(criterion@);
        let ghost all = self@;
        let mut out: Vec<ResolvedPackage> = Vec::new();
        let mut i: usize = 0;
        proof {
            lemma_filter_ends(all_entries(all.take(0)), pred);
            assert(out.deep_view() =~= Seq::<ResolvedPackageView>::empty());
        }
        while i < self.repository.len()
            invariant
                i <= self.repository.len(),
                pred == meeting(criterion@),
                all == self@,
                all == self.repository.deep_view(),
                out.deep_view() == all_entries(all.take(i as int)).filter(pred),
            decreases self.repository.len() - i,
        {
            let ghost head = all_entries(all.take(i as int));
            let ghost part = collections_entries(
                self.repository[i as int].packages@,
                self.repository[i as int].name@,
            );
            proof {
                lemma_deep_view_index(self.repository);
                assert(all.take(i + 1).drop_last() =~= all.take(i as int));
                assert(all_entries(all.take(i + 1)) == head + part);
                Seq::filter_distributes_over_add(head, part, pred);
            }
            select_from_collections(
                &self.repository[i].packages.collection,
                self.repository[i].name.as_str(),
                criterion,
                &mut out,
            );
            i += 1;
        }
        assert(all.take(self.repository.len() as int) =~= all);
        out
    }

    /// The packages that answer `query`, in insertion order; `None` when
    /// there is none. White space around the name of the query does not
    /// count.
    pub fn get_packages(&self, query: &PackageQuery) -> (r: Option<Vec<ResolvedPackage>>)
        ensures
            match r {
                Some(found) => found.deep_view() == select(
                    self@,
                    CriterionView::Answers(looked_up(query@)),
                ) && found.len() > 0,
                None => select(self@, CriterionView::Answers(looked_up(query@))).len() == 0,
            },
    {
        let wanted = lookup_form(query);
        let found = self.find(&Criterion::Answers(&wanted));
        if found.len() > 0 {
            Some(found)
        } else {
            None
        }
    }
}

/// The key by which a listing orders a package: its collection, then its
/// full name written with a hyphen.
pub open spec fn list_key(e: ResolvedPackageView) -> SortKeyView {
    SortKeyView {
        major: e.collection,
        minor: full_name_of(e.package.family, e.package.pkg, '-'),
    }
}

/// The listing keys of a sequence of packages.
pub open spec fn list_keys(entries: Seq<ResolvedPackageView>) -> Seq<SortKeyView> {
    Seq::new(entries.len(), |i: int| list_key(entries[i]))
}

/// `entries` rearranged in the given order of positions.
pub open spec fn arranged(entries: Seq<ResolvedPackageView>, order: Seq<usize>) -> Seq<
    ResolvedPackageView,
> {
    Seq::new(order.len(), |i: int| entries[order[i] as int])
}

/// `out` lists `entries` sorted by collection and full name, packages with
/// equal keys in the order in which they stood.
pub open spec fn is_listing(
    entries: Seq<ResolvedPackageView>,
    out: Seq<ResolvedPackageView>,
) -> bool {
    exists|order: Seq<usize>| #[trigger]
        is_stable_order(list_keys(entries), order) && out == arranged(entries, order)
}

/// A listing is determined by what it lists: two listings of the same
/// packages are equal.
pub proof fn lemma_listing_is_unique(
    entries: Seq<ResolvedPackageView>,
    first: Seq<ResolvedPackageView>,
    second: Seq<ResolvedPackageView>,
)
    requires
        is_listing(entries, first),
        is_listing(entries, second),
    ensures
        first == second,
{
    let a = choose|order: Seq<usize>| #[trigger]
        is_stable_order(list_keys(entries), order) && first == arranged(entries, order);
    let b = choose|order: Seq<usize>| #[trigger]
        is_stable_order(list_keys(entries), order) && second == arranged(entries, order);
    crate::sorting::lemma_stable_order_is_unique(list_keys(entries), a, b);
}

/// The word that a search query asks for: the name that the query gives,
/// without the white space around it; in lower case unless the search is
/// case sensitive.
pub open spec fn search_word_of(query: Seq<char>, case_sensitive: bool) -> Seq<char> {
    if case_sensitive {
        trimmed(parse_query_text(query).name)
    } else {
        trimmed(parse_query_text(unicode_lowercase(query)).name)
    }
}

/// The family that a search query asks for, in lower case.
pub open spec fn search_family_of(query: Seq<char>, case_sensitive: bool) -> Option<Seq<char>> {
    if case_sensitive {
        lowered(parse_query_text(query).family)
    } else {
        parse_query_text(unicode_lowercase(query)).family
    }
}

/// What a search for `word` finds: first the packages whose name is the
/// word, then those whose name holds it, each part in insertion order.
pub open spec fn search_result(
    repos: Seq<RepositoryView>,
    word: Seq<char>,
    family: Option<Seq<char>>,
    case_sensitive: bool,
) -> Seq<ResolvedPackageView> {
    select(repos, CriterionView::Scores { word, family, case_sensitive, score: 2 }) + select(
        repos,
        CriterionView::Scores { word, family, case_sensitive, score: 1 },
    )
}

/// Why a package name could not be resolved to one package.
#[derive(Debug, PartialEq, Eq)]
pub enum ResolveError {
    /// No package answers the query.
    NotFound,
    /// Several packages answer the query and one has to be chosen among them.
    Ambiguous(Vec<ResolvedPackage>),
}

/// What resolving a query gives when `candidates` answer it: the only
/// candidate, or the first one when `yes` says not to ask.
pub open spec fn resolution(candidates: Seq<ResolvedPackageView>, yes: bool) -> Option<
    ResolvedPackageView,
> {
    if candidates.len() == 1 || (yes && candidates.len() > 1) {
        Some(candidates[0])
    } else {
        None
    }
}

/// The package that the user's answer picks among `packages`. Answers count
/// from one; an answer outside `1 ..= packages.len()` picks nothing.
pub fn select_single_package(packages: &[ResolvedPackage], selection: usize) -> (r: Option<
    &ResolvedPackage,
>)
    ensures
        match r {
            Some(p) => 1 <= selection <= packages.len() && *p == packages[selection - 1],
            None => selection == 0 || selection > packages.len(),
        },
{
    if selection > 0 && selection <= packages.len() {
        Some(&packages[selection - 1])
    } else {
        None
    }
}

impl PackageStorage {
    /// Adds a repository under `repo_name`. A repository that is already
    /// stored under that name is replaced and keeps its place, so that no
    /// name comes to stand twice.
    pub fn add_repository(&mut self, repo_name: &str, packages: RepositoryPackages)
        ensures
            final(self)@ == with_repository(
                old(self)@,
                RepositoryView { name: repo_name@, collections: packages@ },
            ),
            store_is_keyed(old(self)@) && catalog_is_keyed(packages@) ==> store_is_keyed(
                final(self)@,
            ),
    {
        proof {
            if store_is_keyed(self@) && catalog_is_keyed(packages@) {
                lemma_with_repository_is_keyed(
                    self@,
                    RepositoryView { name: repo_name@, collections: packages@ },
                );
            }
        }
        let ghost names = repository_names(self@);
        let ghost entry = RepositoryView { name: repo_name@, collections: packages@ };
        let ghost before = self.repository;
        let mut i: usize = 0;
        while i < self.repository.len()
            invariant
                i <= self.repository.len(),
                self.repository == before,
                before == old(self).repository,
                entry == (RepositoryView { name: repo_name@, collections: packages@ }),
                names == repository_names(before.deep_view()),
                names.len() == before.len(),
                store_is_keyed(old(self)@) && catalog_is_keyed(packages@) ==> store_is_keyed(
                    with_repository(old(self)@, entry),
                ),
                forall|j: int| 0 <= j < i ==> names[j] != repo_name@,
            decreases self.repository.len() - i,
        {
            proof {
                lemma_deep_view_index(self.repository);
            }
            if str_eq(self.repository[i].name.as_str(), repo_name) {
                proof {
                    lemma_first_index_of(names, repo_name@, i as int);
                }
                let fresh = RepositoryEntry { name: repo_name.to_owned(), packages };
                assert(fresh@ == entry);
                self.repository[i] = fresh;
                proof {
                    lemma_deep_view_index(self.repository);
                    assert(self.repository@ == before@.update(i as int, fresh));
                    assert(self.repository.deep_view() =~= before.deep_view().update(
                        i as int,
                        entry,
                    ));
                }
                return ;
            }
            i += 1;
        }
        proof {
            lemma_first_index_of(names, repo_name@, i as int);
        }
        let fresh = RepositoryEntry { name: repo_name.to_owned(), packages };
        self.repository.push(fresh);
        proof {
            lemma_deep_view_push(before, self.repository, fresh);
        }
    }

    /// Resolves a query to one package: the only one that answers it, or the
    /// first one when `yes` is set. Several candidates without `yes` are
    /// handed back for a choice. White space around the name of the query
    /// does not count.
    pub fn resolve_query(&self, query: &PackageQuery, yes: bool) -> (r: Result<
        ResolvedPackage,
        ResolveError,
    >)
        ensures
            ({
                let candidates = select(self@, CriterionView::Answers(looked_up(query@)));
                match r {
                    Ok(p) => resolution(candidates, yes) == Some(p@),
                    Err(ResolveError::NotFound) => candidates.len() == 0,
                    Err(ResolveError::Ambiguous(found)) => found.deep_view() == candidates
                        && candidates.len() > 1 && !yes,
                }
            }),
    {
        let wanted = lookup_form(query);
        let mut found = self.find(&Criterion::Answers(&wanted));
        proof {
            lemma_deep_view_index(found);
        }
        if found.len() == 0 {
            Err(ResolveError::NotFound)
        } else if yes || found.len() == 1 {
            Ok(found.swap_remove(0))
        } else {
            Err(ResolveError::Ambiguous(found))
        }
    }

    /// Parses `package_name` as a query and resolves it to one package.
    pub fn resolve_package(&self, package_name: &str, yes: bool) -> (r: Result<
        ResolvedPackage,
        ResolveError,
    >)
        ensures
            ({
                let query = looked_up(parse_query_text(unicode_lowercase(package_name@)));
                let candidates = select(self@, CriterionView::Answers(query));
                match r {
                    Ok(p) => resolution(candidates, yes) == Some(p@),
                    Err(ResolveError::NotFound) => candidates.len() == 0,
                    Err(ResolveError::Ambiguous(found)) => found.deep_view() == candidates
                        && candidates.len() > 1 && !yes,
                }
            }),
    {
        let query = parse_package_query(package_name);
        self.resolve_query(&query, yes)
    }

    /// Every package, or every package of the named collection, sorted by
    /// collection and then by full name.
    pub fn list_packages(&self, collection: Option<&str>) -> (r: Vec<ResolvedPackage>)
        ensures
            is_listing(
                select(
                    self@,
                    CriterionView::InCollection(
                        match collection {
                            Some(c) => Some(c@),
                            None => None,
                        },
                    ),
                ),
                r.deep_view(),
            ),
    {
        let found = self.find(&Criterion::InCollection(collection));
        let ghost entries = found.deep_view();
        let mut keys: Vec<SortKey> = Vec::new();
        let mut i: usize = 0;
        while i < found.len()
            invariant
                i <= found.len(),
                entries == found.deep_view(),
                keys.len() == i,
                keys.deep_view() == list_keys(entries).take(i as int),
            decreases found.len() - i,
        {
            let name = found[i].package.full_name('-');
            let key = SortKey {
                major: to_chars(found[i].collection.as_str()),
                minor: to_chars(name.as_str()),
            };
            let ghost before = keys;
            keys.push(key);
            proof {
                lemma_deep_view_push(before, keys, key);
                lemma_deep_view_index(found);
                assert(key@ == list_key(entries[i as int]));
                assert(list_keys(entries).take(i + 1) =~= list_keys(entries).take(i as int).push(
                    key@,
                ));
            }
            i += 1;
        }
        assert(list_keys(entries).take(found.len() as int) =~= list_keys(entries));
        let order = stable_order(&keys);
        let mut out: Vec<ResolvedPackage> = Vec::new();
        let mut k: usize = 0;
        while k < order.len()
            invariant
                k <= order.len(),
                order.len() == found.len(),
                entries == found.deep_view(),
                is_stable_order(list_keys(entries), order@),
                out.deep_view() == arranged(entries, order@).take(k as int),
            decreases order.len() - k,
        {
            let at = order[k];
            let item = found[at].clone();
            let ghost before = out;
            out.push(item);
            proof {
                lemma_deep_view_push(before, out, item);
                lemma_deep_view_index(found);
                assert(arranged(entries, order@).take(k + 1) =~= arranged(entries, order@).take(
                    k as int,
                ).push(item@));
            }
            k += 1;
        }
        assert(arranged(entries, order@).take(order.len() as int) =~= arranged(entries, order@));
        out
    }

    /// Searches package names for `word`, and for the given family, which
    /// is given in lower case, where one is given: exact matches first, then
    /// names that hold the word.
    pub fn search_word(
        &self,
        word: &str,
        family: &Option<String>,
        case_sensitive: bool,
    ) -> (r: Vec<ResolvedPackage>)
        ensures
            r.deep_view() == search_result(self@, word@, opt_text(*family), case_sensitive),
    {
        let mut exact = self.find(&Criterion::Scores { word, family, case_sensitive, score: 2 });
        let mut partial = self.find(&Criterion::Scores { word, family, case_sensitive, score: 1 });
        let ghost a = exact.deep_view();
        let ghost b = partial.deep_view();
        let ghost first_part = exact;
        let ghost second_part = partial;
        exact.append(&mut partial);
        proof {
            lemma_deep_view_index(first_part);
            lemma_deep_view_index(second_part);
            lemma_deep_view_index(exact);
            assert(exact.deep_view() =~= a + b);
        }
        exact
    }

    /// Searches for the name, and the family if any, that `query` gives. A
    /// case-sensitive search takes the name as it is written; otherwise the
    /// query and the package names are compared in lower case. White space
    /// around the name does not count, and the family is compared in lower
    /// case either way.
    pub fn search(&self, query: &str, case_sensitive: bool) -> (r: Vec<ResolvedPackage>)
        ensures
            r.deep_view() == search_result(
                self@,
                search_word_of(query@, case_sensitive),
                search_family_of(query@, case_sensitive),
                case_sensitive,
            ),
    {
        let parsed = if case_sensitive {
            parse_lowercase_query(query)
        } else {
            parse_package_query(query)
        };
        let family = if case_sensitive {
            lowercase_opt(&parsed.family)
        } else {
            clone_opt(&parsed.family)
        };
        let word = from_chars(trim(to_chars(parsed.name.as_str()).as_slice()).as_slice());
        self.search_word(word.as_str(), &family, case_sensitive)
    }
}

/// Whether some repository has a collection of the given name, which is
/// given in lower case, letter case apart.
pub open spec fn has_collection(repos: Seq<RepositoryView>, name: Seq<char>) -> bool {
    exists|r: int, c: int|
        0 <= r < repos.len() && 0 <= c < repos[r].collections.len() && unicode_lowercase(
            (#[trigger] repos[r].collections[c]).name,
        ) == name
}

/// Why a query cannot be answered at all.
#[derive(Debug, Clone, Copy, PartialEq, Eq, Structural)]
pub enum QueryError {
    /// The query names a collection that no repository has.
    InvalidCollection,
}

impl PackageStorage {
    /// Checks the collection that a query names: a collection that no
    /// repository has is an error.
    pub fn check_query(&self, query: &PackageQuery) -> (r: Result<(), QueryError>)
        ensures
            r is Err <==> (query@.collection is Some && !has_collection(
                self@,
                query@.collection.unwrap(),
            )),
    {
        let name = match &query.collection {
            Some(c) => c,
            None => {
                return Ok(());
            },
        };
        let mut i: usize = 0;
        while i < self.repository.len()
            invariant
                i <= self.repository.len(),
                query@.collection == Some(name@),
                forall|r: int, c: int|
                    0 <= r < i && 0 <= c < self@[r].collections.len() ==> unicode_lowercase(
                        (#[trigger] self@[r].collections[c]).name,
                    ) != name@,
            decreases self.repository.len() - i,
        {
            proof {
                lemma_deep_view_index(self.repository);
            }
            let collections = &self.repository[i].packages.collection;
            let mut k: usize = 0;
            while k < collections.len()
                invariant
                    k <= collections.len(),
                    i < self.repository.len(),
                    i < self@.len(),
                    query@.collection == Some(name@),
                    self@[i as int].collections == collections.deep_view(),
                    forall|c: int|
                        0 <= c < k ==> unicode_lowercase(
                            (#[trigger] collections.deep_view()[c]).name,
                        ) != name@,
                decreases collections.len() - k,
            {
                proof {
                    lemma_deep_view_index(*collections);
                }
                if str_eq(lowercase(collections[k].name.as_str()).as_str(), name.as_str()) {
                    assert(0 <= k < self@[i as int].collections.len() && unicode_lowercase(
                        self@[i as int].collections[k as int].name,
                    ) == name@);
                    return Ok(());
                }
                k += 1;
            }
            proof {
                lemma_deep_view_index(*collections);
            }
            i += 1;
        }
        proof {
            lemma_deep_view_index(self.repository);
        }
        Err(QueryError::InvalidCollection)
    }
}

} // verus!
