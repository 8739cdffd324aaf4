//! The metadata pipeline: where a repository's catalog is fetched from, when
//! the cached copy is used, and how the published package lists become the
//! normalized catalog.

use crate::config::{Repository, RepositoryConfigView, Source};
use crate::package::{join_path, path_join, Package, PackageView};
use crate::seqs::{lemma_deep_view_index, lemma_deep_view_push};
use crate::storage::{
    catalog_is_keyed, collection_names, group_names, groups_are_keyed, CollectionPackages,
    CollectionView, PackageGroup, PackageGroupView, RepositoryPackages,
};
use crate::text::{
    last_index_of, lowercase, rfind_char, str_eq, substring, to_chars, unicode_lowercase,
};
use vstd::prelude::*;
use vstd::string::*;

verus! {

/// The number of seconds after which a request for metadata is given up.
pub const METADATA_TIMEOUT: u64 = 30;

/// The address of a repository's metadata: its base address, a slash and
/// the name of its metadata file, `metadata.json` unless configured.
pub open spec fn metadata_url_of(repository: RepositoryConfigView) -> Seq<char> {
    join_path(
        repository.url,
        match repository.metadata {
            Some(name) => name,
            None => "metadata.json"@,
        },
    )
}

/// The second-to-last `/`-separated segment of `url`, if `url` has two
/// segments.
pub open spec fn parent_segment(url: Seq<char>) -> Option<Seq<char>> {
    let last = last_index_of(url, '/');
    if last < 0 {
        None
    } else {
        let head = url.take(last);
        Some(head.skip(last_index_of(head, '/') + 1))
    }
}

/// `c` in upper case, where `c` is one of the letters `a` to `z`.
pub open spec fn upper_letter(c: char) -> char {
    if 'a' <= c <= 'z' {
        ((c as u32 - 32) as u8) as char
    } else {
        c
    }
}

/// `s` with its first character in upper case.
pub open spec fn capitalized(s: Seq<char>) -> Seq<char> {
    if s.len() == 0 {
        s
    } else {
        seq![upper_letter(s[0])] + s.drop_first()
    }
}

/// `s` with an underscore in place of each hyphen.
pub open spec fn underscored(s: Seq<char>) -> Seq<char> {
    Seq::new(
        s.len(),
        |i: int|
            if s[i] == '-' {
                '_'
            } else {
                s[i]
            },
    )
}

/// How repositories write the platform in an address: the architecture, a
/// hyphen and the capitalized name of the operating system, as in
/// `x86_64-Linux`.
pub open spec fn platform_of(arch: Seq<char>, os: Seq<char>) -> Seq<char> {
    arch + seq!['-'] + capitalized(os)
}

/// The segments of an address that are no family: the architecture, the
/// platform, and the platform written with underscores.
pub open spec fn reserved_names(arch: Seq<char>, os: Seq<char>) -> Seq<Seq<char>> {
    seq![arch, platform_of(arch, os), underscored(platform_of(arch, os))]
}

fn to_upper_letter(c: char) -> (r: char)
    ensures
        r == upper_letter(c),
{
    let n: u32 = c as u32;
    if 97 <= n && n <= 122 {
        ((n - 32) as u8) as char
    } else {
        c
    }
}

/// The segments of an address that are no family on a machine of
/// architecture `arch` under the operating system `os`, both as the
/// compiler names them (`x86_64`, `linux`).
pub fn reserved_segments(arch: &str, os: &str) -> (r: Vec<String>)
    ensures
        r.deep_view() == reserved_names(arch@, os@),
{
    let name = to_chars(os);
    let mut platform = String::new();
    platform.append(arch);
    platform.push('-');
    let mut i: usize = 0;
    while i < name.len()
        invariant
            i <= name.len(),
            name@ == os@,
            platform@ == arch@ + seq!['-'] + capitalized(os@).take(i as int),
        decreases name.len() - i,
    {
        let c = if i == 0 {
            to_upper_letter(name[i])
        } else {
            name[i]
        };
        platform.push(c);
        assert(capitalized(os@).take(i + 1) =~= capitalized(os@).take(i as int).push(c));
        assert(arch@ + seq!['-'] + capitalized(os@).take(i + 1) =~= (arch@ + seq!['-']
            + capitalized(os@).take(i as int)).push(c));
        i += 1;
    }
    assert(capitalized(os@).take(name.len() as int) =~= capitalized(os@));
    let written = to_chars(platform.as_str());
    let mut other = String::new();
    let mut k: usize = 0;
    while k < written.len()
        invariant
            k <= written.len(),
            written@ == platform@,
            other@ == underscored(platform@).take(k as int),
        decreases written.len() - k,
    {
        let c = if written[k] == '-' {
            '_'
        } else {
            written[k]
        };
        other.push(c);
        assert(underscored(platform@).take(k + 1) =~= underscored(platform@).take(k as int).push(
            c,
        ));
        k += 1;
    }
    assert(underscored(platform@).take(written.len() as int) =~= underscored(platform@));
    let mut r: Vec<String> = Vec::new();
    r.push(arch.to_owned());
    r.push(platform);
    r.push(other);
    assert(r.deep_view() =~= reserved_names(arch@, os@));
    r
}

/// The family of a package: the second-to-last segment of its download
/// address, unless that segment is one of the reserved names (the
/// architecture and the platform).
pub open spec fn family_of(url: Seq<char>, reserved: Seq<Seq<char>>) -> Option<Seq<char>> {
    match parent_segment(url) {
        Some(segment) => if reserved.contains(segment) {
            None
        } else {
            Some(segment)
        },
        None => None,
    }
}

/// Derives the family of a package from its download address. The result
/// depends on the address and the reserved names alone.
pub fn derive_family(download_url: &str, reserved: &Vec<String>) -> (r: Option<String>)
    ensures
        crate::package::opt_text(r) == family_of(download_url@, reserved.deep_view()),
{
    let url = to_chars(download_url);
    let last = match rfind_char(url.as_slice(), '/') {
        Some(i) => i,
        None => {
            return None;
        },
    };
    let head = to_chars(substring(url.as_slice(), 0, last).as_str());
    assert(head@ =~= download_url@.take(last as int));
    let start = match rfind_char(head.as_slice(), '/') {
        Some(i) => i + 1,
        None => 0,
    };
    let segment = substring(head.as_slice(), start, head.len());
    assert(segment@ =~= head@.skip(start as int));
    assert(parent_segment(download_url@) == Some(segment@));
    let mut i: usize = 0;
    while i < reserved.len()
        invariant
            i <= reserved.len(),
            parent_segment(download_url@) == Some(segment@),
            forall|j: int| 0 <= j < i ==> reserved.deep_view()[j] != segment@,
        decreases reserved.len() - i,
    {
        proof {
            lemma_deep_view_index(*reserved);
        }
        if str_eq(reserved[i].as_str(), segment.as_str()) {
            assert(reserved.deep_view()[i as int] == segment@);
            return None;
        }
        i += 1;
    }
    proof {
        lemma_deep_view_index(*reserved);
    }
    Some(segment)
}

/// A published package as the catalog holds it: its name in lower case and
/// its family derived from its download address.
pub open spec fn normalized(p: PackageView, reserved: Seq<Seq<char>>) -> PackageView {
    PackageView {
        pkg: unicode_lowercase(p.pkg),
        family: family_of(p.download_url, reserved),
        ..p
    }
}

/// The groups after a package was added: it joins the group of its name, or
/// opens a new group after all others.
pub open spec fn with_package(groups: Seq<PackageGroupView>, p: PackageView) -> Seq<
    PackageGroupView,
> {
    let at = crate::text::first_index_of(group_names(groups), p.pkg);
    if at < groups.len() {
        groups.update(
            at,
            PackageGroupView { name: groups[at].name, packages: groups[at].packages.push(p) },
        )
    } else {
        groups.push(PackageGroupView { name: p.pkg, packages: seq![p] })
    }
}

/// The groups that a published list of packages makes: every package,
/// normalized, under its lower-case name; names in the order in which they
/// first appear, and the variants of a name in the order of the list.
pub open spec fn grouped(packages: Seq<PackageView>, reserved: Seq<Seq<char>>) -> Seq<
    PackageGroupView,
>
    decreases packages.len(),
{
    if packages.len() == 0 {
        Seq::empty()
    } else {
        with_package(
            grouped(packages.drop_last(), reserved),
            normalized(packages.last(), reserved),
        )
    }
}

/// A collection as a repository publishes it: a name and a list of packages.
#[derive(Debug, PartialEq, Eq)]
pub struct PublishedCollection {
    pub name: String,
    pub packages: Vec<Package>,
}

/// Mathematical model of a [`PublishedCollection`].
pub struct PublishedCollectionView {
    pub name: Seq<char>,
    pub packages: Seq<PackageView>,
}

impl View for PublishedCollection {
    type V = PublishedCollectionView;

    open spec fn view(&self) -> PublishedCollectionView {
        PublishedCollectionView { name: self.name@, packages: self.packages.deep_view() }
    }
}

impl DeepView for PublishedCollection {
    type V = PublishedCollectionView;

    open spec fn deep_view(&self) -> PublishedCollectionView {
        self@
    }
}

/// The catalog after a collection was put into it: it takes the place of
/// the collection of its name, or the place after all others.
pub open spec fn with_collection(catalog: Seq<CollectionView>, c: CollectionView) -> Seq<
    CollectionView,
> {
    let at = crate::text::first_index_of(collection_names(catalog), c.name);
    if at < catalog.len() {
        catalog.update(at, c)
    } else {
        catalog.push(c)
    }
}

/// The catalog that a published metadata document makes: its collections
/// in the order in which their names first appear, each with its packages
/// grouped. Of a collection that is published more than once, the last
/// counts.
pub open spec fn catalog_of(
    published: Seq<PublishedCollectionView>,
    reserved: Seq<Seq<char>>,
) -> Seq<CollectionView>
    decreases published.len(),
{
    if published.len() == 0 {
        Seq::empty()
    } else {
        with_collection(
            catalog_of(published.drop_last(), reserved),
            CollectionView {
                name: published.last().name,
                groups: grouped(published.last().packages, reserved),
            },
        )
    }
}

/// Why a metadata document was not accepted.
#[derive(Debug, Clone, Copy, PartialEq, Eq, Structural)]
pub enum MetadataError {
    /// The response had no content.
    Empty,
    /// The cached catalog could not be read, and neither could the one that
    /// was fetched in its place.
    Corrupt,
}

fn add_to_groups(groups: &mut Vec<PackageGroup>, package: Package)
    ensures
        final(groups).deep_view() == with_package(old(groups).deep_view(), package@),
{
    let ghost names = group_names(groups.deep_view());
    let ghost before = *groups;
    let mut i: usize = 0;
    while i < groups.len()
        invariant
            i <= groups.len(),
            *groups == before,
            before == *old(groups),
            names == group_names(before.deep_view()),
            names.len() == before.len(),
            forall|j: int| 0 <= j < i ==> names[j] != package@.pkg,
        decreases groups.len() - i,
    {
        proof {
            lemma_deep_view_index(*groups);
        }
        if str_eq(groups[i].name.as_str(), package.pkg.as_str()) {
            proof {
                crate::text::lemma_first_index_of(names, package@.pkg, i as int);
            }
            let ghost old_packages = groups[i as int].packages;
            let ghost shown = package@;
            groups[i].packages.push(package);
            proof {
                lemma_deep_view_index(*groups);
                assert(groups[i as int].packages.deep_view() =~= old_packages.deep_view().push(
                    shown,
                ));
                assert(groups.deep_view() =~= with_package(old(groups).deep_view(), shown));
            }
            return ;
        }
        i += 1;
    }
    proof {
        crate::text::lemma_first_index_of(names, package@.pkg, i as int);
    }
    let mut packages: Vec<Package> = Vec::new();
    let name = package.pkg.clone();
    let ghost shown = package@;
    packages.push(package);
    let group = PackageGroup { name, packages };
    assert(group@.packages =~= seq![shown]);
    groups.push(group);
    proof {
        lemma_deep_view_push(before, *groups, group);
    }
}

fn add_to_catalog(catalog: &mut Vec<CollectionPackages>, entry: CollectionPackages)
    ensures
        final(catalog).deep_view() == with_collection(old(catalog).deep_view(), entry@),
{
    let ghost names = collection_names(catalog.deep_view());
    let ghost before = *catalog;
    let ghost shown = entry@;
    let mut i: usize = 0;
    while i < catalog.len()
        invariant
            i <= catalog.len(),
            *catalog == before,
            before == *old(catalog),
            shown == entry@,
            names == collection_names(before.deep_view()),
            names.len() == before.len(),
            forall|j: int| 0 <= j < i ==> names[j] != shown.name,
        decreases catalog.len() - i,
    {
        proof {
            lemma_deep_view_index(*catalog);
        }
        if str_eq(catalog[i].name.as_str(), entry.name.as_str()) {
            proof {
                crate::text::lemma_first_index_of(names, shown.name, i as int);
            }
            catalog[i] = entry;
            proof {
                lemma_deep_view_index(*catalog);
                assert(catalog.deep_view() =~= before.deep_view().update(i as int, shown));
            }
            return ;
        }
        i += 1;
    }
    proof {
        crate::text::lemma_first_index_of(names, shown.name, i as int);
    }
    catalog.push(entry);
    proof {
        lemma_deep_view_push(before, *catalog, entry);
    }
}

/// Fetches and normalizes the catalog of a repository.
#[derive(Debug, Clone, Copy)]
pub struct MetadataFetcher;

impl MetadataFetcher {
    /// A fetcher.
    pub fn new() -> (r: Self) {
        MetadataFetcher
    }

    /// The address of the repository's metadata.
    pub fn metadata_url(&self, repository: &Repository) -> (r: String)
        ensures
            r@ == metadata_url_of(repository@),
    {
        match &repository.metadata {
            Some(name) => path_join(repository.url.as_str(), name.as_str()),
            None => path_join(repository.url.as_str(), "metadata.json"),
        }
    }

    /// The address of the checksum of the repository's metadata: the
    /// address of the metadata followed by `.bsum`.
    pub fn checksum_url(&self, repository: &Repository) -> (r: String)
        ensures
            r@ == metadata_url_of(repository@) + ".bsum"@,
    {
        let mut r = self.metadata_url(repository);
        r.append(".bsum");
        r
    }

    /// The address of the default icon of a collection:
    /// `<source address>/<collection>.default.png`.
    pub fn icon_url(&self, source: &Source) -> (r: String)
        ensures
            r@ == join_path(source@.url, source@.collection) + ".default.png"@,
    {
        let mut r = path_join(source.url.as_str(), source.collection.as_str());
        r.append(".default.png");
        r
    }

    /// Where the default icon of a collection is kept:
    /// `<registry>/icons/<repository>-<collection>.png`.
    pub fn icon_path(&self, registry_path: &str, repository: &str, collection: &str) -> (r: String)
        ensures
            r@ == join_path(
                join_path(registry_path@, "icons"@),
                repository@.push('-') + collection@ + ".png"@,
            ),
    {
        let dir = path_join(registry_path, "icons");
        let mut name = repository.to_owned();
        name.push('-');
        name.append(collection);
        name.append(".png");
        path_join(dir.as_str(), name.as_str())
    }

    /// Where the checksum of the fetched metadata is kept:
    /// `<registry>/<repository>.remote.bsum`.
    pub fn checksum_path(&self, registry_path: &str, repository: &str) -> (r: String)
        ensures
            r@ == join_path(registry_path@, repository@) + ".remote.bsum"@,
    {
        let mut r = path_join(registry_path, repository);
        r.append(".remote.bsum");
        r
    }

    /// Refuses a metadata response without content: an empty response is an
    /// error and not an empty catalog.
    pub fn accept_body(&self, body: &[u8]) -> (r: Result<(), MetadataError>)
        ensures
            r == if body@.len() == 0 {
                Err::<(), MetadataError>(MetadataError::Empty)
            } else {
                Ok::<(), MetadataError>(())
            },
    {
        if body.len() == 0 {
            Err(MetadataError::Empty)
        } else {
            Ok(())
        }
    }

    /// Groups one published list of packages by name.
    pub fn group(&self, packages: &Vec<Package>, reserved: &Vec<String>) -> (r: Vec<PackageGroup>)
        ensures
            r.deep_view() == grouped(packages.deep_view(), reserved.deep_view()),
    {
        let ghost all = packages.deep_view();
        let mut groups: Vec<PackageGroup> = Vec::new();
        let mut i: usize = 0;
        assert(groups.deep_view() =~= Seq::<PackageGroupView>::empty());
        assert(all.take(0) =~= Seq::<PackageView>::empty());
        while i < packages.len()
            invariant
                i <= packages.len(),
                all == packages.deep_view(),
                groups.deep_view() == grouped(all.take(i as int), reserved.deep_view()),
            decreases packages.len() - i,
        {
            proof {
                lemma_deep_view_index(*packages);
                assert(all.take(i + 1).drop_last() =~= all.take(i as int));
            }
            let p = &packages[i];
            let package = Package {
                pkg: lowercase(p.pkg.as_str()),
                pkg_name: p.pkg_name.clone(),
                description: p.description.clone(),
                note: p.note.clone(),
                version: p.version.clone(),
                download_url: p.download_url.clone(),
                size: p.size.clone(),
                bsum: p.bsum.clone(),
                build_date: p.build_date.clone(),
                src_url: p.src_url.clone(),
                homepage: p.homepage.clone(),
                build_script: p.build_script.clone(),
                build_log: p.build_log.clone(),
                category: p.category.clone(),
                provides: p.provides.clone(),
                icon: p.icon.clone(),
                family: derive_family(p.download_url.as_str(), reserved),
            };
            assert(package@ == normalized(all[i as int], reserved.deep_view()));
            add_to_groups(&mut groups, package);
            i += 1;
        }
        assert(all.take(packages.len() as int) =~= all);
        groups
    }

    /// Turns a published metadata document into the catalog of the
    /// repository. In the catalog no collection stands twice, and in no
    /// collection a name.
    pub fn normalize(&self, published: &Vec<PublishedCollection>, reserved: &Vec<String>) -> (r:
        RepositoryPackages)
        ensures
            r@ == catalog_of(published.deep_view(), reserved.deep_view()),
            catalog_is_keyed(r@),
    {
        let ghost all = published.deep_view();
        let mut collection: Vec<CollectionPackages> = Vec::new();
        let mut i: usize = 0;
        assert(collection.deep_view() =~= Seq::<CollectionView>::empty());
        assert(all.take(0) =~= Seq::<PublishedCollectionView>::empty());
        while i < published.len()
            invariant
                i <= published.len(),
                all == published.deep_view(),
                collection.deep_view() == catalog_of(all.take(i as int), reserved.deep_view()),
            decreases published.len() - i,
        {
            proof {
                lemma_deep_view_index(*published);
                assert(all.take(i + 1).drop_last() =~= all.take(i as int));
            }
            let groups = self.group(&published[i].packages, reserved);
            let entry = CollectionPackages { name: published[i].name.clone(), groups };
            add_to_catalog(&mut collection, entry);
            i += 1;
        }
        proof {
            assert(all.take(published.len() as int) =~= all);
            lemma_catalog_is_keyed(all, reserved.deep_view());
        }
        RepositoryPackages { collection }
    }
}

/// Where the catalog of a repository is taken from.
#[derive(Debug, Clone, Copy, PartialEq, Eq, Structural)]
pub enum LoadPlan {
    /// The cached catalog is current: read it.
    UseCache,
    /// Fetch the metadata, and note the remote checksum if it is known.
    Fetch { note_checksum: bool },
}

/// The rule for loading a catalog. Without a cached catalog it is fetched.
/// A cached catalog is used when the remote checksum is not to be had or
/// equals the one that was noted when the catalog was fetched; otherwise it
/// is outdated and fetched again. A checksum that was never noted counts as
/// empty.
pub open spec fn load_rule(
    cached: bool,
    remote_checksum: Option<Seq<u8>>,
    noted_checksum: Option<Seq<u8>>,
) -> LoadPlan {
    let noted = match noted_checksum {
        Some(c) => c,
        None => Seq::empty(),
    };
    if !cached {
        LoadPlan::Fetch { note_checksum: remote_checksum is Some }
    } else {
        match remote_checksum {
            Some(remote) => if remote == noted {
                LoadPlan::UseCache
            } else {
                LoadPlan::Fetch { note_checksum: true }
            },
            None => LoadPlan::UseCache,
        }
    }
}

fn bytes_eq(a: &[u8], b: &[u8]) -> (r: bool)
    ensures
        r == (a@ == b@),
{
    if a.len() != b.len() {
        return false;
    }
    let mut i: usize = 0;
    while i < a.len()
        invariant
            i <= a.len(),
            a.len() == b.len(),
            forall|j: int| 0 <= j < i ==> a@[j] == b@[j],
        decreases a.len() - i,
    {
        if a[i] != b[i] {
            return false;
        }
        i += 1;
    }
    assert(a@ =~= b@);
    true
}

/// Loads the catalog of a repository from the cache where that is current.
#[derive(Debug, Clone, Copy)]
pub struct MetadataLoader;

impl MetadataLoader {
    /// A loader.
    pub fn new() -> (r: Self) {
        MetadataLoader
    }

    /// Decides where the catalog is taken from. `cached` says whether a
    /// cached catalog exists, `remote_checksum` is the checksum the
    /// repository publishes, if it could be fetched, and `noted_checksum`
    /// the one kept beside the cached catalog, if any.
    pub fn plan(
        &self,
        cached: bool,
        remote_checksum: Option<&[u8]>,
        noted_checksum: Option<&[u8]>,
    ) -> (r: LoadPlan)
        ensures
            r == load_rule(
                cached,
                match remote_checksum {
                    Some(c) => Some(c@),
                    None => None,
                },
                match noted_checksum {
                    Some(c) => Some(c@),
                    None => None,
                },
            ),
    {
        if !cached {
            return LoadPlan::Fetch { note_checksum: remote_checksum.is_some() };
        }
        match remote_checksum {
            None => LoadPlan::UseCache,
            Some(remote) => {
                let same = match noted_checksum {
                    Some(noted) => bytes_eq(remote, noted),
                    None => {
                        assert((remote@.len() == 0) == (remote@ =~= Seq::<u8>::empty()));
                        remote.len() == 0
                    },
                };
                if same {
                    LoadPlan::UseCache
                } else {
                    LoadPlan::Fetch { note_checksum: true }
                }
            },
        }
    }

    /// Decides what follows a catalog that could not be read: the first
    /// time it is fetched afresh, the second time the failure stands.
    pub fn on_unreadable(&self, refetched: bool) -> (r: Result<LoadPlan, MetadataError>)
        ensures
            r == if refetched {
                Err::<LoadPlan, MetadataError>(MetadataError::Corrupt)
            } else {
                Ok::<LoadPlan, MetadataError>(LoadPlan::Fetch { note_checksum: false })
            },
    {
        if refetched {
            Err(MetadataError::Corrupt)
        } else {
            Ok(LoadPlan::Fetch { note_checksum: false })
        }
    }
}

/// Every variant in a list of groups stands under its own name and has the
/// family that its own download address gives.
pub open spec fn groups_are_sound(groups: Seq<PackageGroupView>, reserved: Seq<Seq<char>>) -> bool {
    forall|g: int, k: int|
        0 <= g < groups.len() && 0 <= k < groups[g].packages.len() ==> {
            let p = #[trigger] groups[g].packages[k];
            p.pkg == groups[g].name && p.family == family_of(p.download_url, reserved)
        }
}

/// Family derivation is stable. In the catalog made from any published
/// list, in whatever order, the family of each variant is the one that its
/// own download address gives, and each variant stands under its own name.
pub proof fn lemma_family_is_stable(packages: Seq<PackageView>, reserved: Seq<Seq<char>>)
    ensures
        groups_are_sound(grouped(packages, reserved), reserved),
    decreases packages.len(),
{
    if packages.len() > 0 {
        let before = grouped(packages.drop_last(), reserved);
        let p = normalized(packages.last(), reserved);
        lemma_family_is_stable(packages.drop_last(), reserved);
        let after = with_package(before, p);
        let at = crate::text::first_index_of(group_names(before), p.pkg);
        crate::text::lemma_first_index_of_bounds(group_names(before), p.pkg);
        assert forall|g: int, k: int|
            0 <= g < after.len() && 0 <= k < after[g].packages.len() implies {
            let q = #[trigger] after[g].packages[k];
            q.pkg == after[g].name && q.family == family_of(q.download_url, reserved)
        } by {
            if at < before.len() {
                if g == at {
                    if k < before[g].packages.len() {
                        assert(after[g].packages[k] == before[g].packages[k]);
                    } else {
                        assert(group_names(before)[at] == before[at].name);
                    }
                } else {
                    assert(after[g].packages[k] == before[g].packages[k]);
                }
            } else {
                if g < before.len() {
                    assert(after[g].packages[k] == before[g].packages[k]);
                }
            }
        }
    }
}

/// Every published package is in the catalog, normalized, whatever stands
/// before or after it in the published list.
pub proof fn lemma_grouped_holds_every_package(
    packages: Seq<PackageView>,
    reserved: Seq<Seq<char>>,
    i: int,
)
    requires
        0 <= i < packages.len(),
    ensures
        exists|g: int, k: int|
            0 <= g < grouped(packages, reserved).len() && 0 <= k < grouped(
                packages,
                reserved,
            )[g].packages.len() && #[trigger] grouped(packages, reserved)[g].packages[k]
                == normalized(packages[i], reserved),
    decreases packages.len(),
{
    let before = grouped(packages.drop_last(), reserved);
    let p = normalized(packages.last(), reserved);
    let after = with_package(before, p);
    let at = crate::text::first_index_of(group_names(before), p.pkg);
    crate::text::lemma_first_index_of_bounds(group_names(before), p.pkg);
    assert(grouped(packages, reserved) == after);
    if i == packages.len() - 1 {
        if at < before.len() {
            let k = before[at].packages.len() as int;
            assert(0 <= at < after.len() && 0 <= k < after[at].packages.len()
                && after[at].packages[k] == normalized(packages[i], reserved));
        } else {
            let g = before.len() as int;
            assert(0 <= g < after.len() && 0 <= 0 < after[g].packages.len()
                && after[g].packages[0] == normalized(packages[i], reserved));
        }
    } else {
        lemma_grouped_holds_every_package(packages.drop_last(), reserved, i);
        let (g, k) = choose|g: int, k: int|
            0 <= g < before.len() && 0 <= k < before[g].packages.len()
                && #[trigger] before[g].packages[k] == normalized(
                packages.drop_last()[i],
                reserved,
            );
        assert(packages.drop_last()[i] == packages[i]);
        assert(0 <= g < after.len() && 0 <= k < after[g].packages.len() && after[g].packages[k]
            == normalized(packages[i], reserved));
    }
}

/// The groups of a published list are what a map holds: no name stands
/// twice, and every variant stands under its own name.
pub proof fn lemma_grouped_is_keyed(packages: Seq<PackageView>, reserved: Seq<Seq<char>>)
    ensures
        groups_are_keyed(grouped(packages, reserved)),
    decreases packages.len(),
{
    if packages.len() == 0 {
        assert(group_names(grouped(packages, reserved)) =~= Seq::<Seq<char>>::empty());
    } else {
        let before = grouped(packages.drop_last(), reserved);
        let p = normalized(packages.last(), reserved);
        let after = with_package(before, p);
        lemma_grouped_is_keyed(packages.drop_last(), reserved);
        lemma_family_is_stable(packages, reserved);
        let names = group_names(before);
        let at = crate::text::first_index_of(names, p.pkg);
        crate::text::lemma_first_index_of_bounds(names, p.pkg);
        if at < before.len() {
            assert(group_names(after) =~= names);
        } else {
            assert(group_names(after) =~= names.push(p.pkg));
        }
    }
}

/// Putting a keyed collection into a keyed catalog leaves the catalog
/// keyed.
pub proof fn lemma_with_collection_is_keyed(catalog: Seq<CollectionView>, c: CollectionView)
    requires
        catalog_is_keyed(catalog),
        groups_are_keyed(c.groups),
    ensures
        catalog_is_keyed(with_collection(catalog, c)),
{
    let names = collection_names(catalog);
    let after = with_collection(catalog, c);
    let at = crate::text::first_index_of(names, c.name);
    crate::text::lemma_first_index_of_bounds(names, c.name);
    if at < catalog.len() {
        assert(collection_names(after) =~= names);
    } else {
        assert(collection_names(after) =~= names.push(c.name));
    }
    assert forall|i: int| 0 <= i < after.len() implies groups_are_keyed(
        (#[trigger] after[i]).groups,
    ) by {
        if i != at {
            assert(after[i] == catalog[i]);
        }
    }
}

/// The catalog of a published document is what a map holds: no collection
/// stands twice, and in no collection a name.
pub proof fn lemma_catalog_is_keyed(
    published: Seq<PublishedCollectionView>,
    reserved: Seq<Seq<char>>,
)
    ensures
        catalog_is_keyed(catalog_of(published, reserved)),
    decreases published.len(),
{
    if published.len() == 0 {
        assert(collection_names(catalog_of(published, reserved)) =~= Seq::<Seq<char>>::empty());
    } else {
        lemma_catalog_is_keyed(published.drop_last(), reserved);
        lemma_grouped_is_keyed(published.last().packages, reserved);
        lemma_with_collection_is_keyed(
            catalog_of(published.drop_last(), reserved),
            CollectionView {
                name: published.last().name,
                groups: grouped(published.last().packages, reserved),
            },
        );
    }
}

} // verus!
