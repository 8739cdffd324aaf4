//! Running a package from the cache without installing it.

use crate::config::{Config, RepositoryConfigView, SourceView};
use crate::digest::ChecksumVerdict;
use crate::install::OwnershipTag;
use crate::package::{
    full_name_of, join_path, opt_text, path_join, Package, PackageQuery, PackageQueryView,
    ResolvedPackage, ResolvedPackageView,
};
use crate::seqs::lemma_deep_view_index;
use crate::text::{lowercase, str_eq, unicode_lowercase};
use vstd::prelude::*;
use vstd::string::*;

verus! {

/// The number of seconds that an artifact stays in the cache: eight hours.
pub const CACHE_TTL: u64 = 28800;

/// Whether a file of the cache is removed: whether it is ours and was last
/// changed `elapsed` seconds ago or longer, where the time that an artifact
/// stays in the cache is over.
pub fn cache_expired(tag: OwnershipTag, elapsed: u64) -> (r: bool)
    ensures
        r == (tag == OwnershipTag::Managed && elapsed >= CACHE_TTL),
{
    match tag {
        OwnershipTag::Managed => elapsed >= CACHE_TTL,
        _ => false,
    }
}

/// What is to be done to run a package.
#[derive(Debug, Clone, Copy, PartialEq, Eq, Structural)]
pub enum RunAction {
    /// The artifact is in the cache: run it.
    Execute,
    /// The artifact is not in the cache: download it first.
    Download,
    /// Something that is not ours stands where the artifact would be.
    Refuse,
}

/// What follows the verification of a downloaded artifact.
#[derive(Debug, Clone, Copy, PartialEq, Eq, Structural)]
pub enum Verification {
    /// The artifact is accepted.
    Accept,
    /// The artifact is accepted although it could not be checked.
    AcceptUnchecked,
    /// The artifact is accepted although its checksum is wrong.
    AcceptMismatch,
    /// The user decides whether the artifact is kept.
    Ask,
}

/// The verification discipline of installations, which running follows as
/// well: an artifact without a catalog checksum is accepted with a warning,
/// one with the right checksum is accepted, and one with a wrong checksum is
/// accepted with a warning when `yes` is set and put to the user otherwise.
pub fn judge(verdict: ChecksumVerdict, yes: bool) -> (r: Verification)
    ensures
        r == match verdict {
            ChecksumVerdict::Missing => Verification::AcceptUnchecked,
            ChecksumVerdict::Match => Verification::Accept,
            ChecksumVerdict::Mismatch => if yes {
                Verification::AcceptMismatch
            } else {
                Verification::Ask
            },
        },
{
    match verdict {
        ChecksumVerdict::Missing => Verification::AcceptUnchecked,
        ChecksumVerdict::Match => Verification::Accept,
        ChecksumVerdict::Mismatch => if yes {
            Verification::AcceptMismatch
        } else {
            Verification::Ask
        },
    }
}

/// Runs a package from the cache.
#[derive(Debug, PartialEq, Eq)]
pub struct Runner {
    args: Vec<String>,
    resolved_package: ResolvedPackage,
    install_path: String,
    temp_path: String,
}

/// Mathematical model of a [`Runner`].
pub struct RunnerView {
    pub args: Seq<Seq<char>>,
    pub package: ResolvedPackageView,
    pub install_path: Seq<char>,
    pub temp_path: Seq<char>,
}

impl View for Runner {
    type V = RunnerView;

    closed spec fn view(&self) -> RunnerView {
        RunnerView {
            args: self.args.deep_view(),
            package: self.resolved_package@,
            install_path: self.install_path@,
            temp_path: self.temp_path@,
        }
    }
}

impl Runner {
    /// A runner for `package`, whose artifact is kept at `install_path`
    /// and downloaded to `install_path` followed by `.part`.
    pub fn new(package: &ResolvedPackage, install_path: String, args: &[String]) -> (r: Self)
        ensures
            r@ == (RunnerView {
                args: args.deep_view(),
                package: package@,
                install_path: install_path@,
                temp_path: install_path@ + ".part"@,
            }),
    {
        let mut temp_path = install_path.clone();
        temp_path.append(".part");
        let mut copy: Vec<String> = Vec::new();
        let mut i: usize = 0;
        assert(copy.deep_view() =~= args.deep_view().take(0));
        while i < args.len()
            invariant
                i <= args.len(),
                copy.deep_view() == args.deep_view().take(i as int),
            decreases args.len() - i,
        {
            let a = args[i].clone();
            let ghost before = copy;
            copy.push(a);
            proof {
                crate::seqs::lemma_deep_view_push(before, copy, a);
                assert(args.deep_view().take(i + 1) =~= args.deep_view().take(i as int).push(a@));
            }
            i += 1;
        }
        assert(args.deep_view().take(args.len() as int) =~= args.deep_view());
        Runner { args: copy, resolved_package: package.clone(), install_path, temp_path }
    }

    /// The arguments the artifact is run with.
    pub fn args(&self) -> (r: &Vec<String>)
        ensures
            r.deep_view() == self@.args,
    {
        &self.args
    }

    /// The package that is run.
    pub fn package(&self) -> (r: &ResolvedPackage)
        ensures
            r@ == self@.package,
    {
        &self.resolved_package
    }

    /// Where the artifact is kept.
    pub fn install_path(&self) -> (r: &str)
        ensures
            r@ == self@.install_path,
    {
        self.install_path.as_str()
    }

    /// Where the artifact is downloaded to.
    pub fn temp_path(&self) -> (r: &str)
        ensures
            r@ == self@.temp_path,
    {
        self.temp_path.as_str()
    }

    /// Decides what to do first. `cached` tells the tag of the file at the
    /// install path, if there is such a file. A file that is known not to be
    /// ours is never run or replaced.
    pub fn plan(&self, cached: Option<OwnershipTag>) -> (r: RunAction)
        ensures
            r == match cached {
                None => RunAction::Download,
                Some(OwnershipTag::Foreign) => RunAction::Refuse,
                Some(_) => RunAction::Execute,
            },
    {
        match cached {
            None => RunAction::Download,
            Some(OwnershipTag::Foreign) => RunAction::Refuse,
            Some(_) => RunAction::Execute,
        }
    }
}

/// The address of the source that a query's collection is downloaded from:
/// in the first repository that has one, the source of the collection the
/// query names, or its first source when the query names none.
pub open spec fn source_for(
    repositories: Seq<RepositoryConfigView>,
    collection: Option<Seq<char>>,
) -> Option<SourceView>
    decreases repositories.len(),
{
    if repositories.len() == 0 {
        None
    } else {
        match source_in(repositories[0].sources, collection) {
            Some(s) => Some(s),
            None => source_for(repositories.drop_first(), collection),
        }
    }
}

/// The source of `collection`, which is given in lower case, among
/// `sources`, letter case apart, or the first source when no collection is
/// named.
pub open spec fn source_in(sources: Seq<SourceView>, collection: Option<Seq<char>>) -> Option<
    SourceView,
>
    decreases sources.len(),
{
    if sources.len() == 0 {
        None
    } else {
        match collection {
            None => Some(sources[0]),
            Some(c) => if unicode_lowercase(sources[0].collection) == c {
                Some(sources[0])
            } else {
                source_in(sources.drop_first(), collection)
            },
        }
    }
}

/// The package that a query stands for when the catalog does not know it:
/// it is looked for directly below the source of its collection.
pub open spec fn direct_package(q: PackageQueryView, source: SourceView) -> ResolvedPackageView {
    ResolvedPackageView {
        repo_name: Seq::empty(),
        collection: source.collection,
        package: crate::package::PackageView {
            pkg: q.name,
            pkg_name: q.name,
            family: q.family,
            download_url: join_path(source.url, full_name_of(q.family, q.name, '/')),
            description: Seq::empty(),
            note: Seq::empty(),
            version: Seq::empty(),
            size: Seq::empty(),
            bsum: Seq::empty(),
            build_date: Seq::empty(),
            src_url: Seq::empty(),
            homepage: Seq::empty(),
            build_script: Seq::empty(),
            build_log: Seq::empty(),
            category: Seq::empty(),
            provides: Seq::empty(),
            icon: Seq::empty(),
        },
    }
}

proof fn lemma_source_in(sources: Seq<SourceView>, c: Seq<char>, i: int)
    requires
        0 <= i <= sources.len(),
        forall|j: int| 0 <= j < i ==> unicode_lowercase(sources[j].collection) != c,
        i < sources.len() ==> unicode_lowercase(sources[i].collection) == c,
    ensures
        source_in(sources, Some(c)) == if i < sources.len() {
            Some(sources[i])
        } else {
            None
        },
    decreases sources.len(),
{
    if sources.len() > 0 && unicode_lowercase(sources[0].collection) != c {
        let t = sources.drop_first();
        assert forall|j: int| 0 <= j < i - 1 implies unicode_lowercase(t[j].collection)
            != c by {
            assert(t[j] == sources[j + 1]);
        }
        lemma_source_in(t, c, i - 1);
    }
}

proof fn lemma_source_for(
    repositories: Seq<RepositoryConfigView>,
    collection: Option<Seq<char>>,
    i: int,
)
    requires
        0 <= i <= repositories.len(),
        forall|j: int| 0 <= j < i ==> source_in(repositories[j].sources, collection) is None,
        i < repositories.len() ==> source_in(repositories[i].sources, collection) is Some,
    ensures
        source_for(repositories, collection) == if i < repositories.len() {
            source_in(repositories[i].sources, collection)
        } else {
            None
        },
    decreases repositories.len(),
{
    if repositories.len() > 0 && source_in(repositories[0].sources, collection) is None {
        let t = repositories.drop_first();
        assert forall|j: int| 0 <= j < i - 1 implies source_in(t[j].sources, collection)
            is None by {
            assert(t[j] == repositories[j + 1]);
        }
        lemma_source_for(t, collection, i - 1);
    }
}

/// Position of the source of `collection` among `sources`, or of the first
/// source when no collection is named.
fn find_source(sources: &Vec<crate::config::Source>, collection: &Option<String>) -> (r: Option<
    usize,
>)
    ensures
        match r {
            Some(n) => n < sources.len() && source_in(sources.deep_view(), opt_text(*collection))
                == Some(sources.deep_view()[n as int]),
            None => source_in(sources.deep_view(), opt_text(*collection)) is None,
        },
{
    let ghost shown = sources.deep_view();
    proof {
        lemma_deep_view_index(*sources);
    }
    match collection {
        None => if sources.len() > 0 {
            Some(0)
        } else {
            None
        },
        Some(c) => {
            let mut k: usize = 0;
            while k < sources.len()
                invariant
                    k <= sources.len(),
                    shown == sources.deep_view(),
                    shown.len() == sources.len(),
                    opt_text(*collection) == Some(c@),
                    forall|j: int| 0 <= j < k ==> unicode_lowercase(shown[j].collection) != c@,
                decreases sources.len() - k,
            {
                proof {
                    lemma_deep_view_index(*sources);
                }
                if str_eq(lowercase(sources[k].collection.as_str()).as_str(), c.as_str()) {
                    proof {
                        lemma_source_in(shown, c@, k as int);
                    }
                    return Some(k);
                }
                k += 1;
            }
            proof {
                lemma_source_in(shown, c@, k as int);
            }
            None
        },
    }
}

/// Describes the package that `query` stands for when the catalog does not
/// know it. `None` when no repository has a source for it.
pub fn direct(query: &PackageQuery, config: &Config) -> (r: Option<ResolvedPackage>)
    ensures
        match source_for(config@.repositories, query@.collection) {
            Some(source) => r is Some && r->Some_0@ == direct_package(query@, source),
            None => r is None,
        },
{
    let ghost repos = config@.repositories;
    let mut i: usize = 0;
    while i < config.repositories.len()
        invariant
            i <= config.repositories.len(),
            repos == config@.repositories,
            repos.len() == config.repositories.len(),
            forall|j: int| 0 <= j < i ==> source_in(repos[j].sources, query@.collection) is None,
        decreases config.repositories.len() - i,
    {
        proof {
            lemma_deep_view_index(config.repositories);
        }
        let sources = &config.repositories[i].sources;
        let at = find_source(sources, &query.collection);
        match at {
            Some(n) => {
                proof {
                    lemma_deep_view_index(*sources);
                    lemma_source_for(repos, query@.collection, i as int);
                }
                let source = &sources[n];
                let name = match &query.family {
                    Some(f) => {
                        let mut b = f.clone();
                        b.push('/');
                        b.append(query.name.as_str());
                        b
                    },
                    None => query.name.clone(),
                };
                let package = Package {
                    pkg: query.name.clone(),
                    pkg_name: query.name.clone(),
                    description: String::new(),
                    note: String::new(),
                    version: String::new(),
                    download_url: path_join(source.url.as_str(), name.as_str()),
                    size: String::new(),
                    bsum: String::new(),
                    build_date: String::new(),
                    src_url: String::new(),
                    homepage: String::new(),
                    build_script: String::new(),
                    build_log: String::new(),
                    category: String::new(),
                    provides: String::new(),
                    icon: String::new(),
                    family: crate::package::clone_opt(&query.family),
                };
                return Some(
                    ResolvedPackage {
                        repo_name: String::new(),
                        collection: source.collection.clone(),
                        package,
                    },
                );
            },
            None => {},
        }
        i += 1;
    }
    proof {
        lemma_source_for(repos, query@.collection, i as int);
    }
    None
}

} // verus!
