//! Catalog entries, resolved packages and the query grammar
//! `[family/]name[#collection]`.

use crate::text::{
    find_char, first_index_of, last_index_of, lemma_first_index_of_bounds,
    lemma_last_index_of_bounds, lowercase, rfind_char, str_eq, substring, to_chars,
    unicode_lowercase,
};
use vstd::prelude::*;
use vstd::string::*;

verus! {

/// One entry of a repository catalog.
#[derive(Debug, Default, PartialEq, Eq)]
pub struct Package {
    /// Identifier used in queries, in lower case.
    pub pkg: String,
    /// File name of the installed artifact.
    pub pkg_name: String,
    pub description: String,
    pub note: String,
    pub version: String,
    pub download_url: String,
    /// Size in bytes, written in decimal.
    pub size: String,
    /// BLAKE3 digest in hexadecimal, or the word `null`.
    pub bsum: String,
    pub build_date: String,
    pub src_url: String,
    pub homepage: String,
    pub build_script: String,
    pub build_log: String,
    pub category: String,
    pub provides: String,
    pub icon: String,
    /// Sub-namespace that tells variants of one name apart.
    pub family: Option<String>,
}

/// Mathematical model of a [`Package`].
pub struct PackageView {
    pub pkg: Seq<char>,
    pub pkg_name: Seq<char>,
    pub description: Seq<char>,
    pub note: Seq<char>,
    pub version: Seq<char>,
    pub download_url: Seq<char>,
    pub size: Seq<char>,
    pub bsum: Seq<char>,
    pub build_date: Seq<char>,
    pub src_url: Seq<char>,
    pub homepage: Seq<char>,
    pub build_script: Seq<char>,
    pub build_log: Seq<char>,
    pub category: Seq<char>,
    pub provides: Seq<char>,
    pub icon: Seq<char>,
    pub family: Option<Seq<char>>,
}

impl View for Package {
    type V = PackageView;

    open spec fn view(&self) -> PackageView {
        PackageView {
            pkg: self.pkg@,
            pkg_name: self.pkg_name@,
            description: self.description@,
            note: self.note@,
            version: self.version@,
            download_url: self.download_url@,
            size: self.size@,
            bsum: self.bsum@,
            build_date: self.build_date@,
            src_url: self.src_url@,
            homepage: self.homepage@,
            build_script: self.build_script@,
            build_log: self.build_log@,
            category: self.category@,
            provides: self.provides@,
            icon: self.icon@,
            family: opt_text(self.family),
        }
    }
}

impl DeepView for Package {
    type V = PackageView;

    open spec fn deep_view(&self) -> PackageView {
        self@
    }
}

/// The characters of an optional string.
pub open spec fn opt_text(s: Option<String>) -> Option<Seq<char>> {
    match s {
        Some(t) => Some(t@),
        None => None,
    }
}

/// Copies an optional string.
pub fn clone_opt(s: &Option<String>) -> (r: Option<String>)
    ensures
        opt_text(r) == opt_text(*s),
{
    match s {
        Some(t) => Some(t.clone()),
        None => None,
    }
}

/// Whether two optional strings hold the same text.
pub fn opt_eq(a: &Option<String>, b: &Option<String>) -> (r: bool)
    ensures
        r == (opt_text(*a) == opt_text(*b)),
{
    match (a, b) {
        (Some(x), Some(y)) => str_eq(x.as_str(), y.as_str()),
        (None, None) => true,
        _ => false,
    }
}

impl Clone for Package {
    fn clone(&self) -> (r: Self)
        ensures
            r@ == self@,
    {
        Package {
            pkg: self.pkg.clone(),
            pkg_name: self.pkg_name.clone(),
            description: self.description.clone(),
            note: self.note.clone(),
            version: self.version.clone(),
            download_url: self.download_url.clone(),
            size: self.size.clone(),
            bsum: self.bsum.clone(),
            build_date: self.build_date.clone(),
            src_url: self.src_url.clone(),
            homepage: self.homepage.clone(),
            build_script: self.build_script.clone(),
            build_log: self.build_log.clone(),
            category: self.category.clone(),
            provides: self.provides.clone(),
            icon: self.icon.clone(),
            family: clone_opt(&self.family),
        }
    }
}

/// `family`, the separator and `name` when there is a family, else `name`.
pub open spec fn full_name_of(family: Option<Seq<char>>, name: Seq<char>, sep: char) -> Seq<char> {
    match family {
        Some(f) => f.push(sep) + name,
        None => name,
    }
}

/// The first eight characters of a checksum, or all of it when it is shorter.
pub open spec fn checksum_prefix(checksum: Seq<char>) -> Seq<char> {
    if checksum.len() <= 8 {
        checksum
    } else {
        checksum.take(8)
    }
}

/// Name of the directory an artifact is installed in:
/// `<checksum prefix>-<full name>`.
pub open spec fn install_dir_name(checksum: Seq<char>, full_name: Seq<char>) -> Seq<char> {
    checksum_prefix(checksum).push('-') + full_name
}

/// `base`, a slash and `tail`.
pub open spec fn join_path(base: Seq<char>, tail: Seq<char>) -> Seq<char> {
    base.push('/') + tail
}

/// Joins two path components with a slash.
pub fn path_join(base: &str, tail: &str) -> (r: String)
    ensures
        r@ == join_path(base@, tail@),
{
    let mut r = base.to_owned();
    r.push('/');
    r.append(tail);
    r
}

impl Package {
    /// The name that identifies this variant: the family, `join_char` and the
    /// package name, or the package name alone when there is no family.
    pub fn full_name(&self, join_char: char) -> (r: String)
        ensures
            r@ == full_name_of(self@.family, self@.pkg, join_char),
    {
        match &self.family {
            Some(f) => {
                let mut r = f.clone();
                r.push(join_char);
                r.append(self.pkg.as_str());
                r
            },
            None => self.pkg.clone(),
        }
    }

    /// The directory below `packages_path` that holds the artifact with the
    /// given checksum.
    pub fn get_install_dir(&self, packages_path: &str, checksum: &str) -> (r: String)
        ensures
            r@ == join_path(
                packages_path@,
                install_dir_name(checksum@, full_name_of(self@.family, self@.pkg, '-')),
            ),
    {
        let sum = to_chars(checksum);
        let take: usize = if sum.len() <= 8 {
            sum.len()
        } else {
            8
        };
        let mut name = substring(sum.as_slice(), 0, take);
        assert(name@ == checksum_prefix(checksum@));
        name.push('-');
        let full = self.full_name('-');
        name.append(full.as_str());
        path_join(packages_path, name.as_str())
    }

    /// The path of the artifact itself inside its install directory.
    pub fn get_install_path(&self, packages_path: &str, checksum: &str) -> (r: String)
        ensures
            r@ == join_path(
                join_path(
                    packages_path@,
                    install_dir_name(checksum@, full_name_of(self@.family, self@.pkg, '-')),
                ),
                self@.pkg_name,
            ),
    {
        let dir = self.get_install_dir(packages_path, checksum);
        path_join(dir.as_str(), self.pkg_name.as_str())
    }
}

/// A catalog entry together with the repository and collection it was found in.
#[derive(Debug, Default, PartialEq, Eq)]
pub struct ResolvedPackage {
    pub repo_name: String,
    pub collection: String,
    pub package: Package,
}

/// Mathematical model of a [`ResolvedPackage`].
pub struct ResolvedPackageView {
    pub repo_name: Seq<char>,
    pub collection: Seq<char>,
    pub package: PackageView,
}

impl View for ResolvedPackage {
    type V = ResolvedPackageView;

    open spec fn view(&self) -> ResolvedPackageView {
        ResolvedPackageView {
            repo_name: self.repo_name@,
            collection: self.collection@,
            package: self.package@,
        }
    }
}

impl DeepView for ResolvedPackage {
    type V = ResolvedPackageView;

    open spec fn deep_view(&self) -> ResolvedPackageView {
        self@
    }
}

impl Clone for ResolvedPackage {
    fn clone(&self) -> (r: Self)
        ensures
            r@ == self@,
    {
        ResolvedPackage {
            repo_name: self.repo_name.clone(),
            collection: self.collection.clone(),
            package: self.package.clone(),
        }
    }
}

/// A parsed query: a name, and optionally the family and the collection that
/// narrow the match.
#[derive(Debug, PartialEq, Eq)]
pub struct PackageQuery {
    pub name: String,
    pub family: Option<String>,
    pub collection: Option<String>,
}

/// Mathematical model of a [`PackageQuery`].
pub struct PackageQueryView {
    pub name: Seq<char>,
    pub family: Option<Seq<char>>,
    pub collection: Option<Seq<char>>,
}

impl View for PackageQuery {
    type V = PackageQueryView;

    open spec fn view(&self) -> PackageQueryView {
        PackageQueryView {
            name: self.name@,
            family: opt_text(self.family),
            collection: opt_text(self.collection),
        }
    }
}

/// The part of a lower-case query text before its last `#`, or all of it
/// when it has none.
pub open spec fn query_base(t: Seq<char>) -> Seq<char> {
    let h = last_index_of(t, '#');
    if h < 0 {
        t
    } else {
        t.take(h)
    }
}

/// The collection a lower-case query text names: what follows its last `#`,
/// unless that is empty.
pub open spec fn query_collection(t: Seq<char>) -> Option<Seq<char>> {
    let h = last_index_of(t, '#');
    if h < 0 || h + 1 == t.len() {
        None
    } else {
        Some(t.skip(h + 1))
    }
}

/// What a lower-case query text means: the collection follows the last `#`,
/// the family precedes the first `/` of the rest, and the name is what is left.
pub open spec fn parse_query_text(t: Seq<char>) -> PackageQueryView {
    let base = query_base(t);
    let s = first_index_of(base, '/');
    if s < base.len() {
        PackageQueryView {
            name: base.skip(s + 1),
            family: Some(base.take(s)),
            collection: query_collection(t),
        }
    } else {
        PackageQueryView { name: base, family: None, collection: query_collection(t) }
    }
}

/// The text of a query: the family and a slash, the name, then `#` and the
/// collection. A query without a collection whose name or family holds a `#`
/// ends in a bare `#`, so that the text is read back as the same query.
pub open spec fn query_text(q: PackageQueryView) -> Seq<char> {
    let base = full_name_of(q.family, q.name, '/');
    match q.collection {
        Some(c) => base.push('#') + c,
        None => if last_index_of(base, '#') >= 0 {
            base.push('#')
        } else {
            base
        },
    }
}

/// Splits an already lower-case query text into name, family and collection.
pub fn parse_lowercase_query(text: &str) -> (q: PackageQuery)
    ensures
        q@ == parse_query_text(text@),
{
    let t = to_chars(text);
    let (base_end, collection): (usize, Option<String>) = match rfind_char(t.as_slice(), '#') {
        Some(h) => {
            if h + 1 == t.len() {
                (h, None)
            } else {
                let c = substring(t.as_slice(), h + 1, t.len());
                assert(c@ =~= t@.skip(h + 1));
                (h, Some(c))
            }
        },
        None => (t.len(), None),
    };
    let base: Vec<char> = to_chars(substring(t.as_slice(), 0, base_end).as_str());
    assert(base@ =~= query_base(text@));
    assert(opt_text(collection) == query_collection(text@));
    match find_char(base.as_slice(), '/') {
        Some(s) => {
            let family = substring(base.as_slice(), 0, s);
            let name = substring(base.as_slice(), s + 1, base.len());
            assert(family@ =~= base@.take(s as int));
            assert(name@ =~= base@.skip(s + 1));
            PackageQuery { name, family: Some(family), collection }
        },
        None => {
            let name = substring(base.as_slice(), 0, base.len());
            assert(name@ =~= base@);
            PackageQuery { name, family: None, collection }
        },
    }
}

/// Parses a query of the form `[family/]name[#collection]`. Letter case is
/// ignored: the text is brought to lower case before it is split.
pub fn parse_package_query(query: &str) -> (q: PackageQuery)
    ensures
        q@ == parse_query_text(unicode_lowercase(query@)),
{
    let lowered = lowercase(query);
    parse_lowercase_query(lowered.as_str())
}

impl PackageQuery {
    /// Writes the query back as text.
    pub fn serialize(&self) -> (r: String)
        ensures
            r@ == query_text(self@),
    {
        let mut r = match &self.family {
            Some(f) => {
                let mut b = f.clone();
                b.push('/');
                b.append(self.name.as_str());
                b
            },
            None => self.name.clone(),
        };
        match &self.collection {
            Some(c) => {
                r.push('#');
                r.append(c.as_str());
            },
            None => {
                let chars = to_chars(r.as_str());
                if rfind_char(chars.as_slice(), '#').is_some() {
                    r.push('#');
                }
            },
        }
        r
    }
}

/// Reading back the text of a parsed query gives the same query: for every
/// lower-case text `t`, `parse(serialize(parse(t))) == parse(t)`.
pub proof fn lemma_parse_serialize_parse(t: Seq<char>)
    ensures
        parse_query_text(query_text(parse_query_text(t))) == parse_query_text(t),
{
    let q = parse_query_text(t);
    let base = query_base(t);
    let h = last_index_of(t, '#');
    lemma_last_index_of_bounds(t, '#');
    lemma_first_index_of_bounds(base, '/');
    let s = first_index_of(base, '/');
    assert(full_name_of(q.family, q.name, '/') =~= base) by {
        if s < base.len() {
            assert(base.take(s).push('/') + base.skip(s + 1) =~= base);
        }
    }
    let text = query_text(q);
    if h >= 0 && h + 1 < t.len() {
        assert(text =~= t);
    } else if h < 0 {
        assert(text == t);
    } else {
        lemma_last_index_of_bounds(base, '#');
        if last_index_of(base, '#') >= 0 {
            assert(text =~= t);
        } else {
            assert(text == base);
            assert(query_base(base) == base);
            assert(query_collection(base).is_none());
        }
    }
}

/// Parsing is idempotent on every query whose written form is unchanged by
/// lower-casing: `parse(serialize(parse(s))) == parse(s)`.
pub proof fn lemma_parse_idempotent(s: Seq<char>)
    requires
        ({
            let text = query_text(parse_query_text(unicode_lowercase(s)));
            unicode_lowercase(text) == text
        }),
    ensures
        parse_query_text(
            unicode_lowercase(query_text(parse_query_text(unicode_lowercase(s)))),
        ) == parse_query_text(unicode_lowercase(s)),
{
    lemma_parse_serialize_parse(unicode_lowercase(s));
}

/// Describes a file on disk as a package of the repository and collection
/// `local`.
pub fn gen_package_info(name: &str, path: &str, size: u64) -> (r: ResolvedPackage)
    ensures
        r@.repo_name == "local"@,
        r@.collection == "local"@,
        r@.package.pkg == name@,
        r@.package.pkg_name == name@,
        r@.package.download_url == path@,
        r@.package.size == crate::text::decimal(size as nat),
        r@.package.family.is_none(),
        r@.package.description.len() == 0,
        r@.package.note.len() == 0,
        r@.package.version.len() == 0,
        r@.package.bsum.len() == 0,
        r@.package.build_date.len() == 0,
        r@.package.src_url.len() == 0,
        r@.package.homepage.len() == 0,
        r@.package.build_script.len() == 0,
        r@.package.build_log.len() == 0,
        r@.package.category.len() == 0,
        r@.package.provides.len() == 0,
        r@.package.icon.len() == 0,
{
    let package = Package {
        pkg: name.to_owned(),
        pkg_name: name.to_owned(),
        description: String::new(),
        note: String::new(),
        version: String::new(),
        download_url: path.to_owned(),
        size: crate::text::u64_to_string(size),
        bsum: String::new(),
        build_date: String::new(),
        src_url: String::new(),
        homepage: String::new(),
        build_script: String::new(),
        build_log: String::new(),
        category: String::new(),
        provides: String::new(),
        icon: String::new(),
        family: None,
    };
    ResolvedPackage { repo_name: "local".to_owned(), collection: "local".to_owned(), package }
}

impl ResolvedPackage {
    /// The path at which the artifact is installed if its checksum is the
    /// one the catalog states.
    pub fn install_path(&self, packages_path: &str) -> (r: String)
        ensures
            r@ == join_path(
                join_path(
                    packages_path@,
                    install_dir_name(
                        self@.package.bsum,
                        full_name_of(self@.package.family, self@.package.pkg, '-'),
                    ),
                ),
                self@.package.pkg_name,
            ),
    {
        self.package.get_install_path(packages_path, self.package.bsum.as_str())
    }
}

/// The collections that every repository is expected to publish.
#[derive(Debug, Clone, Copy, PartialEq, Eq, Structural)]
pub enum Collection {
    Bin,
    Base,
    Pkg,
}

/// The name of a well-known collection.
pub open spec fn collection_name(c: Collection) -> Seq<char> {
    match c {
        Collection::Bin => "bin"@,
        Collection::Base => "base"@,
        Collection::Pkg => "pkg"@,
    }
}

impl Collection {
    /// The name of the collection.
    pub fn as_str(&self) -> (r: &'static str)
        ensures
            r@ == collection_name(*self),
    {
        match self {
            Collection::Bin => "bin",
            Collection::Base => "base",
            Collection::Pkg => "pkg",
        }
    }

    /// The well-known collection of the given name, if it is one.
    pub fn parse(name: &str) -> (r: Option<Collection>)
        ensures
            match r {
                Some(c) => name@ == collection_name(c),
                None => name@ != "bin"@ && name@ != "base"@ && name@ != "pkg"@,
            },
    {
        if str_eq(name, "bin") {
            Some(Collection::Bin)
        } else if str_eq(name, "base") {
            Some(Collection::Base)
        } else if str_eq(name, "pkg") {
            Some(Collection::Pkg)
        } else {
            None
        }
    }

    /// The collection that a name stands for: `base` and `pkg` stand for
    /// themselves and every other name for `bin`.
    pub fn from_name(name: &str) -> (r: Collection)
        ensures
            r == if name@ == "base"@ {
                Collection::Base
            } else if name@ == "pkg"@ {
                Collection::Pkg
            } else {
                Collection::Bin
            },
    {
        if str_eq(name, "base") {
            Collection::Base
        } else if str_eq(name, "pkg") {
            Collection::Pkg
        } else {
            Collection::Bin
        }
    }
}

} // verus!
