//! Downloads from release pages: which link is what, which release and
//! which of its assets is meant, and where the download is written.

use crate::package::{join_path, opt_text, path_join};
use crate::seqs::{lemma_deep_view_index, lemma_deep_view_push};
use crate::text::{
    contains, contains_text, first_index_of, last_index_of, lemma_first_index_of, lowercase,
    occurs_at, rfind_char, starts_with, substring, to_chars, unicode_lowercase,
};
use crate::util::{trim, trimmed};
use vstd::prelude::*;
use vstd::string::*;

verus! {

/// `regex::Regex`, a compiled regular expression. Nothing inside it is
/// visible here.
#[verifier::external_type_specification]
#[verifier::external_body]
pub struct ExRegex(regex::Regex);

/// `regex::Error`, which says why a regular expression did not compile.
#[verifier::external_type_specification]
#[verifier::external_body]
pub struct ExRegexError(regex::Error);

/// The pattern that a regular expression was compiled from, as
/// `regex::Regex::as_str` gives it.
pub uninterp spec fn regex_source(re: regex::Regex) -> Seq<char>;

/// Whether `regex::Regex::new` accepts a pattern.
pub uninterp spec fn regex_compiles(pattern: Seq<char>) -> bool;

/// Whether the regular expression of a pattern matches somewhere in a
/// text, as `regex::Regex::is_match` tells it.
pub uninterp spec fn regex_matches(pattern: Seq<char>, text: Seq<char>) -> bool;

/// What the groups of the regular expression of a pattern capture in the
/// first match in a text, as `regex::Regex::captures` gives them: nothing
/// without a match, else for each group, the whole match first, the text it
/// captured if it took part in the match.
pub uninterp spec fn regex_groups(pattern: Seq<char>, text: Seq<char>) -> Option<
    Seq<Option<Seq<char>>>,
>;

/// Whether `url::Url::parse` reads a text as an absolute address.
pub uninterp spec fn url_parses(text: Seq<char>) -> bool;

/// `regex::Regex::new`: compiles a pattern. Whether it succeeds depends on
/// the pattern alone, and the expression that comes back is the one of that
/// pattern.
#[verifier::external_body]
fn regex_new(pattern: &str) -> (r: Result<regex::Regex, regex::Error>)
    ensures
        r is Ok <==> regex_compiles(pattern@),
        r is Ok ==> regex_source(r->Ok_0) == pattern@,
{
    regex::Regex::new(pattern)
}

/// `regex::Regex::is_match`: whether the expression matches somewhere in
/// the text. The answer depends on the pattern and the text alone; nothing
/// else is claimed about it.
#[verifier::external_body]
fn regex_is_match(re: &regex::Regex, text: &str) -> (r: bool)
    ensures
        r == regex_matches(regex_source(*re), text@),
{
    re.is_match(text)
}

/// `regex::Regex::captures`, each group as the text it captured. The
/// result depends on the pattern and the text alone; nothing else is claimed
/// about it.
#[verifier::external_body]
fn regex_captures(re: &regex::Regex, text: &str) -> (r: Option<Vec<Option<String>>>)
    ensures
        match r {
            Some(groups) => regex_groups(regex_source(*re), text@) == Some(groups.deep_view()),
            None => regex_groups(regex_source(*re), text@) is None,
        },
{
    match re.captures(text) {
        Some(found) => Some(found.iter().map(|m| m.map(|m| m.as_str().to_owned())).collect()),
        None => None,
    }
}

/// `url::Url::parse`, as `reqwest` hands it on: whether a text is read as
/// an absolute address. The answer depends on the text alone; nothing else
/// is claimed about it.
#[verifier::external_body]
fn is_url(text: &str) -> (r: bool)
    ensures
        r == url_parses(text@),
{
    reqwest::Url::parse(text).is_ok()
}

/// Which service answers questions about releases.
#[derive(Debug, Clone, Copy, PartialEq, Eq, Structural)]
pub enum ApiType {
    /// The mirror.
    PkgForge,
    /// The forge itself.
    Primary,
}

/// The forges whose release pages are understood.
#[derive(Debug, Clone, Copy, PartialEq, Eq, Structural)]
pub enum Forge {
    Github,
    Gitlab,
}

/// The pattern of a link to a repository on GitHub, with an optional tag
/// after `@`.
pub const GITHUB_URL_REGEX: &'static str =
    r"^(?i)(?:https?://)?(?:github(?:\.com)?[:/])([^/@]+/[^/@]+)(?:@([^/\s]*)?)?$";

/// The pattern of a link to a repository on GitLab, with an optional tag
/// after `@`.
pub const GITLAB_URL_REGEX: &'static str =
    r"^(?i)(?:https?://)?(?:gitlab(?:\.com)?[:/])([^/@]+/[^/@]+)(?:@([^/\s]*)?)?$";

/// The pattern of the links to a forge.
pub open spec fn forge_pattern(forge: Forge) -> Seq<char> {
    match forge {
        Forge::Github => GITHUB_URL_REGEX@,
        Forge::Gitlab => GITLAB_URL_REGEX@,
    }
}

/// Whether a status makes a request to the mirror be repeated at the forge
/// itself: too many requests, not authorized, forbidden, or a failure of the
/// server.
pub fn should_fallback(status: u16) -> (r: bool)
    ensures
        r == (status == 429 || status == 401 || status == 403 || 500 <= status < 600),
{
    status == 429 || status == 401 || status == 403 || (status >= 500 && status < 600)
}

/// The service to ask after `api` answered with `status`: the forge itself
/// after the mirror failed in a way that a second try may mend, else none.
pub fn next_api(api: ApiType, status: u16) -> (r: Option<ApiType>)
    ensures
        r == if api == ApiType::PkgForge && (status == 429 || status == 401 || status == 403
            || 500 <= status < 600) {
            Some(ApiType::Primary)
        } else {
            None
        },
{
    match api {
        ApiType::PkgForge => if should_fallback(status) {
            Some(ApiType::Primary)
        } else {
            None
        },
        ApiType::Primary => None,
    }
}

/// A text with every slash written as `%2F`.
pub open spec fn escaped_slashes(s: Seq<char>) -> Seq<char>
    decreases s.len(),
{
    if s.len() == 0 {
        Seq::empty()
    } else if s.last() == '/' {
        escaped_slashes(s.drop_last()) + "%2F"@
    } else {
        escaped_slashes(s.drop_last()).push(s.last())
    }
}

/// The address that lists the releases of a repository.
pub open spec fn releases_url_of(forge: Forge, api: ApiType, user_repo: Seq<char>) -> Seq<char> {
    match (forge, api) {
        (Forge::Github, ApiType::PkgForge) => "https://api.gh.pkgforge.dev/repos/"@ + user_repo
            + "/releases?per_page=100"@,
        (Forge::Github, ApiType::Primary) => "https://api.github.com/repos/"@ + user_repo
            + "/releases?per_page=100"@,
        (Forge::Gitlab, ApiType::PkgForge) => "https://api.gl.pkgforge.dev/api/v4/projects/"@
            + escaped_slashes(user_repo) + "/releases"@,
        (Forge::Gitlab, ApiType::Primary) => "https://gitlab.com/api/v4/projects/"@
            + escaped_slashes(user_repo) + "/releases"@,
    }
}

fn escape_slashes(s: &str) -> (r: String)
    ensures
        r@ == escaped_slashes(s@),
{
    let text = to_chars(s);
    let mut r = String::new();
    let mut i: usize = 0;
    assert(text@.take(0) =~= Seq::<char>::empty());
    while i < text.len()
        invariant
            i <= text.len(),
            r@ == escaped_slashes(text@.take(i as int)),
        decreases text.len() - i,
    {
        assert(text@.take(i + 1).drop_last() =~= text@.take(i as int));
        if text[i] == '/' {
            r.append("%2F");
        } else {
            r.push(text[i]);
        }
        i += 1;
    }
    assert(text@.take(text.len() as int) =~= text@);
    r
}

/// The address that lists the releases of the repository `user_repo`.
pub fn releases_url(forge: Forge, api: ApiType, user_repo: &str) -> (r: String)
    ensures
        r@ == releases_url_of(forge, api, user_repo@),
{
    match forge {
        Forge::Github => {
            let mut r = match api {
                ApiType::PkgForge => "https://api.gh.pkgforge.dev/repos/".to_owned(),
                ApiType::Primary => "https://api.github.com/repos/".to_owned(),
            };
            r.append(user_repo);
            r.append("/releases?per_page=100");
            r
        },
        Forge::Gitlab => {
            let mut r = match api {
                ApiType::PkgForge => "https://api.gl.pkgforge.dev/api/v4/projects/".to_owned(),
                ApiType::Primary => "https://gitlab.com/api/v4/projects/".to_owned(),
            };
            r.append(escape_slashes(user_repo).as_str());
            r.append("/releases");
            r
        },
    }
}

/// What a link given to the download command is.
#[derive(Debug, PartialEq, Eq)]
pub enum Link {
    /// A repository on a forge, and the tag of the release that is meant, if
    /// one is named.
    Repository { forge: Forge, user_repo: String, tag: Option<String> },
    /// The address of a file.
    Address,
    /// Anything else, which is taken as the name of a package.
    PackageName,
}

/// Mathematical model of a [`Link`].
pub enum LinkView {
    Repository { forge: Forge, user_repo: Seq<char>, tag: Option<Seq<char>> },
    Address,
    PackageName,
}

impl View for Link {
    type V = LinkView;

    open spec fn view(&self) -> LinkView {
        match self {
            Link::Repository { forge, user_repo, tag } => LinkView::Repository {
                forge: *forge,
                user_repo: user_repo@,
                tag: opt_text(*tag),
            },
            Link::Address => LinkView::Address,
            Link::PackageName => LinkView::PackageName,
        }
    }
}

/// The repository that the captured groups of a forge link name: the first
/// group is the repository, the second the tag, which counts only if it is
/// not blank. Links whose groups are not of that shape name nothing.
pub open spec fn repository_of(forge: Forge, groups: Seq<Option<Seq<char>>>) -> Option<LinkView> {
    if groups.len() >= 2 && groups[1] is Some {
        let tag = if groups.len() >= 3 && groups[2] is Some && trimmed(groups[2].unwrap()).len()
            > 0 {
            Some(trimmed(groups[2].unwrap()))
        } else {
            None
        };
        Some(LinkView::Repository { forge, user_repo: groups[1].unwrap(), tag })
    } else {
        None
    }
}

/// What a link is: a repository on GitHub, else one on GitLab, else an
/// address, else the name of a package.
pub open spec fn link_kind(link: Seq<char>) -> LinkView {
    let text = trimmed(link);
    let github = regex_groups(forge_pattern(Forge::Github), text);
    let gitlab = regex_groups(forge_pattern(Forge::Gitlab), text);
    if github is Some && repository_of(Forge::Github, github.unwrap()) is Some {
        repository_of(Forge::Github, github.unwrap()).unwrap()
    } else if gitlab is Some && repository_of(Forge::Gitlab, gitlab.unwrap()) is Some {
        repository_of(Forge::Gitlab, gitlab.unwrap()).unwrap()
    } else if url_parses(text) {
        LinkView::Address
    } else {
        LinkView::PackageName
    }
}

/// Reads the captured groups of a forge link.
pub fn repository_from(forge: Forge, groups: &Vec<Option<String>>) -> (r: Option<Link>)
    ensures
        match r {
            Some(link) => repository_of(forge, groups.deep_view()) == Some(link@),
            None => repository_of(forge, groups.deep_view()) is None,
        },
{
    proof {
        lemma_deep_view_index(*groups);
    }
    if groups.len() < 2 {
        return None;
    }
    let user_repo = match &groups[1] {
        Some(text) => text.clone(),
        None => {
            return None;
        },
    };
    let tag = if groups.len() >= 3 {
        match &groups[2] {
            Some(text) => {
                let cut = trim(to_chars(text.as_str()).as_slice());
                if cut.len() > 0 {
                    Some(crate::text::from_chars(cut.as_slice()))
                } else {
                    None
                }
            },
            None => None,
        }
    } else {
        None
    };
    Some(Link::Repository { forge, user_repo, tag })
}

/// The patterns of the forge links, compiled.
pub struct LinkPatterns {
    github: regex::Regex,
    gitlab: regex::Regex,
}

impl LinkPatterns {
    /// Whether the patterns are those of the two forges.
    pub closed spec fn wf(&self) -> bool {
        regex_source(self.github) == forge_pattern(Forge::Github) && regex_source(self.gitlab)
            == forge_pattern(Forge::Gitlab)
    }

    /// Compiles the patterns of the forge links. `None` if the regular
    /// expression engine refuses one of them.
    pub fn new() -> (r: Option<Self>)
        ensures
            r is Some <==> regex_compiles(forge_pattern(Forge::Github)) && regex_compiles(
                forge_pattern(Forge::Gitlab),
            ),
            r is Some ==> r->Some_0.wf(),
    {
        let github = match regex_new(GITHUB_URL_REGEX) {
            Ok(re) => re,
            Err(_) => {
                return None;
            },
        };
        let gitlab = match regex_new(GITLAB_URL_REGEX) {
            Ok(re) => re,
            Err(_) => {
                return None;
            },
        };
        Some(LinkPatterns { github, gitlab })
    }

    /// Tells what a link is. Blanks around the link are ignored.
    pub fn classify(&self, link: &str) -> (r: Link)
        requires
            self.wf(),
        ensures
            r@ == link_kind(link@),
    {
        let cut = trim(to_chars(link).as_slice());
        let text = crate::text::from_chars(cut.as_slice());
        match regex_captures(&self.github, text.as_str()) {
            Some(groups) => match repository_from(Forge::Github, &groups) {
                Some(found) => {
                    return found;
                },
                None => {},
            },
            None => {},
        }
        match regex_captures(&self.gitlab, text.as_str()) {
            Some(groups) => match repository_from(Forge::Gitlab, &groups) {
                Some(found) => {
                    return found;
                },
                None => {},
            },
            None => {},
        }
        if is_url(text.as_str()) {
            Link::Address
        } else {
            Link::PackageName
        }
    }
}

/// A file of a release on GitHub.
#[derive(Debug, PartialEq, Eq)]
pub struct GithubAsset {
    pub name: String,
    pub size: u64,
    pub browser_download_url: String,
}

/// A release on GitHub.
#[derive(Debug, PartialEq, Eq)]
pub struct GithubRelease {
    pub name: String,
    pub tag_name: String,
    pub draft: bool,
    pub prerelease: bool,
    pub published_at: String,
    pub assets: Vec<GithubAsset>,
}

/// A file of a release on GitLab.
#[derive(Debug, PartialEq, Eq)]
pub struct GitlabAsset {
    pub name: String,
    pub direct_asset_url: String,
}

/// A release on GitLab.
#[derive(Debug, PartialEq, Eq)]
pub struct GitlabRelease {
    pub tag_name: String,
    pub upcoming_release: bool,
    pub released_at: String,
    pub assets: Vec<GitlabAsset>,
}

/// A file of a release.
#[derive(Debug, PartialEq, Eq)]
pub struct Asset {
    pub name: String,
    pub url: String,
    /// The size in bytes, where the forge tells it.
    pub size: Option<u64>,
}

/// Mathematical model of an [`Asset`].
pub struct AssetView {
    pub name: Seq<char>,
    pub url: Seq<char>,
    pub size: Option<u64>,
}

impl View for Asset {
    type V = AssetView;

    open spec fn view(&self) -> AssetView {
        AssetView { name: self.name@, url: self.url@, size: self.size }
    }
}

impl DeepView for Asset {
    type V = AssetView;

    open spec fn deep_view(&self) -> AssetView {
        self@
    }
}

/// A release of a repository.
#[derive(Debug, PartialEq, Eq)]
pub struct Release {
    pub tag_name: String,
    /// Whether the release is not yet a stable one.
    pub unstable: bool,
    pub assets: Vec<Asset>,
}

/// Mathematical model of a [`Release`].
pub struct ReleaseView {
    pub tag_name: Seq<char>,
    pub unstable: bool,
    pub assets: Seq<AssetView>,
}

impl View for Release {
    type V = ReleaseView;

    open spec fn view(&self) -> ReleaseView {
        ReleaseView {
            tag_name: self.tag_name@,
            unstable: self.unstable,
            assets: self.assets.deep_view(),
        }
    }
}

impl DeepView for Release {
    type V = ReleaseView;

    open spec fn deep_view(&self) -> ReleaseView {
        self@
    }
}

impl GithubRelease {
    /// The release in the form that the selection works on. A draft and a
    /// prerelease are both unstable.
    pub fn to_release(&self) -> (r: Release)
        ensures
            r@.tag_name == self.tag_name@,
            r@.unstable == (self.draft || self.prerelease),
            r@.assets.len() == self.assets.len(),
            forall|i: int|
                0 <= i < self.assets.len() ==> #[trigger] r@.assets[i] == (AssetView {
                    name: self.assets[i].name@,
                    url: self.assets[i].browser_download_url@,
                    size: Some(self.assets[i].size),
                }),
    {
        let mut assets: Vec<Asset> = Vec::new();
        let mut i: usize = 0;
        while i < self.assets.len()
            invariant
                i <= self.assets.len(),
                assets.len() == i,
                forall|j: int|
                    0 <= j < i ==> #[trigger] assets[j]@ == (AssetView {
                        name: self.assets[j].name@,
                        url: self.assets[j].browser_download_url@,
                        size: Some(self.assets[j].size),
                    }),
            decreases self.assets.len() - i,
        {
            let a = &self.assets[i];
            assets.push(
                Asset {
                    name: a.name.clone(),
                    url: a.browser_download_url.clone(),
                    size: Some(a.size),
                },
            );
            i += 1;
        }
        proof {
            lemma_deep_view_index(assets);
        }
        Release {
            tag_name: self.tag_name.clone(),
            unstable: self.draft || self.prerelease,
            assets,
        }
    }
}

impl GitlabRelease {
    /// The release in the form that the selection works on. An upcoming
    /// release is unstable.
    pub fn to_release(&self) -> (r: Release)
        ensures
            r@.tag_name == self.tag_name@,
            r@.unstable == self.upcoming_release,
            r@.assets.len() == self.assets.len(),
            forall|i: int|
                0 <= i < self.assets.len() ==> #[trigger] r@.assets[i] == (AssetView {
                    name: self.assets[i].name@,
                    url: self.assets[i].direct_asset_url@,
                    size: None,
                }),
    {
        let mut assets: Vec<Asset> = Vec::new();
        let mut i: usize = 0;
        while i < self.assets.len()
            invariant
                i <= self.assets.len(),
                assets.len() == i,
                forall|j: int|
                    0 <= j < i ==> #[trigger] assets[j]@ == (AssetView {
                        name: self.assets[j].name@,
                        url: self.assets[j].direct_asset_url@,
                        size: None,
                    }),
            decreases self.assets.len() - i,
        {
            let a = &self.assets[i];
            assets.push(Asset { name: a.name.clone(), url: a.direct_asset_url.clone(), size: None });
            i += 1;
        }
        proof {
            lemma_deep_view_index(assets);
        }
        Release { tag_name: self.tag_name.clone(), unstable: self.upcoming_release, assets }
    }
}

/// Whether a release is the one that is meant: with a tag, one whose tag
/// begins with it; without, one that is stable.
pub open spec fn release_is_meant(release: ReleaseView, tag: Option<Seq<char>>) -> bool {
    match tag {
        Some(t) => occurs_at(release.tag_name, t, 0),
        None => !release.unstable,
    }
}

/// Finds the release that is meant: the first one that fits.
pub fn select_release(releases: &Vec<Release>, tag: Option<&str>) -> (r: Option<usize>)
    ensures
        match r {
            Some(at) => {
                &&& at < releases.len()
                &&& release_is_meant(releases[at as int]@, crate::appimage::opt_str(tag))
                &&& forall|j: int|
                    0 <= j < at ==> !release_is_meant(
                        #[trigger] releases[j]@,
                        crate::appimage::opt_str(tag),
                    )
            },
            None => forall|j: int|
                0 <= j < releases.len() ==> !release_is_meant(
                    #[trigger] releases[j]@,
                    crate::appimage::opt_str(tag),
                ),
        },
{
    let mut i: usize = 0;
    while i < releases.len()
        invariant
            i <= releases.len(),
            forall|j: int|
                0 <= j < i ==> !release_is_meant(
                    #[trigger] releases[j]@,
                    crate::appimage::opt_str(tag),
                ),
        decreases releases.len() - i,
    {
        let meant = match tag {
            Some(t) => {
                let name = to_chars(releases[i].tag_name.as_str());
                let wanted = to_chars(t);
                starts_with(name.as_slice(), wanted.as_slice())
            },
            None => !releases[i].unstable,
        };
        if meant {
            return Some(i);
        }
        i += 1;
    }
    None
}

/// The words of a keyword argument: its parts between commas, without the
/// blanks around them and without empty parts.
pub open spec fn keyword_parts(keyword: Seq<char>) -> Seq<Seq<char>>
    decreases keyword.len(),
{
    if keyword.len() == 0 {
        Seq::empty()
    } else {
        let e = first_index_of(keyword, ',');
        let part = trimmed(keyword.take(e));
        let rest = if 0 <= e < keyword.len() {
            keyword_parts(keyword.skip(e + 1))
        } else {
            Seq::empty()
        };
        if part.len() > 0 {
            seq![part] + rest
        } else {
            rest
        }
    }
}

/// Splits a keyword argument into its words.
pub fn split_keyword(keyword: &str) -> (r: Vec<String>)
    ensures
        r.deep_view() == keyword_parts(keyword@),
{
    let k = to_chars(keyword);
    let mut out: Vec<String> = Vec::new();
    let mut pos: usize = 0;
    assert(k@.skip(0) =~= k@);
    assert(out.deep_view() =~= Seq::<Seq<char>>::empty());
    assert(out.deep_view() + keyword_parts(k@) =~= keyword_parts(k@));
    while pos < k.len()
        invariant
            pos <= k.len(),
            k@ == keyword@,
            keyword_parts(k@) == out.deep_view() + keyword_parts(k@.skip(pos as int)),
        decreases k.len() - pos,
    {
        let ghost rest = k@.skip(pos as int);
        let mut end: usize = pos;
        while end < k.len() && k[end] != ','
            invariant
                pos <= end <= k.len(),
                forall|j: int| pos <= j < end ==> k@[j] != ',',
            decreases k.len() - end,
        {
            end += 1;
        }
        proof {
            assert forall|j: int| 0 <= j < end - pos implies rest[j] != ',' by {
                assert(rest[j] == k@[pos + j]);
            }
            lemma_first_index_of(rest, ',', end - pos);
        }
        let piece = vstd::slice::slice_subrange(k.as_slice(), pos, end);
        assert(piece@ =~= rest.take(end - pos));
        let part = trim(piece);
        let next: usize = if end < k.len() {
            end + 1
        } else {
            end
        };
        proof {
            if end < k.len() {
                assert(rest.skip(end - pos + 1) =~= k@.skip(next as int));
            } else {
                assert(k@.skip(next as int) =~= Seq::<char>::empty());
            }
        }
        if part.len() > 0 {
            let word = crate::text::from_chars(part.as_slice());
            let ghost before = out;
            out.push(word);
            proof {
                lemma_deep_view_push(before, out, word);
                assert(before.deep_view() + (seq![part@] + keyword_parts(k@.skip(next as int)))
                    =~= out.deep_view() + keyword_parts(k@.skip(next as int)));
            }
        }
        pos = next;
    }
    assert(keyword_parts(k@.skip(pos as int)) =~= Seq::<Seq<char>>::empty());
    assert(out.deep_view() + Seq::<Seq<char>>::empty() =~= out.deep_view());
    out
}

/// Whether a name holds a word, letter case apart.
pub open spec fn holds_word(name: Seq<char>, word: Seq<char>) -> bool {
    contains_text(unicode_lowercase(name), unicode_lowercase(word))
}

/// Whether a name holds every word of every keyword.
pub open spec fn holds_all(name: Seq<char>, keywords: Seq<Seq<char>>) -> bool {
    forall|k: int, w: int|
        0 <= k < keywords.len() && 0 <= w < keyword_parts(keywords[k]).len() ==> holds_word(
            name,
            #[trigger] keyword_parts(keywords[k])[w],
        )
}

/// Whether a name holds no word of any keyword.
pub open spec fn holds_none(name: Seq<char>, keywords: Seq<Seq<char>>) -> bool {
    forall|k: int, w: int|
        0 <= k < keywords.len() && 0 <= w < keyword_parts(keywords[k]).len() ==> !holds_word(
            name,
            #[trigger] keyword_parts(keywords[k])[w],
        )
}

/// Whether every expression matches a name.
pub open spec fn all_match(name: Seq<char>, patterns: Seq<Seq<char>>) -> bool {
    forall|i: int| 0 <= i < patterns.len() ==> regex_matches(#[trigger] patterns[i], name)
}

/// The patterns of a list of compiled expressions.
pub open spec fn sources(filters: Seq<regex::Regex>) -> Seq<Seq<char>> {
    Seq::new(filters.len(), |i: int| regex_source(filters[i]))
}

/// Whether an asset is admitted: every expression matches its name, and its
/// name holds every word that is asked for and none that is excluded.
pub open spec fn admitted(
    name: Seq<char>,
    patterns: Seq<Seq<char>>,
    wanted: Seq<Seq<char>>,
    excluded: Seq<Seq<char>>,
) -> bool {
    all_match(name, patterns) && holds_all(name, wanted) && holds_none(name, excluded)
}

/// What narrows the assets of a release down.
pub struct AssetFilter {
    filters: Vec<regex::Regex>,
    match_keywords: Vec<String>,
    exclude_keywords: Vec<String>,
}

/// Why the download command could not start.
#[derive(Debug, Clone, Copy, PartialEq, Eq, Structural)]
pub enum ForgeError {
    /// The regular expression at this position does not compile.
    BadPattern(usize),
}

/// Whether `name`, in lower case already, holds every word of `keywords`
/// when `wanted` is set, or none of them when it is not.
fn keywords_agree(name_lower: &Vec<char>, name: Ghost<Seq<char>>, keywords: &Vec<String>, wanted: bool) -> (r:
    bool)
    requires
        name_lower@ == unicode_lowercase(name@),
    ensures
        r == if wanted {
            holds_all(name@, keywords.deep_view())
        } else {
            holds_none(name@, keywords.deep_view())
        },
{
    let ghost all = keywords.deep_view();
    let mut k: usize = 0;
    while k < keywords.len()
        invariant
            k <= keywords.len(),
            all == keywords.deep_view(),
            name_lower@ == unicode_lowercase(name@),
            forall|a: int, w: int|
                0 <= a < k && 0 <= w < keyword_parts(all[a]).len() ==> holds_word(
                    name@,
                    #[trigger] keyword_parts(all[a])[w],
                ) == wanted,
        decreases keywords.len() - k,
    {
        proof {
            lemma_deep_view_index(*keywords);
        }
        let parts = split_keyword(keywords[k].as_str());
        let mut w: usize = 0;
        while w < parts.len()
            invariant
                w <= parts.len(),
                k < keywords.len(),
                all == keywords.deep_view(),
                parts.deep_view() == keyword_parts(all[k as int]),
                name_lower@ == unicode_lowercase(name@),
                forall|b: int|
                    0 <= b < w ==> holds_word(name@, #[trigger] keyword_parts(all[k as int])[b])
                        == wanted,
            decreases parts.len() - w,
        {
            proof {
                lemma_deep_view_index(parts);
            }
            let word = to_chars(lowercase(parts[w].as_str()).as_str());
            let held = contains(name_lower.as_slice(), word.as_slice());
            assert(held == holds_word(name@, keyword_parts(all[k as int])[w as int]));
            if held != wanted {
                return false;
            }
            w += 1;
        }
        proof {
            lemma_deep_view_index(parts);
        }
        k += 1;
    }
    proof {
        lemma_deep_view_index(*keywords);
    }
    true
}

impl AssetFilter {
    /// The patterns of the expressions of the filter.
    pub closed spec fn patterns(&self) -> Seq<Seq<char>> {
        sources(self.filters@)
    }

    /// The keywords that the name of an asset must hold.
    pub closed spec fn wanted(&self) -> Seq<Seq<char>> {
        self.match_keywords.deep_view()
    }

    /// The keywords that the name of an asset must not hold.
    pub closed spec fn excluded(&self) -> Seq<Seq<char>> {
        self.exclude_keywords.deep_view()
    }

    /// A filter of the given expressions and keywords. Fails with the
    /// position of the first expression that does not compile.
    pub fn new(
        regex_patterns: &Vec<String>,
        match_keywords: Vec<String>,
        exclude_keywords: Vec<String>,
    ) -> (r: Result<Self, ForgeError>)
        ensures
            match r {
                Ok(filter) => {
                    &&& filter.patterns() == regex_patterns.deep_view()
                    &&& filter.wanted() == match_keywords.deep_view()
                    &&& filter.excluded() == exclude_keywords.deep_view()
                    &&& forall|i: int|
                        0 <= i < regex_patterns.len() ==> regex_compiles(
                            #[trigger] regex_patterns[i]@,
                        )
                },
                Err(ForgeError::BadPattern(at)) => {
                    &&& at < regex_patterns.len()
                    &&& !regex_compiles(regex_patterns[at as int]@)
                    &&& forall|i: int|
                        0 <= i < at ==> regex_compiles(#[trigger] regex_patterns[i]@)
                },
            },
    {
        let mut filters: Vec<regex::Regex> = Vec::new();
        let mut i: usize = 0;
        while i < regex_patterns.len()
            invariant
                i <= regex_patterns.len(),
                filters.len() == i,
                forall|j: int| 0 <= j < i ==> regex_compiles(#[trigger] regex_patterns[j]@),
                forall|j: int|
                    0 <= j < i ==> regex_source(#[trigger] filters[j]) == regex_patterns[j]@,
            decreases regex_patterns.len() - i,
        {
            match regex_new(regex_patterns[i].as_str()) {
                Ok(re) => {
                    filters.push(re);
                },
                Err(_) => {
                    return Err(ForgeError::BadPattern(i));
                },
            }
            i += 1;
        }
        proof {
            lemma_deep_view_index(*regex_patterns);
            assert(sources(filters@) =~= regex_patterns.deep_view());
        }
        Ok(AssetFilter { filters, match_keywords, exclude_keywords })
    }

    /// Whether the filter admits an asset of the given name.
    pub fn admits(&self, name: &str) -> (r: bool)
        ensures
            r == admitted(
                name@,
                self.patterns(),
                self.wanted(),
                self.excluded(),
            ),
    {
        let mut i: usize = 0;
        while i < self.filters.len()
            invariant
                i <= self.filters.len(),
                forall|j: int|
                    0 <= j < i ==> regex_matches(#[trigger] sources(self.filters@)[j], name@),
            decreases self.filters.len() - i,
        {
            if !regex_is_match(&self.filters[i], name) {
                assert(!regex_matches(sources(self.filters@)[i as int], name@));
                return false;
            }
            i += 1;
        }
        let lower = to_chars(lowercase(name).as_str());
        keywords_agree(&lower, Ghost(name@), &self.match_keywords, true) && keywords_agree(
            &lower,
            Ghost(name@),
            &self.exclude_keywords,
            false,
        )
    }

    /// The positions of the assets that the filter admits, in order.
    pub fn select(&self, assets: &Vec<Asset>) -> (r: Vec<usize>)
        ensures
            forall|k: int| 0 <= k < r.len() ==> (#[trigger] r[k]) < assets.len(),
            forall|k: int, m: int| 0 <= k < m < r.len() ==> r[k] < r[m],
            forall|i: int|
                0 <= i < assets.len() ==> (r@.contains(i as usize) <==> admitted(
                    (#[trigger] assets[i]).name@,
                    self.patterns(),
                    self.wanted(),
                    self.excluded(),
                )),
    {
        let mut out: Vec<usize> = Vec::new();
        let mut i: usize = 0;
        while i < assets.len()
            invariant
                i <= assets.len(),
                forall|k: int| 0 <= k < out.len() ==> (#[trigger] out[k]) < i,
                forall|k: int, m: int| 0 <= k < m < out.len() ==> out[k] < out[m],
                forall|j: int|
                    0 <= j < i ==> (out@.contains(j as usize) <==> admitted(
                        (#[trigger] assets[j]).name@,
                        self.patterns(),
                        self.wanted(),
                        self.excluded(),
                    )),
            decreases assets.len() - i,
        {
            let ghost before = out@;
            if self.admits(assets[i].name.as_str()) {
                out.push(i);
                proof {
                    assert(out@[before.len() as int] == i);
                    assert forall|j: int| 0 <= j < i + 1 implies (out@.contains(j as usize)
                        <==> admitted(
                        (#[trigger] assets[j]).name@,
                        self.patterns(),
                        self.wanted(),
                        self.excluded(),
                    )) by {
                        if j < i {
                            if before.contains(j as usize) {
                                let k = choose|k: int| 0 <= k < before.len() && before[k] == j as usize;
                                assert(out@[k] == j as usize);
                            }
                            if out@.contains(j as usize) {
                                let k = choose|k: int| 0 <= k < out@.len() && out@[k] == j as usize;
                                assert(k < before.len());
                                assert(before[k] == j as usize);
                            }
                        }
                    }
                }
            } else {
                proof {
                    if out@.contains(i) {
                        let k = choose|k: int| 0 <= k < out@.len() && out@[k] == i;
                        assert(out[k] < i);
                    }
                }
            }
            i += 1;
        }
        out
    }
}

/// Which asset is downloaded.
#[derive(Debug, Clone, Copy, PartialEq, Eq, Structural)]
pub enum AssetChoice {
    /// No asset was admitted.
    Nothing,
    /// The asset at this position.
    Take(usize),
    /// Several assets were admitted; the user picks one of them.
    Ask,
}

/// Decides which of the admitted assets is downloaded: the only one, or the
/// first one when `yes` says not to ask.
pub fn choose_asset(admitted: &Vec<usize>, yes: bool) -> (r: AssetChoice)
    ensures
        r == if admitted.len() == 0 {
            AssetChoice::Nothing
        } else if admitted.len() == 1 || yes {
            AssetChoice::Take(admitted[0])
        } else {
            AssetChoice::Ask
        },
{
    if admitted.len() == 0 {
        AssetChoice::Nothing
    } else if admitted.len() == 1 || yes {
        AssetChoice::Take(admitted[0])
    } else {
        AssetChoice::Ask
    }
}

/// The name of the file that an address ends in: what follows its last
/// slash, if that is not empty.
pub open spec fn file_name_of(url: Seq<char>) -> Option<Seq<char>> {
    let name = url.skip(last_index_of(url, '/') + 1);
    if name.len() > 0 {
        Some(name)
    } else {
        None
    }
}

/// The name of the file that an address ends in.
pub fn extract_filename(url: &str) -> (r: Option<String>)
    ensures
        opt_text(r) == file_name_of(url@),
{
    let u = to_chars(url);
    let start = match rfind_char(u.as_slice(), '/') {
        Some(i) => i + 1,
        None => 0,
    };
    let name = substring(u.as_slice(), start, u.len());
    assert(name@ =~= url@.skip(start as int));
    if name.as_str().is_empty() {
        None
    } else {
        Some(name)
    }
}

/// Where a download is written: to `output` if it is given and names a
/// file; into the directory `output` if it ends in a slash; else to a file
/// named like the one that the address ends in. Where the address names no
/// file, `fallback` names it.
pub open spec fn output_path_of(
    url: Seq<char>,
    output: Option<Seq<char>>,
    fallback: Seq<char>,
) -> Seq<char> {
    let name = match file_name_of(url) {
        Some(n) => n,
        None => fallback,
    };
    match output {
        None => name,
        Some(out) => if out.len() > 0 && out.last() == '/' {
            join_path(out.take(out.len() - trailing_slashes(out)), name)
        } else {
            out
        },
    }
}

/// The number of slashes at the end of a text.
pub open spec fn trailing_slashes(s: Seq<char>) -> int
    decreases s.len(),
{
    if s.len() == 0 || s.last() != '/' {
        0
    } else {
        1 + trailing_slashes(s.drop_last())
    }
}

proof fn lemma_trailing_slashes(s: Seq<char>, n: int)
    requires
        0 <= n <= s.len(),
        forall|j: int| s.len() - n <= j < s.len() ==> s[j] == '/',
        n < s.len() ==> s[s.len() - n - 1] != '/',
    ensures
        trailing_slashes(s) == n,
    decreases s.len(),
{
    if n > 0 {
        let t = s.drop_last();
        assert forall|j: int| t.len() - (n - 1) <= j < t.len() implies t[j] == '/' by {
            assert(t[j] == s[j]);
        }
        lemma_trailing_slashes(t, n - 1);
    }
}

/// The path that a download from `url` is written to, and the path that it
/// is written to while it is not complete: the same with `.tmp` added.
pub fn output_path(url: &str, output: Option<&str>, fallback: &str) -> (r: (String, String))
    ensures
        r.0@ == output_path_of(url@, crate::appimage::opt_str(output), fallback@),
        r.1@ == r.0@ + ".tmp"@,
{
    let name = match extract_filename(url) {
        Some(n) => n,
        None => fallback.to_owned(),
    };
    let path = match output {
        None => name,
        Some(out) => {
            let o = to_chars(out);
            if o.len() > 0 && o[o.len() - 1] == '/' {
                let mut end: usize = o.len();
                while end > 0 && o[end - 1] == '/'
                    invariant
                        end <= o.len(),
                        forall|j: int| end <= j < o.len() ==> o@[j] == '/',
                    decreases end,
                {
                    end -= 1;
                }
                proof {
                    lemma_trailing_slashes(o@, o.len() - end);
                }
                let dir = substring(o.as_slice(), 0, end);
                assert(dir@ =~= out@.take(out@.len() - trailing_slashes(out@)));
                path_join(dir.as_str(), name.as_str())
            } else {
                out.to_owned()
            }
        },
    };
    let mut temp = path.clone();
    temp.append(".tmp");
    (path, temp)
}

} // verus!
