//! Configuration, the environment it is read in, and the canonical paths
//! that everything else works below.

use crate::package::{join_path, opt_text, path_join};
use crate::text::{alphanumeric, is_alphanumeric, str_eq, to_chars};
use vstd::prelude::*;
use vstd::string::*;

verus! {

/// One variable of the environment.
#[derive(Debug, PartialEq, Eq)]
pub struct EnvVar {
    pub name: String,
    pub value: String,
}

/// Mathematical model of an [`EnvVar`].
pub struct EnvVarView {
    pub name: Seq<char>,
    pub value: Seq<char>,
}

impl View for EnvVar {
    type V = EnvVarView;

    open spec fn view(&self) -> EnvVarView {
        EnvVarView { name: self.name@, value: self.value@ }
    }
}

impl DeepView for EnvVar {
    type V = EnvVarView;

    open spec fn deep_view(&self) -> EnvVarView {
        self@
    }
}

/// The environment variables of the process, as the caller read them.
#[derive(Debug, PartialEq, Eq)]
pub struct Environment {
    pub vars: Vec<EnvVar>,
}

impl View for Environment {
    type V = Seq<EnvVarView>;

    open spec fn view(&self) -> Seq<EnvVarView> {
        self.vars.deep_view()
    }
}

/// The value of the first variable named `name`.
pub open spec fn lookup(env: Seq<EnvVarView>, name: Seq<char>) -> Option<Seq<char>>
    decreases env.len(),
{
    if env.len() == 0 {
        None
    } else if env[0].name == name {
        Some(env[0].value)
    } else {
        lookup(env.drop_first(), name)
    }
}

proof fn lemma_lookup(env: Seq<EnvVarView>, name: Seq<char>, i: int)
    requires
        0 <= i <= env.len(),
        forall|j: int| 0 <= j < i ==> env[j].name != name,
        i < env.len() ==> env[i].name == name,
    ensures
        lookup(env, name) == if i < env.len() {
            Some(env[i].value)
        } else {
            None
        },
    decreases env.len(),
{
    if env.len() > 0 && env[0].name != name {
        let t = env.drop_first();
        assert forall|j: int| 0 <= j < i - 1 implies t[j].name != name by {
            assert(t[j] == env[j + 1]);
        }
        lemma_lookup(t, name, i - 1);
    }
}

impl Environment {
    /// The value of the variable `name`, if it is set.
    pub fn get(&self, name: &str) -> (r: Option<&str>)
        ensures
            match r {
                Some(v) => lookup(self@, name@) == Some(v@),
                None => lookup(self@, name@) is None,
            },
    {
        let mut i: usize = 0;
        while i < self.vars.len()
            invariant
                i <= self.vars.len(),
                self@.len() == self.vars.len(),
                forall|j: int| 0 <= j < i ==> self@[j].name != name@,
            decreases self.vars.len() - i,
        {
            proof {
                crate::seqs::lemma_deep_view_index(self.vars);
            }
            if str_eq(self.vars[i].name.as_str(), name) {
                proof {
                    lemma_lookup(self@, name@, i as int);
                }
                return Some(self.vars[i].value.as_str());
            }
            i += 1;
        }
        proof {
            lemma_lookup(self@, name@, i as int);
        }
        None
    }
}

/// Why a path could not be built.
#[derive(Debug, PartialEq, Eq)]
pub enum PathError {
    /// The path names an environment variable that is not set.
    MissingVariable(String),
}

/// Whether `c` can stand in the name of a variable.
pub open spec fn is_name_char(c: char) -> bool {
    is_alphanumeric(c) || c == '_'
}

/// The characters of `path`, each with the mark of whether it can stand in
/// the name of a variable.
pub open spec fn marked(path: Seq<char>) -> Seq<(char, bool)> {
    Seq::new(path.len(), |i: int| (path[i], is_name_char(path[i])))
}

/// The characters of a marked text.
pub open spec fn letters(s: Seq<(char, bool)>) -> Seq<char> {
    Seq::new(s.len(), |i: int| s[i].0)
}

/// The length of the longest run of name characters at the start of `s`.
pub open spec fn name_length(s: Seq<(char, bool)>) -> int
    decreases s.len(),
{
    if s.len() == 0 || !s[0].1 {
        0
    } else {
        1 + name_length(s.drop_first())
    }
}

/// The home directory that a leading `~` stands for: `HOME`, else
/// `USERPROFILE`, else the tilde itself.
pub open spec fn tilde_value(env: Seq<EnvVarView>) -> Seq<char> {
    match lookup(env, "HOME"@) {
        Some(home) => home,
        None => match lookup(env, "USERPROFILE"@) {
            Some(profile) => profile,
            None => seq!['~'],
        },
    }
}

/// The expansion of a marked `path`, read from its beginning, appended to
/// what was built so far. `Err` carries the name of a variable that is not
/// set.
///
/// A `$` followed by name characters is replaced by the value of the
/// variable of that name; a `$` not followed by any is kept. A `~` is
/// replaced by the home directory if nothing was built before it.
/// Everything else is kept.
pub open spec fn expand_marked(
    path: Seq<(char, bool)>,
    env: Seq<EnvVarView>,
    built: Seq<char>,
) -> Result<Seq<char>, Seq<char>>
    decreases path.len(),
{
    if path.len() == 0 {
        Ok(built)
    } else if path[0].0 == '$' {
        let rest = path.drop_first();
        let n = name_length(rest);
        if 0 < n <= rest.len() {
            match lookup(env, letters(rest.take(n))) {
                Some(value) => expand_marked(rest.skip(n), env, built + value),
                None => Err(letters(rest.take(n))),
            }
        } else {
            expand_marked(rest, env, built.push('$'))
        }
    } else if path[0].0 == '~' && built.len() == 0 {
        expand_marked(path.drop_first(), env, built + tilde_value(env))
    } else {
        expand_marked(path.drop_first(), env, built.push(path[0].0))
    }
}

/// The expansion of `path`, where the name of a variable is made of
/// letters, digits and underscores.
pub open spec fn expand(path: Seq<char>, env: Seq<EnvVarView>, built: Seq<char>) -> Result<
    Seq<char>,
    Seq<char>,
> {
    expand_marked(marked(path), env, built)
}

proof fn lemma_name_length(s: Seq<(char, bool)>, n: int)
    requires
        0 <= n <= s.len(),
        forall|j: int| 0 <= j < n ==> s[j].1,
        n < s.len() ==> !s[n].1,
    ensures
        name_length(s) == n,
    decreases s.len(),
{
    if n > 0 {
        let t = s.drop_first();
        assert forall|j: int| 0 <= j < n - 1 implies t[j].1 by {
            assert(t[j] == s[j + 1]);
        }
        lemma_name_length(t, n - 1);
    }
}

/// Expands environment variables and a leading `~` in a path whose
/// characters are marked: a variable's name is the run of marked characters
/// behind a `$`. A variable that is not set is an error.
pub fn build_marked_path(path: &[(char, bool)], env: &Environment) -> (r: Result<
    String,
    PathError,
>)
    ensures
        match r {
            Ok(built) => expand_marked(path@, env@, Seq::empty()) == Ok::<Seq<char>, Seq<char>>(
                built@,
            ),
            Err(PathError::MissingVariable(name)) => expand_marked(path@, env@, Seq::empty())
                == Err::<Seq<char>, Seq<char>>(name@),
        },
{
    let mut built = String::new();
    let mut i: usize = 0;
    assert(path@.skip(0) =~= path@);
    while i < path.len()
        invariant
            i <= path.len(),
            expand_marked(path@, env@, Seq::empty()) == expand_marked(
                path@.skip(i as int),
                env@,
                built@,
            ),
        decreases path.len() - i,
    {
        let c = path[i].0;
        let ghost here = path@.skip(i as int);
        assert(here[0] == path@[i as int]);
        assert(here.drop_first() =~= path@.skip(i + 1));
        if c == '$' {
            let start = i + 1;
            let ghost rest = path@.skip(start as int);
            let mut name = String::new();
            let mut end = start;
            while end < path.len() && path[end].1
                invariant
                    start <= end <= path.len(),
                    rest == path@.skip(start as int),
                    forall|j: int| start <= j < end ==> path@[j].1,
                    name@ == letters(rest.take(end - start)),
                decreases path.len() - end,
            {
                name.push(path[end].0);
                assert(letters(rest.take(end + 1 - start)) =~= letters(
                    rest.take(end - start),
                ).push(path@[end as int].0));
                end += 1;
            }
            proof {
                assert forall|j: int| 0 <= j < end - start implies rest[j].1 by {
                    assert(rest[j] == path@[start + j]);
                }
                lemma_name_length(rest, end - start);
            }
            if end == start {
                built.push('$');
                i = start;
            } else {
                assert(rest.skip(end - start) =~= path@.skip(end as int));
                match env.get(name.as_str()) {
                    Some(value) => {
                        built.append(value);
                        i = end;
                    },
                    None => {
                        return Err(PathError::MissingVariable(name));
                    },
                }
            }
        } else if c == '~' && built.as_str().is_empty() {
            let home = match env.get("HOME") {
                Some(h) => Some(h),
                None => env.get("USERPROFILE"),
            };
            match home {
                Some(h) => built.append(h),
                None => {
                    built.push('~');
                    assert(built@ =~= Seq::<char>::empty() + seq!['~']);
                },
            }
            i += 1;
        } else {
            built.push(c);
            i += 1;
        }
    }
    assert(path@.skip(path.len() as int) =~= Seq::<(char, bool)>::empty());
    Ok(built)
}

/// Expands environment variables and a leading `~` in `path`. The name of
/// a variable is made of letters, digits and underscores. A variable that
/// is not set is an error.
pub fn build_path(path: &str, env: &Environment) -> (r: Result<String, PathError>)
    ensures
        match r {
            Ok(built) => expand(path@, env@, Seq::empty()) == Ok::<Seq<char>, Seq<char>>(built@),
            Err(PathError::MissingVariable(name)) => expand(path@, env@, Seq::empty()) == Err::<
                Seq<char>,
                Seq<char>,
            >(name@),
        },
{
    let p = to_chars(path);
    let mut marks: Vec<(char, bool)> = Vec::new();
    let mut i: usize = 0;
    while i < p.len()
        invariant
            i <= p.len(),
            p@ == path@,
            marks@ == marked(path@).take(i as int),
        decreases p.len() - i,
    {
        let c = p[i];
        let in_name = alphanumeric(c) || c == '_';
        marks.push((c, in_name));
        assert(marked(path@).take(i + 1) =~= marked(path@).take(i as int).push((c, in_name)));
        i += 1;
    }
    assert(marked(path@).take(p.len() as int) =~= marked(path@));
    build_marked_path(marks.as_slice(), env)
}

/// The home directory: `HOME`, else `/home/` and the name of the user, taken
/// from `USER`, else from `LOGNAME`, else from `fallback_user`.
pub open spec fn home_dir(env: Seq<EnvVarView>, fallback_user: Option<Seq<char>>) -> Option<
    Seq<char>,
> {
    match lookup(env, "HOME"@) {
        Some(home) => Some(home),
        None => {
            let user = match lookup(env, "USER"@) {
                Some(u) => Some(u),
                None => match lookup(env, "LOGNAME"@) {
                    Some(u) => Some(u),
                    None => fallback_user,
                },
            };
            match user {
                Some(u) => Some("/home/"@ + u),
                None => None,
            }
        },
    }
}

/// The directory that the variable `variable` names, else `suffix` below
/// the home directory.
pub open spec fn xdg_dir(
    env: Seq<EnvVarView>,
    fallback_user: Option<Seq<char>>,
    variable: Seq<char>,
    suffix: Seq<char>,
) -> Option<Seq<char>> {
    match lookup(env, variable) {
        Some(dir) => Some(dir),
        None => match home_dir(env, fallback_user) {
            Some(home) => Some(home + suffix),
            None => None,
        },
    }
}

/// The home directory of the user. `fallback_user` is the name of the user
/// as the system knows it, for an environment that names neither the home
/// directory nor the user. `None` when nothing tells the home directory.
pub fn home_path(env: &Environment, fallback_user: Option<&str>) -> (r: Option<String>)
    ensures
        opt_text(r) == home_dir(
            env@,
            match fallback_user {
                Some(t) => Some(t@),
                None => None,
            },
        ),
{
    match env.get("HOME") {
        Some(home) => Some(home.to_owned()),
        None => {
            let user = match env.get("USER") {
                Some(u) => Some(u),
                None => match env.get("LOGNAME") {
                    Some(u) => Some(u),
                    None => fallback_user,
                },
            };
            match user {
                Some(u) => {
                    let mut home = "/home/".to_owned();
                    home.append(u);
                    Some(home)
                },
                None => None,
            }
        },
    }
}

fn xdg_path(env: &Environment, fallback_user: Option<&str>, variable: &str, suffix: &str) -> (r:
    Option<String>)
    ensures
        opt_text(r) == xdg_dir(
            env@,
            match fallback_user {
                Some(t) => Some(t@),
                None => None,
            },
            variable@,
            suffix@,
        ),
{
    match env.get(variable) {
        Some(dir) => Some(dir.to_owned()),
        None => match home_path(env, fallback_user) {
            Some(mut home) => {
                home.append(suffix);
                Some(home)
            },
            None => None,
        },
    }
}

/// The directory for configuration files: `XDG_CONFIG_HOME`, else `.config`
/// below the home directory.
pub fn home_config_path(env: &Environment, fallback_user: Option<&str>) -> (r: Option<String>)
    ensures
        opt_text(r) == xdg_dir(
            env@,
            match fallback_user {
                Some(t) => Some(t@),
                None => None,
            },
            "XDG_CONFIG_HOME"@,
            "/.config"@,
        ),
{
    xdg_path(env, fallback_user, "XDG_CONFIG_HOME", "/.config")
}

/// The directory for caches: `XDG_CACHE_HOME`, else `.cache` below the home
/// directory.
pub fn home_cache_path(env: &Environment, fallback_user: Option<&str>) -> (r: Option<String>)
    ensures
        opt_text(r) == xdg_dir(
            env@,
            match fallback_user {
                Some(t) => Some(t@),
                None => None,
            },
            "XDG_CACHE_HOME"@,
            "/.cache"@,
        ),
{
    xdg_path(env, fallback_user, "XDG_CACHE_HOME", "/.cache")
}

/// The directory for application data: `XDG_DATA_HOME`, else `.local/share`
/// below the home directory.
pub fn home_data_path(env: &Environment, fallback_user: Option<&str>) -> (r: Option<String>)
    ensures
        opt_text(r) == xdg_dir(
            env@,
            match fallback_user {
                Some(t) => Some(t@),
                None => None,
            },
            "XDG_DATA_HOME"@,
            "/.local/share"@,
        ),
{
    xdg_path(env, fallback_user, "XDG_DATA_HOME", "/.local/share")
}

/// Where the packages of one collection are downloaded from.
#[derive(Debug, PartialEq, Eq)]
pub struct Source {
    pub collection: String,
    pub url: String,
}

/// Mathematical model of a [`Source`].
pub struct SourceView {
    pub collection: Seq<char>,
    pub url: Seq<char>,
}

impl View for Source {
    type V = SourceView;

    open spec fn view(&self) -> SourceView {
        SourceView { collection: self.collection@, url: self.url@ }
    }
}

impl DeepView for Source {
    type V = SourceView;

    open spec fn deep_view(&self) -> SourceView {
        self@
    }
}

/// A configured repository.
#[derive(Debug, PartialEq, Eq)]
pub struct Repository {
    /// Name of the repository.
    pub name: String,
    /// Base address of its metadata and assets.
    pub url: String,
    /// Name of its metadata file, where it is not `metadata.json`.
    pub metadata: Option<String>,
    /// Download sources of its collections.
    pub sources: Vec<Source>,
}

/// Mathematical model of a [`Repository`].
pub struct RepositoryConfigView {
    pub name: Seq<char>,
    pub url: Seq<char>,
    pub metadata: Option<Seq<char>>,
    pub sources: Seq<SourceView>,
}

impl View for Repository {
    type V = RepositoryConfigView;

    open spec fn view(&self) -> RepositoryConfigView {
        RepositoryConfigView {
            name: self.name@,
            url: self.url@,
            metadata: opt_text(self.metadata),
            sources: self.sources.deep_view(),
        }
    }
}

impl DeepView for Repository {
    type V = RepositoryConfigView;

    open spec fn deep_view(&self) -> RepositoryConfigView {
        self@
    }
}

impl Repository {
    /// The file below `registry_path` that caches this repository's catalog.
    pub fn get_path(&self, registry_path: &str) -> (r: String)
        ensures
            r@ == join_path(registry_path@, self@.name),
    {
        path_join(registry_path, self.name.as_str())
    }
}

/// The settings of the program.
#[derive(Debug, PartialEq, Eq)]
pub struct Config {
    /// Directory that holds all state.
    pub soar_root: String,
    /// Directory of the run cache.
    pub soar_cache: String,
    /// Directory of the links to installed binaries.
    pub soar_bin: String,
    /// The repositories to fetch packages from.
    pub repositories: Vec<Repository>,
    /// Whether packages are installed in parallel.
    pub parallel: Option<bool>,
    /// The number of installations that may run at a time.
    pub parallel_limit: Option<u32>,
    /// The number of search results to show.
    pub search_limit: Option<usize>,
}

/// Mathematical model of a [`Config`].
pub struct ConfigView {
    pub soar_root: Seq<char>,
    pub soar_cache: Seq<char>,
    pub soar_bin: Seq<char>,
    pub repositories: Seq<RepositoryConfigView>,
    pub parallel: Option<bool>,
    pub parallel_limit: Option<u32>,
    pub search_limit: Option<usize>,
}

impl View for Config {
    type V = ConfigView;

    open spec fn view(&self) -> ConfigView {
        ConfigView {
            soar_root: self.soar_root@,
            soar_cache: self.soar_cache@,
            soar_bin: self.soar_bin@,
            repositories: self.repositories.deep_view(),
            parallel: self.parallel,
            parallel_limit: self.parallel_limit,
            search_limit: self.search_limit,
        }
    }
}

/// The value of the variable `variable`, else `base` followed by `suffix`.
pub open spec fn overridden(
    env: Seq<EnvVarView>,
    variable: Seq<char>,
    base: Seq<char>,
    suffix: Seq<char>,
) -> Seq<char> {
    match lookup(env, variable) {
        Some(v) => v,
        None => base + suffix,
    }
}

/// The default repository for the architecture `arch`.
pub open spec fn default_repository(arch: Seq<char>) -> RepositoryConfigView {
    RepositoryConfigView {
        name: "pkgforge"@,
        url: "https://bin.pkgforge.dev/"@ + arch,
        metadata: Some("METADATA.AIO.json"@),
        sources: seq![
            SourceView { collection: "bin"@, url: "https://bin.pkgforge.dev/"@ + arch },
            SourceView {
                collection: "base"@,
                url: "https://bin.pkgforge.dev/"@ + arch + "/Baseutils"@,
            },
            SourceView { collection: "pkg"@, url: "https://pkg.pkgforge.dev/"@ + arch },
        ],
    }
}

/// The default settings for the architecture `arch` when the data directory
/// of the user is `data_home`: all state lives in `data_home/soar` unless
/// `SOAR_ROOT` says otherwise; `SOAR_BIN` and `SOAR_CACHE` override the
/// directories `bin` and `cache` below the root.
pub open spec fn default_config(
    arch: Seq<char>,
    env: Seq<EnvVarView>,
    data_home: Seq<char>,
) -> ConfigView {
    let root = overridden(env, "SOAR_ROOT"@, data_home, "/soar"@);
    ConfigView {
        soar_root: root,
        soar_bin: overridden(env, "SOAR_BIN"@, root, "/bin"@),
        soar_cache: overridden(env, "SOAR_CACHE"@, root, "/cache"@),
        repositories: seq![default_repository(arch)],
        parallel: Some(true),
        parallel_limit: Some(4),
        search_limit: Some(20),
    }
}

fn override_or(env: &Environment, variable: &str, base: &str, suffix: &str) -> (r: String)
    ensures
        r@ == overridden(env@, variable@, base@, suffix@),
{
    match env.get(variable) {
        Some(v) => v.to_owned(),
        None => {
            let mut r = base.to_owned();
            r.append(suffix);
            r
        },
    }
}

fn source(collection: &str, base: &str, arch: &str, suffix: &str) -> (r: Source)
    ensures
        r@ == (SourceView { collection: collection@, url: base@ + arch@ + suffix@ }),
{
    let mut url = base.to_owned();
    url.append(arch);
    url.append(suffix);
    Source { collection: collection.to_owned(), url }
}

impl Config {
    /// The settings that apply where no configuration file exists.
    pub fn with_defaults(arch: &str, env: &Environment, data_home: &str) -> (r: Self)
        ensures
            r@ == default_config(arch@, env@, data_home@),
    {
        let soar_root = override_or(env, "SOAR_ROOT", data_home, "/soar");
        let soar_bin = override_or(env, "SOAR_BIN", soar_root.as_str(), "/bin");
        let soar_cache = override_or(env, "SOAR_CACHE", soar_root.as_str(), "/cache");
        let mut url = "https://bin.pkgforge.dev/".to_owned();
        url.append(arch);
        let mut sources: Vec<Source> = Vec::new();
        let bin = source("bin", "https://bin.pkgforge.dev/", arch, "");
        let base = source("base", "https://bin.pkgforge.dev/", arch, "/Baseutils");
        let pkg = source("pkg", "https://pkg.pkgforge.dev/", arch, "");
        proof {
            reveal_strlit("");
            assert(bin@.url =~= "https://bin.pkgforge.dev/"@ + arch@);
            assert(pkg@.url =~= "https://pkg.pkgforge.dev/"@ + arch@);
        }
        sources.push(bin);
        sources.push(base);
        sources.push(pkg);
        let repository = Repository {
            name: "pkgforge".to_owned(),
            url,
            metadata: Some("METADATA.AIO.json".to_owned()),
            sources,
        };
        assert(repository@.sources =~= default_repository(arch@).sources);
        let mut repositories: Vec<Repository> = Vec::new();
        repositories.push(repository);
        let r = Config {
            soar_root,
            soar_cache,
            soar_bin,
            repositories,
            parallel: Some(true),
            parallel_limit: Some(4),
            search_limit: Some(20),
        };
        assert(r@.repositories =~= seq![default_repository(arch@)]);
        r
    }
}

/// The canonical directories.
#[derive(Debug, PartialEq, Eq)]
pub struct Paths {
    /// Base directory of all state.
    pub root: String,
    /// Links to installed binaries.
    pub bin: String,
    /// The run cache.
    pub cache: String,
    /// Cached catalogs.
    pub registry: String,
    /// The record of installations.
    pub installs: String,
    /// Installed artifacts.
    pub packages: String,
}

/// Mathematical model of [`Paths`].
pub struct PathsView {
    pub root: Seq<char>,
    pub bin: Seq<char>,
    pub cache: Seq<char>,
    pub registry: Seq<char>,
    pub installs: Seq<char>,
    pub packages: Seq<char>,
}

impl View for Paths {
    type V = PathsView;

    open spec fn view(&self) -> PathsView {
        PathsView {
            root: self.root@,
            bin: self.bin@,
            cache: self.cache@,
            registry: self.registry@,
            installs: self.installs@,
            packages: self.packages@,
        }
    }
}

/// The canonical directories of a configuration in an environment, or the
/// name of a variable that one of its paths names and that is not set. The
/// root is looked at first, then the cache, then the directory of links.
pub open spec fn canonical_paths(config: ConfigView, env: Seq<EnvVarView>) -> Result<
    PathsView,
    Seq<char>,
> {
    match expand(config.soar_root, env, Seq::empty()) {
        Err(name) => Err(name),
        Ok(root) => match expand(config.soar_cache, env, Seq::empty()) {
            Err(name) => Err(name),
            Ok(cache) => match expand(config.soar_bin, env, Seq::empty()) {
                Err(name) => Err(name),
                Ok(bin) => Ok(
                    PathsView {
                        root,
                        bin,
                        cache,
                        registry: join_path(root, "registry"@),
                        installs: join_path(root, "installs"@),
                        packages: join_path(root, "packages"@),
                    },
                ),
            },
        },
    }
}

impl Paths {
    /// The canonical directories of `config` in the environment `env`.
    pub fn new(config: &Config, env: &Environment) -> (r: Result<Paths, PathError>)
        ensures
            match r {
                Ok(paths) => canonical_paths(config@, env@) == Ok::<PathsView, Seq<char>>(paths@),
                Err(PathError::MissingVariable(name)) => canonical_paths(config@, env@) == Err::<
                    PathsView,
                    Seq<char>,
                >(name@),
            },
    {
        let root = match build_path(config.soar_root.as_str(), env) {
            Ok(p) => p,
            Err(e) => {
                return Err(e);
            },
        };
        let cache = match build_path(config.soar_cache.as_str(), env) {
            Ok(p) => p,
            Err(e) => {
                return Err(e);
            },
        };
        let bin = match build_path(config.soar_bin.as_str(), env) {
            Ok(p) => p,
            Err(e) => {
                return Err(e);
            },
        };
        let registry = path_join(root.as_str(), "registry");
        let installs = path_join(root.as_str(), "installs");
        let packages = path_join(root.as_str(), "packages");
        Ok(Paths { root, bin, cache, registry, installs, packages })
    }

    /// The directories that must exist before anything is installed: those
    /// of the links, the catalogs, the record and the artifacts, in this
    /// order.
    pub fn required(&self) -> (r: Vec<String>)
        ensures
            r.deep_view() == seq![self@.bin, self@.registry, self@.installs, self@.packages],
    {
        let mut r: Vec<String> = Vec::new();
        r.push(self.bin.clone());
        r.push(self.registry.clone());
        r.push(self.installs.clone());
        r.push(self.packages.clone());
        assert(r.deep_view() =~= seq![self@.bin, self@.registry, self@.installs, self@.packages]);
        r
    }
}

/// The settings and directories that a run of the program works with.
#[derive(Debug, PartialEq, Eq)]
pub struct Context {
    pub config: Config,
    pub paths: Paths,
}

/// Sets up the default configuration for the architecture `arch` and the
/// canonical directories that follow from it.
pub fn init(arch: &str, env: &Environment, data_home: &str) -> (r: Result<Context, PathError>)
    ensures
        match r {
            Ok(context) => context.config@ == default_config(arch@, env@, data_home@)
                && canonical_paths(context.config@, env@) == Ok::<PathsView, Seq<char>>(
                context.paths@,
            ),
            Err(PathError::MissingVariable(name)) => canonical_paths(
                default_config(arch@, env@, data_home@),
                env@,
            ) == Err::<PathsView, Seq<char>>(name@),
        },
{
    let config = Config::with_defaults(arch, env, data_home);
    match Paths::new(&config, env) {
        Ok(paths) => Ok(Context { config, paths }),
        Err(e) => Err(e),
    }
}

} // verus!
