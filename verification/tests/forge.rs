use soar_cli::forge::{
    choose_asset, extract_filename, next_api, output_path, releases_url, repository_from, select_release,
    should_fallback, split_keyword, ApiType, Asset, AssetChoice, AssetFilter, Forge, ForgeError,
    GithubAsset, GithubRelease, GitlabAsset, GitlabRelease, Link, LinkPatterns, Release,
};

fn strings(v: &[&str]) -> Vec<String> {
    v.iter().map(|s| s.to_string()).collect()
}

fn asset(name: &str) -> Asset {
    Asset { name: name.into(), url: format!("https://ex/{name}"), size: None }
}

fn release(tag: &str, unstable: bool) -> Release {
    Release { tag_name: tag.into(), unstable, assets: vec![] }
}

fn repository(forge: Forge, user_repo: &str, tag: Option<&str>) -> Link {
    Link::Repository { forge, user_repo: user_repo.into(), tag: tag.map(|t| t.to_string()) }
}

#[test]
fn links_to_forges() {
    let p = LinkPatterns::new().unwrap();
    assert_eq!(p.classify("github.com/pkgforge/soar"), repository(Forge::Github, "pkgforge/soar", None));
    assert_eq!(p.classify("https://github.com/pkgforge/soar"), repository(Forge::Github, "pkgforge/soar", None));
    assert_eq!(p.classify("HTTP://GitHub.com/a/b@v1.2"), repository(Forge::Github, "a/b", Some("v1.2")));
    assert_eq!(p.classify("github:a/b@nightly"), repository(Forge::Github, "a/b", Some("nightly")));
    assert_eq!(p.classify("github.com/a/b@"), repository(Forge::Github, "a/b", None));
    assert_eq!(p.classify("  gitlab.com/x/y  "), repository(Forge::Gitlab, "x/y", None));
    assert_eq!(p.classify("gitlab:x/y@1"), repository(Forge::Gitlab, "x/y", Some("1")));
}

#[test]
fn other_links() {
    let p = LinkPatterns::new().unwrap();
    assert_eq!(p.classify("https://example.org/file.tar.gz"), Link::Address);
    assert_eq!(p.classify("https://github.com/a/b/releases/download/v1/x"), Link::Address);
    assert_eq!(p.classify("ftp://host/file"), Link::Address);
    assert_eq!(p.classify("curl"), Link::PackageName);
    assert_eq!(p.classify("musl/curl#bin"), Link::PackageName);
    assert_eq!(p.classify(""), Link::PackageName);
    assert_eq!(p.classify("github.com/onlyuser"), Link::PackageName);
}

#[test]
fn groups_of_a_forge_link() {
    let groups = vec![Some("github.com/a/b@ t ".to_string()), Some("a/b".to_string()), Some(" t ".to_string())];
    assert_eq!(repository_from(Forge::Github, &groups), Some(repository(Forge::Github, "a/b", Some("t"))));
    let groups = vec![Some("x".to_string()), Some("a/b".to_string()), None];
    assert_eq!(repository_from(Forge::Gitlab, &groups), Some(repository(Forge::Gitlab, "a/b", None)));
    let groups = vec![Some("x".to_string()), Some("a/b".to_string())];
    assert_eq!(repository_from(Forge::Gitlab, &groups), Some(repository(Forge::Gitlab, "a/b", None)));
    assert_eq!(repository_from(Forge::Github, &vec![Some("x".to_string()), None, None]), None);
    assert_eq!(repository_from(Forge::Github, &vec![Some("x".to_string())]), None);
    assert_eq!(repository_from(Forge::Github, &vec![]), None);
}

#[test]
fn when_the_mirror_is_given_up() {
    for status in [429, 401, 403, 500, 502, 503, 599] {
        assert!(should_fallback(status), "{status}");
        assert_eq!(next_api(ApiType::PkgForge, status), Some(ApiType::Primary));
        assert_eq!(next_api(ApiType::Primary, status), None);
    }
    for status in [200, 204, 301, 400, 404, 499, 600] {
        assert!(!should_fallback(status), "{status}");
        assert_eq!(next_api(ApiType::PkgForge, status), None);
    }
}

#[test]
fn addresses_of_release_lists() {
    assert_eq!(
        releases_url(Forge::Github, ApiType::PkgForge, "pkgforge/soar"),
        "https://api.gh.pkgforge.dev/repos/pkgforge/soar/releases?per_page=100"
    );
    assert_eq!(
        releases_url(Forge::Github, ApiType::Primary, "pkgforge/soar"),
        "https://api.github.com/repos/pkgforge/soar/releases?per_page=100"
    );
    assert_eq!(
        releases_url(Forge::Gitlab, ApiType::PkgForge, "a/b"),
        "https://api.gl.pkgforge.dev/api/v4/projects/a%2Fb/releases"
    );
    assert_eq!(
        releases_url(Forge::Gitlab, ApiType::Primary, "group/sub/project"),
        "https://gitlab.com/api/v4/projects/group%2Fsub%2Fproject/releases"
    );
}

#[test]
fn releases_of_forges() {
    let gh = GithubRelease {
        name: "n".into(),
        tag_name: "v1".into(),
        draft: false,
        prerelease: true,
        published_at: "d".into(),
        assets: vec![GithubAsset { name: "a".into(), size: 7, browser_download_url: "u".into() }],
    };
    assert_eq!(
        gh.to_release(),
        Release { tag_name: "v1".into(), unstable: true, assets: vec![Asset { name: "a".into(), url: "u".into(), size: Some(7) }] }
    );
    let draft = GithubRelease {
        name: "n".into(),
        tag_name: "v1".into(),
        draft: true,
        prerelease: false,
        published_at: "d".into(),
        assets: vec![],
    };
    assert!(draft.to_release().unstable);
    let stable = GithubRelease { draft: false, ..draft };
    assert!(!stable.to_release().unstable);
    let gl = GitlabRelease {
        tag_name: "v2".into(),
        upcoming_release: false,
        released_at: "d".into(),
        assets: vec![GitlabAsset { name: "a".into(), direct_asset_url: "u".into() }],
    };
    assert_eq!(
        gl.to_release(),
        Release { tag_name: "v2".into(), unstable: false, assets: vec![Asset { name: "a".into(), url: "u".into(), size: None }] }
    );
}

#[test]
fn the_release_that_is_meant() {
    let releases = vec![release("nightly-3", true), release("v2.0", false), release("v1.9", false), release("v2.1-rc", true)];
    assert_eq!(select_release(&releases, None), Some(1));
    assert_eq!(select_release(&releases, Some("v1")), Some(2));
    assert_eq!(select_release(&releases, Some("v2")), Some(1));
    assert_eq!(select_release(&releases, Some("v2.1")), Some(3));
    assert_eq!(select_release(&releases, Some("nightly")), Some(0));
    assert_eq!(select_release(&releases, Some("")), Some(0));
    assert_eq!(select_release(&releases, Some("v3")), None);
    assert_eq!(select_release(&vec![release("x", true)], None), None);
    assert_eq!(select_release(&vec![], None), None);
}

#[test]
fn words_of_keywords() {
    assert_eq!(split_keyword("linux, x86_64 ,,musl"), strings(&["linux", "x86_64", "musl"]));
    assert_eq!(split_keyword("linux"), strings(&["linux"]));
    assert_eq!(split_keyword(""), Vec::<String>::new());
    assert_eq!(split_keyword(" , ,"), Vec::<String>::new());
    assert_eq!(split_keyword("a b,c"), strings(&["a b", "c"]));
    assert_eq!(split_keyword(",a,"), strings(&["a"]));
}

#[test]
fn assets_are_filtered_by_keywords() {
    let f = AssetFilter::new(&vec![], strings(&["linux,x86_64"]), strings(&["debug", "sha256, sig"])).ok().unwrap();
    assert!(f.admits("tool-Linux-x86_64.tar.gz"));
    assert!(!f.admits("tool-linux-aarch64.tar.gz"));
    assert!(!f.admits("tool-linux-x86_64-DEBUG.tar.gz"));
    assert!(!f.admits("tool-linux-x86_64.tar.gz.sha256"));
    assert!(!f.admits("tool-linux-x86_64.SIG"));
    let all = AssetFilter::new(&vec![], vec![], vec![]).ok().unwrap();
    assert!(all.admits("anything"));
    assert!(all.admits(""));
}

#[test]
fn assets_are_filtered_by_expressions() {
    let f = AssetFilter::new(&strings(&[r"\.tar\.gz$", "^tool"]), vec![], vec![]).ok().unwrap();
    assert!(f.admits("tool-1.tar.gz"));
    assert!(!f.admits("tool-1.zip"));
    assert!(!f.admits("other-1.tar.gz"));
    let assets = vec![asset("tool-1.zip"), asset("tool-1.tar.gz"), asset("x"), asset("tool-2.tar.gz")];
    assert_eq!(f.select(&assets), vec![1, 3]);
    assert_eq!(f.select(&vec![]), Vec::<usize>::new());
}

#[test]
fn an_expression_that_does_not_compile_is_reported() {
    let r = AssetFilter::new(&strings(&["ok", "(", "["]), vec![], vec![]);
    assert_eq!(r.err(), Some(ForgeError::BadPattern(1)));
    let r = AssetFilter::new(&strings(&["*"]), vec![], vec![]);
    assert_eq!(r.err(), Some(ForgeError::BadPattern(0)));
}

#[test]
fn which_asset_is_taken() {
    assert_eq!(choose_asset(&vec![], false), AssetChoice::Nothing);
    assert_eq!(choose_asset(&vec![], true), AssetChoice::Nothing);
    assert_eq!(choose_asset(&vec![4], false), AssetChoice::Take(4));
    assert_eq!(choose_asset(&vec![4, 7], true), AssetChoice::Take(4));
    assert_eq!(choose_asset(&vec![4, 7], false), AssetChoice::Ask);
}

#[test]
fn file_names_of_addresses() {
    assert_eq!(extract_filename("https://ex/a/b/tool.tar.gz"), Some("tool.tar.gz".to_string()));
    assert_eq!(extract_filename("tool"), Some("tool".to_string()));
    assert_eq!(extract_filename("https://ex/a/"), None);
    assert_eq!(extract_filename(""), None);
    assert_eq!(extract_filename("/"), None);
}

#[test]
fn where_a_download_is_written() {
    assert_eq!(output_path("https://ex/tool", None, "f"), ("tool".to_string(), "tool.tmp".to_string()));
    assert_eq!(output_path("https://ex/tool", Some("out/bin"), "f"), ("out/bin".to_string(), "out/bin.tmp".to_string()));
    assert_eq!(output_path("https://ex/tool", Some("out/"), "f"), ("out/tool".to_string(), "out/tool.tmp".to_string()));
    assert_eq!(output_path("https://ex/tool", Some("out///"), "f"), ("out/tool".to_string(), "out/tool.tmp".to_string()));
    assert_eq!(output_path("https://ex/tool", Some("/"), "f"), ("/tool".to_string(), "/tool.tmp".to_string()));
    assert_eq!(output_path("https://ex/", None, "1700000000"), ("1700000000".to_string(), "1700000000.tmp".to_string()));
    assert_eq!(output_path("https://ex/", Some("d/"), "17"), ("d/17".to_string(), "d/17.tmp".to_string()));
    assert_eq!(output_path("https://ex/tool", Some(""), "f"), ("".to_string(), ".tmp".to_string()));
}
