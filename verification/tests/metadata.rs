use soar_cli::config::{Repository, Source};
use soar_cli::metadata::{
    derive_family, reserved_segments, LoadPlan, MetadataError, MetadataFetcher, MetadataLoader,
    PublishedCollection,
};
use soar_cli::package::{parse_package_query, Package};
use soar_cli::storage::{PackageGroup, PackageStorage};

fn reserved() -> Vec<String> {
    vec!["x86_64".to_string(), "x86_64-Linux".to_string()]
}

fn published(name: &str, url: &str) -> Package {
    let mut p = Package::default();
    p.pkg = name.to_string();
    p.pkg_name = name.to_string();
    p.download_url = url.to_string();
    p
}

fn repo(metadata: Option<&str>) -> Repository {
    Repository {
        name: "main".into(),
        url: "https://ex.org/repo".into(),
        metadata: metadata.map(|m| m.to_string()),
        sources: vec![Source { collection: "bin".into(), url: "https://bin.ex.org/x86_64".into() }],
    }
}

#[test]
fn the_family_is_the_second_to_last_segment() {
    assert_eq!(derive_family("https://ex/x86_64/glibc/curl", &reserved()), Some("glibc".into()));
    assert_eq!(derive_family("https://ex/x86_64/musl/curl", &reserved()), Some("musl".into()));
    assert_eq!(derive_family("a/b", &reserved()), Some("a".into()));
    assert_eq!(derive_family("https://ex//hello", &reserved()), Some("".into()));
}

#[test]
fn the_architecture_is_no_family() {
    assert_eq!(derive_family("https://ex/x86_64/hello", &reserved()), None);
    assert_eq!(derive_family("https://ex/x86_64-Linux/hello", &reserved()), None);
    assert_eq!(derive_family("https://ex/x86_64/hello", &vec![]), Some("x86_64".into()));
}

#[test]
fn an_address_without_two_segments_has_no_family() {
    assert_eq!(derive_family("hello", &reserved()), None);
    assert_eq!(derive_family("", &reserved()), None);
    assert_eq!(derive_family("/hello", &reserved()), Some("".into()));
}

#[test]
fn grouping_keeps_first_appearance_order() {
    let f = MetadataFetcher::new();
    let list = vec![
        published("curl", "https://ex/x86_64/glibc/curl"),
        published("wget", "https://ex/x86_64/wget"),
        published("Curl", "https://ex/x86_64/musl/curl"),
        published("abc", "https://ex/x86_64/abc"),
    ];
    let groups = f.group(&list, &reserved());
    let names: Vec<&str> = groups.iter().map(|g| g.name.as_str()).collect();
    assert_eq!(names, vec!["curl", "wget", "abc"]);
    let families: Vec<Option<&str>> = groups[0].packages.iter().map(|p| p.family.as_deref()).collect();
    assert_eq!(families, vec![Some("glibc"), Some("musl")]);
    assert_eq!(groups[0].packages[1].pkg, "curl");
    assert_eq!(groups[0].packages[1].download_url, "https://ex/x86_64/musl/curl");
    assert_eq!(groups[1].packages[0].family, None);
}

#[test]
fn the_family_does_not_depend_on_the_order_of_the_catalog() {
    let f = MetadataFetcher::new();
    let a = published("curl", "https://ex/x86_64/glibc/curl");
    let b = published("curl", "https://ex/x86_64/musl/curl");
    let c = published("hello", "https://ex/x86_64/hello");
    let family = |groups: &[PackageGroup], url: &str| -> Option<String> {
        groups.iter().flat_map(|g| g.packages.iter()).find(|p| p.download_url == url).unwrap().family.clone()
    };
    let orders = [
        vec![a.clone(), b.clone(), c.clone()],
        vec![c.clone(), b.clone(), a.clone()],
        vec![b.clone(), c.clone(), a.clone()],
    ];
    for order in orders {
        let groups = f.group(&order, &reserved());
        assert_eq!(family(&groups, &a.download_url), Some("glibc".to_string()));
        assert_eq!(family(&groups, &b.download_url), Some("musl".to_string()));
        assert_eq!(family(&groups, &c.download_url), None);
    }
}

#[test]
fn a_published_document_becomes_a_catalog() {
    let f = MetadataFetcher::new();
    let doc = vec![
        PublishedCollection {
            name: "bin".into(),
            packages: vec![
                published("curl", "https://ex/x86_64/glibc/curl"),
                published("curl", "https://ex/x86_64/musl/curl"),
            ],
        },
        PublishedCollection { name: "pkg".into(), packages: vec![published("HELLO", "https://ex/x86_64/hello")] },
        PublishedCollection { name: "base".into(), packages: vec![] },
    ];
    let catalog = f.normalize(&doc, &reserved());
    assert_eq!(catalog.collection.len(), 3);
    assert_eq!(catalog.collection[0].name, "bin");
    assert_eq!(catalog.collection[1].name, "pkg");
    assert_eq!(catalog.collection[2].name, "base");
    assert!(catalog.collection[2].groups.is_empty());
    let mut store = PackageStorage::new();
    store.add_repository("main", catalog);
    assert_eq!(store.get_packages(&parse_package_query("curl")).unwrap().len(), 2);
    assert_eq!(store.get_packages(&parse_package_query("glibc/curl")).unwrap().len(), 1);
    let hello = store.get_packages(&parse_package_query("Hello#pkg")).unwrap();
    assert_eq!(hello[0].package.pkg, "hello");
    assert_eq!(hello[0].package.family, None);
}

#[test]
fn metadata_addresses() {
    let f = MetadataFetcher::new();
    assert_eq!(f.metadata_url(&repo(None)), "https://ex.org/repo/metadata.json");
    assert_eq!(f.metadata_url(&repo(Some("METADATA.AIO.json"))), "https://ex.org/repo/METADATA.AIO.json");
    assert_eq!(f.checksum_url(&repo(None)), "https://ex.org/repo/metadata.json.bsum");
    assert_eq!(f.checksum_url(&repo(Some("m.json"))), "https://ex.org/repo/m.json.bsum");
}

#[test]
fn icon_addresses_and_paths() {
    let f = MetadataFetcher::new();
    let r = repo(None);
    assert_eq!(f.icon_url(&r.sources[0]), "https://bin.ex.org/x86_64/bin.default.png");
    assert_eq!(f.icon_path("/root/registry", "main", "bin"), "/root/registry/icons/main-bin.png");
    assert_eq!(f.checksum_path("/root/registry", "main"), "/root/registry/main.remote.bsum");
}

#[test]
fn an_empty_metadata_response_is_an_error() {
    let f = MetadataFetcher::new();
    assert_eq!(f.accept_body(&[]), Err(MetadataError::Empty));
    assert_eq!(f.accept_body(b"{}"), Ok(()));
    assert_eq!(f.accept_body(b" "), Ok(()));
}

#[test]
fn a_missing_cache_is_fetched() {
    let l = MetadataLoader::new();
    assert_eq!(l.plan(false, Some(b"abc"), None), LoadPlan::Fetch { note_checksum: true });
    assert_eq!(l.plan(false, None, None), LoadPlan::Fetch { note_checksum: false });
    assert_eq!(l.plan(false, Some(b"abc"), Some(b"abc")), LoadPlan::Fetch { note_checksum: true });
}

#[test]
fn a_current_cache_is_used() {
    let l = MetadataLoader::new();
    assert_eq!(l.plan(true, Some(b"abc"), Some(b"abc")), LoadPlan::UseCache);
    assert_eq!(l.plan(true, None, Some(b"abc")), LoadPlan::UseCache);
    assert_eq!(l.plan(true, None, None), LoadPlan::UseCache);
    assert_eq!(l.plan(true, Some(b""), None), LoadPlan::UseCache);
}

#[test]
fn an_outdated_cache_is_fetched_again() {
    let l = MetadataLoader::new();
    assert_eq!(l.plan(true, Some(b"abd"), Some(b"abc")), LoadPlan::Fetch { note_checksum: true });
    assert_eq!(l.plan(true, Some(b"abc"), None), LoadPlan::Fetch { note_checksum: true });
    assert_eq!(l.plan(true, Some(b"ab"), Some(b"abc")), LoadPlan::Fetch { note_checksum: true });
}

#[test]
fn a_corrupt_cache_is_fetched_once() {
    let l = MetadataLoader::new();
    assert_eq!(l.on_unreadable(false), Ok(LoadPlan::Fetch { note_checksum: false }));
    assert_eq!(l.on_unreadable(true), Err(MetadataError::Corrupt));
}

#[test]
fn a_collection_that_is_published_twice_counts_as_published_last() {
    let f = MetadataFetcher::new();
    let doc = vec![
        PublishedCollection { name: "bin".into(), packages: vec![published("old", "https://ex/x86_64/old")] },
        PublishedCollection { name: "pkg".into(), packages: vec![published("p", "https://ex/x86_64/p")] },
        PublishedCollection {
            name: "bin".into(),
            packages: vec![published("new", "https://ex/x86_64/new"), published("NEW", "https://ex/x86_64/f/new")],
        },
        PublishedCollection { name: "Bin".into(), packages: vec![] },
    ];
    let catalog = f.normalize(&doc, &reserved());
    let names: Vec<&str> = catalog.collection.iter().map(|c| c.name.as_str()).collect();
    assert_eq!(names, vec!["bin", "pkg", "Bin"]);
    let groups: Vec<&str> = catalog.collection[0].groups.iter().map(|g| g.name.as_str()).collect();
    assert_eq!(groups, vec!["new"]);
    assert_eq!(catalog.collection[0].groups[0].packages.len(), 2);
}

#[test]
fn in_a_catalog_no_name_stands_twice() {
    let f = MetadataFetcher::new();
    let list: Vec<Package> = ["a", "b", "A", "c", "B", "a", "C", "b"]
        .iter()
        .enumerate()
        .map(|(i, n)| published(n, &format!("https://ex/x86_64/f{i}/{n}")))
        .collect();
    let groups = f.group(&list, &reserved());
    let names: Vec<&str> = groups.iter().map(|g| g.name.as_str()).collect();
    assert_eq!(names, vec!["a", "b", "c"]);
    for g in &groups {
        assert!(g.packages.iter().all(|p| p.pkg == g.name));
    }
    assert_eq!(groups[0].packages.len(), 3);
    assert_eq!(groups[1].packages.len(), 3);
    assert_eq!(groups[2].packages.len(), 2);
}

#[test]
fn the_architecture_and_the_platform_are_reserved() {
    assert_eq!(reserved_segments("x86_64", "linux"), vec!["x86_64", "x86_64-Linux", "x86_64_Linux"]);
    assert_eq!(reserved_segments("aarch64", "macos"), vec!["aarch64", "aarch64-Macos", "aarch64_Macos"]);
    assert_eq!(reserved_segments("a-b", "zOS"), vec!["a-b", "a-b-ZOS", "a_b_ZOS"]);
    assert_eq!(reserved_segments("x", "Linux"), vec!["x", "x-Linux", "x_Linux"]);
    assert_eq!(reserved_segments("x", "9front"), vec!["x", "x-9front", "x_9front"]);
    assert_eq!(reserved_segments("x", "{os}"), vec!["x", "x-{os}", "x_{os}"]);
    assert_eq!(reserved_segments("x", "`a"), vec!["x", "x-`a", "x_`a"]);
    assert_eq!(reserved_segments("x", "a"), vec!["x", "x-A", "x_A"]);
    assert_eq!(reserved_segments("x", "\u{e9}t\u{e9}"), vec!["x", "x-\u{e9}t\u{e9}", "x_\u{e9}t\u{e9}"]);
    assert_eq!(reserved_segments("", ""), vec!["", "-", "_"]);
}

#[test]
fn a_platform_segment_is_no_family() {
    let reserved = reserved_segments("x86_64", "linux");
    assert_eq!(derive_family("https://ex/x86_64/hello", &reserved), None);
    assert_eq!(derive_family("https://ex/x86_64-Linux/hello", &reserved), None);
    assert_eq!(derive_family("https://ex/x86_64_Linux/hello", &reserved), None);
    assert_eq!(derive_family("https://ex/x86_64-linux/hello", &reserved), Some("x86_64-linux".to_string()));
    assert_eq!(derive_family("https://ex/aarch64-Linux/hello", &reserved), Some("aarch64-Linux".to_string()));
    assert_eq!(derive_family("https://ex/x86_64/glibc/curl", &reserved), Some("glibc".to_string()));
}
