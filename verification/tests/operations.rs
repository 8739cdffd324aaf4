use soar_cli::config::{Config, Environment};
use soar_cli::digest::ChecksumVerdict;
use soar_cli::display::{collection_totals, installed_total, reported_records, CollectionTotal};
use soar_cli::install::OwnershipTag;
use soar_cli::installed::{InstalledPackage, InstalledPackages};
use soar_cli::package::{parse_package_query, Package, ResolvedPackage};
use soar_cli::registry::{PackageRegistry, UsePlan};
use soar_cli::remove::{find_removal_targets, resolve_removal, RemovalPlan, Remover};
use soar_cli::run::{direct, judge, RunAction, Runner, Verification};
use soar_cli::storage::{CollectionPackages, PackageGroup, PackageStorage, RepositoryPackages, ResolveError};
use soar_cli::update::Updater;

fn pkg(name: &str, family: Option<&str>, bsum: &str) -> Package {
    let mut p = Package::default();
    p.pkg = name.to_string();
    p.pkg_name = name.to_string();
    p.family = family.map(|f| f.to_string());
    p.bsum = bsum.to_string();
    p.version = "1".into();
    p
}

fn store() -> PackageStorage {
    let mut s = PackageStorage::new();
    s.add_repository(
        "main",
        RepositoryPackages {
            collection: vec![
                CollectionPackages {
                    name: "bin".into(),
                    groups: vec![
                        PackageGroup {
                            name: "curl".into(),
                            packages: vec![pkg("curl", Some("glibc"), "g2"), pkg("curl", Some("musl"), "m1"), pkg("curl", None, "c1")],
                        },
                        PackageGroup { name: "hello".into(), packages: vec![pkg("hello", None, "h2")] },
                        PackageGroup { name: "tool".into(), packages: vec![pkg("tool", None, "null")] },
                    ],
                },
                CollectionPackages {
                    name: "pkg".into(),
                    groups: vec![PackageGroup { name: "hello".into(), packages: vec![pkg("hello", None, "p1")] }],
                },
            ],
        },
    );
    s
}

fn resolved(collection: &str, name: &str, family: Option<&str>, bsum: &str) -> ResolvedPackage {
    ResolvedPackage { repo_name: "main".into(), collection: collection.into(), package: pkg(name, family, bsum) }
}

fn tracker() -> InstalledPackages {
    let mut t = InstalledPackages::new();
    t.register_package(&resolved("bin", "hello", None, "h1"), "h1", 1);
    t.register_package(&resolved("bin", "curl", Some("musl"), "m1"), "m1", 2);
    t.register_package(&resolved("bin", "curl", Some("glibc"), "g1"), "g1", 3);
    t.register_package(&resolved("bin", "gone", None, "x"), "x", 4);
    t.register_package(&resolved("bin", "tool", None, "null"), "t1", 5);
    t
}

fn names(found: &[ResolvedPackage]) -> Vec<String> {
    found.iter().map(|r| format!("{}#{}", r.package.full_name('/'), r.collection)).collect()
}

#[test]
fn all_installed_packages_are_looked_up_in_the_catalog() {
    let entries = Updater::installed_entries(&store(), &tracker());
    assert_eq!(names(&entries), vec!["hello#bin", "musl/curl#bin", "glibc/curl#bin", "tool#bin"]);
}

#[test]
fn packages_whose_checksum_changed_are_outdated() {
    let t = tracker();
    let u = Updater::new(None);
    let candidates = u.candidates(&store(), &t).unwrap();
    let plan = Updater::plan(&candidates, &t);
    assert_eq!(names(&plan.outdated), vec!["hello#bin", "glibc/curl#bin", "tool#bin"]);
    assert!(plan.not_installed.is_empty());
    assert_eq!(plan.outdated[0].package.bsum, "h2");
}

#[test]
fn named_packages_are_updated() {
    let t = tracker();
    let wanted = vec!["musl/curl".to_string(), "hello#pkg".to_string(), "HELLO#bin".to_string()];
    let u = Updater::new(Some(&wanted));
    let candidates = u.candidates(&store(), &t).unwrap();
    assert_eq!(names(&candidates), vec!["musl/curl#bin", "hello#pkg", "hello#bin"]);
    let plan = Updater::plan(&candidates, &t);
    assert_eq!(names(&plan.outdated), vec!["hello#bin"]);
    assert_eq!(names(&plan.not_installed), vec!["hello#pkg"]);
}

#[test]
fn an_unknown_name_fails_the_update() {
    let wanted = vec!["hello".to_string(), "nothing".to_string()];
    let u = Updater::new(Some(&wanted));
    assert_eq!(u.candidates(&store(), &tracker()), Err(ResolveError::NotFound));
    let none: Vec<String> = vec![];
    assert_eq!(Updater::new(Some(&none)).candidates(&store(), &tracker()), Ok(vec![]));
}

fn record_names(found: &[InstalledPackage]) -> Vec<String> {
    found.iter().map(|r| format!("{}#{}", r.name, r.collection)).collect()
}

#[test]
fn a_name_without_family_removes_every_family() {
    let found = resolve_removal(&store(), &tracker(), "curl", false);
    assert_eq!(record_names(&found), vec!["musl-curl#bin", "glibc-curl#bin"]);
}

#[test]
fn an_exact_name_removes_only_what_it_names() {
    assert!(resolve_removal(&store(), &tracker(), "curl", true).is_empty());
    assert_eq!(record_names(&resolve_removal(&store(), &tracker(), "musl/curl", true)), vec!["musl-curl#bin"]);
    assert_eq!(record_names(&resolve_removal(&store(), &tracker(), "musl/curl", false)), vec!["musl-curl#bin"]);
    assert_eq!(record_names(&resolve_removal(&store(), &tracker(), "hello", true)), vec!["hello#bin"]);
    let q = parse_package_query("hello#pkg");
    assert!(find_removal_targets(&store(), &tracker(), &q, false).is_empty());
}

#[test]
fn a_package_that_left_the_catalog_can_still_be_removed() {
    assert_eq!(record_names(&resolve_removal(&store(), &tracker(), "gone", false)), vec!["gone#bin"]);
    assert_eq!(record_names(&resolve_removal(&store(), &tracker(), "gone#bin", true)), vec!["gone#bin"]);
    assert!(resolve_removal(&store(), &tracker(), "gone#pkg", false).is_empty());
    assert_eq!(
        record_names(&resolve_removal(&PackageStorage::new(), &tracker(), "musl/curl", false)),
        vec!["musl-curl#bin"]
    );
    assert!(resolve_removal(&PackageStorage::new(), &tracker(), "curl", false).is_empty());
}

#[test]
fn what_is_not_installed_cannot_be_removed() {
    assert!(resolve_removal(&store(), &InstalledPackages::new(), "hello", false).is_empty());
    assert!(resolve_removal(&store(), &tracker(), "nothing", false).is_empty());
}

#[test]
fn records_are_removed_by_their_key() {
    let mut t = tracker();
    let record = t.packages[1].clone();
    assert!(record.describes(&resolved("bin", "curl", Some("musl"), "other")));
    assert!(!record.describes(&resolved("bin", "curl", Some("glibc"), "m1")));
    assert_eq!(t.unregister_record(&record), Ok(()));
    assert_eq!(record_names(&t.packages), vec!["hello#bin", "glibc-curl#bin", "gone#bin", "tool#bin"]);
    assert!(t.unregister_record(&record).is_err());
    assert_eq!(t.packages.len(), 4);
}

#[test]
fn remove_after_install() {
    let hello = resolved("bin", "hello", None, "0123456789abcdef");
    let mut t = InstalledPackages::new();
    t.register_package(&hello, "0123456789abcdef", 1);
    let record: InstalledPackage = t.find_package(&hello).unwrap().clone();
    let remover = Remover::new(&record);
    let plan = remover.plan("/root/bin", "/root/packages");
    assert_eq!(
        plan,
        RemovalPlan {
            symlink_path: "/root/bin/hello".into(),
            install_path: "/root/packages/01234567-hello/hello".into(),
            install_dir: "/root/packages/01234567-hello".into(),
        }
    );
    assert!(remover.remove_symlink(Some("/root/packages/01234567-hello/hello"), &plan.install_path));
    assert!(!remover.remove_symlink(Some("/root/packages/ffffffff-hello/hello"), &plan.install_path));
    assert!(!remover.remove_symlink(None, &plan.install_path));
    assert!(t.unregister_package(&hello).is_ok());
    assert!(t.packages.is_empty());
    assert!(t.unregister_package(&hello).is_err());
}

#[test]
fn a_runner_downloads_beside_the_cached_artifact() {
    let args = vec!["--version".to_string(), "-v".to_string()];
    let r = Runner::new(&resolved("bin", "hello", None, "h"), "/cache/hello".to_string(), &args);
    assert_eq!(r.install_path(), "/cache/hello");
    assert_eq!(r.temp_path(), "/cache/hello.part");
    assert_eq!(r.args(), &args);
    assert_eq!(r.package(), &resolved("bin", "hello", None, "h"));
    assert_eq!(r.plan(None), RunAction::Download);
    assert_eq!(r.plan(Some(OwnershipTag::Managed)), RunAction::Execute);
    assert_eq!(r.plan(Some(OwnershipTag::Unsupported)), RunAction::Execute);
    assert_eq!(r.plan(Some(OwnershipTag::Foreign)), RunAction::Refuse);
}

#[test]
fn verification_discipline() {
    assert_eq!(judge(ChecksumVerdict::Match, false), Verification::Accept);
    assert_eq!(judge(ChecksumVerdict::Missing, false), Verification::AcceptUnchecked);
    assert_eq!(judge(ChecksumVerdict::Missing, true), Verification::AcceptUnchecked);
    assert_eq!(judge(ChecksumVerdict::Mismatch, false), Verification::Ask);
    assert_eq!(judge(ChecksumVerdict::Mismatch, true), Verification::AcceptMismatch);
}

#[test]
fn an_unknown_package_is_looked_for_below_its_source() {
    let config = Config::with_defaults("x86_64", &Environment { vars: vec![] }, "/d");
    let p = direct(&parse_package_query("musl/tool#pkg"), &config).unwrap();
    assert_eq!(p.collection, "pkg");
    assert_eq!(p.package.download_url, "https://pkg.pkgforge.dev/x86_64/musl/tool");
    assert_eq!(p.package.pkg, "tool");
    assert_eq!(p.package.pkg_name, "tool");
    assert_eq!(p.package.family, Some("musl".to_string()));
    let p = direct(&parse_package_query("tool"), &config).unwrap();
    assert_eq!(p.collection, "bin");
    assert_eq!(p.package.download_url, "https://bin.pkgforge.dev/x86_64/tool");
    assert_eq!(direct(&parse_package_query("tool#nope"), &config), None);
    let mut empty = Config::with_defaults("x86_64", &Environment { vars: vec![] }, "/d");
    empty.repositories.clear();
    assert_eq!(direct(&parse_package_query("tool"), &empty), None);
}

#[test]
fn using_a_package() {
    let registry = PackageRegistry::new(store(), tracker());
    let musl = resolved("bin", "curl", Some("musl"), "m1");
    assert_eq!(
        registry.use_package(&musl, None, "/r/bin", "/r/packages"),
        UsePlan::Link { install_path: "/r/packages/m1-musl-curl/curl".into(), symlink_path: "/r/bin/curl".into() }
    );
    assert_eq!(
        registry.use_package(&musl, Some(OwnershipTag::Managed), "/r/bin", "/r/packages"),
        UsePlan::Link { install_path: "/r/packages/m1-musl-curl/curl".into(), symlink_path: "/r/bin/curl".into() }
    );
    assert_eq!(
        registry.use_package(&musl, Some(OwnershipTag::Foreign), "/r/bin", "/r/packages"),
        UsePlan::NotManaged { symlink_path: "/r/bin/curl".into() }
    );
    let absent = resolved("pkg", "hello", None, "p1");
    assert_eq!(registry.use_package(&absent, None, "/r/bin", "/r/packages"), UsePlan::Install);
}

#[test]
fn removal_is_case_insensitive() {
    let mut t = InstalledPackages::new();
    let mut p = resolved("Base", "curl", Some("Baseutils"), "b1");
    p.repo_name = "main".into();
    t.register_package(&p, "b1", 1);
    assert_eq!(t.packages[0].name, "Baseutils-curl");
    let empty = PackageStorage::new();
    assert_eq!(record_names(&resolve_removal(&empty, &t, "Baseutils/curl", true)), vec!["Baseutils-curl#Base"]);
    assert_eq!(record_names(&resolve_removal(&empty, &t, "baseutils/CURL#BASE", false)), vec!["Baseutils-curl#Base"]);
    assert!(resolve_removal(&empty, &t, "baseutils/curl#bin", false).is_empty());
    let mut s = PackageStorage::new();
    s.add_repository(
        "main",
        RepositoryPackages {
            collection: vec![CollectionPackages {
                name: "Base".into(),
                groups: vec![PackageGroup { name: "curl".into(), packages: vec![pkg("curl", Some("Baseutils"), "b1")] }],
            }],
        },
    );
    assert_eq!(record_names(&resolve_removal(&s, &t, "curl", false)), vec!["Baseutils-curl#Base"]);
    assert!(resolve_removal(&s, &t, "curl", true).is_empty());
}

#[test]
fn the_source_of_a_collection_is_found_case_insensitively() {
    let mut config = Config::with_defaults("x86_64", &Environment { vars: vec![] }, "/d");
    config.repositories[0].sources[2].collection = "PKG".into();
    let p = direct(&parse_package_query("tool#Pkg"), &config).unwrap();
    assert_eq!(p.collection, "PKG");
    assert_eq!(p.package.download_url, "https://pkg.pkgforge.dev/x86_64/tool");
}

fn recorded_names(t: &InstalledPackages) -> Vec<String> {
    t.packages.iter().map(|r| format!("{}#{}", r.name, r.collection)).collect()
}

#[test]
fn a_report_shows_the_installed_packages_that_answer_the_names() {
    let t = tracker();
    let s = store();
    let shown = reported_records(&t, &s, &vec!["curl".to_string(), "hello".to_string()]);
    assert_eq!(recorded_names(&shown), vec!["glibc-curl#bin", "musl-curl#bin", "hello#bin"]);
    let shown = reported_records(&t, &s, &vec!["MUSL/Curl".to_string(), "hello#pkg".to_string()]);
    assert_eq!(recorded_names(&shown), vec!["musl-curl#bin"]);
    let shown = reported_records(&t, &s, &vec!["hello".to_string(), "nothing".to_string(), "hello#bin".to_string()]);
    assert_eq!(recorded_names(&shown), vec!["hello#bin", "hello#bin"]);
    assert_eq!(reported_records(&t, &s, &vec!["gone".to_string()]), InstalledPackages::new());
    assert_eq!(reported_records(&t, &s, &vec![]), InstalledPackages::new());
}

#[test]
fn a_report_totals_what_it_shows() {
    let mut t = tracker();
    for (i, record) in t.packages.iter_mut().enumerate() {
        record.size = 10 * (i as u64 + 1);
    }
    let shown = reported_records(&t, &store(), &vec!["curl".to_string(), "tool".to_string()]);
    assert_eq!(installed_total(&shown), (3, 100));
    assert_eq!(collection_totals(&shown), vec![CollectionTotal { collection: "bin".into(), count: 3, size: 100 }]);
    assert_eq!(installed_total(&t), (5, 150));
}
