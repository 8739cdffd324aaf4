use soar_cli::codec::{decode_catalog, decode_installed, encode_catalog, encode_installed, Codec};
use soar_cli::installed::{InstalledPackage, InstalledPackages};
use soar_cli::package::Package;
use soar_cli::storage::{CollectionPackages, PackageGroup, RepositoryPackages};

fn full_package(seed: &str, family: Option<&str>) -> Package {
    Package {
        pkg: format!("{seed}-pkg"),
        pkg_name: format!("{seed}-name"),
        description: format!("{seed} déscription ✓"),
        note: format!("{seed}-note"),
        version: format!("{seed}-version"),
        download_url: format!("https://ex/{seed}"),
        size: "12345".into(),
        bsum: format!("{seed}-bsum"),
        build_date: format!("{seed}-date"),
        src_url: format!("{seed}-src"),
        homepage: format!("{seed}-home"),
        build_script: format!("{seed}-script"),
        build_log: format!("{seed}-log"),
        category: format!("{seed}-category"),
        provides: format!("{seed}-provides"),
        icon: format!("{seed}-icon"),
        family: family.map(|f| f.to_string()),
    }
}

fn sample_catalog() -> RepositoryPackages {
    RepositoryPackages {
        collection: vec![
            CollectionPackages {
                name: "bin".into(),
                groups: vec![
                    PackageGroup {
                        name: "curl".into(),
                        packages: vec![full_package("a", Some("glibc")), full_package("b", Some("musl"))],
                    },
                    PackageGroup { name: "empty".into(), packages: vec![] },
                ],
            },
            CollectionPackages { name: "base".into(), groups: vec![] },
            CollectionPackages {
                name: "pkg".into(),
                groups: vec![PackageGroup { name: "x".into(), packages: vec![full_package("", None)] }],
            },
        ],
    }
}

fn sample_installed() -> InstalledPackages {
    InstalledPackages {
        packages: vec![
            InstalledPackage {
                repo_name: "main".into(),
                collection: "bin".into(),
                name: "musl-curl".into(),
                bin_name: "curl".into(),
                version: "8.1".into(),
                checksum: "0123456789abcdef".into(),
                size: 4242,
                timestamp: 1_700_000_123,
            },
            InstalledPackage {
                repo_name: "".into(),
                collection: "".into(),
                name: "".into(),
                bin_name: "".into(),
                version: "".into(),
                checksum: "".into(),
                size: u64::MAX,
                timestamp: i64::MIN,
            },
            InstalledPackage {
                repo_name: "r".into(),
                collection: "c".into(),
                name: "n".into(),
                bin_name: "b".into(),
                version: "v".into(),
                checksum: "s".into(),
                size: 0,
                timestamp: i64::MAX,
            },
            InstalledPackage {
                repo_name: "r".into(),
                collection: "c".into(),
                name: "old".into(),
                bin_name: "b".into(),
                version: "v".into(),
                checksum: "s".into(),
                size: 1,
                timestamp: -1,
            },
        ],
    }
}

#[test]
fn a_catalog_round_trips_with_all_its_fields() {
    let catalog = sample_catalog();
    let bytes = encode_catalog(&catalog);
    assert_eq!(decode_catalog(&bytes), Some(catalog));
}

#[test]
fn an_empty_catalog_round_trips() {
    let catalog = RepositoryPackages { collection: vec![] };
    let bytes = encode_catalog(&catalog);
    assert_eq!(bytes, vec![0x53, 0x52, 0x43, 0x31, 0, 0, 0, 0, 0, 0, 0, 0]);
    assert_eq!(decode_catalog(&bytes), Some(catalog));
}

#[test]
fn the_record_of_installations_round_trips_with_its_timestamps() {
    let installed = sample_installed();
    let bytes = encode_installed(&installed);
    let back = decode_installed(&bytes).unwrap();
    assert_eq!(back, installed);
    assert_eq!(back.packages[0].timestamp, 1_700_000_123);
    assert_eq!(back.packages[1].timestamp, i64::MIN);
    assert_eq!(back.packages[2].timestamp, i64::MAX);
    assert_eq!(back.packages[3].timestamp, -1);
}

#[test]
fn an_empty_record_round_trips() {
    let installed = InstalledPackages { packages: vec![] };
    let bytes = encode_installed(&installed);
    assert_eq!(bytes, vec![0x53, 0x52, 0x49, 0x31, 0, 0, 0, 0, 0, 0, 0, 0]);
    assert_eq!(decode_installed(&bytes), Some(installed));
}

#[test]
fn the_two_documents_are_not_mistaken_for_each_other() {
    assert_eq!(decode_installed(&encode_catalog(&sample_catalog())), None);
    assert_eq!(decode_catalog(&encode_installed(&sample_installed())), None);
}

#[test]
fn damaged_bytes_are_refused() {
    let bytes = encode_catalog(&sample_catalog());
    assert_eq!(decode_catalog(&[]), None);
    assert_eq!(decode_catalog(&bytes[..3]), None);
    assert_eq!(decode_catalog(&bytes[..4]), None);
    assert_eq!(decode_catalog(&bytes[..bytes.len() - 1]), None);
    for cut in [5, 12, 20, bytes.len() / 2] {
        assert_eq!(decode_catalog(&bytes[..cut]), None, "{cut}");
    }
    let mut longer = bytes.clone();
    longer.push(0);
    assert_eq!(decode_catalog(&longer), None);
    let mut wrong_magic = bytes.clone();
    wrong_magic[0] = b'X';
    assert_eq!(decode_catalog(&wrong_magic), None);
    let mut huge_count = bytes.clone();
    for b in &mut huge_count[4..12] {
        *b = 0xff;
    }
    assert_eq!(decode_catalog(&huge_count), None);
}

#[test]
fn text_that_is_not_utf8_is_refused() {
    let mut bytes = Vec::new();
    "ab".to_string().write(&mut bytes);
    assert_eq!(bytes, vec![2, 0, 0, 0, 0, 0, 0, 0, b'a', b'b']);
    assert_eq!(String::read(&bytes, 0), Some(("ab".to_string(), 10)));
    bytes[8] = 0xff;
    assert_eq!(String::read(&bytes, 0), None);
}

#[test]
fn numbers_are_written_least_significant_byte_first() {
    let mut bytes = Vec::new();
    0x0102_0304_0506_0708u64.write(&mut bytes);
    assert_eq!(bytes, vec![8, 7, 6, 5, 4, 3, 2, 1]);
    assert_eq!(u64::read(&bytes, 0), Some((0x0102_0304_0506_0708, 8)));
    assert_eq!(u64::read(&bytes, 1), None);
    assert_eq!(u64::read(&bytes, 9), None);
    assert_eq!(u64::read(&[], 0), None);
}

#[test]
fn signed_numbers_round_trip() {
    for v in [0i64, 1, -1, 42, -42, i64::MAX, i64::MIN, 1_700_000_000] {
        let mut bytes = vec![9u8];
        v.write(&mut bytes);
        assert_eq!(bytes.len(), 9);
        assert_eq!(i64::read(&bytes, 1), Some((v, 9)));
    }
    let mut bytes = Vec::new();
    i64::MIN.write(&mut bytes);
    assert_eq!(bytes, vec![0; 8]);
}

#[test]
fn optional_text_round_trips() {
    let mut bytes = Vec::new();
    Some("é".to_string()).write(&mut bytes);
    None::<String>.write(&mut bytes);
    assert_eq!(bytes, vec![1, 2, 0, 0, 0, 0, 0, 0, 0, 0xc3, 0xa9, 0]);
    assert_eq!(Option::<String>::read(&bytes, 0), Some((Some("é".to_string()), 11)));
    assert_eq!(Option::<String>::read(&bytes, 11), Some((None, 12)));
    assert_eq!(Option::<String>::read(&bytes, 12), None);
    assert_eq!(Option::<String>::read(&[2], 0), None);
}

#[test]
fn lists_round_trip() {
    let list = vec!["a".to_string(), "".to_string(), "ccc".to_string()];
    let mut bytes = Vec::new();
    list.write(&mut bytes);
    assert_eq!(Vec::<String>::read(&bytes, 0), Some((list, bytes.len())));
    let packages = vec![full_package("x", None), full_package("y", Some("f"))];
    let mut bytes = vec![0u8; 3];
    packages.write(&mut bytes);
    assert_eq!(Vec::<Package>::read(&bytes, 3), Some((packages, bytes.len())));
}

#[test]
fn a_package_with_the_wrong_number_of_fields_is_refused() {
    let fields: Vec<String> = (0..15).map(|i| i.to_string()).collect();
    let mut bytes = Vec::new();
    fields.write(&mut bytes);
    None::<String>.write(&mut bytes);
    assert_eq!(Package::read(&bytes, 0), None);
    let fields: Vec<String> = (0..16).map(|i| i.to_string()).collect();
    let mut bytes = Vec::new();
    fields.write(&mut bytes);
    None::<String>.write(&mut bytes);
    let (p, end) = Package::read(&bytes, 0).unwrap();
    assert_eq!(end, bytes.len());
    assert_eq!(p.pkg, "0");
    assert_eq!(p.pkg_name, "1");
    assert_eq!(p.icon, "15");
    assert_eq!(p.family, None);
}
