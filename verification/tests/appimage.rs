use soar_cli::appimage::{
    check_portable, classify_node, create_symlink, desktop_link_path, desktop_path,
    find_nearest_supported_dimension, icon_link_path, icon_path, integration_for, normalize_image,
    path_is_below, process_desktop, remote_desktop_url, resolve_and_extract, setup_portable_dir, Asset,
    ExtractError, ImageNode, Integration, LinkAction, NodeKind, PortableDir, PortableError, PortablePlan,
    SUPPORTED_DIMENSIONS,
};
use soar_cli::file::FileType;
use soar_cli::install::{ExistingLink, OwnershipTag};

#[test]
fn supported_dimensions_are_found_unchanged() {
    for size in SUPPORTED_DIMENSIONS {
        assert_eq!(find_nearest_supported_dimension(size, size), (size, size));
        assert_eq!(normalize_image(size, size), None);
    }
}

#[test]
fn the_nearest_dimension_is_chosen() {
    assert_eq!(find_nearest_supported_dimension(130, 130), (128, 128));
    assert_eq!(find_nearest_supported_dimension(100, 100), (96, 96));
    assert_eq!(find_nearest_supported_dimension(1, 1), (16, 16));
    assert_eq!(find_nearest_supported_dimension(0, 0), (16, 16));
    assert_eq!(find_nearest_supported_dimension(5000, 5000), (512, 512));
    assert_eq!(find_nearest_supported_dimension(u32::MAX, u32::MAX), (512, 512));
    assert_eq!(find_nearest_supported_dimension(300, 300), (256, 256));
    assert_eq!(find_nearest_supported_dimension(10, 600), (16, 16));
    assert_eq!(find_nearest_supported_dimension(64, 48), (48, 48));
}

#[test]
fn of_two_equally_near_dimensions_the_smaller_is_chosen() {
    assert_eq!(find_nearest_supported_dimension(20, 20), (16, 16));
    assert_eq!(find_nearest_supported_dimension(28, 28), (24, 24));
    assert_eq!(find_nearest_supported_dimension(160, 160), (128, 128));
    assert_eq!(find_nearest_supported_dimension(16, 24), (16, 16));
    assert_eq!(find_nearest_supported_dimension(300, 100), (128, 128));
    assert_eq!(find_nearest_supported_dimension(300, 90), (96, 96));
}

#[test]
fn an_icon_of_other_dimensions_is_resized() {
    assert_eq!(normalize_image(130, 130), Some((128, 128)));
    assert_eq!(normalize_image(128, 127), Some((128, 128)));
    assert_eq!(normalize_image(256, 512), Some((256, 256)));
}

#[test]
fn integration_depends_on_the_file_type() {
    assert_eq!(integration_for(FileType::AppImage), Integration::Embedded);
    assert_eq!(integration_for(FileType::FlatImage), Integration::Remote);
    assert_eq!(integration_for(FileType::ELF), Integration::Nothing);
    assert_eq!(integration_for(FileType::Unknown), Integration::Nothing);
}

#[test]
fn where_assets_are_kept_and_linked() {
    assert_eq!(
        icon_link_path("/home/u/.local/share", 128, 128, "foo"),
        "/home/u/.local/share/icons/hicolor/128x128/apps/foo.png"
    );
    assert_eq!(icon_link_path("/d", 16, 512, "a.b"), "/d/icons/hicolor/16x512/apps/a.b.png");
    assert_eq!(desktop_link_path("/home/u/.local/share", "foo"), "/home/u/.local/share/applications/foo-soar.desktop");
    assert_eq!(icon_path("/p/1-foo/foo"), "/p/1-foo/foo.png");
    assert_eq!(desktop_path("/p/1-foo/foo.AppImage"), "/p/1-foo/foo.AppImage.desktop");
}

#[test]
fn the_desktop_entry_of_a_flatimage_is_published_beside_its_icon() {
    assert_eq!(
        remote_desktop_url("https://ex/x86_64/foo.png", "foo"),
        Some("https://ex/x86_64/foo.desktop".to_string())
    );
    assert_eq!(remote_desktop_url("/icon", "b"), Some("/b.desktop".to_string()));
    assert_eq!(remote_desktop_url("icon.png", "foo"), None);
    assert_eq!(remote_desktop_url("", "foo"), None);
}

#[test]
fn the_desktop_entry_is_rewritten() {
    let content = "[Desktop Entry]\n# a comment\nName=Foo\nIcon=foo-icon\nExec=foo %U\nTryExec=/usr/bin/foo\nType=Application\n";
    assert_eq!(
        process_desktop(content, "foo", "/root/bin"),
        "[Desktop Entry]\nName=Foo\nIcon=foo\nExec=/root/bin/foo\nTryExec=/root/bin/foo\nType=Application"
    );
}

#[test]
fn desktop_entry_lines() {
    assert_eq!(process_desktop("", "b", "/bin"), "");
    assert_eq!(process_desktop("\n", "b", "/bin"), "");
    assert_eq!(process_desktop("a", "b", "/bin"), "a");
    assert_eq!(process_desktop("a\n\nb", "b", "/bin"), "a\n\nb");
    assert_eq!(process_desktop("a\r\nb\r\n", "b", "/bin"), "a\nb");
    assert_eq!(process_desktop("a\rb\r", "b", "/bin"), "a\rb\r");
    assert_eq!(process_desktop("#only\n#comments", "b", "/bin"), "");
    assert_eq!(process_desktop("#c\nx\n#d\ny", "b", "/bin"), "x\ny");
    assert_eq!(process_desktop(" #not a comment", "b", "/bin"), " #not a comment");
    assert_eq!(process_desktop("Icon=\nExec=\nTryExec=", "b", "/bin"), "Icon=b\nExec=/bin/b\nTryExec=/bin/b");
    assert_eq!(process_desktop("icon=x\n Exec=y\nExecX=z", "b", "/bin"), "icon=x\n Exec=y\nExecX=z");
    assert_eq!(process_desktop("\n\n#c\n", "b", "/bin"), "\n");
}

#[test]
fn desktop_entry_lines_agree_with_the_plain_way_of_doing_it() {
    let samples = ["a\nb", "a\r\n#x\r\nIcon=1\n\nExec=2", "\n\n\n", "#\n#\nz", "TryExec=a\r\n", "x\r"];
    for content in samples {
        let expected = content
            .lines()
            .filter(|l| !l.starts_with('#'))
            .map(|l| {
                if l.starts_with("Icon=") {
                    "Icon=app".to_string()
                } else if l.starts_with("Exec=") {
                    "Exec=/b/app".to_string()
                } else if l.starts_with("TryExec=") {
                    "TryExec=/b/app".to_string()
                } else {
                    l.to_string()
                }
            })
            .collect::<Vec<_>>()
            .join("\n");
        assert_eq!(process_desktop(content, "app", "/b"), expected, "{content:?}");
    }
}

#[test]
fn assets_stand_at_the_root_of_the_image() {
    assert_eq!(classify_node("/foo.DirIcon"), Some(Asset::Icon));
    assert_eq!(classify_node("/.DirIcon"), Some(Asset::Icon));
    assert_eq!(classify_node(".DirIcon"), Some(Asset::Icon));
    assert_eq!(classify_node("/foo.desktop"), Some(Asset::Desktop));
    assert_eq!(classify_node("/usr/share/foo.desktop"), None);
    assert_eq!(classify_node("/usr/.DirIcon"), None);
    assert_eq!(classify_node("/foo.png"), None);
    assert_eq!(classify_node("/foo.desktop.bak"), None);
    assert_eq!(classify_node("/"), None);
    assert_eq!(classify_node(""), None);
}

fn file(path: &str) -> ImageNode {
    ImageNode { path: path.into(), kind: NodeKind::File }
}

fn symlink(path: &str, target: &str) -> ImageNode {
    ImageNode { path: path.into(), kind: NodeKind::Symlink { target: target.into() } }
}

#[test]
fn links_inside_the_image_are_followed() {
    let nodes = vec![
        symlink("/.DirIcon", "foo.png"),
        symlink("/foo.png", "usr/share/icons/foo.png"),
        file("/usr/share/icons/foo.png"),
        file("/foo.desktop"),
        ImageNode { path: "/usr".into(), kind: NodeKind::Other },
        symlink("/dir", "usr"),
        symlink("/dangling", "nowhere"),
    ];
    assert_eq!(resolve_and_extract(&nodes, 0), Ok(2));
    assert_eq!(resolve_and_extract(&nodes, 1), Ok(2));
    assert_eq!(resolve_and_extract(&nodes, 2), Ok(2));
    assert_eq!(resolve_and_extract(&nodes, 3), Ok(3));
    assert_eq!(resolve_and_extract(&nodes, 4), Err(ExtractError::UnexpectedNode));
    assert_eq!(resolve_and_extract(&nodes, 5), Err(ExtractError::UnexpectedNode));
    assert_eq!(resolve_and_extract(&nodes, 6), Err(ExtractError::TargetNotFound));
    assert_eq!(resolve_and_extract(&nodes, 7), Err(ExtractError::TargetNotFound));
    assert_eq!(resolve_and_extract(&vec![], 0), Err(ExtractError::TargetNotFound));
}

#[test]
fn a_cycle_of_links_is_an_error() {
    let nodes = vec![symlink("/a", "b"), symlink("/b", "c"), symlink("/c", "a"), symlink("/self", "self"), symlink("/in", "a")];
    for start in 0..nodes.len() {
        assert_eq!(resolve_and_extract(&nodes, start), Err(ExtractError::SymlinkCycle));
    }
}

#[test]
fn a_long_chain_of_links_is_no_cycle() {
    let mut nodes: Vec<ImageNode> = (0..50).map(|i| symlink(&format!("/l{i}"), &format!("l{}", i + 1))).collect();
    nodes.push(file("/l50"));
    assert_eq!(resolve_and_extract(&nodes, 0), Ok(50));
}

#[test]
fn a_link_leads_to_the_first_node_of_its_path() {
    let nodes = vec![symlink("/x", "t"), file("/t"), ImageNode { path: "/t".into(), kind: NodeKind::Other }];
    assert_eq!(resolve_and_extract(&nodes, 0), Ok(1));
}

fn link_to(target: &str) -> ExistingLink {
    ExistingLink::Link { target: target.into(), tag: OwnershipTag::Managed }
}

#[test]
fn only_links_into_the_store_are_replaced() {
    assert_eq!(create_symlink(&ExistingLink::Absent, "/r/packages"), LinkAction::Create);
    assert_eq!(create_symlink(&link_to("/r/packages/1-foo/foo.png"), "/r/packages"), LinkAction::Replace);
    assert_eq!(create_symlink(&link_to("/usr/share/foo.png"), "/r/packages"), LinkAction::Refuse);
    assert_eq!(create_symlink(&link_to("/r/packages2/foo.png"), "/r/packages"), LinkAction::Refuse);
    assert_eq!(create_symlink(&link_to("/r/packages"), "/r/packages"), LinkAction::Refuse);
    assert_eq!(create_symlink(&ExistingLink::Other, "/r/packages"), LinkAction::Refuse);
}

#[test]
fn paths_below_a_directory() {
    assert!(path_is_below("/a/b/c", "/a/b"));
    assert!(path_is_below("/a/b/c/d", "/a/b"));
    assert!(!path_is_below("/a/b", "/a/b"));
    assert!(!path_is_below("/a/b/", "/a/b"));
    assert!(!path_is_below("/a/bc", "/a/b"));
    assert!(!path_is_below("/a", "/a/b"));
    assert!(!path_is_below("", ""));
    assert!(path_is_below("/x", ""));
}

#[test]
fn portable_and_portable_home_together_are_rejected() {
    assert_eq!(check_portable(Some(""), Some(""), None), Err(PortableError::Conflict));
    assert_eq!(check_portable(Some("/p"), None, Some("/c")), Err(PortableError::Conflict));
    assert_eq!(check_portable(Some("/p"), Some("/h"), Some("/c")), Err(PortableError::Conflict));
    assert_eq!(check_portable(Some("/p"), None, None), Ok(()));
    assert_eq!(check_portable(None, Some("/h"), Some("/c")), Ok(()));
    assert_eq!(check_portable(None, None, None), Ok(()));
    assert_eq!(setup_portable_dir("foo", "/p/1-foo/foo", Some(""), Some(""), None), Err(PortableError::Conflict));
    assert_eq!(setup_portable_dir("foo", "/p/1-foo/foo", Some("x"), None, Some("")), Err(PortableError::Conflict));
}

#[test]
fn portable_directories_beside_the_artifact() {
    assert_eq!(
        setup_portable_dir("foo", "/p/1-foo/foo", Some(""), None, None),
        Ok(PortablePlan {
            home: Some(PortableDir::Sibling { path: "/p/1-foo/foo.home".into() }),
            config: Some(PortableDir::Sibling { path: "/p/1-foo/foo.config".into() }),
        })
    );
    assert_eq!(
        setup_portable_dir("foo", "/p/1-foo/foo", None, Some(""), None),
        Ok(PortablePlan { home: Some(PortableDir::Sibling { path: "/p/1-foo/foo.home".into() }), config: None })
    );
    assert_eq!(setup_portable_dir("foo", "/p/1-foo/foo", None, None, None), Ok(PortablePlan { home: None, config: None }));
}

#[test]
fn portable_directories_elsewhere_are_linked() {
    assert_eq!(
        setup_portable_dir("foo", "/p/1-foo/foo", Some("/data/portable"), None, None),
        Ok(PortablePlan {
            home: Some(PortableDir::Linked { dir: "/data/portable/foo.home".into(), link: "/p/1-foo/foo.home".into() }),
            config: Some(PortableDir::Linked {
                dir: "/data/portable/foo.config".into(),
                link: "/p/1-foo/foo.config".into(),
            }),
        })
    );
    assert_eq!(
        setup_portable_dir("foo", "/p/1-foo/foo", None, Some(""), Some("/c")),
        Ok(PortablePlan {
            home: Some(PortableDir::Sibling { path: "/p/1-foo/foo.home".into() }),
            config: Some(PortableDir::Linked { dir: "/c/foo.config".into(), link: "/p/1-foo/foo.config".into() }),
        })
    );
}

#[test]
fn appimage_integration() {
    let nodes = vec![file("/foo.DirIcon"), file("/foo.desktop"), file("/AppRun")];
    let icon = nodes.iter().position(|n| classify_node(&n.path) == Some(Asset::Icon)).unwrap();
    let desktop = nodes.iter().position(|n| classify_node(&n.path) == Some(Asset::Desktop)).unwrap();
    assert_eq!(resolve_and_extract(&nodes, icon), Ok(0));
    assert_eq!(resolve_and_extract(&nodes, desktop), Ok(1));
    assert_eq!(normalize_image(128, 128), None);
    assert_eq!(icon_link_path("/xdg", 128, 128, "foo"), "/xdg/icons/hicolor/128x128/apps/foo.png");
    assert_eq!(desktop_link_path("/xdg", "foo"), "/xdg/applications/foo-soar.desktop");
    let entry = process_desktop("[Desktop Entry]\nExec=AppRun\nIcon=x", "foo", "/root/bin");
    assert!(entry.lines().any(|l| l == "Exec=/root/bin/foo"));
    assert!(entry.lines().any(|l| l == "Icon=foo"));
}
