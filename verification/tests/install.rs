use soar_cli::engine::{effective_worker_limit, plan_installation, WorkerPool};
use soar_cli::install::{
    plan_symlink, stage_for, ExistingLink, InstallAction, InstallError, InstallEvent, InstallState,
    InstallWarning, Installer, LinkDecision, OwnershipTag, Stage,
};
use soar_cli::installed::InstalledPackages;
use soar_cli::package::{Package, ResolvedPackage};

const SUM: &str = "0123456789abcdef0123456789abcdef0123456789abcdef0123456789abcdef";
const OTHER: &str = "ffffffff89abcdef0123456789abcdef0123456789abcdef0123456789abcdef";

fn hello(bsum: &str) -> ResolvedPackage {
    let mut p = Package::default();
    p.pkg = "hello".into();
    p.pkg_name = "hello".into();
    p.download_url = "https://ex/x86_64/hello".into();
    p.size = "42".into();
    p.bsum = bsum.into();
    ResolvedPackage { repo_name: "main".into(), collection: "bin".into(), package: p }
}

fn hashed(sum: &str) -> InstallEvent {
    InstallEvent::Hashed { checksum: sum.to_string() }
}

#[test]
fn a_new_worker_is_planned() {
    let w = Installer::new(&hello(SUM), "/root/packages", false, false);
    assert_eq!(w.state(), InstallState::Planned);
    assert_eq!(w.stage(), Stage::Planned);
    assert_eq!(w.temp_path(), "/root/packages/tmp/hello.part");
    assert_eq!(w.install_path(), "/root/packages/01234567-hello/hello");
    assert_eq!(w.package(), &hello(SUM));
}

#[test]
fn the_staging_file_carries_the_full_name() {
    let mut p = hello(SUM);
    p.package.family = Some("musl".into());
    p.package.pkg = "app.img".into();
    let w = Installer::new(&p, "/r/packages", false, false);
    assert_eq!(w.temp_path(), "/r/packages/tmp/musl-app.img.part");
}

#[test]
fn simple_install() {
    let mut w = Installer::new(&hello(SUM), "/root/packages", false, false);
    assert_eq!(
        w.advance(InstallEvent::Start { installed: false }),
        InstallAction::Download {
            url: "https://ex/x86_64/hello".into(),
            staging: "/root/packages/tmp/hello.part".into(),
        }
    );
    assert_eq!(w.state(), InstallState::Downloading);
    assert_eq!(
        w.advance(InstallEvent::Downloaded),
        InstallAction::Hash { staging: "/root/packages/tmp/hello.part".into() }
    );
    assert_eq!(w.stage(), Stage::Verifying);
    assert_eq!(
        w.advance(hashed(SUM)),
        InstallAction::Promote {
            staging: "/root/packages/tmp/hello.part".into(),
            install_dir: "/root/packages/01234567-hello".into(),
            install_path: "/root/packages/01234567-hello/hello".into(),
            warning: None,
        }
    );
    assert_eq!(w.state(), InstallState::Promoting);
    assert_eq!(
        w.advance(InstallEvent::Promoted),
        InstallAction::Integrate { install_path: "/root/packages/01234567-hello/hello".into() }
    );
    assert_eq!(w.state(), InstallState::Integrating);
    assert_eq!(
        w.advance(InstallEvent::Integrated { ok: true }),
        InstallAction::Register { checksum: SUM.into(), notice: None }
    );
    assert_eq!(w.state(), InstallState::Registering);
    assert_eq!(
        w.advance(InstallEvent::Registered),
        InstallAction::Link {
            install_path: "/root/packages/01234567-hello/hello".into(),
            bin_name: "hello".into(),
        }
    );
    assert_eq!(w.stage(), Stage::Registering);
    assert_eq!(w.advance(InstallEvent::Linked), InstallAction::Finish);
    assert_eq!(w.state(), InstallState::Done);
    assert_eq!(w.stage(), Stage::Done);
    assert_eq!(w.advance(InstallEvent::Linked), InstallAction::Finish);
    assert_eq!(w.advance(InstallEvent::Failure), InstallAction::Finish);
    assert_eq!(w.state(), InstallState::Done);
}

#[test]
fn an_installed_package_is_not_installed_again() {
    let mut w = Installer::new(&hello(SUM), "/p", false, false);
    assert_eq!(
        w.advance(InstallEvent::Start { installed: true }),
        InstallAction::Abort { error: InstallError::AlreadyInstalled }
    );
    assert_eq!(w.state(), InstallState::Failed(Stage::Planned));
}

#[test]
fn force_installs_again() {
    let mut w = Installer::new(&hello(SUM), "/p", true, false);
    assert!(matches!(w.advance(InstallEvent::Start { installed: true }), InstallAction::Download { .. }));
    assert_eq!(w.state(), InstallState::Downloading);
}

#[test]
fn a_package_without_checksum_installs_with_a_warning() {
    let mut w = Installer::new(&hello("null"), "/p", false, false);
    w.advance(InstallEvent::Start { installed: false });
    w.advance(InstallEvent::Downloaded);
    assert_eq!(
        w.advance(hashed(SUM)),
        InstallAction::Promote {
            staging: "/p/tmp/hello.part".into(),
            install_dir: "/p/01234567-hello".into(),
            install_path: "/p/01234567-hello/hello".into(),
            warning: Some(InstallWarning::MissingChecksum),
        }
    );
    assert_eq!(w.state(), InstallState::Promoting);
    assert_eq!(w.install_path(), "/p/01234567-hello/hello");
}

#[test]
fn a_wrong_checksum_is_put_to_the_user() {
    let mut w = Installer::new(&hello(SUM), "/p", false, false);
    w.advance(InstallEvent::Start { installed: false });
    w.advance(InstallEvent::Downloaded);
    assert_eq!(w.advance(hashed(OTHER)), InstallAction::AskDelete);
    assert_eq!(w.state(), InstallState::Confirming);
    assert_eq!(w.stage(), Stage::Verifying);
    assert_eq!(
        w.advance(InstallEvent::Answered { delete: false }),
        InstallAction::Promote {
            staging: "/p/tmp/hello.part".into(),
            install_dir: "/p/ffffffff-hello".into(),
            install_path: "/p/ffffffff-hello/hello".into(),
            warning: Some(InstallWarning::ChecksumMismatch),
        }
    );
    w.advance(InstallEvent::Promoted);
    assert_eq!(
        w.advance(InstallEvent::Integrated { ok: false }),
        InstallAction::Register { checksum: OTHER.into(), notice: Some(InstallWarning::IntegrationFailed) }
    );
}

#[test]
fn deleting_a_wrong_download_ends_the_installation() {
    let mut w = Installer::new(&hello(SUM), "/p", false, false);
    w.advance(InstallEvent::Start { installed: false });
    w.advance(InstallEvent::Downloaded);
    w.advance(hashed(OTHER));
    assert_eq!(
        w.advance(InstallEvent::Answered { delete: true }),
        InstallAction::Discard { staging: "/p/tmp/hello.part".into(), error: InstallError::ChecksumMismatch }
    );
    assert_eq!(w.state(), InstallState::Failed(Stage::Verifying));
    assert_eq!(
        w.advance(InstallEvent::Promoted),
        InstallAction::Abort { error: InstallError::StepFailed(Stage::Verifying) }
    );
}

#[test]
fn yes_accepts_a_wrong_checksum_with_a_warning() {
    let mut w = Installer::new(&hello(SUM), "/p", false, true);
    w.advance(InstallEvent::Start { installed: false });
    w.advance(InstallEvent::Downloaded);
    assert!(matches!(
        w.advance(hashed(OTHER)),
        InstallAction::Promote { warning: Some(InstallWarning::ChecksumMismatch), .. }
    ));
    assert_eq!(w.state(), InstallState::Promoting);
}

#[test]
fn a_failure_leaves_the_staging_file() {
    let events: Vec<fn() -> InstallEvent> = vec![
        || InstallEvent::Start { installed: false },
        || InstallEvent::Downloaded,
        || InstallEvent::Hashed { checksum: SUM.to_string() },
        || InstallEvent::Promoted,
        || InstallEvent::Integrated { ok: true },
        || InstallEvent::Registered,
    ];
    let stages = [
        Stage::Planned,
        Stage::Downloading,
        Stage::Verifying,
        Stage::Promoting,
        Stage::Integrating,
        Stage::Registering,
        Stage::Registering,
    ];
    for fail_at in 0..=events.len() {
        let mut w = Installer::new(&hello(SUM), "/p", false, false);
        for e in events.iter().take(fail_at) {
            w.advance(e());
        }
        let action = w.advance(InstallEvent::Failure);
        assert_eq!(action, InstallAction::Abort { error: InstallError::StepFailed(stages[fail_at]) });
        assert_eq!(w.state(), InstallState::Failed(stages[fail_at]));
    }
}

#[test]
fn an_event_out_of_turn_fails_the_worker() {
    let mut w = Installer::new(&hello(SUM), "/p", false, false);
    assert_eq!(w.advance(InstallEvent::Promoted), InstallAction::Abort { error: InstallError::Unexpected });
    assert_eq!(w.state(), InstallState::Failed(Stage::Planned));
}

#[test]
fn stages_of_states() {
    assert_eq!(stage_for(InstallState::Hashing), Stage::Verifying);
    assert_eq!(stage_for(InstallState::Confirming), Stage::Verifying);
    assert_eq!(stage_for(InstallState::Linking), Stage::Registering);
    assert_eq!(stage_for(InstallState::Failed(Stage::Promoting)), Stage::Promoting);
}

fn link(target: &str, tag: OwnershipTag) -> ExistingLink {
    ExistingLink::Link { target: target.to_string(), tag }
}

#[test]
fn a_missing_link_is_created() {
    assert_eq!(plan_symlink(&ExistingLink::Absent, "/p", "/p/1-a/a", "a", false), LinkDecision::Create);
}

#[test]
fn a_link_to_an_older_version_is_replaced_and_the_old_version_goes() {
    let existing = link("/r/packages/aaaaaaaa-musl-curl/curl", OwnershipTag::Managed);
    assert_eq!(
        plan_symlink(&existing, "/r/packages", "/r/packages/bbbbbbbb-musl-curl/curl", "musl-curl", false),
        LinkDecision::Replace { stale_dir: Some("/r/packages/aaaaaaaa-musl-curl".into()) }
    );
}

#[test]
fn a_link_to_the_artifact_itself_is_replaced() {
    let existing = link("/r/packages/aaaaaaaa-curl/curl", OwnershipTag::Managed);
    assert_eq!(
        plan_symlink(&existing, "/r/packages", "/r/packages/aaaaaaaa-curl/curl", "curl", false),
        LinkDecision::Replace { stale_dir: None }
    );
}

#[test]
fn a_link_of_another_package_is_asked_about() {
    let existing = link("/r/packages/aaaaaaaa-glibc-curl/curl", OwnershipTag::Managed);
    assert_eq!(
        plan_symlink(&existing, "/r/packages", "/r/packages/bbbbbbbb-musl-curl/curl", "musl-curl", false),
        LinkDecision::Ask { owner: "glibc-curl".into() }
    );
    assert_eq!(
        plan_symlink(&existing, "/r/packages", "/r/packages/bbbbbbbb-musl-curl/curl", "musl-curl", true),
        LinkDecision::Replace { stale_dir: None }
    );
}

#[test]
fn foreign_links_are_refused() {
    let outside = link("/usr/bin/curl", OwnershipTag::Managed);
    assert_eq!(plan_symlink(&outside, "/r/packages", "/r/packages/b-curl/curl", "curl", true), LinkDecision::Refuse);
    let untagged = link("/r/packages/aaaaaaaa-curl/curl", OwnershipTag::Foreign);
    assert_eq!(plan_symlink(&untagged, "/r/packages", "/r/packages/b-curl/curl", "curl", true), LinkDecision::Refuse);
    let sibling = link("/r/packages-old/aaaaaaaa-curl/curl", OwnershipTag::Managed);
    assert_eq!(plan_symlink(&sibling, "/r/packages", "/r/packages/b-curl/curl", "curl", true), LinkDecision::Refuse);
    let dir_itself = link("/r/packages/", OwnershipTag::Managed);
    assert_eq!(plan_symlink(&dir_itself, "/r/packages", "/r/packages/b-curl/curl", "curl", true), LinkDecision::Refuse);
    assert_eq!(plan_symlink(&ExistingLink::Other, "/r/packages", "/r/packages/b-curl/curl", "curl", true), LinkDecision::Refuse);
    let nameless = link("/r/packages/tmp/x", OwnershipTag::Managed);
    assert_eq!(plan_symlink(&nameless, "/r/packages", "/r/packages/b-curl/curl", "curl", true), LinkDecision::Refuse);
}

#[test]
fn without_tags_the_owner_is_still_told_by_the_directory() {
    let existing = link("/r/packages/aaaaaaaa-curl/curl", OwnershipTag::Unsupported);
    assert_eq!(
        plan_symlink(&existing, "/r/packages", "/r/packages/bbbbbbbb-curl/curl", "curl", false),
        LinkDecision::Replace { stale_dir: Some("/r/packages/aaaaaaaa-curl".into()) }
    );
}

#[test]
fn installed_packages_are_skipped_unless_forced() {
    let mut tracker = InstalledPackages::new();
    let mut a = hello(SUM);
    a.package.pkg = "a".into();
    let mut b = hello(SUM);
    b.package.pkg = "b".into();
    let mut c = hello(SUM);
    c.package.pkg = "c".into();
    tracker.register_package(&b, SUM, 1);
    let batch = vec![a.clone(), b.clone(), c.clone()];
    let plan = plan_installation(&batch, &tracker, false);
    assert_eq!(plan.to_install, vec![a.clone(), c.clone()]);
    assert_eq!(plan.skipped, vec![b.clone()]);
    assert!(plan.reinstalled.is_empty());
    let plan = plan_installation(&batch, &tracker, true);
    assert_eq!(plan.to_install, batch);
    assert!(plan.skipped.is_empty());
    assert_eq!(plan.reinstalled, vec![b]);
}

#[test]
fn worker_limits() {
    assert_eq!(effective_worker_limit(None, None), 4);
    assert_eq!(effective_worker_limit(Some(true), Some(2)), 2);
    assert_eq!(effective_worker_limit(Some(true), None), 4);
    assert_eq!(effective_worker_limit(Some(false), Some(8)), 1);
    assert_eq!(effective_worker_limit(None, Some(0)), 1);
}

#[test]
fn four_installs_with_a_limit_of_two() {
    let mut pool = WorkerPool::new(4, 2);
    assert_eq!(pool.try_start(), Some(0));
    assert_eq!(pool.try_start(), Some(1));
    assert_eq!(pool.try_start(), None);
    assert_eq!(pool.running(), 2);
    assert!(pool.complete(true));
    assert_eq!(pool.running(), 1);
    assert_eq!(pool.try_start(), Some(2));
    assert_eq!(pool.try_start(), None);
    assert!(pool.complete(false));
    assert_eq!(pool.try_start(), Some(3));
    assert_eq!(pool.try_start(), None);
    assert!(!pool.is_done());
    assert!(pool.complete(true));
    assert!(pool.complete(true));
    assert!(!pool.complete(true));
    assert!(pool.is_done());
    assert_eq!(pool.try_start(), None);
    assert_eq!(pool.summary(), (3, 4));
    assert_eq!(pool.running(), 0);
}

#[test]
fn a_pool_never_runs_more_than_its_limit() {
    for limit in 0..5u32 {
        let mut pool = WorkerPool::new(7, limit);
        let bound = limit.max(1) as usize;
        let mut step = 0u32;
        while !pool.is_done() {
            step += 1;
            if step % 3 != 0 {
                pool.try_start();
            } else {
                pool.complete(step % 2 == 0);
            }
            assert!(pool.running() <= bound);
            if step > 200 {
                while pool.complete(true) {}
                while pool.try_start().is_some() {
                    pool.complete(true);
                }
            }
        }
        assert_eq!(pool.summary().1, 7);
    }
}
