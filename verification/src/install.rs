//! The per-package install worker as a state machine.
//!
//! The worker itself downloads, hashes, renames and links; those steps are
//! performed by the caller. After each step the caller reports what happened
//! as an [`InstallEvent`], and [`Installer::advance`] answers with the next
//! [`InstallAction`]. The stages only move forward, and a failure at any stage
//! leaves the staging file where it is so that a later run can resume.

use crate::package::{
    full_name_of, install_dir_name, join_path, path_join, ResolvedPackage, ResolvedPackageView,
};
use crate::text::str_eq;
use vstd::prelude::*;
use vstd::string::*;

verus! {

/// The stages a package passes through while it is installed.
#[derive(Debug, Clone, Copy, PartialEq, Eq, Structural)]
pub enum Stage {
    Planned,
    Downloading,
    Verifying,
    Promoting,
    Integrating,
    Registering,
    Done,
}

/// Where an install worker stands.
#[derive(Debug, Clone, Copy, PartialEq, Eq, Structural)]
pub enum InstallState {
    /// Nothing was done yet.
    Planned,
    /// The artifact is being downloaded to the staging file.
    Downloading,
    /// The staging file is being hashed.
    Hashing,
    /// The checksum did not match and the user is being asked what to do.
    Confirming,
    /// The staging file is being moved to its install path.
    Promoting,
    /// The artifact is being integrated with the desktop.
    Integrating,
    /// The installation is being recorded.
    Registering,
    /// The link in the binary directory is being set.
    Linking,
    /// The package is installed.
    Done,
    /// The installation failed at the given stage.
    Failed(Stage),
}

/// What the caller reports to the worker.
#[derive(Debug, PartialEq, Eq)]
pub enum InstallEvent {
    /// The worker is started; `installed` says whether the package already
    /// has a record.
    Start { installed: bool },
    /// The download completed.
    Downloaded,
    /// The staging file was hashed.
    Hashed { checksum: String },
    /// The user answered whether a mismatching download is to be deleted.
    Answered { delete: bool },
    /// The staging file was moved to the install path.
    Promoted,
    /// Desktop integration ended, successfully or not.
    Integrated { ok: bool },
    /// The installation was recorded.
    Registered,
    /// The link in the binary directory was dealt with.
    Linked,
    /// The step that was asked for failed.
    Failure,
}

/// Mathematical model of an [`InstallEvent`].
pub enum InstallEventView {
    Start { installed: bool },
    Downloaded,
    Hashed { checksum: Seq<char> },
    Answered { delete: bool },
    Promoted,
    Integrated { ok: bool },
    Registered,
    Linked,
    Failure,
}

impl View for InstallEvent {
    type V = InstallEventView;

    open spec fn view(&self) -> InstallEventView {
        match self {
            InstallEvent::Start { installed } => InstallEventView::Start { installed: *installed },
            InstallEvent::Downloaded => InstallEventView::Downloaded,
            InstallEvent::Hashed { checksum } => InstallEventView::Hashed { checksum: checksum@ },
            InstallEvent::Answered { delete } => InstallEventView::Answered { delete: *delete },
            InstallEvent::Promoted => InstallEventView::Promoted,
            InstallEvent::Integrated { ok } => InstallEventView::Integrated { ok: *ok },
            InstallEvent::Registered => InstallEventView::Registered,
            InstallEvent::Linked => InstallEventView::Linked,
            InstallEvent::Failure => InstallEventView::Failure,
        }
    }
}

/// Something the user is to be warned of while the installation goes on.
#[derive(Debug, Clone, Copy, PartialEq, Eq, Structural)]
pub enum InstallWarning {
    /// The catalog gives no checksum; the artifact is installed unchecked.
    MissingChecksum,
    /// The checksum differs from the catalog's; the artifact is installed
    /// all the same.
    ChecksumMismatch,
    /// Desktop integration failed.
    IntegrationFailed,
}

/// Why a worker stopped.
#[derive(Debug, Clone, Copy, PartialEq, Eq, Structural)]
pub enum InstallError {
    /// The package is installed and no reinstallation was asked for.
    AlreadyInstalled,
    /// The checksum did not match and the download was deleted.
    ChecksumMismatch,
    /// The step of the given stage failed.
    StepFailed(Stage),
    /// The event does not belong to the state the worker is in.
    Unexpected,
}

/// What the caller is to do next.
#[derive(Debug, PartialEq, Eq)]
pub enum InstallAction {
    /// Download `url` to `staging`, resuming what is already there.
    Download { url: String, staging: String },
    /// Compute the checksum of `staging`.
    Hash { staging: String },
    /// Ask the user whether the mismatching download is to be deleted.
    AskDelete,
    /// Create `install_dir`, move `staging` to `install_path`, make it
    /// executable and tag it.
    Promote { staging: String, install_dir: String, install_path: String, warning: Option<
        InstallWarning,
    > },
    /// Classify the artifact at `install_path` and integrate it.
    Integrate { install_path: String },
    /// Record the installation with `checksum`.
    Register { checksum: String, notice: Option<InstallWarning> },
    /// Point the link for `bin_name` at `install_path`.
    Link { install_path: String, bin_name: String },
    /// Nothing is left to do.
    Finish,
    /// Delete `staging` and give up.
    Discard { staging: String, error: InstallError },
    /// Give up; the staging file stays for a later run.
    Abort { error: InstallError },
}

/// Mathematical model of an [`InstallAction`].
pub enum InstallActionView {
    Download { url: Seq<char>, staging: Seq<char> },
    Hash { staging: Seq<char> },
    AskDelete,
    Promote {
        staging: Seq<char>,
        install_dir: Seq<char>,
        install_path: Seq<char>,
        warning: Option<InstallWarning>,
    },
    Integrate { install_path: Seq<char> },
    Register { checksum: Seq<char>, notice: Option<InstallWarning> },
    Link { install_path: Seq<char>, bin_name: Seq<char> },
    Finish,
    Discard { staging: Seq<char>, error: InstallError },
    Abort { error: InstallError },
}

impl View for InstallAction {
    type V = InstallActionView;

    open spec fn view(&self) -> InstallActionView {
        match self {
            InstallAction::Download { url, staging } => InstallActionView::Download {
                url: url@,
                staging: staging@,
            },
            InstallAction::Hash { staging } => InstallActionView::Hash { staging: staging@ },
            InstallAction::AskDelete => InstallActionView::AskDelete,
            InstallAction::Promote {
                staging,
                install_dir,
                install_path,
                warning,
            } => InstallActionView::Promote {
                staging: staging@,
                install_dir: install_dir@,
                install_path: install_path@,
                warning: *warning,
            },
            InstallAction::Integrate { install_path } => InstallActionView::Integrate {
                install_path: install_path@,
            },
            InstallAction::Register { checksum, notice } => InstallActionView::Register {
                checksum: checksum@,
                notice: *notice,
            },
            InstallAction::Link { install_path, bin_name } => InstallActionView::Link {
                install_path: install_path@,
                bin_name: bin_name@,
            },
            InstallAction::Finish => InstallActionView::Finish,
            InstallAction::Discard { staging, error } => InstallActionView::Discard {
                staging: staging@,
                error: *error,
            },
            InstallAction::Abort { error } => InstallActionView::Abort { error: *error },
        }
    }
}

/// The stage a state belongs to.
pub open spec fn stage_of(state: InstallState) -> Stage {
    match state {
        InstallState::Planned => Stage::Planned,
        InstallState::Downloading => Stage::Downloading,
        InstallState::Hashing => Stage::Verifying,
        InstallState::Confirming => Stage::Verifying,
        InstallState::Promoting => Stage::Promoting,
        InstallState::Integrating => Stage::Integrating,
        InstallState::Registering => Stage::Registering,
        InstallState::Linking => Stage::Registering,
        InstallState::Done => Stage::Done,
        InstallState::Failed(stage) => stage,
    }
}

/// How far a state is along the way; a failed worker counts as farthest.
pub open spec fn progress(state: InstallState) -> nat {
    match state {
        InstallState::Planned => 0,
        InstallState::Downloading => 1,
        InstallState::Hashing => 2,
        InstallState::Confirming => 3,
        InstallState::Promoting => 4,
        InstallState::Integrating => 5,
        InstallState::Registering => 6,
        InstallState::Linking => 7,
        InstallState::Done => 8,
        InstallState::Failed(_) => 9,
    }
}

/// Whether a worker in this state has ended.
pub open spec fn is_final(state: InstallState) -> bool {
    state == InstallState::Done || state is Failed
}

/// The staging file of a package: `<packages>/tmp/<full name>.part`.
pub open spec fn staging_path(packages_path: Seq<char>, p: ResolvedPackageView) -> Seq<char> {
    join_path(join_path(packages_path, "tmp"@), full_name_of(p.package.family, p.package.pkg, '-'))
        + ".part"@
}

/// The install directory of a package for a checksum.
pub open spec fn install_dir_of(
    packages_path: Seq<char>,
    p: ResolvedPackageView,
    checksum: Seq<char>,
) -> Seq<char> {
    join_path(
        packages_path,
        install_dir_name(checksum, full_name_of(p.package.family, p.package.pkg, '-')),
    )
}

/// The path of the artifact of a package for a checksum.
pub open spec fn install_path_of(
    packages_path: Seq<char>,
    p: ResolvedPackageView,
    checksum: Seq<char>,
) -> Seq<char> {
    join_path(install_dir_of(packages_path, p, checksum), p.package.pkg_name)
}

/// What is known of a worker.
pub struct InstallerView {
    pub package: ResolvedPackageView,
    pub packages_path: Seq<char>,
    pub install_path: Seq<char>,
    pub temp_path: Seq<char>,
    pub force: bool,
    pub yes: bool,
    pub state: InstallState,
    pub checksum: Option<Seq<char>>,
}

/// The state a worker is in after an event.
pub open spec fn next_state(w: InstallerView, event: InstallEventView) -> InstallState {
    match (w.state, event) {
        (InstallState::Done, _) => InstallState::Done,
        (InstallState::Failed(stage), _) => InstallState::Failed(stage),
        (InstallState::Planned, InstallEventView::Start { installed }) => if installed && !w.force {
            InstallState::Failed(Stage::Planned)
        } else {
            InstallState::Downloading
        },
        (InstallState::Downloading, InstallEventView::Downloaded) => InstallState::Hashing,
        (InstallState::Hashing, InstallEventView::Hashed { checksum }) => if w.package.package.bsum
            == "null"@ || w.package.package.bsum == checksum || w.yes {
            InstallState::Promoting
        } else {
            InstallState::Confirming
        },
        (InstallState::Confirming, InstallEventView::Answered { delete }) => if delete {
            InstallState::Failed(Stage::Verifying)
        } else {
            InstallState::Promoting
        },
        (InstallState::Promoting, InstallEventView::Promoted) => InstallState::Integrating,
        (InstallState::Integrating, InstallEventView::Integrated { ok }) => InstallState::Registering,
        (InstallState::Registering, InstallEventView::Registered) => InstallState::Linking,
        (InstallState::Linking, InstallEventView::Linked) => InstallState::Done,
        (state, _) => InstallState::Failed(stage_of(state)),
    }
}

/// The checksum a worker knows after an event.
pub open spec fn next_checksum(w: InstallerView, event: InstallEventView) -> Option<Seq<char>> {
    match (w.state, event) {
        (InstallState::Hashing, InstallEventView::Hashed { checksum }) => Some(checksum),
        _ => w.checksum,
    }
}

/// The warning that goes with accepting a checksum.
pub open spec fn checksum_warning(bsum: Seq<char>, checksum: Seq<char>) -> Option<InstallWarning> {
    if bsum == "null"@ {
        Some(InstallWarning::MissingChecksum)
    } else if bsum == checksum {
        None
    } else {
        Some(InstallWarning::ChecksumMismatch)
    }
}

/// What the caller is asked to do after an event.
pub open spec fn next_action(w: InstallerView, event: InstallEventView) -> InstallActionView {
    let p = w.package;
    match (w.state, event) {
        (InstallState::Done, _) => InstallActionView::Finish,
        (InstallState::Failed(stage), _) => InstallActionView::Abort {
            error: InstallError::StepFailed(stage),
        },
        (InstallState::Planned, InstallEventView::Start { installed }) => if installed && !w.force {
            InstallActionView::Abort { error: InstallError::AlreadyInstalled }
        } else {
            InstallActionView::Download { url: p.package.download_url, staging: w.temp_path }
        },
        (InstallState::Downloading, InstallEventView::Downloaded) => InstallActionView::Hash {
            staging: w.temp_path,
        },
        (InstallState::Hashing, InstallEventView::Hashed { checksum }) => if p.package.bsum
            == "null"@ || p.package.bsum == checksum || w.yes {
            InstallActionView::Promote {
                staging: w.temp_path,
                install_dir: install_dir_of(w.packages_path, p, checksum),
                install_path: install_path_of(w.packages_path, p, checksum),
                warning: checksum_warning(p.package.bsum, checksum),
            }
        } else {
            InstallActionView::AskDelete
        },
        (InstallState::Confirming, InstallEventView::Answered { delete }) => if delete {
            InstallActionView::Discard {
                staging: w.temp_path,
                error: InstallError::ChecksumMismatch,
            }
        } else {
            InstallActionView::Promote {
                staging: w.temp_path,
                install_dir: install_dir_of(w.packages_path, p, w.checksum.unwrap()),
                install_path: install_path_of(w.packages_path, p, w.checksum.unwrap()),
                warning: Some(InstallWarning::ChecksumMismatch),
            }
        },
        (InstallState::Promoting, InstallEventView::Promoted) => InstallActionView::Integrate {
            install_path: w.install_path,
        },
        (InstallState::Integrating, InstallEventView::Integrated { ok }) => InstallActionView::Register {
            checksum: w.checksum.unwrap(),
            notice: if ok {
                None
            } else {
                Some(InstallWarning::IntegrationFailed)
            },
        },
        (InstallState::Registering, InstallEventView::Registered) => InstallActionView::Link {
            install_path: w.install_path,
            bin_name: p.package.pkg_name,
        },
        (InstallState::Linking, InstallEventView::Linked) => InstallActionView::Finish,
        (state, InstallEventView::Failure) => InstallActionView::Abort {
            error: InstallError::StepFailed(stage_of(state)),
        },
        (state, _) => InstallActionView::Abort { error: InstallError::Unexpected },
    }
}

/// The install path a worker knows after an event: once the artifact was
/// hashed it is the path for that checksum.
pub open spec fn next_install_path(w: InstallerView, event: InstallEventView) -> Seq<char> {
    match (w.state, event) {
        (InstallState::Hashing, InstallEventView::Hashed { checksum }) => install_path_of(
            w.packages_path,
            w.package,
            checksum,
        ),
        _ => w.install_path,
    }
}

/// A worker that installs one package.
#[derive(Debug, PartialEq, Eq)]
pub struct Installer {
    resolved_package: ResolvedPackage,
    packages_path: String,
    install_path: String,
    temp_path: String,
    force: bool,
    yes: bool,
    state: InstallState,
    checksum: Option<String>,
}

impl View for Installer {
    type V = InstallerView;

    closed spec fn view(&self) -> InstallerView {
        InstallerView {
            package: self.resolved_package@,
            packages_path: self.packages_path@,
            install_path: self.install_path@,
            temp_path: self.temp_path@,
            force: self.force,
            yes: self.yes,
            state: self.state,
            checksum: crate::package::opt_text(self.checksum),
        }
    }
}

impl Installer {
    /// Whether the worker knows a checksum in every state that needs one.
    pub open spec fn wf(&self) -> bool {
        let w = self@;
        &&& (progress(w.state) >= 3 && !(w.state is Failed) ==> w.checksum is Some)
        &&& (w.checksum is Some ==> w.install_path == install_path_of(
            w.packages_path,
            w.package,
            w.checksum.unwrap(),
        ))
    }

    /// A worker for `package` that has not started. Until the artifact was
    /// hashed its install path is the one for the checksum of the catalog.
    pub fn new(package: &ResolvedPackage, packages_path: &str, force: bool, yes: bool) -> (r: Self)
        ensures
            r.wf(),
            r@ == (InstallerView {
                package: package@,
                packages_path: packages_path@,
                install_path: install_path_of(packages_path@, package@, package@.package.bsum),
                temp_path: staging_path(packages_path@, package@),
                force,
                yes,
                state: InstallState::Planned,
                checksum: None,
            }),
    {
        let tmp = path_join(packages_path, "tmp");
        let name = package.package.full_name('-');
        let mut temp_path = path_join(tmp.as_str(), name.as_str());
        temp_path.append(".part");
        let install_path = package.package.get_install_path(
            packages_path,
            package.package.bsum.as_str(),
        );
        Installer {
            resolved_package: package.clone(),
            packages_path: packages_path.to_owned(),
            install_path,
            temp_path,
            force,
            yes,
            state: InstallState::Planned,
            checksum: None,
        }
    }

    /// The state the worker is in.
    pub fn state(&self) -> (r: InstallState)
        ensures
            r == self@.state,
    {
        self.state
    }

    /// The stage the worker is in or failed at.
    pub fn stage(&self) -> (r: Stage)
        ensures
            r == stage_of(self@.state),
    {
        stage_for(self.state)
    }

    /// The staging file of the worker.
    pub fn temp_path(&self) -> (r: &str)
        ensures
            r@ == self@.temp_path,
    {
        self.temp_path.as_str()
    }

    /// The path the artifact is, or is to be, installed at.
    pub fn install_path(&self) -> (r: &str)
        ensures
            r@ == self@.install_path,
    {
        self.install_path.as_str()
    }

    /// The package the worker installs.
    pub fn package(&self) -> (r: &ResolvedPackage)
        ensures
            r@ == self@.package,
    {
        &self.resolved_package
    }

    /// Takes note of what happened and says what is to be done next.
    pub fn advance(&mut self, event: InstallEvent) -> (action: InstallAction)
        requires
            old(self).wf(),
        ensures
            final(self).wf(),
            final(self)@ == (InstallerView {
                state: next_state(old(self)@, event@),
                checksum: next_checksum(old(self)@, event@),
                install_path: next_install_path(old(self)@, event@),
                ..old(self)@
            }),
            action@ == next_action(old(self)@, event@),
    {
        let state = self.state;
        match state {
            InstallState::Done => {
                return InstallAction::Finish;
            },
            InstallState::Failed(stage) => {
                return InstallAction::Abort { error: InstallError::StepFailed(stage) };
            },
            _ => {},
        }
        match (state, event) {
            (InstallState::Planned, InstallEvent::Start { installed }) => {
                if installed && !self.force {
                    self.state = InstallState::Failed(Stage::Planned);
                    InstallAction::Abort { error: InstallError::AlreadyInstalled }
                } else {
                    self.state = InstallState::Downloading;
                    InstallAction::Download {
                        url: self.resolved_package.package.download_url.clone(),
                        staging: self.temp_path.clone(),
                    }
                }
            },
            (InstallState::Downloading, InstallEvent::Downloaded) => {
                self.state = InstallState::Hashing;
                InstallAction::Hash { staging: self.temp_path.clone() }
            },
            (InstallState::Hashing, InstallEvent::Hashed { checksum }) => {
                let bsum = self.resolved_package.package.bsum.as_str();
                let missing = str_eq(bsum, "null");
                let matches = str_eq(bsum, checksum.as_str());
                let install_dir = self.resolved_package.package.get_install_dir(
                    self.packages_path.as_str(),
                    checksum.as_str(),
                );
                let install_path = self.resolved_package.package.get_install_path(
                    self.packages_path.as_str(),
                    checksum.as_str(),
                );
                self.install_path = install_path.clone();
                self.checksum = Some(checksum);
                if missing || matches || self.yes {
                    self.state = InstallState::Promoting;
                    let warning = if missing {
                        Some(InstallWarning::MissingChecksum)
                    } else if matches {
                        None
                    } else {
                        Some(InstallWarning::ChecksumMismatch)
                    };
                    InstallAction::Promote {
                        staging: self.temp_path.clone(),
                        install_dir,
                        install_path,
                        warning,
                    }
                } else {
                    self.state = InstallState::Confirming;
                    InstallAction::AskDelete
                }
            },
            (InstallState::Confirming, InstallEvent::Answered { delete }) => {
                if delete {
                    self.state = InstallState::Failed(Stage::Verifying);
                    InstallAction::Discard {
                        staging: self.temp_path.clone(),
                        error: InstallError::ChecksumMismatch,
                    }
                } else {
                    self.state = InstallState::Promoting;
                    let checksum = match &self.checksum {
                        Some(c) => c.clone(),
                        None => String::new(),
                    };
                    let install_dir = self.resolved_package.package.get_install_dir(
                        self.packages_path.as_str(),
                        checksum.as_str(),
                    );
                    InstallAction::Promote {
                        staging: self.temp_path.clone(),
                        install_dir,
                        install_path: self.install_path.clone(),
                        warning: Some(InstallWarning::ChecksumMismatch),
                    }
                }
            },
            (InstallState::Promoting, InstallEvent::Promoted) => {
                self.state = InstallState::Integrating;
                InstallAction::Integrate { install_path: self.install_path.clone() }
            },
            (InstallState::Integrating, InstallEvent::Integrated { ok }) => {
                self.state = InstallState::Registering;
                let checksum = match &self.checksum {
                    Some(c) => c.clone(),
                    None => String::new(),
                };
                InstallAction::Register {
                    checksum,
                    notice: if ok {
                        None
                    } else {
                        Some(InstallWarning::IntegrationFailed)
                    },
                }
            },
            (InstallState::Registering, InstallEvent::Registered) => {
                self.state = InstallState::Linking;
                InstallAction::Link {
                    install_path: self.install_path.clone(),
                    bin_name: self.resolved_package.package.pkg_name.clone(),
                }
            },
            (InstallState::Linking, InstallEvent::Linked) => {
                self.state = InstallState::Done;
                InstallAction::Finish
            },
            (state, InstallEvent::Failure) => {
                let stage = stage_for(state);
                self.state = InstallState::Failed(stage);
                InstallAction::Abort { error: InstallError::StepFailed(stage) }
            },
            (state, _) => {
                self.state = InstallState::Failed(stage_for(state));
                InstallAction::Abort { error: InstallError::Unexpected }
            },
        }
    }
}

/// The stage a state belongs to.
pub fn stage_for(state: InstallState) -> (r: Stage)
    ensures
        r == stage_of(state),
{
    match state {
        InstallState::Planned => Stage::Planned,
        InstallState::Downloading => Stage::Downloading,
        InstallState::Hashing => Stage::Verifying,
        InstallState::Confirming => Stage::Verifying,
        InstallState::Promoting => Stage::Promoting,
        InstallState::Integrating => Stage::Integrating,
        InstallState::Registering => Stage::Registering,
        InstallState::Linking => Stage::Registering,
        InstallState::Done => Stage::Done,
        InstallState::Failed(stage) => stage,
    }
}

/// A worker only moves forward: an event takes a worker that has not ended
/// to a state farther along, and leaves one that has ended where it is.
pub proof fn lemma_stages_move_forward(w: InstallerView, event: InstallEventView)
    ensures
        !is_final(w.state) ==> progress(next_state(w, event)) > progress(w.state),
        is_final(w.state) ==> next_state(w, event) == w.state,
{
}

/// A failure, or an event that does not belong to the state, never asks for
/// the staging file to be deleted: only the user's answer does.
pub proof fn lemma_failure_keeps_staging(w: InstallerView, event: InstallEventView)
    ensures
        next_action(w, event) is Discard ==> w.state == InstallState::Confirming && event
            == (InstallEventView::Answered { delete: true }),
{
}

/// The checksum that is recorded is the checksum of the artifact: a worker
/// that saw the staging file hashed promotes it to the install path of
/// that checksum and registers it with that checksum, whatever came between.
pub proof fn lemma_recorded_checksum_is_hashed(w: InstallerView, checksum: Seq<char>, ok: bool)
    requires
        w.checksum == Some(checksum),
        w.install_path == install_path_of(w.packages_path, w.package, checksum),
    ensures
        w.state == InstallState::Confirming ==> (next_action(
            w,
            InstallEventView::Answered { delete: false },
        ) matches InstallActionView::Promote { install_path, .. } && install_path
            == install_path_of(w.packages_path, w.package, checksum)),
        w.state == InstallState::Integrating ==> (next_action(
            w,
            InstallEventView::Integrated { ok },
        ) matches InstallActionView::Register { checksum: recorded, .. } && recorded == checksum),
        w.state == InstallState::Registering ==> (next_action(w, InstallEventView::Registered)
            matches InstallActionView::Link { install_path, .. } && install_path
            == install_path_of(w.packages_path, w.package, checksum)),
        next_checksum(w, InstallEventView::Promoted) == Some(checksum),
        next_checksum(w, InstallEventView::Integrated { ok }) == Some(checksum),
        next_checksum(w, InstallEventView::Registered) == Some(checksum),
{
}

/// A package without a catalog checksum is promoted unchecked, with a
/// warning, whatever its checksum is.
pub proof fn lemma_missing_checksum_installs(w: InstallerView, checksum: Seq<char>)
    requires
        w.state == InstallState::Hashing,
        w.package.package.bsum == "null"@,
    ensures
        next_state(w, InstallEventView::Hashed { checksum }) == InstallState::Promoting,
        next_action(w, InstallEventView::Hashed { checksum }) matches InstallActionView::Promote {
            warning,
            ..
        } && warning == Some(InstallWarning::MissingChecksum),
{
}

/// Whether the path `path` lies below the directory `dir`.
pub open spec fn is_below(path: Seq<char>, dir: Seq<char>) -> bool {
    path.len() > dir.len() + 1 && path.take(dir.len() as int) == dir && path[dir.len() as int]
        == '/'
}

/// The first component of `path` below the directory `dir`.
pub open spec fn first_component_below(path: Seq<char>, dir: Seq<char>) -> Seq<char> {
    let rest = path.skip(dir.len() as int + 1);
    rest.take(crate::text::first_index_of(rest, '/'))
}

/// The full name of the package that owns an install directory: what
/// follows the first hyphen of the directory's name.
pub open spec fn owner_of_dir(dir_name: Seq<char>) -> Option<Seq<char>> {
    let at = crate::text::first_index_of(dir_name, '-');
    if at < dir_name.len() {
        Some(dir_name.skip(at + 1))
    } else {
        None
    }
}

/// What is known of the tag that marks a file as managed by this program.
#[derive(Debug, Clone, Copy, PartialEq, Eq, Structural)]
pub enum OwnershipTag {
    /// The file carries the tag.
    Managed,
    /// The file does not carry the tag.
    Foreign,
    /// The file system keeps no such tags.
    Unsupported,
}

/// What stands where the link of a binary is to be.
#[derive(Debug, PartialEq, Eq)]
pub enum ExistingLink {
    /// Nothing.
    Absent,
    /// A symbolic link to `target`, whose destination has the given tag.
    Link { target: String, tag: OwnershipTag },
    /// Something that is no symbolic link.
    Other,
}

/// Mathematical model of an [`ExistingLink`].
pub enum ExistingLinkView {
    Absent,
    Link { target: Seq<char>, tag: OwnershipTag },
    Other,
}

impl View for ExistingLink {
    type V = ExistingLinkView;

    open spec fn view(&self) -> ExistingLinkView {
        match self {
            ExistingLink::Absent => ExistingLinkView::Absent,
            ExistingLink::Link { target, tag } => ExistingLinkView::Link {
                target: target@,
                tag: *tag,
            },
            ExistingLink::Other => ExistingLinkView::Other,
        }
    }
}

/// What to do about the link of a binary.
#[derive(Debug, PartialEq, Eq)]
pub enum LinkDecision {
    /// Create the link.
    Create,
    /// Replace the link. `stale_dir` is the install directory of the version
    /// that the link pointed to, which is removed.
    Replace { stale_dir: Option<String> },
    /// The binary belongs to `owner`; ask before taking it over.
    Ask { owner: String },
    /// The link is not ours; leave it alone.
    Refuse,
}

/// Mathematical model of a [`LinkDecision`].
pub enum LinkDecisionView {
    Create,
    Replace { stale_dir: Option<Seq<char>> },
    Ask { owner: Seq<char> },
    Refuse,
}

impl View for LinkDecision {
    type V = LinkDecisionView;

    open spec fn view(&self) -> LinkDecisionView {
        match self {
            LinkDecision::Create => LinkDecisionView::Create,
            LinkDecision::Replace { stale_dir } => LinkDecisionView::Replace {
                stale_dir: crate::package::opt_text(*stale_dir),
            },
            LinkDecision::Ask { owner } => LinkDecisionView::Ask { owner: owner@ },
            LinkDecision::Refuse => LinkDecisionView::Refuse,
        }
    }
}

/// The rule for the link of a binary. A link to the artifact itself is
/// replaced. A link into the package store whose destination is not known to
/// be foreign is replaced without asking when it belongs to an earlier
/// version of the same package, whose directory then goes; when it belongs
/// to another package the user is asked, unless `yes` answers for them.
/// Anything else is not ours and stays.
pub open spec fn link_rule(
    existing: ExistingLinkView,
    packages_path: Seq<char>,
    install_path: Seq<char>,
    full_name: Seq<char>,
    yes: bool,
) -> LinkDecisionView {
    match existing {
        ExistingLinkView::Absent => LinkDecisionView::Create,
        ExistingLinkView::Other => LinkDecisionView::Refuse,
        ExistingLinkView::Link { target, tag } => {
            if tag == OwnershipTag::Foreign || !is_below(target, packages_path) {
                LinkDecisionView::Refuse
            } else if target == install_path {
                LinkDecisionView::Replace { stale_dir: None }
            } else {
                let dir = first_component_below(target, packages_path);
                match owner_of_dir(dir) {
                    Some(owner) => if owner == full_name {
                        LinkDecisionView::Replace {
                            stale_dir: Some(join_path(packages_path, dir)),
                        }
                    } else if yes {
                        LinkDecisionView::Replace { stale_dir: None }
                    } else {
                        LinkDecisionView::Ask { owner }
                    },
                    None => LinkDecisionView::Refuse,
                }
            }
        },
    }
}

/// Decides what to do about the link `<bin>/<binary name>` when the package
/// named `full_name` was installed at `install_path`.
pub fn plan_symlink(
    existing: &ExistingLink,
    packages_path: &str,
    install_path: &str,
    full_name: &str,
    yes: bool,
) -> (r: LinkDecision)
    ensures
        r@ == link_rule(existing@, packages_path@, install_path@, full_name@, yes),
{
    match existing {
        ExistingLink::Absent => LinkDecision::Create,
        ExistingLink::Other => LinkDecision::Refuse,
        ExistingLink::Link { target, tag } => {
            let t = crate::text::to_chars(target.as_str());
            let base = crate::text::to_chars(packages_path);
            let foreign = match tag {
                OwnershipTag::Foreign => true,
                _ => false,
            };
            if foreign || t.len() <= base.len() || t.len() - base.len() <= 1
                || !crate::text::starts_with(t.as_slice(), base.as_slice()) || t[base.len()]
                != '/' {
                assert(tag == OwnershipTag::Foreign || !is_below(target@, packages_path@)) by {
                    if !foreign && t.len() > base.len() + 1 {
                        assert(t@.subrange(0, base.len() as int) =~= t@.take(base.len() as int));
                    }
                }
                return LinkDecision::Refuse;
            }
            assert(is_below(target@, packages_path@)) by {
                assert(t@.subrange(0, base.len() as int) =~= t@.take(base.len() as int));
            }
            if str_eq(target.as_str(), install_path) {
                return LinkDecision::Replace { stale_dir: None };
            }
            let rest = crate::text::to_chars(
                crate::text::substring(t.as_slice(), base.len() + 1, t.len()).as_str(),
            );
            assert(rest@ =~= target@.skip(packages_path@.len() as int + 1));
            let end = match crate::text::find_char(rest.as_slice(), '/') {
                Some(i) => i,
                None => rest.len(),
            };
            let dir = crate::text::to_chars(
                crate::text::substring(rest.as_slice(), 0, end).as_str(),
            );
            assert(dir@ =~= first_component_below(target@, packages_path@));
            match crate::text::find_char(dir.as_slice(), '-') {
                None => LinkDecision::Refuse,
                Some(at) => {
                    let owner = crate::text::substring(dir.as_slice(), at + 1, dir.len());
                    assert(owner@ =~= dir@.skip(at + 1));
                    if str_eq(owner.as_str(), full_name) {
                        let dir_name = crate::text::from_chars(dir.as_slice());
                        LinkDecision::Replace {
                            stale_dir: Some(path_join(packages_path, dir_name.as_str())),
                        }
                    } else if yes {
                        LinkDecision::Replace { stale_dir: None }
                    } else {
                        LinkDecision::Ask { owner }
                    }
                },
            }
        },
    }
}

} // verus!
