//! The catalog and the record of installations together, and the commands
//! that need both.

use crate::install::OwnershipTag;
use crate::installed::{
    key_of, position_of, recorded, InstalledPackageView, InstalledPackages,
};
use crate::package::{
    full_name_of, install_dir_name, join_path, path_join, ResolvedPackage, ResolvedPackageView,
};
use crate::storage::PackageStorage;
use vstd::prelude::*;

verus! {

/// Everything that is known about packages: what the repositories offer
/// and what is installed.
#[derive(Debug, PartialEq, Eq)]
pub struct PackageRegistry {
    pub storage: PackageStorage,
    pub installed_packages: InstalledPackages,
}

/// What switching the link of a binary to a package takes.
#[derive(Debug, PartialEq, Eq)]
pub enum UsePlan {
    /// The package is installed: point `symlink_path` at `install_path`.
    Link { install_path: String, symlink_path: String },
    /// The package is not installed: install it first.
    Install,
    /// What stands at the place of the link is not ours.
    NotManaged { symlink_path: String },
}

/// Mathematical model of a [`UsePlan`].
pub enum UsePlanView {
    Link { install_path: Seq<char>, symlink_path: Seq<char> },
    Install,
    NotManaged { symlink_path: Seq<char> },
}

impl View for UsePlan {
    type V = UsePlanView;

    open spec fn view(&self) -> UsePlanView {
        match self {
            UsePlan::Link { install_path, symlink_path } => UsePlanView::Link {
                install_path: install_path@,
                symlink_path: symlink_path@,
            },
            UsePlan::Install => UsePlanView::Install,
            UsePlan::NotManaged { symlink_path } => UsePlanView::NotManaged {
                symlink_path: symlink_path@,
            },
        }
    }
}

/// The rule for switching the link of a binary to a package. A package
/// that is not installed is installed first. Otherwise the link
/// `<bin>/<binary>` is pointed at the installed artifact, unless something
/// stands there that is known not to be ours.
pub open spec fn use_rule(
    records: Seq<InstalledPackageView>,
    p: ResolvedPackageView,
    existing: Option<OwnershipTag>,
    bin_path: Seq<char>,
    packages_path: Seq<char>,
) -> UsePlanView {
    if !recorded(records, key_of(p)) {
        UsePlanView::Install
    } else {
        let record = records[position_of(records, key_of(p))];
        let link = join_path(bin_path, record.bin_name);
        if existing == Some(OwnershipTag::Foreign) {
            UsePlanView::NotManaged { symlink_path: link }
        } else {
            UsePlanView::Link {
                install_path: join_path(
                    join_path(
                        packages_path,
                        install_dir_name(
                            record.checksum,
                            full_name_of(p.package.family, p.package.pkg, '-'),
                        ),
                    ),
                    p.package.pkg_name,
                ),
                symlink_path: link,
            }
        }
    }
}

impl PackageRegistry {
    /// A registry of what `storage` offers and `installed_packages`
    /// records.
    pub fn new(storage: PackageStorage, installed_packages: InstalledPackages) -> (r: Self)
        ensures
            r.storage@ == storage@,
            r.installed_packages@ == installed_packages@,
    {
        PackageRegistry { storage, installed_packages }
    }

    /// Plans the switch of the link of a binary to `package`. `existing`
    /// tells the tag of what stands at the place of the link, if anything
    /// stands there.
    pub fn use_package(
        &self,
        package: &ResolvedPackage,
        existing: Option<OwnershipTag>,
        bin_path: &str,
        packages_path: &str,
    ) -> (r: UsePlan)
        ensures
            r@ == use_rule(
                self.installed_packages@,
                package@,
                existing,
                bin_path@,
                packages_path@,
            ),
    {
        match self.installed_packages.find_package(package) {
            None => UsePlan::Install,
            Some(record) => {
                let symlink_path = path_join(bin_path, record.bin_name.as_str());
                match existing {
                    Some(OwnershipTag::Foreign) => UsePlan::NotManaged { symlink_path },
                    _ => UsePlan::Link {
                        install_path: package.package.get_install_path(
                            packages_path,
                            record.checksum.as_str(),
                        ),
                        symlink_path,
                    },
                }
            },
        }
    }
}

} // verus!
