//! The record of installed packages and the changes an install, an update or
//! a removal makes to it.

use crate::package::{full_name_of, install_dir_name, ResolvedPackage, ResolvedPackageView};
use crate::seqs::{lemma_deep_view_index, lemma_deep_view_push, lemma_filter_ends, lemma_filter_step};
use crate::text::{
    first_index_of, lemma_first_index_of, lemma_first_index_of_bounds, occurs_at, parse_u64,
    parse_u64_text, starts_with, str_eq, to_chars,
};
use vstd::prelude::*;
use vstd::string::*;

verus! {

/// One installed package.
#[derive(Debug, PartialEq, Eq)]
pub struct InstalledPackage {
    pub repo_name: String,
    pub collection: String,
    /// Full name of the package, family and name joined by a hyphen.
    pub name: String,
    pub bin_name: String,
    pub version: String,
    /// Checksum of the installed artifact.
    pub checksum: String,
    /// Size in bytes as the catalog states it.
    pub size: u64,
    /// Time of the installation, in seconds since the Unix epoch.
    pub timestamp: i64,
}

/// Mathematical model of an [`InstalledPackage`].
pub struct InstalledPackageView {
    pub repo_name: Seq<char>,
    pub collection: Seq<char>,
    pub name: Seq<char>,
    pub bin_name: Seq<char>,
    pub version: Seq<char>,
    pub checksum: Seq<char>,
    pub size: u64,
    pub timestamp: i64,
}

impl View for InstalledPackage {
    type V = InstalledPackageView;

    open spec fn view(&self) -> InstalledPackageView {
        InstalledPackageView {
            repo_name: self.repo_name@,
            collection: self.collection@,
            name: self.name@,
            bin_name: self.bin_name@,
            version: self.version@,
            checksum: self.checksum@,
            size: self.size,
            timestamp: self.timestamp,
        }
    }
}

impl DeepView for InstalledPackage {
    type V = InstalledPackageView;

    open spec fn deep_view(&self) -> InstalledPackageView {
        self@
    }
}

impl Clone for InstalledPackage {
    fn clone(&self) -> (r: Self)
        ensures
            r@ == self@,
    {
        InstalledPackage {
            repo_name: self.repo_name.clone(),
            collection: self.collection.clone(),
            name: self.name.clone(),
            bin_name: self.bin_name.clone(),
            version: self.version.clone(),
            checksum: self.checksum.clone(),
            size: self.size,
            timestamp: self.timestamp,
        }
    }
}

/// The installed packages, in the order in which they were first installed.
#[derive(Debug, PartialEq, Eq)]
pub struct InstalledPackages {
    pub packages: Vec<InstalledPackage>,
}

impl View for InstalledPackages {
    type V = Seq<InstalledPackageView>;

    open spec fn view(&self) -> Seq<InstalledPackageView> {
        self.packages.deep_view()
    }
}

/// What identifies an installation: repository, collection and full name.
pub struct InstallKey {
    pub repo_name: Seq<char>,
    pub collection: Seq<char>,
    pub name: Seq<char>,
}

/// The key under which a package is recorded.
pub open spec fn key_of(p: ResolvedPackageView) -> InstallKey {
    InstallKey {
        repo_name: p.repo_name,
        collection: p.collection,
        name: full_name_of(p.package.family, p.package.pkg, '-'),
    }
}

/// The key of a record.
pub open spec fn record_key(r: InstalledPackageView) -> InstallKey {
    InstallKey { repo_name: r.repo_name, collection: r.collection, name: r.name }
}

/// The keys of a list of records.
pub open spec fn record_keys(records: Seq<InstalledPackageView>) -> Seq<InstallKey> {
    Seq::new(records.len(), |i: int| record_key(records[i]))
}

/// Position of the first record with the given key, or the number of records
/// when there is none.
pub open spec fn position_of(records: Seq<InstalledPackageView>, key: InstallKey) -> int {
    first_index_of(record_keys(records), key)
}

/// Whether a record with the given key exists.
pub open spec fn recorded(records: Seq<InstalledPackageView>, key: InstallKey) -> bool {
    position_of(records, key) < records.len()
}

/// The size a catalog entry states, or zero when it is not a number.
pub open spec fn stated_size(size: Seq<char>) -> u64 {
    match parse_u64_text(size) {
        Some(n) => n,
        None => 0,
    }
}

/// The record that a first installation of `p` writes.
pub open spec fn fresh_record(
    p: ResolvedPackageView,
    checksum: Seq<char>,
    timestamp: i64,
) -> InstalledPackageView {
    InstalledPackageView {
        repo_name: p.repo_name,
        collection: p.collection,
        name: full_name_of(p.package.family, p.package.pkg, '-'),
        bin_name: p.package.pkg_name,
        version: p.package.version,
        checksum,
        size: stated_size(p.package.size),
        timestamp,
    }
}

/// The records after `p` was registered: its record takes the new version
/// and checksum where it exists, else a fresh record is appended.
pub open spec fn registered(
    records: Seq<InstalledPackageView>,
    p: ResolvedPackageView,
    checksum: Seq<char>,
    timestamp: i64,
) -> Seq<InstalledPackageView> {
    let at = position_of(records, key_of(p));
    if at < records.len() {
        records.update(
            at,
            InstalledPackageView { version: p.package.version, checksum, ..records[at] },
        )
    } else {
        records.push(fresh_record(p, checksum, timestamp))
    }
}

/// The records that do not have the given key.
pub open spec fn without(records: Seq<InstalledPackageView>, key: InstallKey) -> Seq<
    InstalledPackageView,
> {
    records.filter(|r: InstalledPackageView| record_key(r) != key)
}

/// Position of the first record whose checksum begins with `prefix`, or the
/// number of records when there is none.
pub open spec fn position_of_prefix(records: Seq<InstalledPackageView>, prefix: Seq<char>) -> int
    decreases records.len(),
{
    if records.len() == 0 {
        0
    } else if occurs_at(records[0].checksum, prefix, 0) {
        0
    } else {
        1 + position_of_prefix(records.drop_first(), prefix)
    }
}

/// Position of the first record that owns the install directory `dir_name`,
/// or the number of records when there is none.
pub open spec fn position_of_owner(records: Seq<InstalledPackageView>, dir_name: Seq<char>) -> int
    decreases records.len(),
{
    if records.len() == 0 {
        0
    } else if install_dir_name(records[0].checksum, records[0].name) == dir_name {
        0
    } else {
        1 + position_of_owner(records.drop_first(), dir_name)
    }
}

proof fn lemma_position_of_prefix(records: Seq<InstalledPackageView>, prefix: Seq<char>, i: int)
    requires
        0 <= i <= records.len(),
        forall|j: int| 0 <= j < i ==> !occurs_at(records[j].checksum, prefix, 0),
        i < records.len() ==> occurs_at(records[i].checksum, prefix, 0),
    ensures
        position_of_prefix(records, prefix) == i,
    decreases records.len(),
{
    if records.len() > 0 && !occurs_at(records[0].checksum, prefix, 0) {
        let t = records.drop_first();
        assert forall|j: int| 0 <= j < i - 1 implies !occurs_at(t[j].checksum, prefix, 0) by {
            assert(t[j] == records[j + 1]);
        }
        lemma_position_of_prefix(t, prefix, i - 1);
    }
}

proof fn lemma_position_of_owner(records: Seq<InstalledPackageView>, dir_name: Seq<char>, i: int)
    requires
        0 <= i <= records.len(),
        forall|j: int|
            0 <= j < i ==> install_dir_name(records[j].checksum, records[j].name) != dir_name,
        i < records.len() ==> install_dir_name(records[i].checksum, records[i].name) == dir_name,
    ensures
        position_of_owner(records, dir_name) == i,
    decreases records.len(),
{
    if records.len() > 0 && install_dir_name(records[0].checksum, records[0].name) != dir_name {
        let t = records.drop_first();
        assert forall|j: int| 0 <= j < i - 1 implies install_dir_name(t[j].checksum, t[j].name)
            != dir_name by {
            assert(t[j] == records[j + 1]);
        }
        lemma_position_of_owner(t, dir_name, i - 1);
    }
}

/// Why a change to the record was refused.
#[derive(Debug, Clone, Copy, PartialEq, Eq, Structural)]
pub enum TrackerError {
    /// The package has no record.
    NotInstalled,
}

/// Whether `record` is the record of `package`, whose full name is `name`.
fn is_record_of(record: &InstalledPackage, package: &ResolvedPackage, name: &str) -> (r: bool)
    requires
        name@ == key_of(package@).name,
    ensures
        r == (record_key(record@) == key_of(package@)),
{
    str_eq(record.repo_name.as_str(), package.repo_name.as_str()) && str_eq(
        record.collection.as_str(),
        package.collection.as_str(),
    ) && str_eq(record.name.as_str(), name)
}

impl InstalledPackages {
    /// A record without entries.
    pub fn new() -> (r: Self)
        ensures
            r@ == Seq::<InstalledPackageView>::empty(),
    {
        let r = InstalledPackages { packages: Vec::new() };
        assert(r@ =~= Seq::<InstalledPackageView>::empty());
        r
    }

    /// Position of the record of `package`.
    fn position(&self, package: &ResolvedPackage) -> (r: Option<usize>)
        ensures
            match r {
                Some(i) => i == position_of(self@, key_of(package@)) && i < self.packages.len(),
                None => position_of(self@, key_of(package@)) == self.packages.len(),
            },
            self@.len() == self.packages.len(),
    {
        let name = package.package.full_name('-');
        let ghost keys = record_keys(self@);
        let mut i: usize = 0;
        while i < self.packages.len()
            invariant
                i <= self.packages.len(),
                name@ == key_of(package@).name,
                keys == record_keys(self@),
                keys.len() == self.packages.len(),
                forall|j: int| 0 <= j < i ==> keys[j] != key_of(package@),
            decreases self.packages.len() - i,
        {
            proof {
                lemma_deep_view_index(self.packages);
            }
            if is_record_of(&self.packages[i], package, name.as_str()) {
                proof {
                    lemma_first_index_of(keys, key_of(package@), i as int);
                }
                return Some(i);
            }
            i += 1;
        }
        proof {
            lemma_first_index_of(keys, key_of(package@), i as int);
        }
        None
    }

    /// Whether `package` is installed: whether a record has its repository,
    /// collection and full name.
    pub fn is_installed(&self, package: &ResolvedPackage) -> (r: bool)
        ensures
            r == recorded(self@, key_of(package@)),
    {
        self.position(package).is_some()
    }

    /// The record of `package`, if it is installed.
    pub fn find_package(&self, package: &ResolvedPackage) -> (r: Option<&InstalledPackage>)
        ensures
            match r {
                Some(record) => recorded(self@, key_of(package@)) && record@ == self@[position_of(
                    self@,
                    key_of(package@),
                )],
                None => !recorded(self@, key_of(package@)),
            },
    {
        match self.position(package) {
            Some(i) => {
                proof {
                    lemma_deep_view_index(self.packages);
                }
                Some(&self.packages[i])
            },
            None => None,
        }
    }

    /// Registers `package` as installed at `timestamp`, in seconds since the
    /// Unix epoch, which the caller reads from the clock: an existing record
    /// takes the package's version and the new checksum, otherwise a record
    /// is appended.
    pub fn register_package(&mut self, package: &ResolvedPackage, checksum: &str, timestamp: i64)
        ensures
            final(self)@ == registered(old(self)@, package@, checksum@, timestamp),
    {
        let ghost before = self.packages;
        match self.position(package) {
            Some(i) => {
                let current = &self.packages[i];
                let updated = InstalledPackage {
                    repo_name: current.repo_name.clone(),
                    collection: current.collection.clone(),
                    name: current.name.clone(),
                    bin_name: current.bin_name.clone(),
                    version: package.package.version.clone(),
                    checksum: checksum.to_owned(),
                    size: current.size,
                    timestamp: current.timestamp,
                };
                proof {
                    lemma_deep_view_index(self.packages);
                }
                self.packages[i] = updated;
                proof {
                    lemma_deep_view_index(self.packages);
                    assert(self.packages@ == before@.update(i as int, updated));
                    assert(self@ =~= registered(old(self)@, package@, checksum@, timestamp));
                }
            },
            None => {
                let size_text = to_chars(package.package.size.as_str());
                let size: u64 = match parse_u64(size_text.as_slice()) {
                    Some(n) => n,
                    None => 0,
                };
                let record = InstalledPackage {
                    repo_name: package.repo_name.clone(),
                    collection: package.collection.clone(),
                    name: package.package.full_name('-'),
                    bin_name: package.package.pkg_name.clone(),
                    version: package.package.version.clone(),
                    checksum: checksum.to_owned(),
                    size,
                    timestamp,
                };
                self.packages.push(record);
                proof {
                    lemma_deep_view_push(before, self.packages, record);
                }
            },
        }
    }

    /// Removes the record of `package`. Fails, and changes nothing, when the
    /// package is not installed.
    pub fn unregister_package(&mut self, package: &ResolvedPackage) -> (r: Result<
        (),
        TrackerError,
    >)
        ensures
            match r {
                Ok(()) => recorded(old(self)@, key_of(package@)) && final(self)@ == without(
                    old(self)@,
                    key_of(package@),
                ),
                Err(e) => e == TrackerError::NotInstalled && !recorded(
                    old(self)@,
                    key_of(package@),
                ) && final(self)@ == old(self)@,
            },
    {
        if !self.is_installed(package) {
            return Err(TrackerError::NotInstalled);
        }
        let name = package.package.full_name('-');
        let ghost all = self@;
        let ghost pred = |r: InstalledPackageView| record_key(r) != key_of(package@);
        let mut kept: Vec<InstalledPackage> = Vec::new();
        let mut i: usize = 0;
        proof {
            lemma_filter_ends(all, pred);
            assert(kept.deep_view() =~= Seq::<InstalledPackageView>::empty());
        }
        while i < self.packages.len()
            invariant
                i <= self.packages.len(),
                name@ == key_of(package@).name,
                all == self@,
                all.len() == self.packages.len(),
                pred == (|r: InstalledPackageView| record_key(r) != key_of(package@)),
                kept.deep_view() == all.take(i as int).filter(pred),
            decreases self.packages.len() - i,
        {
            proof {
                lemma_deep_view_index(self.packages);
                lemma_filter_step(all, pred, i as int);
            }
            if !is_record_of(&self.packages[i], package, name.as_str()) {
                let record = self.packages[i].clone();
                let ghost before = kept;
                kept.push(record);
                proof {
                    lemma_deep_view_push(before, kept, record);
                }
            }
            i += 1;
        }
        proof {
            lemma_filter_ends(all, pred);
        }
        self.packages = kept;
        Ok(())
    }

    /// Removes the records that have the repository, collection and name of
    /// `record`. Fails, and changes nothing, when there is none.
    pub fn unregister_record(&mut self, record: &InstalledPackage) -> (r: Result<(), TrackerError>)
        ensures
            match r {
                Ok(()) => recorded(old(self)@, record_key(record@)) && final(self)@ == without(
                    old(self)@,
                    record_key(record@),
                ),
                Err(e) => e == TrackerError::NotInstalled && !recorded(
                    old(self)@,
                    record_key(record@),
                ) && final(self)@ == old(self)@,
            },
    {
        let ghost all = self@;
        let ghost key = record_key(record@);
        let ghost pred = |r: InstalledPackageView| record_key(r) != key;
        let ghost keys = record_keys(all);
        let mut kept: Vec<InstalledPackage> = Vec::new();
        let mut found = false;
        let mut i: usize = 0;
        proof {
            lemma_filter_ends(all, pred);
            assert(kept.deep_view() =~= Seq::<InstalledPackageView>::empty());
        }
        while i < self.packages.len()
            invariant
                i <= self.packages.len(),
                all == self@,
                all.len() == self.packages.len(),
                key == record_key(record@),
                keys == record_keys(all),
                pred == (|r: InstalledPackageView| record_key(r) != key),
                kept.deep_view() == all.take(i as int).filter(pred),
                found <==> exists|j: int| 0 <= j < i && #[trigger] keys[j] == key,
            decreases self.packages.len() - i,
        {
            proof {
                lemma_deep_view_index(self.packages);
                lemma_filter_step(all, pred, i as int);
            }
            let current = &self.packages[i];
            let same = str_eq(current.repo_name.as_str(), record.repo_name.as_str()) && str_eq(
                current.collection.as_str(),
                record.collection.as_str(),
            ) && str_eq(current.name.as_str(), record.name.as_str());
            assert(same == (keys[i as int] == key));
            if same {
                found = true;
            } else {
                let copy = current.clone();
                let ghost before = kept;
                kept.push(copy);
                proof {
                    lemma_deep_view_push(before, kept, copy);
                }
            }
            i += 1;
        }
        proof {
            lemma_filter_ends(all, pred);
            lemma_first_index_of_bounds(keys, key);
            if found {
                let j = choose|j: int| 0 <= j < keys.len() && #[trigger] keys[j] == key;
                assert(first_index_of(keys, key) <= j) by {
                    if first_index_of(keys, key) > j {
                        assert(keys[j] != key);
                    }
                }
            } else {
                assert(first_index_of(keys, key) == keys.len()) by {
                    if first_index_of(keys, key) < keys.len() {
                        assert(keys[first_index_of(keys, key)] == key);
                    }
                }
            }
        }
        if !found {
            return Err(TrackerError::NotInstalled);
        }
        self.packages = kept;
        Ok(())
    }

    /// The first record whose checksum begins with `checksum_prefix`.
    pub fn find_by_prefix(&self, checksum_prefix: &str) -> (r: Option<&InstalledPackage>)
        ensures
            match r {
                Some(record) => position_of_prefix(self@, checksum_prefix@) < self@.len()
                    && record@ == self@[position_of_prefix(self@, checksum_prefix@)],
                None => position_of_prefix(self@, checksum_prefix@) == self@.len(),
            },
    {
        let prefix = to_chars(checksum_prefix);
        let mut i: usize = 0;
        while i < self.packages.len()
            invariant
                i <= self.packages.len(),
                prefix@ == checksum_prefix@,
                self@.len() == self.packages.len(),
                forall|j: int| 0 <= j < i ==> !occurs_at(self@[j].checksum, prefix@, 0),
            decreases self.packages.len() - i,
        {
            proof {
                lemma_deep_view_index(self.packages);
            }
            let sum = to_chars(self.packages[i].checksum.as_str());
            if starts_with(sum.as_slice(), prefix.as_slice()) {
                proof {
                    lemma_position_of_prefix(self@, prefix@, i as int);
                }
                return Some(&self.packages[i]);
            }
            i += 1;
        }
        proof {
            lemma_position_of_prefix(self@, prefix@, i as int);
        }
        None
    }

    /// The first record that owns the install directory named `dir_name`:
    /// the record whose checksum prefix and full name make up that name.
    pub fn reverse_package_search(&self, dir_name: &str) -> (r: Option<&InstalledPackage>)
        ensures
            match r {
                Some(record) => position_of_owner(self@, dir_name@) < self@.len() && record@
                    == self@[position_of_owner(self@, dir_name@)],
                None => position_of_owner(self@, dir_name@) == self@.len(),
            },
    {
        let mut i: usize = 0;
        while i < self.packages.len()
            invariant
                i <= self.packages.len(),
                self@.len() == self.packages.len(),
                forall|j: int|
                    0 <= j < i ==> install_dir_name(self@[j].checksum, self@[j].name) != dir_name@,
            decreases self.packages.len() - i,
        {
            proof {
                lemma_deep_view_index(self.packages);
            }
            let owned = self.packages[i].install_dir_name();
            if str_eq(owned.as_str(), dir_name) {
                proof {
                    lemma_position_of_owner(self@, dir_name@, i as int);
                }
                return Some(&self.packages[i]);
            }
            i += 1;
        }
        proof {
            lemma_position_of_owner(self@, dir_name@, i as int);
        }
        None
    }
}

impl InstalledPackage {
    /// Whether this is the record of `package`: whether it has the package's
    /// repository, collection and full name.
    pub fn describes(&self, package: &ResolvedPackage) -> (r: bool)
        ensures
            r == (record_key(self@) == key_of(package@)),
    {
        let name = package.package.full_name('-');
        is_record_of(self, package, name.as_str())
    }

    /// Name of the directory that holds this installation.
    pub fn install_dir_name(&self) -> (r: String)
        ensures
            r@ == install_dir_name(self@.checksum, self@.name),
    {
        let sum = to_chars(self.checksum.as_str());
        let take: usize = if sum.len() <= 8 {
            sum.len()
        } else {
            8
        };
        let mut r = crate::text::substring(sum.as_slice(), 0, take);
        assert(r@ == crate::package::checksum_prefix(self@.checksum));
        r.push('-');
        r.append(self.name.as_str());
        r
    }
}

/// What registering a package does to the record: the package is recorded
/// with the new checksum and its own version, and every record of another
/// key is what it was.
pub proof fn lemma_registered(
    records: Seq<InstalledPackageView>,
    p: ResolvedPackageView,
    checksum: Seq<char>,
    timestamp: i64,
    other: InstallKey,
)
    ensures
        ({
            let after = registered(records, p, checksum, timestamp);
            let at = position_of(after, key_of(p));
            &&& recorded(after, key_of(p))
            &&& after[at] == if recorded(records, key_of(p)) {
                InstalledPackageView {
                    version: p.package.version,
                    checksum,
                    ..records[position_of(records, key_of(p))]
                }
            } else {
                fresh_record(p, checksum, timestamp)
            }
            &&& after[at].checksum == checksum
            &&& after[at].version == p.package.version
            &&& record_key(after[at]) == key_of(p)
            &&& other != key_of(p) ==> recorded(after, other) == recorded(records, other)
            &&& other != key_of(p) && recorded(records, other) ==> after[position_of(
                after,
                other,
            )] == records[position_of(records, other)]
        }),
{
    let key = key_of(p);
    let keys = record_keys(records);
    let after = registered(records, p, checksum, timestamp);
    let at = position_of(records, key);
    lemma_first_index_of_bounds(keys, key);
    lemma_first_index_of_bounds(keys, other);
    if at < records.len() {
        assert(record_keys(after) =~= keys);
    } else {
        assert(record_keys(after) =~= keys.push(key));
        lemma_first_index_of(record_keys(after), key, records.len() as int);
        if other != key {
            let k = first_index_of(keys, other);
            if k < keys.len() {
                lemma_first_index_of(record_keys(after), other, k);
            } else {
                lemma_first_index_of(record_keys(after), other, after.len() as int);
            }
        }
    }
}

/// A package that was registered and then unregistered has no record, and
/// the records of all other packages are what they were before.
pub proof fn lemma_register_then_unregister(
    records: Seq<InstalledPackageView>,
    p: ResolvedPackageView,
    checksum: Seq<char>,
    timestamp: i64,
)
    ensures
        !recorded(without(registered(records, p, checksum, timestamp), key_of(p)), key_of(p)),
        without(registered(records, p, checksum, timestamp), key_of(p)) == without(
            records,
            key_of(p),
        ),
{
    let key = key_of(p);
    let pred = |r: InstalledPackageView| record_key(r) != key;
    let after = registered(records, p, checksum, timestamp);
    lemma_first_index_of_bounds(record_keys(records), key);
    let at = position_of(records, key);
    if at < records.len() {
        lemma_filter_update(records, pred, at, after[at]);
    } else {
        reveal(Seq::filter);
        assert(after.drop_last() =~= records);
    }
    lemma_without_has_none(after, key);
}

/// Replacing an element that a filter drops by another that it drops does
/// not change what the filter keeps.
proof fn lemma_filter_update<A>(s: Seq<A>, pred: spec_fn(A) -> bool, i: int, x: A)
    requires
        0 <= i < s.len(),
        !pred(s[i]),
        !pred(x),
    ensures
        s.update(i, x).filter(pred) == s.filter(pred),
    decreases s.len(),
{
    reveal(Seq::filter);
    let t = s.update(i, x);
    if i == s.len() - 1 {
        assert(t.drop_last() =~= s.drop_last());
    } else {
        lemma_filter_update(s.drop_last(), pred, i, x);
        assert(t.drop_last() =~= s.drop_last().update(i, x));
    }
}

/// After the records of a key were removed, none has that key.
proof fn lemma_without_has_none(records: Seq<InstalledPackageView>, key: InstallKey)
    ensures
        !recorded(without(records, key), key),
{
    let pred = |r: InstalledPackageView| record_key(r) != key;
    let kept = without(records, key);
    let keys = record_keys(kept);
    lemma_first_index_of_bounds(keys, key);
    let at = first_index_of(keys, key);
    if at < kept.len() {
        records.lemma_filter_pred(pred, at);
        assert(pred(kept[at]));
        assert(keys[at] == record_key(kept[at]));
    }
}

/// Installing two different packages in either order leaves both recorded,
/// each with its own checksum and version, and with the same record whichever
/// came first.
pub proof fn lemma_register_order_is_irrelevant(
    records: Seq<InstalledPackageView>,
    p: ResolvedPackageView,
    p_checksum: Seq<char>,
    q: ResolvedPackageView,
    q_checksum: Seq<char>,
    timestamp: i64,
)
    requires
        key_of(p) != key_of(q),
    ensures
        ({
            let first = registered(
                registered(records, p, p_checksum, timestamp),
                q,
                q_checksum,
                timestamp,
            );
            let second = registered(
                registered(records, q, q_checksum, timestamp),
                p,
                p_checksum,
                timestamp,
            );
            &&& recorded(first, key_of(p)) && recorded(first, key_of(q))
            &&& recorded(second, key_of(p)) && recorded(second, key_of(q))
            &&& first[position_of(first, key_of(p))] == second[position_of(second, key_of(p))]
            &&& first[position_of(first, key_of(q))] == second[position_of(second, key_of(q))]
            &&& first[position_of(first, key_of(p))].checksum == p_checksum
            &&& first[position_of(first, key_of(q))].checksum == q_checksum
        }),
{
    let kp = key_of(p);
    let kq = key_of(q);
    let rp = registered(records, p, p_checksum, timestamp);
    let rq = registered(records, q, q_checksum, timestamp);
    let first = registered(rp, q, q_checksum, timestamp);
    let second = registered(rq, p, p_checksum, timestamp);
    lemma_registered(records, p, p_checksum, timestamp, kq);
    lemma_registered(records, q, q_checksum, timestamp, kp);
    lemma_registered(rp, q, q_checksum, timestamp, kp);
    lemma_registered(rq, p, p_checksum, timestamp, kq);
    lemma_first_index_of_bounds(record_keys(records), kp);
    lemma_first_index_of_bounds(record_keys(records), kq);
    lemma_first_index_of_bounds(record_keys(rp), kq);
    lemma_first_index_of_bounds(record_keys(rq), kp);
}

} // verus!
