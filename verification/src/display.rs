//! What the read-only commands show: the description of a package, the
//! lines of a search or a listing, and the totals of what is installed.

use crate::installed::{
    key_of, position_of, recorded, InstalledPackage, InstalledPackageView, InstalledPackages,
};
use crate::package::{
    full_name_of, install_dir_name, join_path, opt_text, parse_package_query, parse_query_text,
    ResolvedPackage, ResolvedPackageView,
};
use crate::seqs::{lemma_deep_view_index, lemma_deep_view_push, lemma_filter_ends, lemma_filter_step};
use crate::storage::{looked_up, select, CriterionView, PackageStorage, RepositoryView};
use crate::text::{first_index_of, lemma_first_index_of, str_eq, to_chars, unicode_lowercase};
use vstd::prelude::*;
use vstd::string::*;

verus! {

/// The date and time of a Unix timestamp in UTC, written as
/// `chrono::DateTime::format` writes it for `%Y-%m-%d %H:%M:%S`, or nothing
/// for a timestamp outside the years that `chrono` can represent.
pub uninterp spec fn timestamp_text(seconds: i64) -> Option<Seq<char>>;

/// Calls `chrono::DateTime::from_timestamp` and `chrono::DateTime::format`
/// to write a timestamp as `year-month-day hour:minute:second` in UTC. The
/// result depends on the timestamp alone; nothing else is claimed about it.
#[verifier::external_body]
fn format_timestamp(seconds: i64) -> (r: Option<String>)
    ensures
        opt_text(r) == timestamp_text(seconds),
{
    match chrono::DateTime::from_timestamp(seconds, 0) {
        Some(time) => Some(time.format("%Y-%m-%d %H:%M:%S").to_string()),
        None => None,
    }
}

/// One line of the description of a package.
#[derive(Debug, PartialEq, Eq)]
pub struct InfoRow {
    pub label: String,
    pub value: String,
}

/// Mathematical model of an [`InfoRow`].
pub struct InfoRowView {
    pub label: Seq<char>,
    pub value: Seq<char>,
}

impl View for InfoRow {
    type V = InfoRowView;

    open spec fn view(&self) -> InfoRowView {
        InfoRowView { label: self.label@, value: self.value@ }
    }
}

impl DeepView for InfoRow {
    type V = InfoRowView;

    open spec fn deep_view(&self) -> InfoRowView {
        self@
    }
}

/// How the name of a package is shown: the binary name, then the full name
/// and the collection in brackets, as in `curl (musl/curl#bin)`.
pub open spec fn shown_name(p: ResolvedPackageView) -> Seq<char> {
    p.package.pkg_name + " ("@ + full_name_of(p.package.family, p.package.pkg, '/').push('#')
        + p.collection + ")"@
}

/// Every line that the description of a catalog entry can have.
pub open spec fn catalog_rows(p: ResolvedPackageView) -> Seq<InfoRowView> {
    seq![
        InfoRowView { label: "Name"@, value: shown_name(p) },
        InfoRowView { label: "Description"@, value: p.package.description },
        InfoRowView { label: "Homepage"@, value: p.package.homepage },
        InfoRowView { label: "Source"@, value: p.package.src_url },
        InfoRowView { label: "Version"@, value: p.package.version },
        InfoRowView { label: "Checksum"@, value: p.package.bsum },
        InfoRowView { label: "Size"@, value: p.package.size },
        InfoRowView { label: "Download URL"@, value: p.package.download_url },
        InfoRowView { label: "Build Date"@, value: p.package.build_date },
        InfoRowView { label: "Build Log"@, value: p.package.build_log },
        InfoRowView { label: "Build Script"@, value: p.package.build_script },
        InfoRowView { label: "Note"@, value: p.package.note },
        InfoRowView { label: "Category"@, value: p.package.category },
        InfoRowView { label: "Extra Bins"@, value: p.package.provides },
    ]
}

/// The lines that the record of an installation adds: where the artifact is
/// installed and when it was.
pub open spec fn install_rows(
    p: ResolvedPackageView,
    record: InstalledPackageView,
    packages_path: Seq<char>,
) -> Seq<InfoRowView> {
    seq![
        InfoRowView {
            label: "Install Path"@,
            value: join_path(
                join_path(
                    packages_path,
                    install_dir_name(
                        record.checksum,
                        full_name_of(p.package.family, p.package.pkg, '-'),
                    ),
                ),
                p.package.pkg_name,
            ),
        },
        InfoRowView {
            label: "Install Date"@,
            value: match timestamp_text(record.timestamp) {
                Some(text) => text,
                None => Seq::empty(),
            },
        },
    ]
}

/// Whether a line is shown: a line whose value is empty or the word `null`
/// is left out.
pub open spec fn is_shown(row: InfoRowView) -> bool {
    row.value.len() > 0 && row.value != "null"@
}

/// The description of a package: the lines of its catalog entry and, for an
/// installed package, of its record, without those that have nothing to show.
pub open spec fn description_of(
    p: ResolvedPackageView,
    record: Option<InstalledPackageView>,
    packages_path: Seq<char>,
) -> Seq<InfoRowView> {
    (catalog_rows(p) + match record {
        Some(r) => install_rows(p, r, packages_path),
        None => Seq::empty(),
    }).filter(|row: InfoRowView| is_shown(row))
}

fn row(label: &str, value: String) -> (r: InfoRow)
    ensures
        r@ == (InfoRowView { label: label@, value: value@ }),
{
    InfoRow { label: label.to_owned(), value }
}

/// Describes a package for the `query` command.
pub fn describe_package(
    package: &ResolvedPackage,
    record: Option<&InstalledPackage>,
    packages_path: &str,
) -> (r: Vec<InfoRow>)
    ensures
        r.deep_view() == description_of(
            package@,
            match record {
                Some(i) => Some(i@),
                None => None,
            },
            packages_path@,
        ),
{
    let p = &package.package;
    let mut name = p.pkg_name.clone();
    name.append(" (");
    name.append(p.full_name('/').as_str());
    name.push('#');
    name.append(package.collection.as_str());
    name.append(")");
    assert(name@ =~= shown_name(package@));
    let mut rows: Vec<InfoRow> = Vec::new();
    rows.push(row("Name", name));
    rows.push(row("Description", p.description.clone()));
    rows.push(row("Homepage", p.homepage.clone()));
    rows.push(row("Source", p.src_url.clone()));
    rows.push(row("Version", p.version.clone()));
    rows.push(row("Checksum", p.bsum.clone()));
    rows.push(row("Size", p.size.clone()));
    rows.push(row("Download URL", p.download_url.clone()));
    rows.push(row("Build Date", p.build_date.clone()));
    rows.push(row("Build Log", p.build_log.clone()));
    rows.push(row("Build Script", p.build_script.clone()));
    rows.push(row("Note", p.note.clone()));
    rows.push(row("Category", p.category.clone()));
    rows.push(row("Extra Bins", p.provides.clone()));
    assert(rows.deep_view() =~= catalog_rows(package@));
    match record {
        Some(installed) => {
            let path = p.get_install_path(packages_path, installed.checksum.as_str());
            let date = match format_timestamp(installed.timestamp) {
                Some(text) => text,
                None => String::new(),
            };
            rows.push(row("Install Path", path));
            rows.push(row("Install Date", date));
            assert(rows.deep_view() =~= catalog_rows(package@) + install_rows(
                package@,
                installed@,
                packages_path@,
            ));
        },
        None => {
            assert(rows.deep_view() =~= catalog_rows(package@) + Seq::<InfoRowView>::empty());
        },
    }
    let ghost all = rows.deep_view();
    let ghost shown = |row: InfoRowView| is_shown(row);
    let mut out: Vec<InfoRow> = Vec::new();
    proof {
        lemma_filter_ends(all, shown);
        assert(out.deep_view() =~= Seq::<InfoRowView>::empty());
    }
    let mut i: usize = 0;
    while i < rows.len()
        invariant
            i <= rows.len(),
            all == rows.deep_view(),
            all.len() == rows.len(),
            shown == (|row: InfoRowView| is_shown(row)),
            out.deep_view() == all.take(i as int).filter(shown),
        decreases rows.len() - i,
    {
        proof {
            lemma_deep_view_index(rows);
            lemma_filter_step(all, shown, i as int);
        }
        let value = rows[i].value.as_str();
        if !value.is_empty() && !str_eq(value, "null") {
            let kept = InfoRow { label: rows[i].label.clone(), value: rows[i].value.clone() };
            let ghost before = out;
            out.push(kept);
            proof {
                lemma_deep_view_push(before, out, kept);
            }
        }
        i += 1;
    }
    proof {
        lemma_filter_ends(all, shown);
    }
    out
}

/// The mark of an installed package, `+`, or of one that is not, `-`.
pub open spec fn installed_mark(installed: bool) -> char {
    if installed {
        '+'
    } else {
        '-'
    }
}

/// A search result as it is shown:
/// `[+] [collection] family/name: description`.
pub open spec fn search_line_of(p: ResolvedPackageView, installed: bool) -> Seq<char> {
    seq!['[', installed_mark(installed), ']', ' ', '['] + p.collection + "] "@ + full_name_of(
        p.package.family,
        p.package.pkg,
        '/',
    ) + ": "@ + p.package.description
}

/// The line of a search result.
pub fn search_line(package: &ResolvedPackage, installed: bool) -> (r: String)
    ensures
        r@ == search_line_of(package@, installed),
{
    let mut r = String::new();
    r.push('[');
    r.push(
        if installed {
            '+'
        } else {
            '-'
        },
    );
    r.push(']');
    r.push(' ');
    r.push('[');
    assert(r@ =~= seq!['[', installed_mark(installed), ']', ' ', '[']);
    r.append(package.collection.as_str());
    r.append("] ");
    r.append(package.package.full_name('/').as_str());
    r.append(": ");
    r.append(package.package.description.as_str());
    r
}

/// An entry of a listing as it is shown:
/// `[+] [collection] family/name:name-version (size)`.
pub open spec fn list_line_of(p: ResolvedPackageView, installed: bool) -> Seq<char> {
    seq!['[', installed_mark(installed), ']', ' ', '['] + p.collection + "] "@ + full_name_of(
        p.package.family,
        p.package.pkg,
        '/',
    ).push(':') + p.package.pkg.push('-') + p.package.version + " ("@ + p.package.size + ")"@
}

/// The line of an entry of a listing.
pub fn list_line(package: &ResolvedPackage, installed: bool) -> (r: String)
    ensures
        r@ == list_line_of(package@, installed),
{
    let mut r = String::new();
    r.push('[');
    r.push(
        if installed {
            '+'
        } else {
            '-'
        },
    );
    r.push(']');
    r.push(' ');
    r.push('[');
    assert(r@ =~= seq!['[', installed_mark(installed), ']', ' ', '[']);
    r.append(package.collection.as_str());
    r.append("] ");
    r.append(package.package.full_name('/').as_str());
    r.push(':');
    r.append(package.package.pkg.as_str());
    r.push('-');
    r.append(package.package.version.as_str());
    r.append(" (");
    r.append(package.package.size.as_str());
    r.append(")");
    assert(r@ =~= list_line_of(package@, installed));
    r
}

/// How many packages of a collection are installed, and how large they are
/// together.
#[derive(Debug, PartialEq, Eq)]
pub struct CollectionTotal {
    pub collection: String,
    pub count: usize,
    pub size: u128,
}

/// Mathematical model of a [`CollectionTotal`].
pub struct CollectionTotalView {
    pub collection: Seq<char>,
    pub count: nat,
    pub size: nat,
}

impl View for CollectionTotal {
    type V = CollectionTotalView;

    open spec fn view(&self) -> CollectionTotalView {
        CollectionTotalView {
            collection: self.collection@,
            count: self.count as nat,
            size: self.size as nat,
        }
    }
}

impl DeepView for CollectionTotal {
    type V = CollectionTotalView;

    open spec fn deep_view(&self) -> CollectionTotalView {
        self@
    }
}

/// The collections of a list of totals.
pub open spec fn total_names(totals: Seq<CollectionTotalView>) -> Seq<Seq<char>> {
    Seq::new(totals.len(), |i: int| totals[i].collection)
}

/// The totals after one more record was counted: the total of its
/// collection grows, or a new total is opened after all others.
pub open spec fn counted(totals: Seq<CollectionTotalView>, record: InstalledPackageView) -> Seq<
    CollectionTotalView,
> {
    let at = first_index_of(total_names(totals), record.collection);
    if at < totals.len() {
        totals.update(
            at,
            CollectionTotalView {
                collection: totals[at].collection,
                count: totals[at].count + 1,
                size: totals[at].size + record.size as nat,
            },
        )
    } else {
        totals.push(
            CollectionTotalView {
                collection: record.collection,
                count: 1,
                size: record.size as nat,
            },
        )
    }
}

/// The totals of a record of installations, by collection, in the order in
/// which the collections first appear.
pub open spec fn totals_of(records: Seq<InstalledPackageView>) -> Seq<CollectionTotalView>
    decreases records.len(),
{
    if records.len() == 0 {
        Seq::empty()
    } else {
        counted(totals_of(records.drop_last()), records.last())
    }
}

/// The sizes of a list of records added up.
pub open spec fn total_size(records: Seq<InstalledPackageView>) -> nat
    decreases records.len(),
{
    if records.len() == 0 {
        0
    } else {
        total_size(records.drop_last()) + records.last().size as nat
    }
}

/// Whether no total counts more than `n` packages or more bytes than `n`
/// packages can have.
pub open spec fn totals_bounded(totals: Seq<CollectionTotalView>, n: nat) -> bool {
    forall|i: int|
        0 <= i < totals.len() ==> (#[trigger] totals[i]).count <= n && totals[i].size <= n
            * 0xffff_ffff_ffff_ffff
}

fn find_total(totals: &Vec<CollectionTotal>, collection: &str) -> (r: Option<usize>)
    ensures
        match r {
            Some(k) => k < totals.len() && k == first_index_of(
                total_names(totals.deep_view()),
                collection@,
            ),
            None => first_index_of(total_names(totals.deep_view()), collection@) == totals.len(),
        },
{
    let ghost names = total_names(totals.deep_view());
    let mut k: usize = 0;
    while k < totals.len()
        invariant
            k <= totals.len(),
            names == total_names(totals.deep_view()),
            names.len() == totals.len(),
            forall|j: int| 0 <= j < k ==> names[j] != collection@,
        decreases totals.len() - k,
    {
        proof {
            lemma_deep_view_index(*totals);
        }
        if str_eq(totals[k].collection.as_str(), collection) {
            proof {
                lemma_first_index_of(names, collection@, k as int);
            }
            return Some(k);
        }
        k += 1;
    }
    proof {
        lemma_first_index_of(names, collection@, k as int);
    }
    None
}

/// Counts the installed packages and adds up their sizes, by collection.
pub fn collection_totals(installed: &InstalledPackages) -> (r: Vec<CollectionTotal>)
    ensures
        r.deep_view() == totals_of(installed@),
{
    let ghost records = installed@;
    let mut totals: Vec<CollectionTotal> = Vec::new();
    let mut i: usize = 0;
    assert(totals.deep_view() =~= Seq::<CollectionTotalView>::empty());
    assert(records.take(0) =~= Seq::<InstalledPackageView>::empty());
    while i < installed.packages.len()
        invariant
            i <= installed.packages.len(),
            records == installed@,
            totals.deep_view() == totals_of(records.take(i as int)),
            totals_bounded(totals.deep_view(), i as nat),
        decreases installed.packages.len() - i,
    {
        proof {
            lemma_deep_view_index(installed.packages);
            assert(records.take(i + 1).drop_last() =~= records.take(i as int));
        }
        let record = &installed.packages[i];
        let ghost before = totals;
        let ghost names = total_names(totals.deep_view());
        let at = find_total(&totals, record.collection.as_str());
        proof {
            lemma_deep_view_index(totals);
        }
        let ghost k: int = match at {
            Some(n) => n as int,
            None => -1,
        };
        if let Some(k) = at {
            proof {
                assert(before.deep_view()[k as int].count <= i);
                assert(before.deep_view()[k as int].size <= i * 0xffff_ffff_ffff_ffff);
                assert((i + 1) * 0xffff_ffff_ffff_ffff == i * 0xffff_ffff_ffff_ffff
                    + 0xffff_ffff_ffff_ffff) by (nonlinear_arith);
                assert(i * 0xffff_ffff_ffff_ffff + 0xffff_ffff_ffff_ffff <= u128::MAX) by (nonlinear_arith)
                    requires
                        i <= usize::MAX,
                        usize::MAX <= 0xffff_ffff_ffff_ffff,
                ;
            }
            let updated = CollectionTotal {
                collection: totals[k].collection.clone(),
                count: totals[k].count + 1,
                size: totals[k].size + record.size as u128,
            };
            totals[k] = updated;
            proof {
                lemma_deep_view_index(totals);
                assert(totals@ == before@.update(k as int, updated));
                assert(totals.deep_view() =~= counted(before.deep_view(), record@));
            }
        } else {
            let fresh = CollectionTotal {
                collection: record.collection.clone(),
                count: 1,
                size: record.size as u128,
            };
            totals.push(fresh);
            proof {
                lemma_deep_view_push(before, totals, fresh);
            }
        }
        proof {
            assert((i + 1) * 0xffff_ffff_ffff_ffff == i * 0xffff_ffff_ffff_ffff
                + 0xffff_ffff_ffff_ffff) by (nonlinear_arith);
            assert(totals_bounded(totals.deep_view(), (i + 1) as nat)) by {
                let now = totals.deep_view();
                let then = before.deep_view();
                assert forall|j: int| 0 <= j < now.len() implies (#[trigger] now[j]).count <= i + 1
                    && now[j].size <= (i + 1) * 0xffff_ffff_ffff_ffff by {
                    if j < then.len() && j != k {
                        assert(now[j] == then[j]);
                    }
                }
            }
        }
        i += 1;
    }
    assert(records.take(installed.packages.len() as int) =~= records);
    totals
}

/// The records of those of `packages` that are installed, in the order of
/// `packages`.
pub open spec fn records_of(
    records: Seq<InstalledPackageView>,
    packages: Seq<ResolvedPackageView>,
) -> Seq<InstalledPackageView>
    decreases packages.len(),
{
    if packages.len() == 0 {
        Seq::empty()
    } else {
        let rest = records_of(records, packages.drop_last());
        let key = key_of(packages.last());
        if recorded(records, key) {
            rest.push(records[position_of(records, key)])
        } else {
            rest
        }
    }
}

/// The records that a report on the named packages shows: for each name, in
/// order, the records of the installed packages that answer it. A package
/// that answers two names is shown twice.
pub open spec fn reported(
    repos: Seq<RepositoryView>,
    records: Seq<InstalledPackageView>,
    names: Seq<Seq<char>>,
) -> Seq<InstalledPackageView>
    decreases names.len(),
{
    if names.len() == 0 {
        Seq::empty()
    } else {
        reported(repos, records, names.drop_last()) + records_of(
            records,
            select(
                repos,
                CriterionView::Answers(
                    looked_up(parse_query_text(unicode_lowercase(names.last()))),
                ),
            ),
        )
    }
}

/// Appends to `out` the records of those of `packages` that are installed.
fn push_records(
    out: &mut Vec<InstalledPackage>,
    installed: &InstalledPackages,
    packages: &Vec<ResolvedPackage>,
)
    ensures
        final(out).deep_view() == old(out).deep_view() + records_of(
            installed@,
            packages.deep_view(),
        ),
{
    let ghost all = packages.deep_view();
    let mut i: usize = 0;
    assert(all.take(0) =~= Seq::<ResolvedPackageView>::empty());
    assert(out.deep_view() =~= old(out).deep_view() + Seq::<InstalledPackageView>::empty());
    while i < packages.len()
        invariant
            i <= packages.len(),
            all == packages.deep_view(),
            all.len() == packages.len(),
            out.deep_view() == old(out).deep_view() + records_of(installed@, all.take(i as int)),
        decreases packages.len() - i,
    {
        proof {
            lemma_deep_view_index(*packages);
            assert(all.take(i + 1).drop_last() =~= all.take(i as int));
        }
        match installed.find_package(&packages[i]) {
            Some(record) => {
                let copy = record.clone();
                let ghost before = *out;
                out.push(copy);
                proof {
                    lemma_deep_view_push(before, *out, copy);
                    assert((old(out).deep_view() + records_of(
                        installed@,
                        all.take(i as int),
                    )).push(copy@) =~= old(out).deep_view() + records_of(
                        installed@,
                        all.take(i as int),
                    ).push(copy@));
                }
            },
            None => {},
        }
        i += 1;
    }
    assert(all.take(packages.len() as int) =~= all);
}

/// The records that a report on the packages named by `names` shows.
pub fn reported_records(
    installed: &InstalledPackages,
    storage: &PackageStorage,
    names: &Vec<String>,
) -> (r: InstalledPackages)
    ensures
        r@ == reported(storage@, installed@, names.deep_view()),
{
    let ghost all = names.deep_view();
    let mut out: Vec<InstalledPackage> = Vec::new();
    let mut i: usize = 0;
    assert(all.take(0) =~= Seq::<Seq<char>>::empty());
    assert(out.deep_view() =~= Seq::<InstalledPackageView>::empty());
    while i < names.len()
        invariant
            i <= names.len(),
            all == names.deep_view(),
            all.len() == names.len(),
            out.deep_view() == reported(storage@, installed@, all.take(i as int)),
        decreases names.len() - i,
    {
        proof {
            lemma_deep_view_index(*names);
            assert(all.take(i + 1).drop_last() =~= all.take(i as int));
        }
        let query = parse_package_query(names[i].as_str());
        match storage.get_packages(&query) {
            Some(found) => {
                push_records(&mut out, installed, &found);
            },
            None => {
                assert(out.deep_view() + Seq::<InstalledPackageView>::empty()
                    =~= out.deep_view());
            },
        }
        i += 1;
    }
    assert(all.take(names.len() as int) =~= all);
    InstalledPackages { packages: out }
}

/// The number of installed packages and the sum of their sizes.
pub fn installed_total(installed: &InstalledPackages) -> (r: (usize, u128))
    ensures
        r.0 == installed@.len(),
        r.1 == total_size(installed@),
{
    let ghost records = installed@;
    let mut size: u128 = 0;
    let mut i: usize = 0;
    assert(records.take(0) =~= Seq::<InstalledPackageView>::empty());
    while i < installed.packages.len()
        invariant
            i <= installed.packages.len(),
            records == installed@,
            records.len() == installed.packages.len(),
            size == total_size(records.take(i as int)),
            size <= i * 0xffff_ffff_ffff_ffff,
        decreases installed.packages.len() - i,
    {
        proof {
            lemma_deep_view_index(installed.packages);
            assert(records.take(i + 1).drop_last() =~= records.take(i as int));
            assert((i + 1) * 0xffff_ffff_ffff_ffff == i * 0xffff_ffff_ffff_ffff
                + 0xffff_ffff_ffff_ffff) by (nonlinear_arith);
            assert(i * 0xffff_ffff_ffff_ffff + 0xffff_ffff_ffff_ffff <= u128::MAX) by (nonlinear_arith)
                requires
                    i <= usize::MAX,
                    usize::MAX <= 0xffff_ffff_ffff_ffff,
            ;
        }
        size = size + installed.packages[i].size as u128;
        i += 1;
    }
    assert(records.take(installed.packages.len() as int) =~= records);
    (installed.packages.len(), size)
}

/// The address that the build script or the build log of a package is
/// fetched from. A script that is kept on GitHub is fetched raw: the first
/// `/tree/`, and then the first `/blob/`, of its address becomes
/// `/raw/refs/heads/`.
pub open spec fn inspect_url_of(p: ResolvedPackageView, log: bool) -> Seq<char> {
    if log {
        p.package.build_log
    } else if crate::text::occurs_at(p.package.build_script, "https://github.com"@, 0) {
        replaced_first(
            replaced_first(p.package.build_script, "/tree/"@, "/raw/refs/heads/"@),
            "/blob/"@,
            "/raw/refs/heads/"@,
        )
    } else {
        p.package.build_script
    }
}

/// Position of the first occurrence of `needle` in `s` at or after `from`,
/// or `-1` when there is none.
pub open spec fn first_occurrence(s: Seq<char>, needle: Seq<char>, from: int) -> int
    decreases s.len() - from,
{
    if from < 0 || from + needle.len() > s.len() {
        -1
    } else if crate::text::occurs_at(s, needle, from) {
        from
    } else if from + needle.len() == s.len() {
        -1
    } else {
        first_occurrence(s, needle, from + 1)
    }
}

/// `s` with its first occurrence of `needle` replaced by `with`.
pub open spec fn replaced_first(s: Seq<char>, needle: Seq<char>, with: Seq<char>) -> Seq<char> {
    let at = first_occurrence(s, needle, 0);
    if at < 0 {
        s
    } else {
        s.take(at) + with + s.skip(at + needle.len())
    }
}

/// Replaces the first occurrence of `needle` in `s` by `with`.
pub fn replace_first(s: &str, needle: &str, with: &str) -> (r: String)
    ensures
        r@ == replaced_first(s@, needle@, with@),
{
    let text = to_chars(s);
    let n = to_chars(needle);
    if n.len() > text.len() {
        return s.to_owned();
    }
    let last: usize = text.len() - n.len();
    let mut i: usize = 0;
    while i <= last
        invariant
            i <= last + 1,
            last == text.len() - n.len(),
            text@ == s@,
            n@ == needle@,
            first_occurrence(s@, needle@, 0) == first_occurrence(s@, needle@, i as int),
        decreases last + 1 - i,
    {
        if crate::text::matches_at(text.as_slice(), n.as_slice(), i) {
            let mut r = crate::text::substring(text.as_slice(), 0, i);
            r.append(with);
            let tail = crate::text::substring(text.as_slice(), i + n.len(), text.len());
            r.append(tail.as_str());
            assert(r@ =~= s@.take(i as int) + with@ + s@.skip(i + needle@.len()));
            return r;
        }
        if i == last {
            return s.to_owned();
        }
        i += 1;
    }
    s.to_owned()
}

/// The address that is fetched to inspect a package: its build log when
/// `log` is set, else its build script.
pub fn inspect_url(package: &ResolvedPackage, log: bool) -> (r: String)
    ensures
        r@ == inspect_url_of(package@, log),
{
    if log {
        return package.package.build_log.clone();
    }
    let script = to_chars(package.package.build_script.as_str());
    let host = to_chars("https://github.com");
    if crate::text::starts_with(script.as_slice(), host.as_slice()) {
        let raw = replace_first(package.package.build_script.as_str(), "/tree/", "/raw/refs/heads/");
        replace_first(raw.as_str(), "/blob/", "/raw/refs/heads/")
    } else {
        package.package.build_script.clone()
    }
}

/// The size above which a file is shown only after the user agreed: one
/// mebibyte.
pub const INSPECT_LIMIT: u64 = 1_048_576;

/// Whether the user is asked before a file of the given length is fetched
/// and shown. A file of unknown length counts as empty.
pub fn needs_confirmation(content_length: Option<u64>) -> (r: bool)
    ensures
        r == match content_length {
            Some(n) => n > INSPECT_LIMIT,
            None => false,
        },
{
    match content_length {
        Some(n) => n > INSPECT_LIMIT,
        None => false,
    }
}

/// A text with every carriage return turned into a line feed.
pub open spec fn unix_newlines(s: Seq<char>) -> Seq<char> {
    Seq::new(
        s.len(),
        |i: int|
            if s[i] == '\r' {
                '\n'
            } else {
                s[i]
            },
    )
}

/// Turns every carriage return of a text into a line feed.
pub fn normalize_newlines(s: &str) -> (r: String)
    ensures
        r@ == unix_newlines(s@),
{
    let text = to_chars(s);
    let mut r = String::new();
    let mut i: usize = 0;
    assert(r@ =~= unix_newlines(s@).take(0));
    while i < text.len()
        invariant
            i <= text.len(),
            text@ == s@,
            r@ == unix_newlines(s@).take(i as int),
        decreases text.len() - i,
    {
        let c = if text[i] == '\r' {
            '\n'
        } else {
            text[i]
        };
        r.push(c);
        assert(unix_newlines(s@).take(i + 1) =~= unix_newlines(s@).take(i as int).push(c));
        i += 1;
    }
    assert(unix_newlines(s@).take(text.len() as int) =~= unix_newlines(s@));
    r
}

/// An installed package as it is shown:
/// `- [collection] name:name-version (date) (size)`. A time that cannot be
/// written as a date is left empty.
pub open spec fn info_line_of(record: InstalledPackageView) -> Seq<char> {
    "- ["@ + record.collection + "] "@ + record.name.push(':') + record.name.push('-')
        + record.version + " ("@ + match timestamp_text(record.timestamp) {
        Some(text) => text,
        None => Seq::empty(),
    } + ") ("@ + crate::util::bytes_text(record.size) + ")"@
}

/// The line of an installed package.
pub fn info_line(record: &InstalledPackage) -> (r: String)
    ensures
        r@ == info_line_of(record@),
{
    let mut r = "- [".to_owned();
    r.append(record.collection.as_str());
    r.append("] ");
    r.append(record.name.as_str());
    r.push(':');
    r.append(record.name.as_str());
    r.push('-');
    r.append(record.version.as_str());
    r.append(" (");
    match format_timestamp(record.timestamp) {
        Some(text) => {
            r.append(text.as_str());
        },
        None => {
            assert(r@ + Seq::<char>::empty() =~= r@);
        },
    }
    r.append(") (");
    r.append(crate::util::format_bytes(record.size).as_str());
    r.append(")");
    assert(r@ =~= info_line_of(record@));
    r
}

} // verus!
