//! Desktop integration of AppImages and FlatImages: the icon and desktop
//! entry of an artifact, where they are linked to, and portable
//! directories.

use crate::file::FileType;
use crate::install::{is_below, ExistingLink, ExistingLinkView};
use crate::package::{join_path, path_join};
use crate::text::{
    decimal, ends_with, find_char, first_index_of, last_index_of, lemma_first_index_of, occurs_at,
    rfind_char, starts_with, str_eq, substring, to_chars, u64_to_string,
};
use vstd::prelude::*;
use vstd::string::*;

verus! {

/// The side lengths, in pixels, of the square icons that the icon theme
/// has a place for.
pub const SUPPORTED_DIMENSIONS: [u32; 12] = [16, 24, 32, 48, 64, 72, 80, 96, 128, 192, 256, 512];

/// The supported side lengths as a sequence.
pub open spec fn supported_sizes() -> Seq<u32> {
    seq![16u32, 24u32, 32u32, 48u32, 64u32, 72u32, 80u32, 96u32, 128u32, 192u32, 256u32, 512u32]
}

/// The absolute difference of two numbers.
pub open spec fn gap(a: int, b: int) -> int {
    if a >= b {
        a - b
    } else {
        b - a
    }
}

/// How far an image of `width` by `height` pixels is from the square of
/// side `size`: the sum of the differences of its sides.
pub open spec fn distance(width: u32, height: u32, size: u32) -> int {
    gap(size as int, width as int) + gap(size as int, height as int)
}

/// `size` is the supported size nearest to `width` by `height`: none is
/// nearer, and of those equally near it comes first.
pub open spec fn is_nearest(width: u32, height: u32, size: u32) -> bool {
    exists|k: int|
        {
            &&& 0 <= k < supported_sizes().len()
            &&& #[trigger] supported_sizes()[k] == size
            &&& forall|j: int|
                0 <= j < supported_sizes().len() ==> distance(width, height, size) <= distance(
                    width,
                    height,
                    #[trigger] supported_sizes()[j],
                )
            &&& forall|j: int|
                0 <= j < k ==> distance(width, height, size) < distance(
                    width,
                    height,
                    #[trigger] supported_sizes()[j],
                )
        }
}

fn distance_to(width: u32, height: u32, size: u32) -> (r: u64)
    ensures
        r == distance(width, height, size),
{
    let a: u64 = if size >= width {
        (size - width) as u64
    } else {
        (width - size) as u64
    };
    let b: u64 = if size >= height {
        (size - height) as u64
    } else {
        (height - size) as u64
    };
    a + b
}

/// The supported icon dimensions nearest to `width` by `height`.
pub fn find_nearest_supported_dimension(width: u32, height: u32) -> (r: (u32, u32))
    ensures
        r.0 == r.1,
        is_nearest(width, height, r.0),
{
    let sizes = SUPPORTED_DIMENSIONS;
    assert(sizes@ =~= supported_sizes());
    let mut best: usize = 0;
    let mut best_distance = distance_to(width, height, sizes[0]);
    let mut i: usize = 1;
    while i < 12
        invariant
            1 <= i <= 12,
            sizes@ == supported_sizes(),
            best < i,
            best_distance == distance(width, height, sizes@[best as int]),
            forall|j: int| 0 <= j < i ==> best_distance <= distance(width, height, sizes@[j]),
            forall|j: int| 0 <= j < best ==> best_distance < distance(width, height, sizes@[j]),
        decreases 12 - i,
    {
        let d = distance_to(width, height, sizes[i]);
        if d < best_distance {
            best = i;
            best_distance = d;
        }
        i += 1;
    }
    let size = sizes[best];
    assert(is_nearest(width, height, size)) by {
        assert(supported_sizes()[best as int] == size);
    }
    (size, size)
}

/// Decides whether an icon of `width` by `height` pixels is resized, and to
/// what: to the nearest supported dimensions, unless it has them already.
pub fn normalize_image(width: u32, height: u32) -> (r: Option<(u32, u32)>)
    ensures
        match r {
            Some(target) => target.0 == target.1 && is_nearest(width, height, target.0) && (width
                != target.0 || height != target.1),
            None => width == height && is_nearest(width, height, width),
        },
{
    let target = find_nearest_supported_dimension(width, height);
    if width != target.0 || height != target.1 {
        Some(target)
    } else {
        None
    }
}

/// How an artifact is integrated with the desktop.
#[derive(Debug, Clone, Copy, PartialEq, Eq, Structural)]
pub enum Integration {
    /// The icon and the desktop entry are taken out of the artifact.
    Embedded,
    /// The icon and the desktop entry are downloaded beside the artifact.
    Remote,
    /// The artifact is not integrated.
    Nothing,
}

/// How an artifact of the given type is integrated: an AppImage carries
/// its icon and desktop entry, a FlatImage has them published beside it,
/// and nothing is done for anything else.
pub fn integration_for(file_type: FileType) -> (r: Integration)
    ensures
        r == match file_type {
            FileType::AppImage => Integration::Embedded,
            FileType::FlatImage => Integration::Remote,
            _ => Integration::Nothing,
        },
{
    match file_type {
        FileType::AppImage => Integration::Embedded,
        FileType::FlatImage => Integration::Remote,
        _ => Integration::Nothing,
    }
}

/// The place of an icon in the icon theme:
/// `<data>/icons/hicolor/<width>x<height>/apps/<binary>.png`.
pub open spec fn icon_link(data_path: Seq<char>, width: u32, height: u32, bin_name: Seq<char>) -> Seq<
    char,
> {
    join_path(
        join_path(
            join_path(
                join_path(join_path(data_path, "icons"@), "hicolor"@),
                decimal(width as nat).push('x') + decimal(height as nat),
            ),
            "apps"@,
        ),
        bin_name + ".png"@,
    )
}

/// Where the icon of an artifact is linked to.
pub fn icon_link_path(data_path: &str, width: u32, height: u32, bin_name: &str) -> (r: String)
    ensures
        r@ == icon_link(data_path@, width, height, bin_name@),
{
    let icons = path_join(data_path, "icons");
    let theme = path_join(icons.as_str(), "hicolor");
    let mut size = u64_to_string(width as u64);
    size.push('x');
    size.append(u64_to_string(height as u64).as_str());
    let sized = path_join(theme.as_str(), size.as_str());
    let apps = path_join(sized.as_str(), "apps");
    let mut file = bin_name.to_owned();
    file.append(".png");
    path_join(apps.as_str(), file.as_str())
}

/// Where the desktop entry of a package is linked to:
/// `<data>/applications/<name>-soar.desktop`.
pub fn desktop_link_path(data_path: &str, name: &str) -> (r: String)
    ensures
        r@ == join_path(join_path(data_path@, "applications"@), name@ + "-soar.desktop"@),
{
    let dir = path_join(data_path, "applications");
    let mut file = name.to_owned();
    file.append("-soar.desktop");
    path_join(dir.as_str(), file.as_str())
}

/// Where the icon of an artifact is kept: beside it, with `.png` added.
pub fn icon_path(install_path: &str) -> (r: String)
    ensures
        r@ == install_path@ + ".png"@,
{
    let mut r = install_path.to_owned();
    r.append(".png");
    r
}

/// Where the desktop entry of an artifact is kept: beside it, with
/// `.desktop` added.
pub fn desktop_path(install_path: &str) -> (r: String)
    ensures
        r@ == install_path@ + ".desktop"@,
{
    let mut r = install_path.to_owned();
    r.append(".desktop");
    r
}

/// The address of the desktop entry that is published beside an icon: the
/// address of the icon up to its last slash, then the binary name and
/// `.desktop`. An icon address without a slash has no such neighbour.
pub fn remote_desktop_url(icon_url: &str, bin_name: &str) -> (r: Option<String>)
    ensures
        match r {
            Some(url) => last_index_of(icon_url@, '/') >= 0 && url@ == join_path(
                icon_url@.take(last_index_of(icon_url@, '/')),
                bin_name@ + ".desktop"@,
            ),
            None => last_index_of(icon_url@, '/') < 0,
        },
{
    let icon = to_chars(icon_url);
    match rfind_char(icon.as_slice(), '/') {
        None => None,
        Some(at) => {
            let base = substring(icon.as_slice(), 0, at);
            assert(base@ =~= icon_url@.take(at as int));
            let mut file = bin_name.to_owned();
            file.append(".desktop");
            Some(path_join(base.as_str(), file.as_str()))
        },
    }
}

/// What to do where a link into the desktop is to be.
#[derive(Debug, Clone, Copy, PartialEq, Eq, Structural)]
pub enum LinkAction {
    /// Nothing is there: create the link.
    Create,
    /// A link into the package store is there: replace it.
    Replace,
    /// Something that is not ours is there: leave it.
    Refuse,
}

/// The rule for links into the desktop: what is there is replaced only if
/// it is a link that points into the package store.
pub open spec fn desktop_link_rule(existing: ExistingLinkView, packages_path: Seq<char>) -> LinkAction {
    match existing {
        ExistingLinkView::Absent => LinkAction::Create,
        ExistingLinkView::Link { target, .. } => if is_below(target, packages_path) {
            LinkAction::Replace
        } else {
            LinkAction::Refuse
        },
        ExistingLinkView::Other => LinkAction::Refuse,
    }
}

/// Whether `path` lies below the directory `dir`.
pub fn path_is_below(path: &str, dir: &str) -> (r: bool)
    ensures
        r == is_below(path@, dir@),
{
    let p = to_chars(path);
    let d = to_chars(dir);
    if p.len() <= d.len() || p.len() - d.len() <= 1 {
        return false;
    }
    assert(p@.subrange(0, d.len() as int) =~= p@.take(d.len() as int));
    starts_with(p.as_slice(), d.as_slice()) && p[d.len()] == '/'
}

/// Decides what to do where a link to an icon, a desktop entry or a portable
/// directory is to be created or removed.
pub fn create_symlink(existing: &ExistingLink, packages_path: &str) -> (r: LinkAction)
    ensures
        r == desktop_link_rule(existing@, packages_path@),
{
    match existing {
        ExistingLink::Absent => LinkAction::Create,
        ExistingLink::Link { target, tag } => if path_is_below(target.as_str(), packages_path) {
            LinkAction::Replace
        } else {
            LinkAction::Refuse
        },
        ExistingLink::Other => LinkAction::Refuse,
    }
}

/// Why portable directories were refused.
#[derive(Debug, Clone, Copy, PartialEq, Eq, Structural)]
pub enum PortableError {
    /// A directory for both was given together with one for the home or
    /// the configuration alone.
    Conflict,
}

/// A portable directory of an artifact.
#[derive(Debug, PartialEq, Eq)]
pub enum PortableDir {
    /// The directory is created beside the artifact.
    Sibling { path: String },
    /// The directory is created elsewhere and linked beside the artifact.
    Linked { dir: String, link: String },
}

/// Mathematical model of a [`PortableDir`].
pub enum PortableDirView {
    Sibling { path: Seq<char> },
    Linked { dir: Seq<char>, link: Seq<char> },
}

impl View for PortableDir {
    type V = PortableDirView;

    open spec fn view(&self) -> PortableDirView {
        match self {
            PortableDir::Sibling { path } => PortableDirView::Sibling { path: path@ },
            PortableDir::Linked { dir, link } => PortableDirView::Linked {
                dir: dir@,
                link: link@,
            },
        }
    }
}

/// The portable directories that are set up for an artifact.
#[derive(Debug, PartialEq, Eq)]
pub struct PortablePlan {
    pub home: Option<PortableDir>,
    pub config: Option<PortableDir>,
}

/// Mathematical model of a [`PortablePlan`].
pub struct PortablePlanView {
    pub home: Option<PortableDirView>,
    pub config: Option<PortableDirView>,
}

/// The view of an optional portable directory.
pub open spec fn opt_dir(d: Option<PortableDir>) -> Option<PortableDirView> {
    match d {
        Some(dir) => Some(dir@),
        None => None,
    }
}

impl View for PortablePlan {
    type V = PortablePlanView;

    open spec fn view(&self) -> PortablePlanView {
        PortablePlanView { home: opt_dir(self.home), config: opt_dir(self.config) }
    }
}

/// The portable directory that an option asks for: none without the
/// option; for an empty value the sibling `<artifact><suffix>`; for any
/// other value the directory `<value>/<binary><suffix>`, linked from the
/// sibling.
pub open spec fn portable_dir(
    option: Option<Seq<char>>,
    install_path: Seq<char>,
    bin_name: Seq<char>,
    suffix: Seq<char>,
) -> Option<PortableDirView> {
    match option {
        None => None,
        Some(value) => if value.len() == 0 {
            Some(PortableDirView::Sibling { path: install_path + suffix })
        } else {
            Some(
                PortableDirView::Linked {
                    dir: join_path(value, bin_name + suffix),
                    link: install_path + suffix,
                },
            )
        },
    }
}

/// The characters of an optional string slice.
pub open spec fn opt_str(s: Option<&str>) -> Option<Seq<char>> {
    match s {
        Some(t) => Some(t@),
        None => None,
    }
}

/// The rule for portable directories. `portable` stands for both the home
/// and the configuration directory and cannot be combined with either.
pub open spec fn portable_rule(
    portable: Option<Seq<char>>,
    portable_home: Option<Seq<char>>,
    portable_config: Option<Seq<char>>,
    install_path: Seq<char>,
    bin_name: Seq<char>,
) -> Result<PortablePlanView, PortableError> {
    if portable is Some && (portable_home is Some || portable_config is Some) {
        Err(PortableError::Conflict)
    } else {
        let home = if portable is Some {
            portable
        } else {
            portable_home
        };
        let config = if portable is Some {
            portable
        } else {
            portable_config
        };
        Ok(
            PortablePlanView {
                home: portable_dir(home, install_path, bin_name, ".home"@),
                config: portable_dir(config, install_path, bin_name, ".config"@),
            },
        )
    }
}

/// Whether the options for portable directories contradict each other.
/// This is checked before anything is installed.
pub fn check_portable(
    portable: Option<&str>,
    portable_home: Option<&str>,
    portable_config: Option<&str>,
) -> (r: Result<(), PortableError>)
    ensures
        r is Err <==> (portable is Some && (portable_home is Some || portable_config is Some)),
        r is Err ==> r == Err::<(), PortableError>(PortableError::Conflict),
{
    if portable.is_some() && (portable_home.is_some() || portable_config.is_some()) {
        Err(PortableError::Conflict)
    } else {
        Ok(())
    }
}

fn portable_dir_for(option: Option<&str>, install_path: &str, bin_name: &str, suffix: &str) -> (r:
    Option<PortableDir>)
    ensures
        opt_dir(r) == portable_dir(opt_str(option), install_path@, bin_name@, suffix@),
{
    match option {
        None => None,
        Some(value) => {
            let mut sibling = install_path.to_owned();
            sibling.append(suffix);
            if value.is_empty() {
                Some(PortableDir::Sibling { path: sibling })
            } else {
                let mut name = bin_name.to_owned();
                name.append(suffix);
                Some(PortableDir::Linked { dir: path_join(value, name.as_str()), link: sibling })
            }
        },
    }
}

/// Plans the portable directories of the artifact at `install_path`.
pub fn setup_portable_dir(
    bin_name: &str,
    install_path: &str,
    portable: Option<&str>,
    portable_home: Option<&str>,
    portable_config: Option<&str>,
) -> (r: Result<PortablePlan, PortableError>)
    ensures
        match r {
            Ok(plan) => portable_rule(
                opt_str(portable),
                opt_str(portable_home),
                opt_str(portable_config),
                install_path@,
                bin_name@,
            ) == Ok::<PortablePlanView, PortableError>(plan@),
            Err(e) => portable_rule(
                opt_str(portable),
                opt_str(portable_home),
                opt_str(portable_config),
                install_path@,
                bin_name@,
            ) == Err::<PortablePlanView, PortableError>(e),
        },
{
    if portable.is_some() && (portable_home.is_some() || portable_config.is_some()) {
        return Err(PortableError::Conflict);
    }
    let home = if portable.is_some() {
        portable
    } else {
        portable_home
    };
    let config = if portable.is_some() {
        portable
    } else {
        portable_config
    };
    Ok(
        PortablePlan {
            home: portable_dir_for(home, install_path, bin_name, ".home"),
            config: portable_dir_for(config, install_path, bin_name, ".config"),
        },
    )
}

/// The first line of a text that is not empty: what stands before its
/// first line feed, without a carriage return that precedes the line feed.
pub open spec fn first_line(s: Seq<char>) -> Seq<char> {
    let e = first_index_of(s, '\n');
    let raw = s.take(e);
    if e < s.len() && raw.len() > 0 && raw.last() == '\r' {
        raw.drop_last()
    } else {
        raw
    }
}

/// What follows the first line of a text.
pub open spec fn after_first_line(s: Seq<char>) -> Seq<char> {
    let e = first_index_of(s, '\n');
    if 0 <= e < s.len() {
        s.skip(e + 1)
    } else {
        Seq::empty()
    }
}

/// The lines of a text. Lines end at a line feed, or at a carriage return
/// followed by a line feed; the end of the text ends the last line.
pub open spec fn lines_of(s: Seq<char>) -> Seq<Seq<char>>
    decreases s.len(),
{
    if s.len() == 0 {
        Seq::empty()
    } else {
        seq![first_line(s)] + lines_of(after_first_line(s))
    }
}

/// Whether a line of a desktop entry is a comment.
pub open spec fn is_comment(line: Seq<char>) -> bool {
    line.len() > 0 && line[0] == '#'
}

/// A line of a desktop entry as it is installed: the icon is the binary
/// name, and what is executed is the link of the binary.
pub open spec fn desktop_line(line: Seq<char>, bin_name: Seq<char>, bin_path: Seq<char>) -> Seq<
    char,
> {
    if occurs_at(line, "Icon="@, 0) {
        "Icon="@ + bin_name
    } else if occurs_at(line, "Exec="@, 0) {
        "Exec="@ + join_path(bin_path, bin_name)
    } else if occurs_at(line, "TryExec="@, 0) {
        "TryExec="@ + join_path(bin_path, bin_name)
    } else {
        line
    }
}

/// The lines of a desktop entry as they are installed: comments are left
/// out and the other lines rewritten.
pub open spec fn desktop_lines(
    lines: Seq<Seq<char>>,
    bin_name: Seq<char>,
    bin_path: Seq<char>,
) -> Seq<Seq<char>>
    decreases lines.len(),
{
    if lines.len() == 0 {
        Seq::empty()
    } else {
        let rest = desktop_lines(lines.drop_last(), bin_name, bin_path);
        if is_comment(lines.last()) {
            rest
        } else {
            rest.push(desktop_line(lines.last(), bin_name, bin_path))
        }
    }
}

/// Lines joined by line feeds.
pub open spec fn join_lines(lines: Seq<Seq<char>>) -> Seq<char>
    decreases lines.len(),
{
    if lines.len() == 0 {
        Seq::empty()
    } else if lines.len() == 1 {
        lines[0]
    } else {
        join_lines(lines.drop_last()).push('\n') + lines.last()
    }
}

/// A desktop entry as it is installed.
pub open spec fn processed_desktop(
    content: Seq<char>,
    bin_name: Seq<char>,
    bin_path: Seq<char>,
) -> Seq<char> {
    join_lines(desktop_lines(lines_of(content), bin_name, bin_path))
}

fn rewrite_line(line: &[char], bin_name: &str, bin_path: &str) -> (r: String)
    ensures
        r@ == desktop_line(line@, bin_name@, bin_path@),
{
    let icon = to_chars("Icon=");
    let exec = to_chars("Exec=");
    let try_exec = to_chars("TryExec=");
    if starts_with(line, icon.as_slice()) {
        let mut r = "Icon=".to_owned();
        r.append(bin_name);
        r
    } else if starts_with(line, exec.as_slice()) {
        let mut r = "Exec=".to_owned();
        r.append(path_join(bin_path, bin_name).as_str());
        r
    } else if starts_with(line, try_exec.as_slice()) {
        let mut r = "TryExec=".to_owned();
        r.append(path_join(bin_path, bin_name).as_str());
        r
    } else {
        crate::text::from_chars(line)
    }
}

/// Prepares the desktop entry of an artifact: strips comment lines and
/// rewrites the `Icon`, `Exec` and `TryExec` keys, so that the icon is the
/// binary name and what is executed is `<bin>/<binary>`.
pub fn process_desktop(content: &str, bin_name: &str, bin_path: &str) -> (r: String)
    ensures
        r@ == processed_desktop(content@, bin_name@, bin_path@),
{
    let c = to_chars(content);
    let mut out = String::new();
    let mut pos: usize = 0;
    let ghost mut done: Seq<Seq<char>> = Seq::empty();
    let mut any = false;
    assert(c@.skip(0) =~= c@);
    assert(done + lines_of(c@) =~= lines_of(c@));
    while pos < c.len()
        invariant
            pos <= c.len(),
            c@ == content@,
            lines_of(c@) == done + lines_of(c@.skip(pos as int)),
            out@ == join_lines(desktop_lines(done, bin_name@, bin_path@)),
            any == (desktop_lines(done, bin_name@, bin_path@).len() > 0),
        decreases c.len() - pos,
    {
        let ghost rest = c@.skip(pos as int);
        let mut end: usize = pos;
        while end < c.len() && c[end] != '\n'
            invariant
                pos <= end <= c.len(),
                forall|j: int| pos <= j < end ==> c@[j] != '\n',
            decreases c.len() - end,
        {
            end += 1;
        }
        proof {
            assert forall|j: int| 0 <= j < end - pos implies rest[j] != '\n' by {
                assert(rest[j] == c@[pos + j]);
            }
            lemma_first_index_of(rest, '\n', end - pos);
        }
        let stop: usize = if end < c.len() && end > pos && c[end - 1] == '\r' {
            end - 1
        } else {
            end
        };
        let next: usize = if end < c.len() {
            end + 1
        } else {
            end
        };
        let line = vstd::slice::slice_subrange(c.as_slice(), pos, stop);
        proof {
            assert(rest.take(end - pos) =~= c@.subrange(pos as int, end as int));
            assert(line@ =~= first_line(rest));
            assert(after_first_line(rest) =~= c@.skip(next as int));
            assert(done + (seq![first_line(rest)] + lines_of(c@.skip(next as int))) =~= done.push(
                line@,
            ) + lines_of(c@.skip(next as int)));
            assert(done.push(line@).drop_last() =~= done);
        }
        let comment = line.len() > 0 && line[0] == '#';
        if !comment {
            let rewritten = rewrite_line(line, bin_name, bin_path);
            if any {
                out.push('\n');
            }
            out.append(rewritten.as_str());
            any = true;
            proof {
                let before = desktop_lines(done, bin_name@, bin_path@);
                assert(before.push(rewritten@).drop_last() =~= before);
                if before.len() == 0 {
                    assert(out@ =~= rewritten@);
                }
            }
        }
        proof {
            done = done.push(line@);
        }
        pos = next;
    }
    proof {
        assert(lines_of(c@.skip(pos as int)) =~= Seq::<Seq<char>>::empty());
        assert(done + Seq::<Seq<char>>::empty() =~= done);
    }
    out
}

/// What a node of the image inside an AppImage is.
#[derive(Debug, PartialEq, Eq)]
pub enum NodeKind {
    /// A regular file.
    File,
    /// A symbolic link to the path `target`, which is relative to the root
    /// of the image.
    Symlink { target: String },
    /// Anything else.
    Other,
}

/// Mathematical model of a [`NodeKind`].
pub enum NodeKindView {
    File,
    Symlink { target: Seq<char> },
    Other,
}

impl View for NodeKind {
    type V = NodeKindView;

    open spec fn view(&self) -> NodeKindView {
        match self {
            NodeKind::File => NodeKindView::File,
            NodeKind::Symlink { target } => NodeKindView::Symlink { target: target@ },
            NodeKind::Other => NodeKindView::Other,
        }
    }
}

/// A node of the image inside an AppImage.
#[derive(Debug, PartialEq, Eq)]
pub struct ImageNode {
    /// The path of the node, beginning with a slash.
    pub path: String,
    pub kind: NodeKind,
}

/// Mathematical model of an [`ImageNode`].
pub struct ImageNodeView {
    pub path: Seq<char>,
    pub kind: NodeKindView,
}

impl View for ImageNode {
    type V = ImageNodeView;

    open spec fn view(&self) -> ImageNodeView {
        ImageNodeView { path: self.path@, kind: self.kind@ }
    }
}

impl DeepView for ImageNode {
    type V = ImageNodeView;

    open spec fn deep_view(&self) -> ImageNodeView {
        self@
    }
}

/// A path without the slash it begins with.
pub open spec fn relative(path: Seq<char>) -> Seq<char> {
    if path.len() > 0 && path[0] == '/' {
        path.skip(1)
    } else {
        path
    }
}

/// What an asset at the root of an image is used for.
#[derive(Debug, Clone, Copy, PartialEq, Eq, Structural)]
pub enum Asset {
    Icon,
    Desktop,
}

/// What the node at `path` is used for: a node at the root of the image
/// whose path ends in `.DirIcon` is the icon, one whose path ends in
/// `.desktop` the desktop entry.
pub open spec fn asset_of(path: Seq<char>) -> Option<Asset> {
    let name = relative(path);
    if first_index_of(name, '/') < name.len() {
        None
    } else if occurs_at(path, ".DirIcon"@, path.len() - ".DirIcon"@.len()) {
        Some(Asset::Icon)
    } else if occurs_at(path, ".desktop"@, path.len() - ".desktop"@.len()) {
        Some(Asset::Desktop)
    } else {
        None
    }
}

/// Tells whether a node of the image is the icon or the desktop entry of
/// the application.
pub fn classify_node(path: &str) -> (r: Option<Asset>)
    ensures
        r == asset_of(path@),
{
    let p = to_chars(path);
    let start: usize = if p.len() > 0 && p[0] == '/' {
        1
    } else {
        0
    };
    let name = vstd::slice::slice_subrange(p.as_slice(), start, p.len());
    assert(name@ =~= relative(path@));
    if find_char(name, '/').is_some() {
        return None;
    }
    let icon = to_chars(".DirIcon");
    let desktop = to_chars(".desktop");
    if ends_with(p.as_slice(), icon.as_slice()) {
        Some(Asset::Icon)
    } else if ends_with(p.as_slice(), desktop.as_slice()) {
        Some(Asset::Desktop)
    } else {
        None
    }
}

/// Why an asset could not be taken out of an image.
#[derive(Debug, Clone, Copy, PartialEq, Eq, Structural)]
pub enum ExtractError {
    /// The links of the image lead in a circle.
    SymlinkCycle,
    /// A link points at a path that the image does not have.
    TargetNotFound,
    /// The node is neither a file nor a link.
    UnexpectedNode,
}

/// The relative paths of a list of nodes.
pub open spec fn relative_paths(nodes: Seq<ImageNodeView>) -> Seq<Seq<char>> {
    Seq::new(nodes.len(), |i: int| relative(nodes[i].path))
}

/// The file that the node at position `at` stands for, following links for
/// at most `steps` steps. A link leads to the first node whose path, taken
/// relative to the root, is the target of the link.
pub open spec fn follow(nodes: Seq<ImageNodeView>, at: int, steps: nat) -> Result<
    int,
    ExtractError,
>
    decreases steps,
{
    match nodes[at].kind {
        NodeKindView::File => Ok(at),
        NodeKindView::Other => Err(ExtractError::UnexpectedNode),
        NodeKindView::Symlink { target } => {
            let next = first_index_of(relative_paths(nodes), target);
            if next >= nodes.len() {
                Err(ExtractError::TargetNotFound)
            } else if steps == 0 {
                Err(ExtractError::SymlinkCycle)
            } else {
                follow(nodes, next, (steps - 1) as nat)
            }
        },
    }
}

/// The file that the node at position `at` stands for. A chain of more
/// links than the image has nodes passes some node twice: it is a cycle. A
/// position outside the image stands for nothing.
pub open spec fn resolved_node(nodes: Seq<ImageNodeView>, at: int) -> Result<int, ExtractError> {
    if 0 <= at < nodes.len() {
        follow(nodes, at, nodes.len())
    } else {
        Err(ExtractError::TargetNotFound)
    }
}

fn find_node(nodes: &Vec<ImageNode>, target: &str) -> (r: Option<usize>)
    ensures
        match r {
            Some(n) => n < nodes.len() && n == first_index_of(
                relative_paths(nodes.deep_view()),
                target@,
            ),
            None => first_index_of(relative_paths(nodes.deep_view()), target@) >= nodes.len(),
        },
{
    let ghost paths = relative_paths(nodes.deep_view());
    let mut i: usize = 0;
    while i < nodes.len()
        invariant
            i <= nodes.len(),
            paths == relative_paths(nodes.deep_view()),
            paths.len() == nodes.len(),
            forall|j: int| 0 <= j < i ==> paths[j] != target@,
        decreases nodes.len() - i,
    {
        proof {
            crate::seqs::lemma_deep_view_index(*nodes);
        }
        let p = to_chars(nodes[i].path.as_str());
        let start: usize = if p.len() > 0 && p[0] == '/' {
            1
        } else {
            0
        };
        let name = substring(p.as_slice(), start, p.len());
        assert(name@ =~= relative(nodes[i as int].path@));
        if str_eq(name.as_str(), target) {
            proof {
                lemma_first_index_of(paths, target@, i as int);
            }
            return Some(i);
        }
        i += 1;
    }
    proof {
        lemma_first_index_of(paths, target@, i as int);
    }
    None
}

/// Finds the file that the node at position `start` stands for, following
/// links inside the image. A cycle of links is an error.
pub fn resolve_and_extract(nodes: &Vec<ImageNode>, start: usize) -> (r: Result<usize, ExtractError>)
    ensures
        match r {
            Ok(at) => at < nodes.len() && resolved_node(nodes.deep_view(), start as int) == Ok::<
                int,
                ExtractError,
            >(at as int),
            Err(e) => resolved_node(nodes.deep_view(), start as int) == Err::<int, ExtractError>(e),
        },
{
    let ghost all = nodes.deep_view();
    if start >= nodes.len() {
        return Err(ExtractError::TargetNotFound);
    }
    let mut at: usize = start;
    let mut steps: usize = nodes.len();
    loop
        invariant
            at < nodes.len(),
            all == nodes.deep_view(),
            steps <= nodes.len(),
            start < nodes.len(),
            resolved_node(all, start as int) == follow(all, at as int, steps as nat),
        decreases steps,
    {
        proof {
            crate::seqs::lemma_deep_view_index(*nodes);
        }
        match &nodes[at].kind {
            NodeKind::File => {
                return Ok(at);
            },
            NodeKind::Other => {
                return Err(ExtractError::UnexpectedNode);
            },
            NodeKind::Symlink { target } => {
                match find_node(nodes, target.as_str()) {
                    None => {
                        return Err(ExtractError::TargetNotFound);
                    },
                    Some(next) => {
                        if steps == 0 {
                            return Err(ExtractError::SymlinkCycle);
                        }
                        at = next;
                        steps -= 1;
                    },
                }
            },
        }
    }
}

} // verus!
