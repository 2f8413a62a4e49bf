//! Where the configuration of a test run comes from.

use vstd::prelude::*;

use crate::config::{Config, ConfigView, Options};
use crate::facts::{Disk, DiskView, Entry, EntryView};
use crate::options::load_config_file;
use crate::path::FilePath;
use crate::table::Table;
use crate::text::{self, same};

verus! {

broadcast use crate::text::group_deep;

// ---------------------------------------------------------------------------
// The common ancestor
// ---------------------------------------------------------------------------

/// The number of leading components, from position `i` on, that two paths
/// share.
pub open spec fn shared_len(a: Seq<Seq<char>>, b: Seq<Seq<char>>, i: int) -> int
    decreases a.len() - i,
{
    if i < 0 || i >= a.len() || i >= b.len() || a[i] != b[i] {
        i
    } else {
        shared_len(a, b, i + 1)
    }
}

/// The deepest directory that two paths share.
pub open spec fn shared(a: Seq<Seq<char>>, b: Seq<Seq<char>>) -> Seq<Seq<char>> {
    a.subrange(0, shared_len(a, b, 0))
}

/// What the existing paths from position `i` on have in common with
/// `ancestor`.
pub open spec fn ancestor_from(
    disk: DiskView,
    paths: Seq<Seq<Seq<char>>>,
    i: int,
    ancestor: Option<Seq<Seq<char>>>,
) -> Result<Option<Seq<Seq<char>>>, Seq<Seq<char>>>
    decreases paths.len() - i,
{
    if i < 0 || i >= paths.len() {
        Ok(ancestor)
    } else {
        match crate::facts::entry_at(disk, paths[i]) {
            Err(p) => Err(p),
            Ok(EntryView::Missing) => ancestor_from(disk, paths, i + 1, ancestor),
            Ok(_) => ancestor_from(
                disk,
                paths,
                i + 1,
                Some(
                    match ancestor {
                        None => paths[i],
                        Some(current) => shared(current, paths[i]),
                    },
                ),
            ),
        }
    }
}

/// pytest's common ancestor of some paths: existing paths only; the invocation
/// directory where there is none; the directory of a file.
pub open spec fn ancestor_of(
    disk: DiskView,
    invocation: Seq<Seq<char>>,
    paths: Seq<Seq<Seq<char>>>,
) -> Result<Seq<Seq<char>>, Seq<Seq<char>>> {
    match ancestor_from(disk, paths, 0, None) {
        Err(p) => Err(p),
        Ok(found) => {
            let ancestor = match found {
                Some(a) => a,
                None => invocation,
            };
            match crate::facts::entry_at(disk, ancestor) {
                Err(p) => Err(p),
                Ok(EntryView::File(_)) => Ok(
                    match crate::path::parent_of(ancestor) {
                        Some(d) => d,
                        None => ancestor,
                    },
                ),
                Ok(_) => Ok(ancestor),
            }
        },
    }
}

proof fn shared_len_range(a: Seq<Seq<char>>, b: Seq<Seq<char>>, i: int)
    requires
        0 <= i <= a.len(),
        i <= b.len(),
    ensures
        i <= shared_len(a, b, i) <= a.len(),
        shared_len(a, b, i) <= b.len(),
        forall|j: int| i <= j < shared_len(a, b, i) ==> a[j] == b[j],
    decreases a.len() - i,
{
    if i < a.len() && i < b.len() && a[i] == b[i] {
        shared_len_range(a, b, i + 1);
    }
}

/// The deepest directory that two paths share.
fn shared_path(a: &FilePath, b: &FilePath) -> (r: FilePath)
    ensures
        r@ == shared(a@, b@),
{
    let mut out: Vec<String> = Vec::new();
    let mut i: usize = 0;
    while i < a.parts.len() && i < b.parts.len() && same(a.parts[i].as_str(), b.parts[i].as_str())
        invariant
            i <= a.parts.len(),
            i <= b.parts.len(),
            out.len() == i,
            forall|j: int| 0 <= j < i ==> (#[trigger] out@[j])@ == a@[j],
            shared_len(a@, b@, i as int) == shared_len(a@, b@, 0),
        decreases a.parts.len() - i,
    {
        out.push(a.parts[i].clone());
        i += 1;
    }
    proof {
        assert(text::deep(out@) =~= shared(a@, b@));
    }
    FilePath { parts: out }
}

/// pytest's common-ancestor computation.
pub fn common_ancestor(
    disk: &Disk,
    invocation: &FilePath,
    paths: &Vec<FilePath>,
) -> (r: Result<FilePath, FilePath>)
    ensures
        crate::facts::told(r) == ancestor_of(disk@, invocation@, text::deep(paths@)),
{
    let ghost ps = text::deep(paths@);
    let mut ancestor: Option<FilePath> = None;
    let mut i: usize = 0;
    while i < paths.len()
        invariant
            i <= paths.len(),
            ps == text::deep(paths@),
            ancestor_from(disk@, ps, i as int, text::opt(ancestor)) == ancestor_from(
                disk@,
                ps,
                0,
                None,
            ),
        decreases paths.len() - i,
    {
        match disk.entry(&paths[i]) {
            Err(p) => {
                return Err(p);
            },
            Ok(Entry::Missing) => {},
            Ok(_) => {
                ancestor = match ancestor {
                    None => Some(paths[i].copy()),
                    Some(current) => Some(shared_path(&current, &paths[i])),
                };
            },
        }
        i += 1;
    }
    let found: FilePath = match ancestor {
        Some(a) => a,
        None => invocation.copy(),
    };
    match disk.entry(&found) {
        Err(p) => Err(p),
        Ok(Entry::File(_)) => match found.parent() {
            Some(d) => Ok(d),
            None => Ok(found),
        },
        Ok(_) => Ok(found),
    }
}

/// The directory that a path stands for: that of a file, or the path itself.
pub open spec fn folder_of(
    disk: DiskView,
    path: Seq<Seq<char>>,
) -> Result<Seq<Seq<char>>, Seq<Seq<char>>> {
    match crate::facts::entry_at(disk, path) {
        Err(p) => Err(p),
        Ok(EntryView::File(_)) => Ok(
            match crate::path::parent_of(path) {
                Some(d) => d,
                None => path,
            },
        ),
        Ok(_) => Ok(path),
    }
}

/// What the directories of the paths from position `i` on have in common with
/// `anchor`.
pub open spec fn anchor_from(
    disk: DiskView,
    paths: Seq<Seq<Seq<char>>>,
    i: int,
    anchor: Option<Seq<Seq<char>>>,
) -> Result<Option<Seq<Seq<char>>>, Seq<Seq<char>>>
    decreases paths.len() - i,
{
    if i < 0 || i >= paths.len() {
        Ok(anchor)
    } else {
        match folder_of(disk, paths[i]) {
            Err(p) => Err(p),
            Ok(dir) => anchor_from(
                disk,
                paths,
                i + 1,
                Some(
                    match anchor {
                        None => dir,
                        Some(current) => shared(current, dir),
                    },
                ),
            ),
        }
    }
}

/// The common ancestor of the directories of some paths; the invocation
/// directory where there are none.
pub open spec fn anchor_of(
    disk: DiskView,
    paths: Seq<Seq<Seq<char>>>,
    cwd: Seq<Seq<char>>,
) -> Result<Seq<Seq<char>>, Seq<Seq<char>>> {
    match anchor_from(disk, paths, 0, None) {
        Err(p) => Err(p),
        Ok(Some(anchor)) => Ok(anchor),
        Ok(None) => Ok(cwd),
    }
}

/// pytest anchors the search for its configuration at the common ancestor of
/// the given paths, falling back to the invocation directory. The paths are
/// canonical; an error names one of which it has to be known what stands there.
pub fn discovery_anchor(disk: &Disk, paths: &Vec<FilePath>, cwd: &FilePath) -> (r: Result<
    FilePath,
    FilePath,
>)
    ensures
        crate::facts::told(r) == anchor_of(disk@, text::deep(paths@), cwd@),
{
    let ghost ps = text::deep(paths@);
    let mut anchor: Option<FilePath> = None;
    let mut i: usize = 0;
    while i < paths.len()
        invariant
            i <= paths.len(),
            ps == text::deep(paths@),
            anchor_from(disk@, ps, i as int, text::opt(anchor)) == anchor_from(
                disk@,
                ps,
                0,
                None,
            ),
        decreases paths.len() - i,
    {
        let dir: FilePath = match disk.entry(&paths[i]) {
            Err(p) => {
                return Err(p);
            },
            Ok(Entry::File(_)) => match paths[i].parent() {
                Some(d) => d,
                None => paths[i].copy(),
            },
            Ok(_) => paths[i].copy(),
        };
        anchor = match anchor {
            None => Some(dir),
            Some(current) => Some(shared_path(&current, &dir)),
        };
        i += 1;
    }
    match anchor {
        Some(a) => Ok(a),
        None => Ok(cwd.copy()),
    }
}

/// Where directories are given the search for the configuration starts at the
/// anchor.
pub proof fn law_search_starts_at_the_anchor(
    disk: DiskView,
    paths: Seq<Seq<Seq<char>>>,
    cwd: Seq<Seq<char>>,
)
    requires
        forall|i: int|
            0 <= i < paths.len() ==> crate::facts::entry_at(disk, #[trigger] paths[i])
                == Ok::<EntryView, Seq<Seq<char>>>(EntryView::Folder),
        anchor_of(disk, paths, cwd) matches Ok(anchor) ==> crate::facts::entry_at(disk, anchor)
            == Ok::<EntryView, Seq<Seq<char>>>(EntryView::Folder),
    ensures
        ancestor_of(disk, cwd, paths) == anchor_of(disk, paths, cwd),
{
    folders_share_alike(disk, paths, 0, None);
}

proof fn folders_share_alike(
    disk: DiskView,
    paths: Seq<Seq<Seq<char>>>,
    i: int,
    anchor: Option<Seq<Seq<char>>>,
)
    requires
        0 <= i,
        forall|i: int|
            0 <= i < paths.len() ==> crate::facts::entry_at(disk, #[trigger] paths[i])
                == Ok::<EntryView, Seq<Seq<char>>>(EntryView::Folder),
    ensures
        ancestor_from(disk, paths, i, anchor) == anchor_from(disk, paths, i, anchor),
        anchor_from(disk, paths, i, anchor) is Ok,
    decreases paths.len() - i,
{
    if i < paths.len() {
        let next = match anchor {
            None => paths[i],
            Some(current) => shared(current, paths[i]),
        };
        assert(crate::facts::entry_at(disk, paths[i]) == Ok::<EntryView, Seq<Seq<char>>>(
            EntryView::Folder,
        ));
        folders_share_alike(disk, paths, i + 1, Some(next));
    }
}

// ---------------------------------------------------------------------------
// The configuration file
// ---------------------------------------------------------------------------

/// The names of configuration files, in the order in which they are tried.
pub open spec fn config_names() -> Seq<Seq<char>> {
    seq![
        "pytest.toml"@,
        ".pytest.toml"@,
        "pytest.ini"@,
        ".pytest.ini"@,
        "pyproject.toml"@,
        "tox.ini"@,
        "setup.cfg"@,
    ]
}

/// The configuration file names, in the order in which they are tried.
fn names_to_try() -> (r: Vec<String>)
    ensures
        text::deep(r@) == config_names(),
{
    let mut out: Vec<String> = Vec::new();
    out.push("pytest.toml".to_owned());
    out.push(".pytest.toml".to_owned());
    out.push("pytest.ini".to_owned());
    out.push(".pytest.ini".to_owned());
    out.push("pyproject.toml".to_owned());
    out.push("tox.ini".to_owned());
    out.push("setup.cfg".to_owned());
    proof {
        assert(text::deep(out@) =~= config_names());
    }
    out
}

/// A configuration file that was found: the directory that it makes the
/// rootdir, the file, and its options.
#[derive(Debug)]
pub struct Located {
    pub root: FilePath,
    pub source: FilePath,
    pub options: Options,
}

/// A configuration file that was found.
pub struct LocatedView {
    pub root: Seq<Seq<char>>,
    pub source: Seq<Seq<char>>,
    pub options: Seq<(Seq<char>, Seq<Seq<char>>)>,
}

impl View for Located {
    type V = LocatedView;

    open spec fn view(&self) -> LocatedView {
        LocatedView { root: self.root@, source: self.source@, options: self.options@ }
    }
}

/// How a search for a configuration file stands.
enum Search {
    Found(Located),
    /// Nothing yet; the first `pyproject.toml` without a pytest section.
    Open(Option<FilePath>),
}

/// How a search for a configuration file stands.
pub enum SearchView {
    Found(LocatedView),
    Open(Option<Seq<Seq<char>>>),
}

impl View for Search {
    type V = SearchView;

    closed spec fn view(&self) -> SearchView {
        match self {
            Search::Found(l) => SearchView::Found(l@),
            Search::Open(b) => SearchView::Open(text::opt(*b)),
        }
    }
}

/// The search in the directory `base`, from the name at position `i` on. A
/// `pyproject.toml` without a pytest section never wins directly, but the first
/// one seen is remembered.
pub open spec fn search_names(
    disk: DiskView,
    base: Seq<Seq<char>>,
    i: int,
    bare: Option<Seq<Seq<char>>>,
) -> Result<SearchView, Seq<Seq<char>>>
    decreases config_names().len() - i,
{
    if i < 0 || i >= config_names().len() {
        Ok(SearchView::Open(bare))
    } else {
        let name = config_names()[i];
        let candidate = crate::path::child(base, name);
        match crate::facts::entry_at(disk, candidate) {
            Err(p) => Err(p),
            Ok(EntryView::File(text)) => match crate::options::file_options(name, text) {
                Some(options) => Ok(
                    SearchView::Found(LocatedView { root: base, source: candidate, options }),
                ),
                None => search_names(
                    disk,
                    base,
                    i + 1,
                    if name == "pyproject.toml"@ && bare is None {
                        Some(candidate)
                    } else {
                        bare
                    },
                ),
            },
            Ok(_) => search_names(disk, base, i + 1, bare),
        }
    }
}

/// The search in the directory `base` and those above it.
pub open spec fn search_up(
    disk: DiskView,
    base: Seq<Seq<char>>,
    bare: Option<Seq<Seq<char>>>,
) -> Result<SearchView, Seq<Seq<char>>>
    decreases base.len(),
{
    match search_names(disk, base, 0, bare) {
        Ok(SearchView::Open(b)) => match crate::path::parent_of(base) {
            Some(up) => search_up(disk, up, b),
            None => Ok(SearchView::Open(b)),
        },
        other => other,
    }
}

/// The search from the arguments from position `i` on.
pub open spec fn search_args(
    disk: DiskView,
    args: Seq<Seq<Seq<char>>>,
    i: int,
    bare: Option<Seq<Seq<char>>>,
) -> Result<SearchView, Seq<Seq<char>>>
    decreases args.len() - i,
{
    if i < 0 || i >= args.len() {
        Ok(SearchView::Open(bare))
    } else {
        match search_up(disk, args[i], bare) {
            Ok(SearchView::Open(b)) => search_args(disk, args, i + 1, b),
            other => other,
        }
    }
}

/// The configuration file for some arguments: the first that is one, else the
/// first `pyproject.toml` seen, without options.
pub open spec fn located(
    disk: DiskView,
    args: Seq<Seq<Seq<char>>>,
) -> Result<Option<LocatedView>, Seq<Seq<char>>> {
    match search_args(disk, args, 0, None) {
        Err(p) => Err(p),
        Ok(SearchView::Found(l)) => Ok(Some(l)),
        Ok(SearchView::Open(None)) => Ok(None),
        Ok(SearchView::Open(Some(p))) => Ok(
            Some(
                LocatedView {
                    root: match crate::path::parent_of(p) {
                        Some(d) => d,
                        None => seq![crate::path::root_part()],
                    },
                    source: p,
                    options: Seq::empty(),
                },
            ),
        ),
    }
}

#[verifier::loop_isolation(false)]
fn try_names(disk: &Disk, base: &FilePath, bare: Option<FilePath>) -> (r: Result<
    Search,
    FilePath,
>)
    ensures
        crate::facts::told(r) == search_names(disk@, base@, 0, text::opt(bare)),
{
    let ghost start = text::opt(bare);
    let names: Vec<String> = names_to_try();
    let mut remembered: Option<FilePath> = bare;
    let mut i: usize = 0;
    while i < names.len()
        invariant
            i <= names.len(),
            text::deep(names@) == config_names(),
            search_names(disk@, base@, i as int, text::opt(remembered)) == search_names(
                disk@,
                base@,
                0,
                start,
            ),
        decreases names.len() - i,
    {
        let ghost name = config_names()[i as int];
        let candidate: FilePath = base.child(names[i].as_str());
        match disk.entry(&candidate) {
            Err(p) => {
                return Err(p);
            },
            Ok(Entry::File(content)) => {
                match load_config_file(names[i].as_str(), content.as_str()) {
                    Some(options) => {
                        return Ok(
                            Search::Found(
                                Located { root: base.copy(), source: candidate, options },
                            ),
                        );
                    },
                    None => {
                        if same(names[i].as_str(), "pyproject.toml") && remembered.is_none() {
                            remembered = Some(candidate);
                        }
                    },
                }
            },
            Ok(_) => {},
        }
        i += 1;
    }
    Ok(Search::Open(remembered))
}

fn try_up(disk: &Disk, base: &FilePath, bare: Option<FilePath>) -> (r: Result<Search, FilePath>)
    ensures
        crate::facts::told(r) == search_up(disk@, base@, text::opt(bare)),
    decreases base@.len(),
{
    match try_names(disk, base, bare) {
        Ok(Search::Open(b)) => match base.parent() {
            Some(up) => try_up(disk, &up, b),
            None => Ok(Search::Open(b)),
        },
        other => other,
    }
}

/// pytest's `locate_config`: walk each argument and its parents, trying the
/// configuration file names in order.
pub fn locate_config(disk: &Disk, args: &Vec<FilePath>) -> (r: Result<Option<Located>, FilePath>)
    ensures
        match r {
            Ok(l) => located(disk@, text::deep(args@)) == Ok::<_, Seq<Seq<char>>>(text::opt(l)),
            Err(p) => located(disk@, text::deep(args@)) == Err::<Option<LocatedView>, _>(p@),
        },
{
    let ghost all = text::deep(args@);
    let mut bare: Option<FilePath> = None;
    let mut i: usize = 0;
    while i < args.len()
        invariant
            i <= args.len(),
            all == text::deep(args@),
            search_args(disk@, all, i as int, text::opt(bare)) == search_args(
                disk@,
                all,
                0,
                None,
            ),
        decreases args.len() - i,
    {
        match try_up(disk, &args[i], bare) {
            Err(p) => {
                return Err(p);
            },
            Ok(Search::Found(l)) => {
                return Ok(Some(l));
            },
            Ok(Search::Open(b)) => {
                bare = b;
            },
        }
        i += 1;
    }
    match bare {
        None => Ok(None),
        Some(p) => {
            let root: FilePath = match p.parent() {
                Some(d) => d,
                None => FilePath::root(),
            };
            Ok(Some(Located { root, source: p, options: Table::new() }))
        },
    }
}

// ---------------------------------------------------------------------------
// The setup
// ---------------------------------------------------------------------------

/// The nearest directory, from `base` upward, that holds a `setup.py`.
pub open spec fn setup_above(
    disk: DiskView,
    base: Seq<Seq<char>>,
) -> Result<Option<Seq<Seq<char>>>, Seq<Seq<char>>>
    decreases base.len(),
{
    match crate::facts::entry_at(disk, crate::path::child(base, "setup.py"@)) {
        Err(p) => Err(p),
        Ok(EntryView::File(_)) => Ok(Some(base)),
        Ok(_) => match crate::path::parent_of(base) {
            Some(up) => setup_above(disk, up),
            None => Ok(None),
        },
    }
}

fn find_setup(disk: &Disk, base: &FilePath) -> (r: Result<Option<FilePath>, FilePath>)
    ensures
        match r {
            Ok(d) => setup_above(disk@, base@) == Ok::<_, Seq<Seq<char>>>(text::opt(d)),
            Err(p) => setup_above(disk@, base@) == Err::<Option<Seq<Seq<char>>>, _>(p@),
        },
    decreases base@.len(),
{
    match disk.entry(&base.child("setup.py")) {
        Err(p) => Err(p),
        Ok(Entry::File(_)) => Ok(Some(base.copy())),
        Ok(_) => match base.parent() {
            Some(up) => find_setup(disk, &up),
            None => Ok(None),
        },
    }
}

/// The paths from position `i` on that exist, behind those in `out`.
pub open spec fn existing_from(
    disk: DiskView,
    paths: Seq<Seq<Seq<char>>>,
    i: int,
    out: Seq<Seq<Seq<char>>>,
) -> Result<Seq<Seq<Seq<char>>>, Seq<Seq<char>>>
    decreases paths.len() - i,
{
    if i < 0 || i >= paths.len() {
        Ok(out)
    } else {
        match crate::facts::entry_at(disk, paths[i]) {
            Err(p) => Err(p),
            Ok(EntryView::Missing) => existing_from(disk, paths, i + 1, out),
            Ok(_) => existing_from(disk, paths, i + 1, out.push(paths[i])),
        }
    }
}

fn existing(disk: &Disk, paths: &Vec<FilePath>) -> (r: Result<Vec<FilePath>, FilePath>)
    ensures
        match r {
            Ok(v) => existing_from(disk@, text::deep(paths@), 0, Seq::empty()) == Ok::<
                _,
                Seq<Seq<char>>,
            >(text::deep(v@)),
            Err(p) => existing_from(disk@, text::deep(paths@), 0, Seq::empty()) == Err::<
                Seq<Seq<Seq<char>>>,
                _,
            >(p@),
        },
{
    let ghost ps = text::deep(paths@);
    let mut out: Vec<FilePath> = Vec::new();
    let mut i: usize = 0;
    while i < paths.len()
        invariant
            i <= paths.len(),
            ps == text::deep(paths@),
            existing_from(disk@, ps, i as int, text::deep(out@)) == existing_from(
                disk@,
                ps,
                0,
                Seq::empty(),
            ),
        decreases paths.len() - i,
    {
        match disk.entry(&paths[i]) {
            Err(p) => {
                return Err(p);
            },
            Ok(Entry::Missing) => {},
            Ok(_) => {
                out.push(paths[i].copy());
            },
        }
        i += 1;
    }
    Ok(out)
}

/// The configuration where no configuration file and no `setup.py` was found
/// above the common ancestor of the arguments: that of a file found from one of
/// the arguments, or the plain one of the common ancestor of the invocation
/// directory and the arguments.
pub open spec fn discovered_last(
    disk: DiskView,
    invocation: Seq<Seq<char>>,
    dirs: Seq<Seq<Seq<char>>>,
    ancestor: Seq<Seq<char>>,
) -> Result<ConfigView, Seq<Seq<char>>> {
    let again = if dirs != seq![ancestor] && dirs.len() > 0 {
        located(disk, dirs)
    } else {
        Ok(None)
    };
    match again {
        Err(p) => Err(p),
        Ok(Some(l)) => Ok(crate::config::config_of(l.root, Some(l.source), l.options)),
        Ok(None) => match ancestor_of(disk, invocation, seq![invocation, ancestor]) {
            Err(p) => Err(p),
            Ok(root) => Ok(
                crate::config::config_of(
                    if crate::path::parent_of(root) is None {
                        ancestor
                    } else {
                        root
                    },
                    None,
                    Seq::empty(),
                ),
            ),
        },
    }
}

/// pytest's `determine_setup`, for canonical paths:
/// 1. compute the common ancestor of the argument directories;
/// 2. walk it upward for a configuration file;
/// 3. else walk upward for `setup.py`;
/// 4. else repeat the search from each argument separately;
/// 5. else the rootdir is the common ancestor of the invocation directory and
///    the arguments.
pub open spec fn discovered(
    disk: DiskView,
    invocation: Seq<Seq<char>>,
    args: Seq<Seq<Seq<char>>>,
) -> Result<ConfigView, Seq<Seq<char>>> {
    match existing_from(disk, args, 0, Seq::empty()) {
        Err(p) => Err(p),
        Ok(dirs) => match ancestor_of(disk, invocation, dirs) {
            Err(p) => Err(p),
            Ok(ancestor) => match located(disk, seq![ancestor]) {
                Err(p) => Err(p),
                Ok(Some(l)) => Ok(crate::config::config_of(l.root, Some(l.source), l.options)),
                Ok(None) => match setup_above(disk, ancestor) {
                    Err(p) => Err(p),
                    Ok(Some(dir)) => Ok(crate::config::config_of(dir, None, Seq::empty())),
                    Ok(None) => discovered_last(disk, invocation, dirs, ancestor),
                },
            },
        },
    }
}

/// A list of one path.
fn only_path(p: &FilePath) -> (r: Vec<FilePath>)
    ensures
        text::deep(r@) == seq![p@],
{
    let mut out: Vec<FilePath> = Vec::new();
    out.push(p.copy());
    proof {
        assert(text::deep(out@) =~= seq![p@]);
    }
    out
}

fn discover_last(
    disk: &Disk,
    invocation: &FilePath,
    dirs: &Vec<FilePath>,
    ancestor: FilePath,
) -> (r: Result<Config, FilePath>)
    ensures
        crate::facts::told(r) == discovered_last(
            disk@,
            invocation@,
            text::deep(dirs@),
            ancestor@,
        ),
{
    proof {
        assert(text::deep(dirs@).len() == dirs@.len());
    }
    let single: bool = dirs.len() == 1 && dirs[0].equals(&ancestor);
    proof {
        assert(single == (text::deep(dirs@) == seq![ancestor@])) by {
            if single {
                assert(text::deep(dirs@) =~= seq![ancestor@]);
            }
            if text::deep(dirs@) == seq![ancestor@] {
                assert(text::deep(dirs@)[0] == ancestor@);
            }
        }
    }
    if !single && dirs.len() > 0 {
        match locate_config(disk, dirs) {
            Err(p) => {
                return Err(p);
            },
            Ok(Some(l)) => {
                return Ok(Config::build(l.root, Some(l.source), &l.options));
            },
            Ok(None) => {},
        }
    }
    let mut pair: Vec<FilePath> = only_path(invocation);
    pair.push(ancestor.copy());
    proof {
        assert(text::deep(pair@) =~= seq![invocation@, ancestor@]);
    }
    match common_ancestor(disk, invocation, &pair) {
        Err(p) => Err(p),
        Ok(root) => {
            let none: Options = Table::new();
            if root.parent().is_none() {
                Ok(Config::build(ancestor, None, &none))
            } else {
                Ok(Config::build(root, None, &none))
            }
        },
    }
}

impl Config {
    /// Discover with the invocation directory as the only argument.
    pub fn discover(disk: &Disk, start: &FilePath) -> (r: Result<Config, FilePath>)
        ensures
            crate::facts::told(r) == discovered(disk@, start@, Seq::empty()),
    {
        let none: Vec<FilePath> = Vec::new();
        Config::discover_for(disk, start, &none)
    }

    /// The configuration for a run that was started in `invocation` with the
    /// arguments `args`, all of them canonical paths; an error names a path of
    /// which it has to be known what stands there.
    pub fn discover_for(disk: &Disk, invocation: &FilePath, args: &Vec<FilePath>) -> (r: Result<
        Config,
        FilePath,
    >)
        ensures
            crate::facts::told(r) == discovered(disk@, invocation@, text::deep(args@)),
    {
        let dirs: Vec<FilePath> = match existing(disk, args) {
            Ok(v) => v,
            Err(p) => {
                return Err(p);
            },
        };
        let ancestor: FilePath = match common_ancestor(disk, invocation, &dirs) {
            Ok(a) => a,
            Err(p) => {
                return Err(p);
            },
        };
        let first: Vec<FilePath> = only_path(&ancestor);
        match locate_config(disk, &first) {
            Err(p) => {
                return Err(p);
            },
            Ok(Some(l)) => {
                return Ok(Config::build(l.root, Some(l.source), &l.options));
            },
            Ok(None) => {},
        }
        match find_setup(disk, &ancestor) {
            Err(p) => {
                return Err(p);
            },
            Ok(Some(dir)) => {
                let none: Options = Table::new();
                return Ok(Config::build(dir, None, &none));
            },
            Ok(None) => {},
        }
        discover_last(disk, invocation, &dirs, ancestor)
    }
}

// ---------------------------------------------------------------------------
// Laws
// ---------------------------------------------------------------------------

/// What two paths share is a directory of both, and the deepest one.
pub proof fn law_shared_is_deepest(a: Seq<Seq<char>>, b: Seq<Seq<char>>, p: Seq<Seq<char>>)
    ensures
        shared(a, b).is_prefix_of(a),
        shared(a, b).is_prefix_of(b),
        p.is_prefix_of(a) && p.is_prefix_of(b) ==> p.is_prefix_of(shared(a, b)),
{
    shared_len_range(a, b, 0);
    let n = shared_len(a, b, 0);
    assert(shared(a, b) =~= b.subrange(0, n));
    if p.is_prefix_of(a) && p.is_prefix_of(b) {
        shared_reaches(a, b, p, 0);
        assert(p =~= shared(a, b).subrange(0, p.len() as int));
    }
}

proof fn shared_reaches(a: Seq<Seq<char>>, b: Seq<Seq<char>>, p: Seq<Seq<char>>, i: int)
    requires
        0 <= i <= p.len(),
        p.is_prefix_of(a),
        p.is_prefix_of(b),
    ensures
        shared_len(a, b, i) >= p.len(),
    decreases p.len() - i,
{
    if i < p.len() {
        assert(a.subrange(0, p.len() as int)[i] == a[i]);
        assert(b.subrange(0, p.len() as int)[i] == b[i]);
        shared_reaches(a, b, p, i + 1);
    } else {
        at_least(a, b, i);
    }
}

proof fn at_least(a: Seq<Seq<char>>, b: Seq<Seq<char>>, i: int)
    ensures
        shared_len(a, b, i) >= i,
    decreases a.len() - i,
{
    if !(i < 0 || i >= a.len() || i >= b.len() || a[i] != b[i]) {
        at_least(a, b, i + 1);
    }
}

/// The common ancestor of some paths is a directory of the folder of each of
/// them, and every directory that holds all of those folders holds it.
pub proof fn law_anchor_is_deepest(
    disk: DiskView,
    paths: Seq<Seq<Seq<char>>>,
    cwd: Seq<Seq<char>>,
    p: Seq<Seq<char>>,
)
    requires
        anchor_of(disk, paths, cwd) is Ok,
        paths.len() > 0,
    ensures
        forall|i: int|
            0 <= i < paths.len() ==> folder_of(disk, #[trigger] paths[i]) is Ok && anchor_of(
                disk,
                paths,
                cwd,
            )->Ok_0.is_prefix_of(folder_of(disk, paths[i])->Ok_0),
        (forall|i: int|
            0 <= i < paths.len() ==> p.is_prefix_of(folder_of(disk, #[trigger] paths[i])->Ok_0))
            ==> p.is_prefix_of(anchor_of(disk, paths, cwd)->Ok_0),
{
    let dir = folder_of(disk, paths[0])->Ok_0;
    anchor_holds(disk, paths, 1, dir, p);
    assert forall|i: int| 0 <= i < paths.len() implies folder_of(disk, #[trigger] paths[i]) is Ok
        && anchor_of(disk, paths, cwd)->Ok_0.is_prefix_of(folder_of(disk, paths[i])->Ok_0) by {}
    if forall|i: int|
        0 <= i < paths.len() ==> p.is_prefix_of(folder_of(disk, #[trigger] paths[i])->Ok_0) {
        assert(p.is_prefix_of(folder_of(disk, paths[0])->Ok_0));
    }
}

proof fn anchor_holds(
    disk: DiskView,
    paths: Seq<Seq<Seq<char>>>,
    i: int,
    current: Seq<Seq<char>>,
    p: Seq<Seq<char>>,
)
    requires
        0 <= i <= paths.len(),
        anchor_from(disk, paths, i, Some(current)) is Ok,
    ensures
        anchor_from(disk, paths, i, Some(current))->Ok_0 is Some,
        ({
            let all = anchor_from(disk, paths, i, Some(current))->Ok_0->0;
            &&& all.is_prefix_of(current)
            &&& forall|j: int|
                i <= j < paths.len() ==> folder_of(disk, #[trigger] paths[j]) is Ok
                    && all.is_prefix_of(folder_of(disk, paths[j])->Ok_0)
            &&& p.is_prefix_of(current) && (forall|j: int|
                i <= j < paths.len() ==> p.is_prefix_of(
                    folder_of(disk, #[trigger] paths[j])->Ok_0,
                )) ==> p.is_prefix_of(all)
        }),
    decreases paths.len() - i,
{
    if i < paths.len() {
        let dir = folder_of(disk, paths[i])->Ok_0;
        let next = shared(current, dir);
        law_shared_is_deepest(current, dir, p);
        anchor_holds(disk, paths, i + 1, next, p);
        let all = anchor_from(disk, paths, i, Some(current))->Ok_0->0;
        text::prefixes_chain(all, next, current);
        text::prefixes_chain(all, next, dir);
        if p.is_prefix_of(current) && (forall|j: int|
            i <= j < paths.len() ==> p.is_prefix_of(folder_of(disk, #[trigger] paths[j])->Ok_0)) {
            assert(p.is_prefix_of(folder_of(disk, paths[i])->Ok_0));
        }
    } else {
        assert(current.subrange(0, current.len() as int) =~= current);
    }
}

/// The paths that exist are kept, and no others.
pub proof fn law_existing_paths_are_kept(
    disk: DiskView,
    paths: Seq<Seq<Seq<char>>>,
    x: Seq<Seq<char>>,
)
    requires
        existing_from(disk, paths, 0, Seq::empty()) is Ok,
    ensures
        existing_from(disk, paths, 0, Seq::empty())->Ok_0.contains(x) <==> paths.contains(x)
            && crate::facts::entry_at(disk, x) != Ok::<EntryView, Seq<Seq<char>>>(
            EntryView::Missing,
        ),
{
    existing_hold(disk, paths, 0, Seq::empty(), x);
    if paths.contains(x) {
        assert(paths[paths.index_of(x)] == x);
    }
}

proof fn existing_hold(
    disk: DiskView,
    paths: Seq<Seq<Seq<char>>>,
    i: int,
    out: Seq<Seq<Seq<char>>>,
    x: Seq<Seq<char>>,
)
    requires
        0 <= i <= paths.len(),
        existing_from(disk, paths, i, out) is Ok,
    ensures
        existing_from(disk, paths, i, out)->Ok_0.contains(x) <==> out.contains(x) || (
        crate::facts::entry_at(disk, x) != Ok::<EntryView, Seq<Seq<char>>>(EntryView::Missing)
            && exists|j: int| i <= j < paths.len() && #[trigger] paths[j] == x),
    decreases paths.len() - i,
{
    if i < paths.len() {
        if crate::facts::entry_at(disk, paths[i]) == Ok::<EntryView, Seq<Seq<char>>>(
            EntryView::Missing,
        ) {
            existing_hold(disk, paths, i + 1, out, x);
        } else {
            let next = out.push(paths[i]);
            existing_hold(disk, paths, i + 1, next, x);
            if out.contains(x) {
                assert(next[out.index_of(x)] == x);
            }
            if paths[i] == x {
                assert(next[out.len() as int] == x);
            }
            if next.contains(x) && !out.contains(x) {
                assert(next.index_of(x) == out.len());
            }
        }
    }
}

/// Does the file of a name in a directory configure pytest?
pub open spec fn configures(disk: DiskView, base: Seq<Seq<char>>, name: Seq<char>) -> bool {
    crate::facts::entry_at(disk, crate::path::child(base, name)) matches Ok(EntryView::File(text))
        && crate::options::file_options(name, text) is Some
}

/// In a directory a `pytest.toml` counts first, then `.pytest.toml`,
/// `pytest.ini`, `.pytest.ini`, `pyproject.toml`, `tox.ini` and `setup.cfg`: the
/// first of these that configures pytest is found, and nothing where none does.
pub proof fn law_order_of_configuration_files(
    disk: DiskView,
    base: Seq<Seq<char>>,
    bare: Option<Seq<Seq<char>>>,
    at: int,
)
    requires
        search_names(disk, base, 0, bare) is Ok,
        0 <= at <= 7,
        ({
            let names = seq![
                "pytest.toml"@,
                ".pytest.toml"@,
                "pytest.ini"@,
                ".pytest.ini"@,
                "pyproject.toml"@,
                "tox.ini"@,
                "setup.cfg"@,
            ];
            &&& forall|i: int| 0 <= i < at ==> !configures(disk, base, #[trigger] names[i])
            &&& at < 7 ==> configures(disk, base, names[at])
        }),
    ensures
        ({
            let names = seq![
                "pytest.toml"@,
                ".pytest.toml"@,
                "pytest.ini"@,
                ".pytest.ini"@,
                "pyproject.toml"@,
                "tox.ini"@,
                "setup.cfg"@,
            ];
            let found = search_names(disk, base, 0, bare)->Ok_0;
            &&& at == 7 ==> found is Open
            &&& at < 7 ==> {
                &&& found matches SearchView::Found(l)
                &&& l.root == base
                &&& l.source == crate::path::child(base, names[at])
                &&& crate::facts::entry_at(disk, l.source) matches Ok(EntryView::File(text))
                &&& Some(l.options) == crate::options::file_options(names[at], text)
            }
        }),
{
    earlier_names(disk, base, 0, bare, at);
}

proof fn earlier_names(
    disk: DiskView,
    base: Seq<Seq<char>>,
    i: int,
    bare: Option<Seq<Seq<char>>>,
    at: int,
)
    requires
        0 <= i <= at <= config_names().len(),
        search_names(disk, base, i, bare) is Ok,
        forall|j: int| i <= j < at ==> !configures(disk, base, #[trigger] config_names()[j]),
    ensures
        exists|b: Option<Seq<Seq<char>>>|
            search_names(disk, base, i, bare) == #[trigger] search_names(disk, base, at, b),
    decreases at - i,
{
    if i < at {
        let name = config_names()[i];
        assert(!configures(disk, base, name));
        let candidate = crate::path::child(base, name);
        let next = match crate::facts::entry_at(disk, candidate) {
            Ok(EntryView::File(text)) => if name == "pyproject.toml"@ && bare is None {
                Some(candidate)
            } else {
                bare
            },
            _ => bare,
        };
        earlier_names(disk, base, i + 1, next, at);
    }
}

/// The nearest directory counts: where a directory configures pytest, what stands
/// above it is not looked at, and where it does not, the search goes on above it.
pub proof fn law_nearest_configuration_counts(
    disk: DiskView,
    base: Seq<Seq<char>>,
    bare: Option<Seq<Seq<char>>>,
)
    ensures
        search_names(disk, base, 0, bare) matches Ok(SearchView::Found(l)) ==> search_up(
            disk,
            base,
            bare,
        ) == Ok::<SearchView, Seq<Seq<char>>>(SearchView::Found(l)),
        search_names(disk, base, 0, bare) matches Ok(SearchView::Open(b)) ==> (
        crate::path::parent_of(base) matches Some(up) ==> search_up(disk, base, bare) == search_up(
            disk,
            up,
            b,
        )),
{
}

/// The root directory that is found holds the file that was found and, where the
/// search started in one directory, is that directory or one above it.
pub proof fn law_root_is_above(disk: DiskView, base: Seq<Seq<char>>, bare: Option<Seq<Seq<char>>>)
    ensures
        search_up(disk, base, bare) matches Ok(SearchView::Found(l)) ==> l.root.is_prefix_of(base)
            && exists|i: int|
            0 <= i < config_names().len() && configures(disk, l.root, #[trigger] config_names()[i])
                && l.source == crate::path::child(l.root, config_names()[i]),
    decreases base.len(),
{
    found_here(disk, base, 0, bare);
    assert(base.subrange(0, base.len() as int) =~= base);
    if let Ok(SearchView::Open(b)) = search_names(disk, base, 0, bare) {
        if let Some(up) = crate::path::parent_of(base) {
            law_root_is_above(disk, up, b);
            if let Ok(SearchView::Found(l)) = search_up(disk, base, bare) {
                assert(up =~= base.subrange(0, up.len() as int));
                text::prefixes_chain(l.root, up, base);
            }
        }
    }
}

proof fn found_here(disk: DiskView, base: Seq<Seq<char>>, i: int, bare: Option<Seq<Seq<char>>>)
    requires
        0 <= i <= config_names().len(),
    ensures
        search_names(disk, base, i, bare) matches Ok(SearchView::Found(l)) ==> l.root == base
            && exists|j: int|
            0 <= j < config_names().len() && configures(disk, base, #[trigger] config_names()[j])
                && l.source == crate::path::child(base, config_names()[j]),
    decreases config_names().len() - i,
{
    if i < config_names().len() {
        let name = config_names()[i];
        let candidate = crate::path::child(base, name);
        if let Ok(e) = crate::facts::entry_at(disk, candidate) {
            if configures(disk, base, name) {
                assert(configures(disk, base, config_names()[i]));
            } else {
                let next = match e {
                    EntryView::File(text) => if name == "pyproject.toml"@ && bare is None {
                        Some(candidate)
                    } else {
                        bare
                    },
                    _ => bare,
                };
                found_here(disk, base, i + 1, next);
            }
        }
    }
}

/// The nearest `setup.py` counts, from the directory upward.
pub proof fn law_nearest_setup_counts(disk: DiskView, base: Seq<Seq<char>>)
    ensures
        setup_above(disk, base) matches Ok(Some(dir)) ==> dir.is_prefix_of(base) && (
        crate::facts::entry_at(disk, crate::path::child(dir, "setup.py"@)) matches Ok(
            EntryView::File(_),
        )),
        crate::facts::entry_at(disk, crate::path::child(base, "setup.py"@)) matches Ok(
            EntryView::File(_),
        ) ==> setup_above(disk, base) == Ok::<Option<Seq<Seq<char>>>, Seq<Seq<char>>>(Some(base)),
        setup_above(disk, base) == Ok::<Option<Seq<Seq<char>>>, Seq<Seq<char>>>(None) ==> !(
        crate::facts::entry_at(disk, crate::path::child(base, "setup.py"@)) matches Ok(
            EntryView::File(_),
        )) && (crate::path::parent_of(base) matches Some(up) ==> setup_above(disk, up) == Ok::<
            Option<Seq<Seq<char>>>,
            Seq<Seq<char>>,
        >(None)),
    decreases base.len(),
{
    assert(base.subrange(0, base.len() as int) =~= base);
    if let Some(up) = crate::path::parent_of(base) {
        law_nearest_setup_counts(disk, up);
        if let Ok(Some(dir)) = setup_above(disk, base) {
            if dir != base {
                assert(up =~= base.subrange(0, up.len() as int));
                text::prefixes_chain(dir, up, base);
            }
        }
    }
}

/// What decides on the configuration, in this order: a configuration file above
/// the common ancestor of the arguments, then a `setup.py` above it.
pub proof fn law_what_configures(
    disk: DiskView,
    invocation: Seq<Seq<char>>,
    args: Seq<Seq<Seq<char>>>,
)
    requires
        existing_from(disk, args, 0, Seq::empty()) is Ok,
        ancestor_of(disk, invocation, existing_from(disk, args, 0, Seq::empty())->Ok_0) is Ok,
    ensures
        ({
            let dirs = existing_from(disk, args, 0, Seq::empty())->Ok_0;
            let top = ancestor_of(disk, invocation, dirs)->Ok_0;
            let config = discovered(disk, invocation, args);
            &&& located(disk, seq![top]) matches Ok(Some(l)) ==> {
                &&& config matches Ok(c)
                &&& c.rootdir == l.root
                &&& c.source == Some(l.source)
            }
            &&& located(disk, seq![top]) == Ok::<Option<LocatedView>, Seq<Seq<char>>>(None) ==> (
            setup_above(disk, top) matches Ok(Some(dir)) ==> {
                &&& config matches Ok(c)
                &&& c.rootdir == dir
                &&& c.source is None
            })
        }),
{
}

/// The search goes over the arguments in their order: where the first one finds a
/// configuration file, that is it, and else the others are searched from.
pub proof fn law_arguments_are_searched_in_order(
    disk: DiskView,
    a: Seq<Seq<char>>,
    rest: Seq<Seq<Seq<char>>>,
    bare: Option<Seq<Seq<char>>>,
)
    ensures
        search_args(disk, seq![a] + rest, 0, bare) == match search_up(disk, a, bare) {
            Ok(SearchView::Open(b)) => search_args(disk, rest, 0, b),
            other => other,
        },
        search_up(disk, a, None) matches Ok(SearchView::Found(l)) ==> located(
            disk,
            seq![a] + rest,
        ) == Ok::<Option<LocatedView>, Seq<Seq<char>>>(Some(l)),
{
    assert((seq![a] + rest)[0] == a);
    if let Ok(SearchView::Open(b)) = search_up(disk, a, bare) {
        search_shifts(disk, a, rest, 0, b);
    }
}

proof fn search_shifts(
    disk: DiskView,
    a: Seq<Seq<char>>,
    rest: Seq<Seq<Seq<char>>>,
    i: int,
    bare: Option<Seq<Seq<char>>>,
)
    requires
        0 <= i <= rest.len(),
    ensures
        search_args(disk, seq![a] + rest, i + 1, bare) == search_args(disk, rest, i, bare),
    decreases rest.len() - i,
{
    if i < rest.len() {
        assert((seq![a] + rest)[i + 1] == rest[i]);
        if let Ok(SearchView::Open(b)) = search_up(disk, rest[i], bare) {
            search_shifts(disk, a, rest, i + 1, b);
        }
    }
}

/// Of several `pyproject.toml` that do not configure pytest the first one seen is
/// remembered. Where nothing else is found, its directory is the root, without
/// options.
pub proof fn law_bare_pyproject_is_remembered(
    disk: DiskView,
    args: Seq<Seq<Seq<char>>>,
    dir: Seq<Seq<char>>,
    p: Seq<Seq<char>>,
)
    ensures
        search_names(disk, dir, 0, Some(p)) matches Ok(SearchView::Open(b)) ==> b == Some(p),
        search_up(disk, dir, Some(p)) matches Ok(SearchView::Open(b)) ==> b == Some(p),
        search_args(disk, args, 0, None) == Ok::<SearchView, Seq<Seq<char>>>(
            SearchView::Open(Some(p)),
        ) ==> {
            &&& located(disk, args) matches Ok(Some(l))
            &&& l.source == p
            &&& l.options.len() == 0
            &&& crate::path::parent_of(p) matches Some(up) ==> l.root == up
        },
        search_args(disk, args, 0, None) == Ok::<SearchView, Seq<Seq<char>>>(
            SearchView::Open(None),
        ) ==> located(disk, args) == Ok::<Option<LocatedView>, Seq<Seq<char>>>(None),
{
    first_is_kept(disk, dir, 0, p);
    first_is_kept_above(disk, dir, p);
}

proof fn first_is_kept(disk: DiskView, dir: Seq<Seq<char>>, i: int, p: Seq<Seq<char>>)
    requires
        0 <= i <= config_names().len(),
    ensures
        search_names(disk, dir, i, Some(p)) matches Ok(SearchView::Open(b)) ==> b == Some(p),
    decreases config_names().len() - i,
{
    if i < config_names().len() {
        first_is_kept(disk, dir, i + 1, p);
    }
}

proof fn first_is_kept_above(disk: DiskView, dir: Seq<Seq<char>>, p: Seq<Seq<char>>)
    ensures
        search_up(disk, dir, Some(p)) matches Ok(SearchView::Open(b)) ==> b == Some(p),
    decreases dir.len(),
{
    first_is_kept(disk, dir, 0, p);
    if let Some(up) = crate::path::parent_of(dir) {
        first_is_kept_above(disk, up, p);
    }
}

/// Where neither a configuration file nor a `setup.py` stands above the common
/// ancestor, the arguments are searched from one by one; where that finds nothing
/// either, the root is what the directory of the call and the arguments share, or
/// the common ancestor of the arguments where they share the root only.
pub proof fn law_last_resorts(
    disk: DiskView,
    invocation: Seq<Seq<char>>,
    dirs: Seq<Seq<Seq<char>>>,
    top: Seq<Seq<char>>,
)
    ensures
        dirs.len() > 0 && dirs != seq![top] ==> (located(disk, dirs) matches Ok(Some(l)) ==> {
            &&& discovered_last(disk, invocation, dirs, top) matches Ok(c)
            &&& c.rootdir == l.root
            &&& c.source == Some(l.source)
        }),
        dirs.len() == 0 || dirs == seq![top] || located(disk, dirs) == Ok::<
            Option<LocatedView>,
            Seq<Seq<char>>,
        >(None) ==> (ancestor_of(disk, invocation, seq![invocation, top]) matches Ok(root) ==> {
            &&& discovered_last(disk, invocation, dirs, top) matches Ok(c)
            &&& c.source is None
            &&& crate::path::parent_of(root) is Some ==> c.rootdir == root
            &&& crate::path::parent_of(root) is None ==> c.rootdir == top
        }),
{
}

} // verus!
