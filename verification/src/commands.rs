//! What the command line asks for: which tests, in which order, and what to
//! remember of a run.

use vstd::prelude::*;

use crate::collector::{FileTests, FileTestsView};
use crate::config::{Config, ConfigView};
use crate::facts::{Disk, DiskView, Entry, EntryView};
use crate::keyword::{lower, KExpr, KExprView};
use crate::path::FilePath;
use crate::text::{
    self, concat, concat3, join, lines, same, split, split_once, Separator,
};

verus! {

broadcast use crate::text::group_deep;

// ---------------------------------------------------------------------------
// Selections
// ---------------------------------------------------------------------------

/// A `path::Class::test` argument: restrict that file to matching tests.
#[derive(Debug)]
pub struct Selector {
    pub file: FilePath,
    pub test: String,
}

/// A `path::Class::test` argument.
pub struct SelectorView {
    pub file: Seq<Seq<char>>,
    pub test: Seq<char>,
}

impl View for Selector {
    type V = SelectorView;

    open spec fn view(&self) -> SelectorView {
        SelectorView { file: self.file@, test: self.test@ }
    }
}

/// The file and the test that an argument selects; none for a plain path.
pub open spec fn selection_of(arg: Seq<char>) -> Option<(Seq<char>, Seq<char>)> {
    match text::split_at(arg, "::"@) {
        Some((file, test)) => if test.len() > 0 {
            Some((file, test))
        } else {
            None
        },
        None => None,
    }
}

/// The path that an argument names, taken from the directory `cwd`.
pub open spec fn absolute_from(cwd: Seq<Seq<char>>, arg: Seq<char>) -> Seq<Seq<char>> {
    crate::path::joined_path(cwd, crate::path::path_of(arg))
}

/// The path arguments among those from position `i` on, behind those in `out`:
/// plain paths, and the files of selections.
pub open spec fn paths_given(args: Seq<Seq<char>>, i: int, out: Seq<Seq<char>>) -> Seq<Seq<char>>
    decreases args.len() - i,
{
    if i < 0 || i >= args.len() {
        out
    } else {
        paths_given(
            args,
            i + 1,
            out.push(
                match selection_of(args[i]) {
                    Some((file, _)) => file,
                    None => args[i],
                },
            ),
        )
    }
}

/// The selections among the arguments from position `i` on, behind those in
/// `out`.
pub open spec fn selectors_given(
    args: Seq<Seq<char>>,
    cwd: Seq<Seq<char>>,
    i: int,
    out: Seq<SelectorView>,
) -> Seq<SelectorView>
    decreases args.len() - i,
{
    if i < 0 || i >= args.len() {
        out
    } else {
        selectors_given(
            args,
            cwd,
            i + 1,
            match selection_of(args[i]) {
                Some((file, test)) => out.push(
                    SelectorView { file: absolute_from(cwd, file), test },
                ),
                None => out,
            },
        )
    }
}

fn selection(arg: &str) -> (r: Option<(String, String)>)
    ensures
        text::opt(r) == selection_of(arg@),
{
    match split_once(arg, "::") {
        Some((file, test)) => if test.as_str().is_empty() {
            None
        } else {
            Some((file, test))
        },
        None => None,
    }
}

/// Split the arguments into plain paths and node-ID selectors. The file of a
/// selector is an absolute path.
pub fn parse_selections(args: &Vec<String>, cwd: &FilePath) -> (r: (Vec<String>, Vec<Selector>))
    ensures
        text::deep(r.0@) == paths_given(text::deep(args@), 0, Seq::empty()),
        text::deep(r.1@) == selectors_given(text::deep(args@), cwd@, 0, Seq::empty()),
{
    let ghost all = text::deep(args@);
    let mut roots: Vec<String> = Vec::new();
    let mut selectors: Vec<Selector> = Vec::new();
    let mut i: usize = 0;
    while i < args.len()
        invariant
            i <= args.len(),
            all == text::deep(args@),
            paths_given(all, i as int, text::deep(roots@)) == paths_given(all, 0, Seq::empty()),
            selectors_given(all, cwd@, i as int, text::deep(selectors@)) == selectors_given(
                all,
                cwd@,
                0,
                Seq::empty(),
            ),
        decreases args.len() - i,
    {
        match selection(args[i].as_str()) {
            Some((file, test)) => {
                let path: FilePath = FilePath::parse(file.as_str());
                selectors.push(Selector { file: cwd.join(&path), test });
                roots.push(file);
            },
            None => {
                roots.push(args[i].clone());
            },
        }
        i += 1;
    }
    (roots, selectors)
}

/// `TestX` selects `TestX`, `TestX::test_y`, and `TestX[param]` alike.
pub open spec fn selects(selector: Seq<char>, test: Seq<char>) -> bool {
    test == selector || (text::after_prefix(test, selector) matches Some(rest) && (
    "::"@.is_prefix_of(rest) || "["@.is_prefix_of(rest)))
}

/// `TestX` selects `TestX`, `TestX::test_y`, and `TestX[param]` alike.
pub fn selector_matches(test: &str, selector: &str) -> (r: bool)
    ensures
        r == selects(selector@, test@),
{
    same(test, selector) || match text::strip_prefix(test, selector) {
        Some(rest) => text::starts_with(rest.as_str(), "::") || text::starts_with(
            rest.as_str(),
            "[",
        ),
        None => false,
    }
}

// ---------------------------------------------------------------------------
// Filters
// ---------------------------------------------------------------------------

/// The tests from position `i` on that are kept, behind those in `out`.
pub open spec fn kept_from(
    tests: Seq<Seq<char>>,
    keep: spec_fn(Seq<char>) -> bool,
    i: int,
    out: Seq<Seq<char>>,
) -> Seq<Seq<char>>
    decreases tests.len() - i,
{
    if i < 0 || i >= tests.len() {
        out
    } else {
        kept_from(
            tests,
            keep,
            i + 1,
            if keep(tests[i]) {
                out.push(tests[i])
            } else {
                out
            },
        )
    }
}

/// The file with the tests that are kept.
pub open spec fn keeping(f: FileTestsView, keep: spec_fn(Seq<char>) -> bool) -> FileTestsView {
    FileTestsView { tests: kept_from(f.tests, keep, 0, Seq::empty()), ..f }
}

/// Is the test of the file selected?
pub open spec fn is_selected(
    selectors: Seq<SelectorView>,
    file: Seq<Seq<char>>,
    test: Seq<char>,
) -> bool {
    exists|i: int|
        0 <= i < selectors.len() && (#[trigger] selectors[i]).file == file && selects(
            selectors[i].test,
            test,
        )
}

/// Is there a selection for the file?
pub open spec fn has_selector(selectors: Seq<SelectorView>, file: Seq<Seq<char>>) -> bool {
    exists|i: int| 0 <= i < selectors.len() && (#[trigger] selectors[i]).file == file
}

/// The file with the tests that are selected; all of them where there is no
/// selection for it.
pub open spec fn selected_in(f: FileTestsView, selectors: Seq<SelectorView>) -> FileTestsView {
    if has_selector(selectors, f.abs_path) {
        keeping(f, |t: Seq<char>| is_selected(selectors, f.abs_path, t))
    } else {
        f
    }
}

fn file_has_selector(selectors: &Vec<Selector>, file: &FilePath) -> (r: bool)
    ensures
        r == has_selector(text::deep(selectors@), file@),
{
    let ghost ss = text::deep(selectors@);
    let mut i: usize = 0;
    while i < selectors.len()
        invariant
            i <= selectors.len(),
            ss == text::deep(selectors@),
            forall|j: int| 0 <= j < i ==> (#[trigger] ss[j]).file != file@,
        decreases selectors.len() - i,
    {
        if selectors[i].file.equals(file) {
            proof {
                assert(ss[i as int].file == file@);
            }
            return true;
        }
        i += 1;
    }
    false
}

fn test_is_selected(selectors: &Vec<Selector>, file: &FilePath, test: &str) -> (r: bool)
    ensures
        r == is_selected(text::deep(selectors@), file@, test@),
{
    let ghost ss = text::deep(selectors@);
    let mut i: usize = 0;
    while i < selectors.len()
        invariant
            i <= selectors.len(),
            ss == text::deep(selectors@),
            forall|j: int|
                0 <= j < i ==> !((#[trigger] ss[j]).file == file@ && selects(ss[j].test, test@)),
        decreases selectors.len() - i,
    {
        if selectors[i].file.equals(file) && selector_matches(
            test,
            selectors[i].test.as_str(),
        ) {
            proof {
                assert(ss[i as int].file == file@ && selects(ss[i as int].test, test@));
            }
            return true;
        }
        i += 1;
    }
    false
}

fn select_in(f: &FileTests, selectors: &Vec<Selector>) -> (r: FileTests)
    ensures
        r@ == selected_in(f@, text::deep(selectors@)),
{
    if !file_has_selector(selectors, &f.abs_path) {
        return f.copy();
    }
    let ghost ss = text::deep(selectors@);
    let ghost keep = |t: Seq<char>| is_selected(ss, f@.abs_path, t);
    let ghost ts = f@.tests;
    let mut out: Vec<String> = Vec::new();
    let mut i: usize = 0;
    while i < f.tests.len()
        invariant
            i <= f.tests.len(),
            ss == text::deep(selectors@),
            ts == text::deep(f.tests@),
            keep == (|t: Seq<char>| is_selected(ss, f@.abs_path, t)),
            kept_from(ts, keep, i as int, text::deep(out@)) == kept_from(
                ts,
                keep,
                0,
                Seq::empty(),
            ),
        decreases f.tests.len() - i,
    {
        if test_is_selected(selectors, &f.abs_path, f.tests[i].as_str()) {
            out.push(f.tests[i].clone());
        }
        i += 1;
    }
    FileTests { path: f.path.clone(), abs_path: f.abs_path.copy(), tests: out }
}

/// Restricts each file that selectors name to the tests that they select.
pub fn apply_selectors(files: &Vec<FileTests>, selectors: &Vec<Selector>) -> (r: Vec<FileTests>)
    ensures
        text::deep(r@) == Seq::new(
            files@.len(),
            |i: int| selected_in(text::deep(files@)[i], text::deep(selectors@)),
        ),
{
    let mut out: Vec<FileTests> = Vec::new();
    let mut i: usize = 0;
    while i < files.len()
        invariant
            i <= files.len(),
            out.len() == i,
            forall|j: int|
                0 <= j < i ==> (#[trigger] out@[j])@ == selected_in(
                    files@[j]@,
                    text::deep(selectors@),
                ),
        decreases files.len() - i,
    {
        out.push(select_in(&files[i], selectors));
        i += 1;
    }
    proof {
        assert(text::deep(out@) =~= Seq::new(
            files@.len(),
            |i: int| selected_in(text::deep(files@)[i], text::deep(selectors@)),
        ));
    }
    out
}

/// What a keyword expression is held against: the file's name and the test, in
/// lower case.
pub open spec fn candidate_of(path: Seq<char>, test: Seq<char>) -> Seq<char> {
    crate::keyword::lower_of(
        text::fields(path, Separator::Char('/'), true).last() + "::"@ + test,
    )
}

/// The file with the tests that match a keyword expression.
pub open spec fn matching_in(f: FileTestsView, e: KExprView) -> FileTestsView {
    keeping(f, |t: Seq<char>| crate::keyword::matched(e, candidate_of(f.path, t)))
}

fn match_in(f: &FileTests, e: &KExpr) -> (r: FileTests)
    ensures
        r@ == matching_in(f@, e@),
{
    let segments: Vec<String> = split(f.path.as_str(), Separator::Char('/'), true);
    let ghost ss = text::deep(segments@);
    proof {
        crate::text::fields_nonempty(f.path@, 0, Seq::empty(), Seq::empty(), '/');
        assert(ss.len() == segments@.len());
        assert(ss.last() == segments@[segments@.len() - 1]@);
    }
    let n: usize = segments.len();
    let basename: &str = segments[n - 1].as_str();
    let ghost keep = |t: Seq<char>| crate::keyword::matched(e@, candidate_of(f@.path, t));
    let ghost ts = f@.tests;
    let mut out: Vec<String> = Vec::new();
    let mut i: usize = 0;
    while i < f.tests.len()
        invariant
            i <= f.tests.len(),
            ts == text::deep(f.tests@),
            basename@ == text::fields(f@.path, Separator::Char('/'), true).last(),
            keep == (|t: Seq<char>| crate::keyword::matched(e@, candidate_of(f@.path, t))),
            kept_from(ts, keep, i as int, text::deep(out@)) == kept_from(
                ts,
                keep,
                0,
                Seq::empty(),
            ),
        decreases f.tests.len() - i,
    {
        let whole: String = concat3(basename, "::", f.tests[i].as_str());
        let candidate: String = lower(whole.as_str());
        if e.matches(candidate.as_str()) {
            out.push(f.tests[i].clone());
        }
        i += 1;
    }
    FileTests { path: f.path.clone(), abs_path: f.abs_path.copy(), tests: out }
}

/// `-k` filtering against `basename::testid`, pytest-style approximation.
pub fn apply_keyword(files: &Vec<FileTests>, e: &KExpr) -> (r: Vec<FileTests>)
    ensures
        text::deep(r@) == Seq::new(
            files@.len(),
            |i: int| matching_in(text::deep(files@)[i], e@),
        ),
{
    let mut out: Vec<FileTests> = Vec::new();
    let mut i: usize = 0;
    while i < files.len()
        invariant
            i <= files.len(),
            out.len() == i,
            forall|j: int| 0 <= j < i ==> (#[trigger] out@[j])@ == matching_in(files@[j]@, e@),
        decreases files.len() - i,
    {
        out.push(match_in(&files[i], e));
        i += 1;
    }
    proof {
        assert(text::deep(out@) =~= Seq::new(
            files@.len(),
            |i: int| matching_in(text::deep(files@)[i], e@),
        ));
    }
    out
}

// ---------------------------------------------------------------------------
// Roots
// ---------------------------------------------------------------------------

/// The `testpaths` from position `i` on that exist, taken from the rootdir,
/// behind those in `out`.
pub open spec fn testpaths_from(
    disk: DiskView,
    c: ConfigView,
    i: int,
    out: Seq<Seq<Seq<char>>>,
) -> Result<Seq<Seq<Seq<char>>>, Seq<Seq<char>>>
    decreases c.testpaths.len() - i,
{
    if i < 0 || i >= c.testpaths.len() {
        Ok(out)
    } else {
        let p = crate::path::child(c.rootdir, c.testpaths[i]);
        match crate::facts::entry_at(disk, p) {
            Err(q) => Err(q),
            Ok(EntryView::Missing) => testpaths_from(disk, c, i + 1, out),
            Ok(_) => testpaths_from(disk, c, i + 1, out.push(p)),
        }
    }
}

/// pytest's argument fallback: explicit paths, else `testpaths` from the
/// configuration (relative to the rootdir), else the invocation directory.
pub open spec fn roots_of(
    disk: DiskView,
    paths: Seq<Seq<Seq<char>>>,
    c: ConfigView,
    cwd: Seq<Seq<char>>,
) -> Result<Seq<Seq<Seq<char>>>, Seq<Seq<char>>> {
    if paths.len() > 0 {
        Ok(paths)
    } else {
        match testpaths_from(disk, c, 0, Seq::empty()) {
            Err(q) => Err(q),
            Ok(found) => if found.len() > 0 {
                Ok(found)
            } else {
                Ok(seq![cwd])
            },
        }
    }
}

/// pytest's argument fallback: explicit paths, else `testpaths` from the
/// configuration (relative to the rootdir), else the invocation directory.
pub fn resolve_roots(disk: &Disk, paths: Vec<FilePath>, c: &Config, cwd: &FilePath) -> (r: Result<
    Vec<FilePath>,
    FilePath,
>)
    ensures
        match r {
            Ok(v) => roots_of(disk@, text::deep(paths@), c@, cwd@) == Ok::<_, Seq<Seq<char>>>(
                text::deep(v@),
            ),
            Err(q) => roots_of(disk@, text::deep(paths@), c@, cwd@) == Err::<
                Seq<Seq<Seq<char>>>,
                _,
            >(q@),
        },
{
    proof {
        assert(text::deep(paths@).len() == paths@.len());
    }
    if paths.len() > 0 {
        return Ok(paths);
    }
    let mut out: Vec<FilePath> = Vec::new();
    let mut i: usize = 0;
    while i < c.testpaths.len()
        invariant
            i <= c.testpaths.len(),
            text::deep(paths@).len() == 0,
            testpaths_from(disk@, c@, i as int, text::deep(out@)) == testpaths_from(
                disk@,
                c@,
                0,
                Seq::empty(),
            ),
        decreases c.testpaths.len() - i,
    {
        let p: FilePath = c.rootdir.child(c.testpaths[i].as_str());
        match disk.entry(&p) {
            Err(q) => {
                return Err(q);
            },
            Ok(Entry::Missing) => {},
            Ok(_) => {
                out.push(p);
            },
        }
        i += 1;
    }
    proof {
        assert(text::deep(out@).len() == out@.len());
    }
    if out.len() == 0 {
        out.push(cwd.copy());
        proof {
            assert(text::deep(out@) =~= seq![cwd@]);
        }
    }
    Ok(out)
}

// ---------------------------------------------------------------------------
// The last-failed cache
// ---------------------------------------------------------------------------

/// Where the cache of failures stands.
pub fn lastfailed_path(c: &Config) -> (r: FilePath)
    ensures
        r@ == crate::path::child(crate::path::child(c@.rootdir, ".cito"@), "lastfailed"@),
{
    c.rootdir.child(".cito").child("lastfailed")
}

/// The lines from position `i` on that are not blank, behind those in `out`.
pub open spec fn solid_lines(lines: Seq<Seq<char>>, i: int, out: Seq<Seq<char>>) -> Seq<Seq<char>>
    decreases lines.len() - i,
{
    if i < 0 || i >= lines.len() {
        out
    } else {
        solid_lines(
            lines,
            i + 1,
            if text::trimmed(lines[i]).len() > 0 {
                out.push(lines[i])
            } else {
                out
            },
        )
    }
}

/// The failures that the text of the cache records.
pub open spec fn recorded(text: Seq<char>) -> Seq<Seq<char>> {
    solid_lines(text::lines_of(text), 0, Seq::empty())
}

/// The failures that the text of the cache records.
pub fn parse_lastfailed(text: &str) -> (r: Vec<String>)
    ensures
        text::deep(r@) == recorded(text@),
{
    let all: Vec<String> = lines(text);
    let ghost ls = text::deep(all@);
    let mut out: Vec<String> = Vec::new();
    let mut i: usize = 0;
    while i < all.len()
        invariant
            i <= all.len(),
            ls == text::deep(all@),
            solid_lines(ls, i as int, text::deep(out@)) == solid_lines(ls, 0, Seq::empty()),
        decreases all.len() - i,
    {
        let trimmed: String = text::trim(all[i].as_str());
        if !trimmed.as_str().is_empty() {
            out.push(all[i].clone());
        }
        i += 1;
    }
    out
}

/// Did the candidate (rootdir-relative `path::test`) fail last time? Bare
/// candidates also match their bracketed parametrizations, and the rootdir may
/// differ.
pub open spec fn failed_as(candidate: Seq<char>, entry: Seq<char>) -> bool {
    candidate == entry || entry.is_suffix_of(candidate) || (text::after_prefix(
        entry,
        candidate,
    ) matches Some(rest) && "["@.is_prefix_of(rest))
}

/// Did `candidate` (rootdir-relative `path::test`) fail last time?
pub fn matches_failure(candidate: &str, entry: &str) -> (r: bool)
    ensures
        r == failed_as(candidate@, entry@),
{
    same(candidate, entry) || text::ends_with(candidate, entry) || match text::strip_prefix(
        entry,
        candidate,
    ) {
        Some(rest) => text::starts_with(rest.as_str(), "["),
        None => false,
    }
}

/// Is the test among the recorded failures?
pub open spec fn has_failed(
    path: Seq<char>,
    test: Seq<char>,
    previous: Seq<Seq<char>>,
) -> bool {
    exists|i: int|
        0 <= i < previous.len() && failed_as(path + "::"@ + test, #[trigger] previous[i])
}

/// Is a test of the file among the recorded failures?
pub open spec fn any_failed(f: FileTestsView, previous: Seq<Seq<char>>) -> bool {
    exists|i: int| 0 <= i < f.tests.len() && has_failed(f.path, #[trigger] f.tests[i], previous)
}

fn test_has_failed(path: &str, test: &str, previous: &Vec<String>) -> (r: bool)
    ensures
        r == has_failed(path@, test@, text::deep(previous@)),
{
    let candidate: String = concat3(path, "::", test);
    let ghost ps = text::deep(previous@);
    let mut i: usize = 0;
    while i < previous.len()
        invariant
            i <= previous.len(),
            ps == text::deep(previous@),
            candidate@ == path@ + "::"@ + test@,
            forall|j: int| 0 <= j < i ==> !failed_as(candidate@, #[trigger] ps[j]),
        decreases previous.len() - i,
    {
        if matches_failure(candidate.as_str(), previous[i].as_str()) {
            proof {
                assert(failed_as(candidate@, ps[i as int]));
            }
            return true;
        }
        i += 1;
    }
    false
}

/// Is a test of the file among the recorded failures?
pub fn file_has_failure(f: &FileTests, previous: &Vec<String>) -> (r: bool)
    ensures
        r == any_failed(f@, text::deep(previous@)),
{
    let ghost ts = f@.tests;
    let ghost ps = text::deep(previous@);
    let mut i: usize = 0;
    while i < f.tests.len()
        invariant
            i <= f.tests.len(),
            ts == text::deep(f.tests@),
            ts == f@.tests,
            ps == text::deep(previous@),
            forall|j: int| 0 <= j < i ==> !has_failed(f@.path, #[trigger] ts[j], ps),
        decreases f.tests.len() - i,
    {
        if test_has_failed(f.path.as_str(), f.tests[i].as_str(), previous) {
            proof {
                assert(has_failed(f@.path, ts[i as int], ps));
            }
            return true;
        }
        i += 1;
    }
    false
}

/// The file with the tests that failed last time.
pub open spec fn failed_in(f: FileTestsView, previous: Seq<Seq<char>>) -> FileTestsView {
    keeping(f, |t: Seq<char>| has_failed(f.path, t, previous))
}

fn keep_failed(f: &FileTests, previous: &Vec<String>) -> (r: FileTests)
    ensures
        r@ == failed_in(f@, text::deep(previous@)),
{
    let ghost ps = text::deep(previous@);
    let ghost keep = |t: Seq<char>| has_failed(f@.path, t, ps);
    let ghost ts = f@.tests;
    let mut out: Vec<String> = Vec::new();
    let mut i: usize = 0;
    while i < f.tests.len()
        invariant
            i <= f.tests.len(),
            ts == text::deep(f.tests@),
            ps == text::deep(previous@),
            keep == (|t: Seq<char>| has_failed(f@.path, t, ps)),
            kept_from(ts, keep, i as int, text::deep(out@)) == kept_from(
                ts,
                keep,
                0,
                Seq::empty(),
            ),
        decreases f.tests.len() - i,
    {
        if test_has_failed(f.path.as_str(), f.tests[i].as_str(), previous) {
            out.push(f.tests[i].clone());
        }
        i += 1;
    }
    FileTests { path: f.path.clone(), abs_path: f.abs_path.copy(), tests: out }
}

/// Only the tests that failed last time; none where no failures are recorded.
pub fn filter_lastfailed(files: &Vec<FileTests>, previous: &Vec<String>) -> (r: Vec<FileTests>)
    ensures
        text::deep(r@) == Seq::new(
            files@.len(),
            |i: int| failed_in(text::deep(files@)[i], text::deep(previous@)),
        ),
{
    let mut out: Vec<FileTests> = Vec::new();
    let mut i: usize = 0;
    while i < files.len()
        invariant
            i <= files.len(),
            out.len() == i,
            forall|j: int|
                0 <= j < i ==> (#[trigger] out@[j])@ == failed_in(
                    files@[j]@,
                    text::deep(previous@),
                ),
        decreases files.len() - i,
    {
        out.push(keep_failed(&files[i], previous));
        i += 1;
    }
    proof {
        assert(text::deep(out@) =~= Seq::new(
            files@.len(),
            |i: int| failed_in(text::deep(files@)[i], text::deep(previous@)),
        ));
    }
    out
}

/// `--lf`: the tests that failed last time, or everything (`None`) where no
/// failures are recorded.
pub fn last_failures(files: &Vec<FileTests>, previous: &Vec<String>) -> (r: Option<Vec<FileTests>>)
    ensures
        match r {
            Some(v) => previous@.len() > 0 && text::deep(v@) == Seq::new(
                files@.len(),
                |i: int| failed_in(text::deep(files@)[i], text::deep(previous@)),
            ),
            None => previous@.len() == 0,
        },
{
    if previous.len() == 0 {
        None
    } else {
        Some(filter_lastfailed(files, previous))
    }
}

/// Does a recorded failure belong to one of the files that were rerun?
pub open spec fn rerun(entry: Seq<char>, files: Seq<Seq<char>>) -> bool {
    exists|i: int| 0 <= i < files.len() && (#[trigger] files[i] + "::"@).is_prefix_of(entry)
}

/// The recorded failures from position `i` on whose files were not rerun,
/// behind those in `out`.
pub open spec fn untouched(
    previous: Seq<Seq<char>>,
    files: Seq<Seq<char>>,
    i: int,
    out: Seq<Seq<char>>,
) -> Seq<Seq<char>>
    decreases previous.len() - i,
{
    if i < 0 || i >= previous.len() {
        out
    } else {
        untouched(
            previous,
            files,
            i + 1,
            if rerun(previous[i], files) {
                out
            } else {
                out.push(previous[i])
            },
        )
    }
}

/// The failures to record after a run: entries belonging to files that were
/// just rerun are replaced, everything else is preserved.
pub open spec fn merged(
    previous: Seq<Seq<char>>,
    files: Seq<Seq<char>>,
    failed: Seq<Seq<char>>,
) -> Seq<Seq<char>> {
    crate::collector::with_new(untouched(previous, files, 0, Seq::empty()), failed, 0)
}

fn was_rerun(entry: &str, files: &Vec<String>) -> (r: bool)
    ensures
        r == rerun(entry@, text::deep(files@)),
{
    let ghost fs = text::deep(files@);
    let mut i: usize = 0;
    while i < files.len()
        invariant
            i <= files.len(),
            fs == text::deep(files@),
            forall|j: int|
                0 <= j < i ==> !(#[trigger] fs[j] + "::"@).is_prefix_of(entry@),
        decreases files.len() - i,
    {
        let prefix: String = concat(files[i].as_str(), "::");
        if text::starts_with(entry, prefix.as_str()) {
            proof {
                assert((fs[i as int] + "::"@).is_prefix_of(entry@));
            }
            return true;
        }
        i += 1;
    }
    false
}

/// Merge a run's failures into the recorded ones.
pub fn merge_lastfailed(
    previous: &Vec<String>,
    rerun_files: &Vec<String>,
    new_failed: &Vec<String>,
) -> (r: Vec<String>)
    ensures
        text::deep(r@) == merged(
            text::deep(previous@),
            text::deep(rerun_files@),
            text::deep(new_failed@),
        ),
{
    let ghost ps = text::deep(previous@);
    let ghost fs = text::deep(rerun_files@);
    let mut out: Vec<String> = Vec::new();
    let mut i: usize = 0;
    while i < previous.len()
        invariant
            i <= previous.len(),
            ps == text::deep(previous@),
            fs == text::deep(rerun_files@),
            untouched(ps, fs, i as int, text::deep(out@)) == untouched(ps, fs, 0, Seq::empty()),
        decreases previous.len() - i,
    {
        if !was_rerun(previous[i].as_str(), rerun_files) {
            out.push(previous[i].clone());
        }
        i += 1;
    }
    crate::collector::add_new(&mut out, new_failed);
    out
}

/// The text of the cache that records failures: one on each line.
pub open spec fn cache_text(entries: Seq<Seq<char>>) -> Seq<char> {
    let body = text::joined(entries, "\n"@);
    if body.len() == 0 {
        body
    } else {
        body + "\n"@
    }
}

/// The text of the cache that records failures.
pub fn lastfailed_text(entries: &Vec<String>) -> (r: String)
    ensures
        r@ == cache_text(text::deep(entries@)),
{
    let body: String = join(entries, "\n");
    if body.as_str().is_empty() {
        body
    } else {
        concat(body.as_str(), "\n")
    }
}

// ---------------------------------------------------------------------------
// Laws
// ---------------------------------------------------------------------------

/// Selecting tests of a file keeps exactly those that are asked for, in the
/// order in which they were collected.
pub proof fn law_filters_neither_invent_nor_lose(
    f: FileTestsView,
    keep: spec_fn(Seq<char>) -> bool,
)
    ensures
        keeping(f, keep).tests == f.tests.filter(keep),
        keeping(f, keep).path == f.path,
        keeping(f, keep).abs_path == f.abs_path,
        forall|t: Seq<char>| #[trigger]
            keeping(f, keep).tests.contains(t) <==> f.tests.contains(t) && keep(t),
{
    broadcast use vstd::seq_lib::group_filter_ensures;

    kept_is_filter(f.tests, keep, 0);
    assert(f.tests.take(0).filter(keep) =~= Seq::empty()) by {
        reveal(Seq::filter);
    }
    assert forall|t: Seq<char>| #[trigger] keeping(f, keep).tests.contains(t) implies (
    f.tests.contains(t) && keep(t)) by {
        f.tests.lemma_filter_contains_rev(keep, t);
        let i = keeping(f, keep).tests.index_of(t);
        assert(keep(f.tests.filter(keep)[i]));
    }
}

proof fn kept_is_filter(tests: Seq<Seq<char>>, keep: spec_fn(Seq<char>) -> bool, i: int)
    requires
        0 <= i <= tests.len(),
    ensures
        kept_from(tests, keep, i, tests.take(i).filter(keep)) == tests.filter(keep),
    decreases tests.len() - i,
{
    reveal(Seq::filter);
    if i < tests.len() {
        assert(tests.take(i + 1).drop_last() =~= tests.take(i));
        kept_is_filter(tests, keep, i + 1);
    } else {
        assert(tests.take(i) =~= tests);
    }
}

/// A name selects itself, everything below it, and its parametrizations.
pub proof fn law_selectors_reach_below(name: Seq<char>, rest: Seq<char>)
    ensures
        selects(name, name),
        selects(name, name + "::"@ + rest),
        selects(name, name + "["@ + rest),
{
    let below = name + "::"@ + rest;
    let expanded = name + "["@ + rest;
    assert(below.take(name.len() as int) =~= name);
    assert(below.skip(name.len() as int) =~= "::"@ + rest);
    assert(expanded.take(name.len() as int) =~= name);
    assert(expanded.skip(name.len() as int) =~= "["@ + rest);
    assert(name.is_prefix_of(below));
    assert(name.is_prefix_of(expanded));
    assert("::"@.is_prefix_of("::"@ + rest));
    assert("["@.is_prefix_of("["@ + rest));
}

/// A collected test is among the failures that record it, whether they record
/// the test itself, one of its parametrizations, or the test as seen from a
/// rootdir further down.
pub proof fn law_failures_are_found(candidate: Seq<char>, param: Seq<char>, dir: Seq<char>)
    ensures
        failed_as(candidate, candidate),
        failed_as(candidate, candidate + "["@ + param),
        failed_as(dir + candidate, candidate),
{
    let expanded = candidate + "["@ + param;
    assert(candidate.is_prefix_of(expanded));
    assert(expanded.skip(candidate.len() as int) =~= "["@ + param);
    assert("["@.is_prefix_of("["@ + param));
    assert((dir + candidate).skip(dir.len() as int) =~= candidate);
    assert(candidate.is_suffix_of(dir + candidate));
}

/// With only the recorded failures kept, a file has tests exactly where one of
/// its tests had failed; where no failures are recorded, no file has.
pub proof fn law_failures_are_kept(f: FileTestsView, previous: Seq<Seq<char>>)
    ensures
        failed_in(f, previous).tests.len() > 0 <==> any_failed(f, previous),
        previous.len() == 0 ==> failed_in(f, previous).tests.len() == 0,
{
    let keep = |t: Seq<char>| has_failed(f.path, t, previous);
    law_filters_neither_invent_nor_lose(f, keep);
    let kept = failed_in(f, previous).tests;
    if kept.len() > 0 {
        assert(kept.contains(kept[0]));
        assert(f.tests[f.tests.index_of(kept[0])] == kept[0]);
    }
    if any_failed(f, previous) {
        let i = choose|i: int|
            0 <= i < f.tests.len() && has_failed(f.path, #[trigger] f.tests[i], previous);
        assert(f.tests.contains(f.tests[i]));
        assert(keep(f.tests[i]));
        assert(keeping(f, keep).tests.contains(f.tests[i]));
    }
}

/// After a run the cache records what failed in it, and of the earlier failures
/// those whose files were not rerun: failures clear as their tests pass, and
/// nothing else is forgotten.
pub proof fn law_cache_after_a_run(
    previous: Seq<Seq<char>>,
    files: Seq<Seq<char>>,
    failed: Seq<Seq<char>>,
    entry: Seq<char>,
)
    ensures
        merged(previous, files, failed).contains(entry) <==> failed.contains(entry) || (
        previous.contains(entry) && !rerun(entry, files)),
{
    untouched_holds(previous, files, 0, Seq::empty(), entry);
    with_new_holds(untouched(previous, files, 0, Seq::empty()), failed, 0, entry);
    assert(previous.skip(0) =~= previous);
    assert(failed.skip(0) =~= failed);
}

proof fn untouched_holds(
    previous: Seq<Seq<char>>,
    files: Seq<Seq<char>>,
    i: int,
    out: Seq<Seq<char>>,
    entry: Seq<char>,
)
    requires
        0 <= i <= previous.len(),
    ensures
        untouched(previous, files, i, out).contains(entry) <==> out.contains(entry) || (
        previous.skip(i).contains(entry) && !rerun(entry, files)),
    decreases previous.len() - i,
{
    if i < previous.len() {
        let next = if rerun(previous[i], files) {
            out
        } else {
            out.push(previous[i])
        };
        untouched_holds(previous, files, i + 1, next, entry);
        push_holds(out, previous[i], entry);
        skip_holds(previous, i, entry);
    }
}

proof fn with_new_holds(out: Seq<Seq<char>>, names: Seq<Seq<char>>, i: int, entry: Seq<char>)
    requires
        0 <= i <= names.len(),
    ensures
        crate::collector::with_new(out, names, i).contains(entry) <==> out.contains(entry)
            || names.skip(i).contains(entry),
    decreases names.len() - i,
{
    if i < names.len() {
        with_new_holds(crate::names::with_name(out, names[i]), names, i + 1, entry);
        push_holds(out, names[i], entry);
        skip_holds(names, i, entry);
    }
}

proof fn push_holds(s: Seq<Seq<char>>, x: Seq<char>, y: Seq<char>)
    ensures
        s.push(x).contains(y) <==> s.contains(y) || x == y,
{
    if s.contains(y) {
        assert(s.push(x)[s.index_of(y)] == y);
    }
    if x == y {
        assert(s.push(x)[s.len() as int] == y);
    }
}

proof fn skip_holds(s: Seq<Seq<char>>, i: int, y: Seq<char>)
    requires
        0 <= i < s.len(),
    ensures
        s.skip(i).contains(y) <==> s[i] == y || s.skip(i + 1).contains(y),
{
    if s.skip(i).contains(y) {
        let k = s.skip(i).index_of(y);
        if k > 0 {
            assert(s.skip(i + 1)[k - 1] == y);
        }
    }
    if s[i] == y {
        assert(s.skip(i)[0] == y);
    }
    if s.skip(i + 1).contains(y) {
        let k = s.skip(i + 1).index_of(y);
        assert(s.skip(i)[k + 1] == y);
    }
}

/// Can a line of the cache hold the entry? It is no blank line, and no line end
/// stands in it or, but for the line feed, at its end.
pub open spec fn recordable(entry: Seq<char>) -> bool {
    !entry.contains('\n') && entry.last() != '\r' && text::trimmed(entry).len() > 0
}

/// Reading the cache gives back the failures that were written to it.
pub proof fn law_cache_round_trip(entries: Seq<Seq<char>>)
    requires
        forall|i: int| 0 <= i < entries.len() ==> recordable(#[trigger] entries[i]),
    ensures
        recorded(cache_text(entries)) == entries,
{
    let s = cache_text(entries);
    read_back(entries, entries.len() as int);
    assert(entries.take(entries.len() as int) =~= entries);
    assert(text::lines_of(s) == entries);
    all_solid(entries, 0);
    assert(entries.take(0) =~= Seq::empty());
}

proof fn all_solid(entries: Seq<Seq<char>>, i: int)
    requires
        0 <= i <= entries.len(),
        forall|i: int| 0 <= i < entries.len() ==> recordable(#[trigger] entries[i]),
    ensures
        solid_lines(entries, i, entries.take(i)) == entries,
    decreases entries.len() - i,
{
    if i < entries.len() {
        assert(recordable(entries[i]));
        assert(entries.take(i + 1) =~= entries.take(i).push(entries[i]));
        all_solid(entries, i + 1);
    } else {
        assert(entries.take(i) =~= entries);
    }
}

proof fn cache_grows(entries: Seq<Seq<char>>, k: int)
    requires
        0 <= k < entries.len(),
        forall|i: int| 0 <= i < entries.len() ==> recordable(#[trigger] entries[i]),
    ensures
        cache_text(entries.take(k + 1)) == cache_text(entries.take(k)) + entries[k] + "\n"@,
{
    reveal_strlit("\n");
    assert(recordable(entries[k]));
    assert(entries.take(k + 1).drop_last() =~= entries.take(k));
    assert(entries[k].len() > 0) by {
        solid_is_nonempty(entries[k]);
    }
    if k > 0 {
        joined_nonempty(entries, k);
    }
    assert(cache_text(entries.take(k + 1)) =~= cache_text(entries.take(k)) + entries[k] + "\n"@);
}

proof fn solid_is_nonempty(entry: Seq<char>)
    requires
        text::trimmed(entry).len() > 0,
    ensures
        entry.len() > 0,
{
    text::last_solid_range(entry, entry.len() as int);
    let cut = text::trimmed_end(entry);
    text::first_solid_range(cut, 0);
}

proof fn joined_nonempty(entries: Seq<Seq<char>>, k: int)
    requires
        0 < k <= entries.len(),
        forall|i: int| 0 <= i < entries.len() ==> recordable(#[trigger] entries[i]),
    ensures
        text::joined(entries.take(k), "\n"@).len() > 0,
{
    reveal_strlit("\n");
    assert(recordable(entries[k - 1]));
    solid_is_nonempty(entries[k - 1]);
}

proof fn cache_prefix(entries: Seq<Seq<char>>, k: int)
    requires
        0 <= k <= entries.len(),
        forall|i: int| 0 <= i < entries.len() ==> recordable(#[trigger] entries[i]),
    ensures
        cache_text(entries.take(k)).is_prefix_of(cache_text(entries)),
    decreases entries.len() - k,
{
    if k < entries.len() {
        cache_grows(entries, k);
        cache_prefix(entries, k + 1);
    } else {
        assert(entries.take(k) =~= entries);
    }
}

proof fn read_back(entries: Seq<Seq<char>>, k: int)
    requires
        0 <= k <= entries.len(),
        forall|i: int| 0 <= i < entries.len() ==> recordable(#[trigger] entries[i]),
    ensures
        text::lines_of(cache_text(entries)) == text::lines_from(
            cache_text(entries),
            cache_text(entries.take(k)).len() as int,
            Seq::empty(),
            entries.take(k),
        ),
    decreases k,
{
    reveal_strlit("\n");
    let s = cache_text(entries);
    if k == 0 {
        assert(entries.take(0) =~= Seq::empty());
    } else {
        read_back(entries, k - 1);
        cache_grows(entries, k - 1);
        cache_prefix(entries, k);
        let e = entries[k - 1];
        let from = cache_text(entries.take(k - 1)).len() as int;
        assert(recordable(e));
        let p = cache_text(entries.take(k));
        assert forall|j: int| 0 <= j < e.len() implies #[trigger] s[from + j] == e[j] by {
            assert(p[from + j] == e[j]);
            assert(s[from + j] == s.take(p.len() as int)[from + j]);
        }
        assert(s.subrange(from, from + e.len()) =~= e) by {
            assert forall|j: int| 0 <= j < e.len() implies s.subrange(from, from + e.len())[j]
                == e[j] by {
                assert(s[from + j] == e[j]);
            }
        }
        assert(s[from + e.len()] == '\n') by {
            assert(cache_text(entries.take(k))[from + e.len()] == '\n');
        }
        read_plain(s, from, e, 0, entries.take(k - 1));
        solid_is_nonempty(e);
        assert(e.take(0) =~= Seq::empty());
        assert(entries.take(k) =~= entries.take(k - 1).push(e));
        assert(text::without_return(e) == e);
    }
}

proof fn read_plain(s: Seq<char>, from: int, e: Seq<char>, i: int, out: Seq<Seq<char>>)
    requires
        0 <= from,
        0 <= i <= e.len(),
        from + e.len() <= s.len(),
        s.subrange(from, from + e.len()) == e,
        !e.contains('\n'),
    ensures
        text::lines_from(s, from + i, e.take(i), out) == text::lines_from(s, from + e.len(), e, out),
    decreases e.len() - i,
{
    if i < e.len() {
        assert(s[from + i] == s.subrange(from, from + e.len())[i]);
        assert(e.contains(e[i]));
        assert(e.take(i + 1) =~= e.take(i).push(e[i]));
        read_plain(s, from, e, i + 1, out);
    } else {
        assert(e.take(i) =~= e);
    }
}

/// Every failure that a run reports can be recorded, unless its name is empty.
pub proof fn law_reported_failures_are_recordable(stdout: Seq<char>, id: Seq<char>)
    requires
        crate::runner::failures_of(stdout).contains(id),
        id.len() > 0,
    ensures
        recordable(id),
{
    let ls = text::lines_of(stdout);
    lines_are_plain(stdout, 0, Seq::empty(), Seq::empty());
    failures_are_recordable(ls, 0, Seq::empty());
}

spec fn plain(s: Seq<char>) -> bool {
    forall|i: int| 0 <= i < s.len() ==> #[trigger] s[i] != '\n'
}

spec fn all_plain(lines: Seq<Seq<char>>) -> bool {
    forall|i: int| 0 <= i < lines.len() ==> plain(#[trigger] lines[i])
}

spec fn all_recordable(ids: Seq<Seq<char>>) -> bool {
    forall|k: int| 0 <= k < ids.len() && ids[k].len() > 0 ==> recordable(#[trigger] ids[k])
}

proof fn lines_are_plain(s: Seq<char>, i: int, line: Seq<char>, out: Seq<Seq<char>>)
    requires
        0 <= i <= s.len(),
        plain(line),
        all_plain(out),
    ensures
        all_plain(text::lines_from(s, i, line, out)),
    decreases s.len() - i,
{
    if i < s.len() {
        if s[i] == '\n' {
            lines_are_plain(s, i + 1, Seq::empty(), out.push(text::without_return(line)));
        } else {
            lines_are_plain(s, i + 1, line.push(s[i]), out);
        }
    }
}

proof fn failures_are_recordable(lines: Seq<Seq<char>>, i: int, out: Seq<Seq<char>>)
    requires
        0 <= i <= lines.len(),
        all_plain(lines),
        all_recordable(out),
    ensures
        all_recordable(crate::runner::failures_from(lines, i, out)),
    decreases lines.len() - i,
{
    if i < lines.len() {
        let line = lines[i];
        assert(plain(line));
        match crate::runner::failure_in(line) {
            Some(id) => {
                trimmed_is_plain(line);
                let t = text::trimmed(line);
                let r = match text::after_prefix(t, "FAILED "@) {
                    Some(r) => r,
                    None => text::after_prefix(t, "ERROR "@)->0,
                };
                assert(plain(r));
                let name = match text::split_at(r, " - "@) {
                    Some((name, _)) => name,
                    None => r,
                };
                first_is_inside(r, " - "@, 0);
                assert(plain(name));
                trimmed_is_plain(name);
                if id.len() > 0 {
                    text::law_trimmed_is_solid(name);
                    assert(text::white('\r'));
                    assert(recordable(id));
                }
                failures_are_recordable(lines, i + 1, out.push(id));
            },
            None => {
                failures_are_recordable(lines, i + 1, out);
            },
        }
    }
}

proof fn trimmed_is_plain(s: Seq<char>)
    requires
        plain(s),
    ensures
        plain(text::trimmed(s)),
{
    text::last_solid_range(s, s.len() as int);
    let cut = text::trimmed_end(s);
    text::first_solid_range(cut, 0);
    assert(plain(cut));
}

proof fn first_is_inside(s: Seq<char>, part: Seq<char>, at: int)
    requires
        0 <= at,
    ensures
        text::first_at(s, part, at) matches Some(k) ==> 0 <= k <= s.len(),
    decreases s.len() + 1 - at,
{
    if at <= s.len() && !text::occurs_at(s, part, at) {
        first_is_inside(s, part, at + 1);
    }
}

// ---------------------------------------------------------------------------
// Laws of selection
// ---------------------------------------------------------------------------

/// A name selects nothing but itself, what stands below it and its
/// parametrizations: what merely begins with it is another test.
pub proof fn law_selectors_reach_nothing_else(selector: Seq<char>, test: Seq<char>)
    requires
        selects(selector, test),
    ensures
        test == selector || exists|rest: Seq<char>|
            test == #[trigger] (selector + rest) && (rest[0] == '[' || (rest.len() > 1 && rest[0]
                == ':' && rest[1] == ':')),
{
    if test != selector {
        reveal_strlit("::");
        reveal_strlit("[");
        let rest = test.skip(selector.len() as int);
        assert(test =~= selector + rest) by {
            assert(test.subrange(0, selector.len() as int) =~= selector);
        }
        if "::"@.is_prefix_of(rest) {
            assert(rest.subrange(0, 2)[0] == ':' && rest.subrange(0, 2)[1] == ':');
        } else {
            assert(rest.subrange(0, 1)[0] == '[');
        }
    }
}

/// Of a file that is selected from, the tests that one of its selections selects
/// are kept; of any other file all tests are.
pub proof fn law_selections_keep(f: FileTestsView, selectors: Seq<SelectorView>, t: Seq<char>)
    ensures
        selected_in(f, selectors).tests.contains(t) <==> f.tests.contains(t) && ((forall|i: int|
            0 <= i < selectors.len() ==> (#[trigger] selectors[i]).file != f.abs_path) || exists|
            i: int,
        |
            0 <= i < selectors.len() && (#[trigger] selectors[i]).file == f.abs_path && selects(
                selectors[i].test,
                t,
            )),
        selected_in(f, selectors).path == f.path,
        selected_in(f, selectors).abs_path == f.abs_path,
{
    let keep = |t: Seq<char>| is_selected(selectors, f.abs_path, t);
    law_filters_neither_invent_nor_lose(f, keep);
    assert(keep(t) == is_selected(selectors, f.abs_path, t));
}

/// An argument `file::test` selects the test of the file; one without `::`, and
/// one with nothing behind it, is a plain path.
pub proof fn law_arguments_select(file: Seq<char>, test: Seq<char>)
    requires
        !file.contains(':'),
    ensures
        test.len() > 0 ==> selection_of(file + seq![':', ':'] + test) == Some((file, test)),
        selection_of(file + seq![':', ':']) is None,
        selection_of(file) is None,
{
    reveal_strlit("::");
    assert("::"@ =~= seq![':', ':']);
    let full = file + seq![':', ':'] + test;
    let bare = file + seq![':', ':'];
    let at = file.len() as int;
    assert(full.subrange(0, at) =~= file);
    assert(bare.subrange(0, at) =~= file);
    assert(file.subrange(0, at) =~= file);
    assert forall|i: int| 0 <= i < at implies !text::occurs_at(full, "::"@, i) by {
        colons_are_behind(file, full, i);
    }
    assert forall|i: int| 0 <= i < at implies !text::occurs_at(bare, "::"@, i) by {
        colons_are_behind(file, bare, i);
    }
    assert forall|i: int| !text::occurs_at(file, "::"@, i) by {
        if 0 <= i && i + 2 <= file.len() {
            colons_are_behind(file, file, i);
        }
    }
    assert(full.subrange(at, at + 2) =~= "::"@);
    assert(bare.subrange(at, at + 2) =~= "::"@);
    text::law_first_is_found(full, "::"@, at);
    text::law_first_is_found(bare, "::"@, at);
    text::law_first_is_nowhere(file, "::"@);
    assert(full.subrange(0, at) =~= file);
    assert(full.subrange(at + 2, full.len() as int) =~= test);
    assert(bare.subrange(at + 2, bare.len() as int).len() == 0);
}

proof fn colons_are_behind(file: Seq<char>, s: Seq<char>, i: int)
    requires
        0 <= i < file.len() <= s.len(),
        !file.contains(':'),
        s.subrange(0, file.len() as int) == file,
    ensures
        !text::occurs_at(s, "::"@, i),
{
    reveal_strlit("::");
    assert(s.subrange(0, file.len() as int)[i] == s[i]);
    assert(file.contains(file[i]));
    if text::occurs_at(s, "::"@, i) {
        assert(s.subrange(i, i + 2)[0] == s[i]);
        assert("::"@[0] == ':');
    }
}

/// Each argument gives one path, in order: the file of a selection, and else the
/// argument itself. The selections are those of the arguments that select, with
/// their files taken from the directory.
pub proof fn law_arguments_are_split(args: Seq<Seq<char>>, cwd: Seq<Seq<char>>, s: SelectorView)
    ensures
        ({
            let paths = paths_given(args, 0, Seq::empty());
            &&& paths.len() == args.len()
            &&& forall|i: int|
                0 <= i < args.len() ==> #[trigger] paths[i] == match selection_of(args[i]) {
                    Some(found) => found.0,
                    None => args[i],
                }
        }),
        selectors_given(args, cwd, 0, Seq::empty()).contains(s) <==> exists|i: int|
            0 <= i < args.len() && (selection_of(#[trigger] args[i]) matches Some(found) && s.file
                == absolute_from(cwd, found.0) && s.test == found.1),
{
    paths_hold(args, 0, Seq::empty());
    selectors_hold(args, cwd, 0, Seq::empty(), s);
}

proof fn paths_hold(args: Seq<Seq<char>>, i: int, out: Seq<Seq<char>>)
    requires
        0 <= i <= args.len(),
        out.len() == i,
        forall|j: int|
            0 <= j < i ==> #[trigger] out[j] == match selection_of(args[j]) {
                Some(found) => found.0,
                None => args[j],
            },
    ensures
        paths_given(args, i, out).len() == args.len(),
        forall|j: int|
            0 <= j < args.len() ==> #[trigger] paths_given(args, i, out)[j] == match selection_of(
                args[j],
            ) {
                Some(found) => found.0,
                None => args[j],
            },
    decreases args.len() - i,
{
    if i < args.len() {
        paths_hold(
            args,
            i + 1,
            out.push(
                match selection_of(args[i]) {
                    Some((file, _)) => file,
                    None => args[i],
                },
            ),
        );
    }
}

proof fn selectors_hold(
    args: Seq<Seq<char>>,
    cwd: Seq<Seq<char>>,
    i: int,
    out: Seq<SelectorView>,
    s: SelectorView,
)
    requires
        0 <= i <= args.len(),
    ensures
        selectors_given(args, cwd, i, out).contains(s) <==> out.contains(s) || exists|j: int|
            i <= j < args.len() && (selection_of(#[trigger] args[j]) matches Some(found) && s.file
                == absolute_from(cwd, found.0) && s.test == found.1),
    decreases args.len() - i,
{
    if i < args.len() {
        match selection_of(args[i]) {
            Some((file, test)) => {
                let one = SelectorView { file: absolute_from(cwd, file), test };
                let next = out.push(one);
                selectors_hold(args, cwd, i + 1, next, s);
                if out.contains(s) {
                    assert(next[out.index_of(s)] == s);
                }
                if one == s {
                    assert(next[out.len() as int] == s);
                }
                if next.contains(s) && !out.contains(s) {
                    assert(next.index_of(s) == out.len());
                }
            },
            None => {
                selectors_hold(args, cwd, i + 1, out, s);
            },
        }
    }
}

/// A keyword expression keeps the tests that match it, by the name of the file
/// and the test and without regard to case; a negated one keeps the others.
pub proof fn law_keywords_keep(f: FileTestsView, e: KExprView, word: Seq<char>, t: Seq<char>)
    ensures
        matching_in(f, KExprView::Frag(word)).tests.contains(t) <==> f.tests.contains(t)
            && text::occurs(candidate_of(f.path, t), word),
        f.tests.contains(t) ==> (matching_in(f, KExprView::Not(Box::new(e))).tests.contains(t)
            <==> !matching_in(f, e).tests.contains(t)),
        matching_in(f, e).tests.contains(t) ==> f.tests.contains(t),
{
    let word_keep = |t: Seq<char>|
        crate::keyword::matched(KExprView::Frag(word), candidate_of(f.path, t));
    let keep = |t: Seq<char>| crate::keyword::matched(e, candidate_of(f.path, t));
    let other = KExprView::Not(Box::new(e));
    let other_keep = |t: Seq<char>| crate::keyword::matched(other, candidate_of(f.path, t));
    law_filters_neither_invent_nor_lose(f, word_keep);
    law_filters_neither_invent_nor_lose(f, keep);
    law_filters_neither_invent_nor_lose(f, other_keep);
    assert(word_keep(t) == text::occurs(candidate_of(f.path, t), word));
    assert(other_keep(t) == !keep(t));
}

/// Keywords are held against the name of the file alone, not its directories.
pub proof fn law_keywords_see_the_file_name(dir: Seq<char>, name: Seq<char>, t: Seq<char>)
    requires
        !name.contains('/'),
    ensures
        candidate_of(dir.push('/') + name, t) == candidate_of(name, t),
        candidate_of(name, t) == crate::keyword::lower_of(name + seq![':', ':'] + t),
{
    reveal_strlit("::");
    assert("::"@ =~= seq![':', ':']);
    text::law_fields_add_up(dir, '/', name, true);
    text::law_field_is_one(name, '/');
    let all = text::fields(dir.push('/') + name, Separator::Char('/'), true);
    assert(all.last() == name);
    assert(seq![name].last() == name);
}

/// A recorded failure is that of a test if and only if it is the test, one of its
/// parametrizations, or the end of its ID.
pub proof fn law_only_failures_are_found(candidate: Seq<char>, entry: Seq<char>)
    ensures
        failed_as(candidate, entry) <==> (exists|dir: Seq<char>|
            candidate == #[trigger] (dir + entry)) || (exists|param: Seq<char>|
            entry == #[trigger] (candidate + param) && param.len() > 0 && param[0] == '['),
{
    reveal_strlit("[");
    if failed_as(candidate, entry) {
        if entry.is_suffix_of(candidate) || candidate == entry {
            let dir = candidate.take(candidate.len() - entry.len());
            assert(candidate =~= dir + entry);
        } else {
            let param = entry.skip(candidate.len() as int);
            assert(entry.subrange(0, candidate.len() as int) =~= candidate);
            assert(entry =~= candidate + param);
            assert(param.subrange(0, 1)[0] == '[');
        }
    }
    if exists|dir: Seq<char>| candidate == #[trigger] (dir + entry) {
        let dir = choose|dir: Seq<char>| candidate == #[trigger] (dir + entry);
        assert(candidate.skip(dir.len() as int) =~= entry);
        assert(candidate.subrange(
            (candidate.len() - entry.len()) as int,
            candidate.len() as int,
        ) =~= entry);
    }
    if exists|param: Seq<char>|
        entry == #[trigger] (candidate + param) && param.len() > 0 && param[0] == '[' {
        let param = choose|param: Seq<char>|
            entry == #[trigger] (candidate + param) && param.len() > 0 && param[0] == '[';
        assert(entry.subrange(0, candidate.len() as int) =~= candidate);
        assert(entry.skip(candidate.len() as int) =~= param);
        assert(param.subrange(0, 1) =~= "["@);
    }
}

/// A test is among the failures where one of them is recorded of its file and
/// name.
pub proof fn law_failed_tests(path: Seq<char>, test: Seq<char>, previous: Seq<Seq<char>>)
    ensures
        has_failed(path, test, previous) <==> exists|i: int|
            0 <= i < previous.len() && failed_as(
                path + seq![':', ':'] + test,
                #[trigger] previous[i],
            ),
{
    reveal_strlit("::");
    assert("::"@ =~= seq![':', ':']);
}

/// The ID of a test of a file.
pub open spec fn id_in(file: Seq<char>, test: Seq<char>) -> Seq<char> {
    file + seq![':', ':'] + test
}

/// A recorded failure belongs to a file that ran if and only if it is the ID of a
/// test of that file.
pub proof fn law_failures_belong_to_files(entry: Seq<char>, files: Seq<Seq<char>>)
    ensures
        rerun(entry, files) <==> exists|i: int, test: Seq<char>|
            0 <= i < files.len() && entry == #[trigger] id_in(files[i], test),
{
    reveal_strlit("::");
    assert("::"@ =~= seq![':', ':']);
    if rerun(entry, files) {
        let i = choose|i: int|
            0 <= i < files.len() && (#[trigger] files[i] + "::"@).is_prefix_of(entry);
        let p = files[i] + "::"@;
        let test = entry.skip(p.len() as int);
        assert(entry.subrange(0, p.len() as int) =~= p);
        assert(entry =~= id_in(files[i], test));
    }
    if exists|i: int, test: Seq<char>|
        0 <= i < files.len() && entry == #[trigger] id_in(files[i], test) {
        let (i, test) = choose|i: int, test: Seq<char>|
            0 <= i < files.len() && entry == #[trigger] id_in(files[i], test);
        let p = files[i] + "::"@;
        assert(entry.subrange(0, p.len() as int) =~= p);
        assert(p.is_prefix_of(entry));
    }
}

/// The paths that are given are where collection starts; without any it starts at
/// the `testpaths` that exist, taken from the root directory, and without those
/// at the directory of the call.
pub proof fn law_where_collection_starts(
    disk: DiskView,
    paths: Seq<Seq<Seq<char>>>,
    c: ConfigView,
    cwd: Seq<Seq<char>>,
    x: Seq<Seq<char>>,
)
    requires
        roots_of(disk, paths, c, cwd) is Ok,
    ensures
        ({
            let roots = roots_of(disk, paths, c, cwd)->Ok_0;
            let set = exists|i: int|
                0 <= i < c.testpaths.len() && crate::facts::entry_at(
                    disk,
                    crate::path::child(c.rootdir, #[trigger] c.testpaths[i]),
                ) != Ok::<EntryView, Seq<Seq<char>>>(EntryView::Missing);
            &&& paths.len() > 0 ==> roots == paths
            &&& paths.len() == 0 && !set ==> roots == seq![cwd]
            &&& paths.len() == 0 && set ==> (roots.contains(x) <==> exists|i: int|
                0 <= i < c.testpaths.len() && x == crate::path::child(
                    c.rootdir,
                    #[trigger] c.testpaths[i],
                ) && crate::facts::entry_at(disk, x) != Ok::<EntryView, Seq<Seq<char>>>(
                    EntryView::Missing,
                ))
        }),
{
    if paths.len() == 0 {
        testpaths_hold(disk, c, 0, Seq::empty(), x);
        let found = testpaths_from(disk, c, 0, Seq::empty())->Ok_0;
        if found.len() > 0 {
            testpaths_hold(disk, c, 0, Seq::empty(), found[0]);
            assert(found.contains(found[0]));
        }
        if exists|i: int|
            0 <= i < c.testpaths.len() && crate::facts::entry_at(
                disk,
                crate::path::child(c.rootdir, #[trigger] c.testpaths[i]),
            ) != Ok::<EntryView, Seq<Seq<char>>>(EntryView::Missing) {
            let i = choose|i: int|
                0 <= i < c.testpaths.len() && crate::facts::entry_at(
                    disk,
                    crate::path::child(c.rootdir, #[trigger] c.testpaths[i]),
                ) != Ok::<EntryView, Seq<Seq<char>>>(EntryView::Missing);
            testpaths_hold(
                disk,
                c,
                0,
                Seq::empty(),
                crate::path::child(c.rootdir, c.testpaths[i]),
            );
        }
    }
}

proof fn testpaths_hold(
    disk: DiskView,
    c: ConfigView,
    i: int,
    out: Seq<Seq<Seq<char>>>,
    x: Seq<Seq<char>>,
)
    requires
        0 <= i <= c.testpaths.len(),
        testpaths_from(disk, c, i, out) is Ok,
    ensures
        testpaths_from(disk, c, i, out)->Ok_0.contains(x) <==> out.contains(x) || exists|j: int|
            i <= j < c.testpaths.len() && x == crate::path::child(
                c.rootdir,
                #[trigger] c.testpaths[j],
            ) && crate::facts::entry_at(disk, x) != Ok::<EntryView, Seq<Seq<char>>>(
                EntryView::Missing,
            ),
    decreases c.testpaths.len() - i,
{
    if i < c.testpaths.len() {
        let p = crate::path::child(c.rootdir, c.testpaths[i]);
        if crate::facts::entry_at(disk, p) == Ok::<EntryView, Seq<Seq<char>>>(EntryView::Missing) {
            testpaths_hold(disk, c, i + 1, out, x);
        } else {
            let next = out.push(p);
            testpaths_hold(disk, c, i + 1, next, x);
            if out.contains(x) {
                assert(next[out.index_of(x)] == x);
            }
            if p == x {
                assert(next[out.len() as int] == x);
            }
            if next.contains(x) && !out.contains(x) {
                assert(next.index_of(x) == out.len());
            }
        }
    }
}

} // verus!
