//! The part of pytest's configuration that affects collection.

use vstd::prelude::*;

use crate::glob::Pattern;
use crate::path::FilePath;
use crate::table::Table;
use crate::text::{self, concat, copy_list, same, starts_with, to_chars, Strings};

verus! {

broadcast use crate::text::group_deep;

/// Configuration options by name.
pub type Options = Table<Strings>;

// ---------------------------------------------------------------------------
// Patterns
// ---------------------------------------------------------------------------

/// pytest name patterns are "prefixes or glob-style patterns": a pattern
/// without glob metacharacters matches as a prefix.
#[derive(Debug)]
pub enum NamePattern {
    Prefix(String),
    Glob(Pattern),
}

/// What a name pattern holds.
pub enum NamePatternView {
    Prefix(Seq<char>),
    Glob(Seq<Seq<char>>),
}

impl View for NamePattern {
    type V = NamePatternView;

    open spec fn view(&self) -> NamePatternView {
        match self {
            NamePattern::Prefix(p) => NamePatternView::Prefix(p@),
            NamePattern::Glob(g) => NamePatternView::Glob(g@),
        }
    }
}

/// A glob metacharacter.
pub open spec fn meta(c: char) -> bool {
    c == '*' || c == '?' || c == '['
}

/// Does a pattern hold a glob metacharacter?
pub open spec fn has_meta(s: Seq<char>) -> bool {
    exists|i: int| 0 <= i < s.len() && meta(#[trigger] s[i])
}

fn holds_meta(s: &str) -> (r: bool)
    ensures
        r == has_meta(s@),
{
    let chars: Vec<char> = to_chars(s);
    let mut i: usize = 0;
    while i < chars.len()
        invariant
            i <= chars.len(),
            chars@ == s@,
            forall|j: int| 0 <= j < i ==> !meta(#[trigger] s@[j]),
        decreases chars.len() - i,
    {
        let c: char = chars[i];
        if c == '*' || c == '?' || c == '[' {
            proof {
                assert(meta(s@[i as int]));
            }
            return true;
        }
        i += 1;
    }
    false
}

/// The name pattern that a text is; none where it is a glob that cannot be
/// compiled.
pub open spec fn name_pattern(s: Seq<char>) -> Option<NamePatternView> {
    if has_meta(s) {
        if crate::glob::glob_ok(s) {
            Some(NamePatternView::Glob(seq![s]))
        } else {
            None
        }
    } else {
        Some(NamePatternView::Prefix(s))
    }
}

/// Does a name match a pattern?
pub open spec fn name_hit(p: NamePatternView, name: Seq<char>) -> bool {
    match p {
        NamePatternView::Prefix(prefix) => prefix.is_prefix_of(name),
        NamePatternView::Glob(g) => crate::glob::hits(g, name),
    }
}

impl NamePattern {
    /// The name pattern that a text is.
    pub fn new(pattern: &str) -> (r: Option<NamePattern>)
        ensures
            text::opt(r) == name_pattern(pattern@),
    {
        if holds_meta(pattern) {
            match Pattern::new(pattern) {
                Some(g) => Some(NamePattern::Glob(g)),
                None => None,
            }
        } else {
            Some(NamePattern::Prefix(pattern.to_owned()))
        }
    }

    /// Does a name match this pattern?
    pub fn matches(&self, name: &str) -> (r: bool)
        ensures
            r == name_hit(self@, name@),
    {
        match self {
            NamePattern::Prefix(prefix) => starts_with(name, prefix.as_str()),
            NamePattern::Glob(g) => g.matches(name),
        }
    }
}

/// The name patterns that the texts from position `i` on are, behind those in
/// `out`.
pub open spec fn name_patterns(
    v: Seq<Seq<char>>,
    i: int,
    out: Seq<NamePatternView>,
) -> Seq<NamePatternView>
    decreases v.len() - i,
{
    if i < 0 || i >= v.len() {
        out
    } else {
        name_patterns(
            v,
            i + 1,
            match name_pattern(v[i]) {
                Some(p) => out.push(p),
                None => out,
            },
        )
    }
}

fn compile_names(v: &Vec<String>) -> (r: Vec<NamePattern>)
    ensures
        text::deep(r@) == name_patterns(text::deep(v@), 0, Seq::empty()),
{
    let ghost vs = text::deep(v@);
    let mut out: Vec<NamePattern> = Vec::new();
    let mut i: usize = 0;
    while i < v.len()
        invariant
            i <= v.len(),
            vs == text::deep(v@),
            name_patterns(vs, i as int, text::deep(out@)) == name_patterns(vs, 0, Seq::empty()),
        decreases v.len() - i,
    {
        match NamePattern::new(v[i].as_str()) {
            Some(p) => {
                out.push(p);
            },
            None => {},
        }
        i += 1;
    }
    out
}

/// Does a name match one of some patterns?
pub open spec fn any_name_hit(v: Seq<NamePatternView>, name: Seq<char>) -> bool {
    exists|i: int| 0 <= i < v.len() && name_hit(#[trigger] v[i], name)
}

fn any_name(v: &Vec<NamePattern>, name: &str) -> (r: bool)
    ensures
        r == any_name_hit(text::deep(v@), name@),
{
    let ghost vs = text::deep(v@);
    let mut i: usize = 0;
    while i < v.len()
        invariant
            i <= v.len(),
            vs == text::deep(v@),
            forall|j: int| 0 <= j < i ==> !name_hit(#[trigger] vs[j], name@),
        decreases v.len() - i,
    {
        if v[i].matches(name) {
            proof {
                assert(name_hit(vs[i as int], name@));
            }
            return true;
        }
        i += 1;
    }
    false
}

/// File and directory patterns: a pattern containing `/` matches against the
/// rootdir-relative path; otherwise against the basename (fnmatch-style).
#[derive(Debug)]
pub struct PathPatterns {
    pub names: Vec<Pattern>,
    pub paths: Vec<Pattern>,
}

/// What path patterns hold.
pub struct PathPatternsView {
    pub names: Seq<Seq<Seq<char>>>,
    pub paths: Seq<Seq<Seq<char>>>,
}

impl View for PathPatterns {
    type V = PathPatternsView;

    open spec fn view(&self) -> PathPatternsView {
        PathPatternsView { names: text::deep(self.names@), paths: text::deep(self.paths@) }
    }
}

/// The path patterns that the texts from position `i` on are, behind those in
/// `out`. One that cannot be compiled is left out.
pub open spec fn path_patterns(
    v: Seq<Seq<char>>,
    i: int,
    out: PathPatternsView,
) -> PathPatternsView
    decreases v.len() - i,
{
    if i < 0 || i >= v.len() {
        out
    } else {
        path_patterns(
            v,
            i + 1,
            if !crate::glob::glob_ok(v[i]) {
                out
            } else if text::occurs(v[i], "/"@) {
                PathPatternsView { paths: out.paths.push(seq![v[i]]), ..out }
            } else {
                PathPatternsView { names: out.names.push(seq![v[i]]), ..out }
            },
        )
    }
}

/// Does a path match one of some compiled patterns?
pub open spec fn any_hit(v: Seq<Seq<Seq<char>>>, path: Seq<char>) -> bool {
    exists|i: int| 0 <= i < v.len() && crate::glob::hits(#[trigger] v[i], path)
}

/// Does a file match, by its name or by its rootdir-relative path?
pub open spec fn path_hit(
    p: PathPatternsView,
    name: Seq<char>,
    rel: Option<Seq<Seq<char>>>,
) -> bool {
    any_hit(p.names, name) || (rel matches Some(r) && any_hit(p.paths, crate::path::shown(r)))
}

fn any_pattern(v: &Vec<Pattern>, path: &str) -> (r: bool)
    ensures
        r == any_hit(text::deep(v@), path@),
{
    let ghost vs = text::deep(v@);
    let mut i: usize = 0;
    while i < v.len()
        invariant
            i <= v.len(),
            vs == text::deep(v@),
            forall|j: int| 0 <= j < i ==> !crate::glob::hits(#[trigger] vs[j], path@),
        decreases v.len() - i,
    {
        if v[i].matches(path) {
            proof {
                assert(crate::glob::hits(vs[i as int], path@));
            }
            return true;
        }
        i += 1;
    }
    false
}

impl PathPatterns {
    /// The path patterns that some texts are.
    pub fn new(patterns: &Vec<String>) -> (r: PathPatterns)
        ensures
            r@ == path_patterns(
                text::deep(patterns@),
                0,
                PathPatternsView { names: Seq::empty(), paths: Seq::empty() },
            ),
    {
        let ghost vs = text::deep(patterns@);
        let ghost none = PathPatternsView { names: Seq::empty(), paths: Seq::empty() };
        let mut out: PathPatterns = PathPatterns { names: Vec::new(), paths: Vec::new() };
        let mut i: usize = 0;
        while i < patterns.len()
            invariant
                i <= patterns.len(),
                vs == text::deep(patterns@),
                path_patterns(vs, i as int, out@) == path_patterns(vs, 0, none),
            decreases patterns.len() - i,
        {
            match Pattern::new(patterns[i].as_str()) {
                Some(p) => {
                    if text::contains(patterns[i].as_str(), "/") {
                        out.paths.push(p);
                    } else {
                        out.names.push(p);
                    }
                },
                None => {},
            }
            i += 1;
        }
        out
    }

    /// Does a file match, by its name or by its rootdir-relative path?
    pub fn matches(&self, name: &str, rel: Option<&FilePath>) -> (r: bool)
        ensures
            r == path_hit(self@, name@, text::opt(rel)),
    {
        any_pattern(&self.names, name) || match rel {
            Some(p) => {
                let path: String = p.display();
                any_pattern(&self.paths, path.as_str())
            },
            None => false,
        }
    }
}

// ---------------------------------------------------------------------------
// The configuration
// ---------------------------------------------------------------------------

/// The subset of pytest configuration that affects collection. The directory
/// holding the winning file is the rootdir; node IDs are relative to it.
#[derive(Debug)]
pub struct Config {
    pub rootdir: FilePath,
    pub source: Option<FilePath>,
    pub testpaths: Vec<String>,
    /// Raw addopts entries.
    pub addopts: Vec<String>,
    pub python_files: PathPatterns,
    pub python_classes: Vec<NamePattern>,
    pub python_functions: Vec<NamePattern>,
    pub norecursedirs: PathPatterns,
}

/// What a configuration holds.
pub struct ConfigView {
    pub rootdir: Seq<Seq<char>>,
    pub source: Option<Seq<Seq<char>>>,
    pub testpaths: Seq<Seq<char>>,
    pub addopts: Seq<Seq<char>>,
    pub python_files: PathPatternsView,
    pub python_classes: Seq<NamePatternView>,
    pub python_functions: Seq<NamePatternView>,
    pub norecursedirs: PathPatternsView,
}

impl View for Config {
    type V = ConfigView;

    open spec fn view(&self) -> ConfigView {
        ConfigView {
            rootdir: self.rootdir@,
            source: text::opt(self.source),
            testpaths: text::deep(self.testpaths@),
            addopts: text::deep(self.addopts@),
            python_files: self.python_files@,
            python_classes: text::deep(self.python_classes@),
            python_functions: text::deep(self.python_functions@),
            norecursedirs: self.norecursedirs@,
        }
    }
}

/// The values of an option, or others where it is not set.
pub open spec fn option_or(
    options: Seq<(Seq<char>, Seq<Seq<char>>)>,
    key: Seq<char>,
    fallback: Seq<Seq<char>>,
) -> Seq<Seq<char>> {
    match crate::table::find(options, key) {
        Some(v) => v,
        None => fallback,
    }
}

/// The values of an option, or others where it is not set.
fn values_or(options: &Options, key: &str, fallback: Vec<String>) -> (r: Vec<String>)
    ensures
        text::deep(r@) == option_or(options@, key@, text::deep(fallback@)),
{
    match options.get(key) {
        Some(v) => copy_list(&v.items),
        None => fallback,
    }
}

/// The default `python_files`.
pub open spec fn default_files() -> Seq<Seq<char>> {
    seq!["test_*.py"@, "*_test.py"@]
}

/// The default `norecursedirs`.
pub open spec fn default_norecurse() -> Seq<Seq<char>> {
    seq![
        "*.egg"@,
        ".*"@,
        "_darcs"@,
        "build"@,
        "CVS"@,
        "dist"@,
        "node_modules"@,
        "venv"@,
        "{arch}"@,
    ]
}

fn files_by_default() -> (r: Vec<String>)
    ensures
        text::deep(r@) == default_files(),
{
    let mut out: Vec<String> = Vec::new();
    out.push("test_*.py".to_owned());
    out.push("*_test.py".to_owned());
    proof {
        assert(text::deep(out@) =~= default_files());
    }
    out
}

fn norecurse_by_default() -> (r: Vec<String>)
    ensures
        text::deep(r@) == default_norecurse(),
{
    let mut out: Vec<String> = Vec::new();
    out.push("*.egg".to_owned());
    out.push(".*".to_owned());
    out.push("_darcs".to_owned());
    out.push("build".to_owned());
    out.push("CVS".to_owned());
    out.push("dist".to_owned());
    out.push("node_modules".to_owned());
    out.push("venv".to_owned());
    out.push("{arch}".to_owned());
    proof {
        assert(text::deep(out@) =~= default_norecurse());
    }
    out
}

/// A list of one string.
fn only(s: &str) -> (r: Vec<String>)
    ensures
        text::deep(r@) == seq![s@],
{
    let mut out: Vec<String> = Vec::new();
    out.push(s.to_owned());
    proof {
        assert(text::deep(out@) =~= seq![s@]);
    }
    out
}

/// The configuration that a root directory and options make. `__pycache__`
/// never holds sources, so it is skipped unconditionally.
pub open spec fn config_of(
    rootdir: Seq<Seq<char>>,
    source: Option<Seq<Seq<char>>>,
    options: Seq<(Seq<char>, Seq<Seq<char>>)>,
) -> ConfigView {
    let none = PathPatternsView { names: Seq::empty(), paths: Seq::empty() };
    ConfigView {
        rootdir,
        source,
        testpaths: option_or(options, "testpaths"@, Seq::empty()),
        addopts: option_or(options, "addopts"@, Seq::empty()),
        python_files: path_patterns(
            option_or(options, "python_files"@, default_files()),
            0,
            none,
        ),
        python_classes: name_patterns(
            option_or(options, "python_classes"@, seq!["Test"@]),
            0,
            Seq::empty(),
        ),
        python_functions: name_patterns(
            option_or(options, "python_functions"@, seq!["test"@]),
            0,
            Seq::empty(),
        ),
        norecursedirs: path_patterns(
            option_or(options, "norecursedirs"@, default_norecurse()).push("__pycache__"@),
            0,
            none,
        ),
    }
}

/// The value of a flag among arguments from position `i` on, or `found` where
/// there is none: the argument behind the flag, or what follows `flag=`. The
/// last one wins.
pub open spec fn flag_from(
    args: Seq<Seq<char>>,
    flag: Seq<char>,
    i: int,
    found: Option<Seq<char>>,
) -> Option<Seq<char>>
    decreases args.len() - i,
{
    if i < 0 || i >= args.len() {
        found
    } else if args[i] == flag {
        if i + 1 < args.len() {
            flag_from(args, flag, i + 2, Some(args[i + 1]))
        } else {
            found
        }
    } else {
        flag_from(
            args,
            flag,
            i + 1,
            match text::after_prefix(args[i], flag + "="@) {
                Some(rest) => Some(rest),
                None => found,
            },
        )
    }
}

/// Is the file at a path a test file?
pub open spec fn is_test_path(c: ConfigView, path: Seq<Seq<char>>) -> bool {
    crate::path::name_of(path) matches Some(name) && ".py"@.is_suffix_of(name) && path_hit(
        c.python_files,
        name,
        crate::path::relative_to(path, c.rootdir),
    )
}

/// Is a directory left out of collection?
pub open spec fn is_skipped_dir(c: ConfigView, dir: Seq<Seq<char>>, venv: bool) -> bool {
    crate::path::name_of(dir) matches Some(name) && (path_hit(
        c.norecursedirs,
        name,
        crate::path::relative_to(dir, c.rootdir),
    ) || venv)
}

impl Config {
    /// The configuration that a root directory and options make.
    pub fn build(rootdir: FilePath, source: Option<FilePath>, options: &Options) -> (r: Config)
        ensures
            r@ == config_of(rootdir@, text::opt(source), options@),
    {
        let mut norecurse: Vec<String> = values_or(
            options,
            "norecursedirs",
            norecurse_by_default(),
        );
        norecurse.push("__pycache__".to_owned());
        let files: Vec<String> = values_or(options, "python_files", files_by_default());
        let classes: Vec<String> = values_or(options, "python_classes", only("Test"));
        let functions: Vec<String> = values_or(options, "python_functions", only("test"));
        Config {
            rootdir,
            source,
            testpaths: values_or(options, "testpaths", Vec::new()),
            addopts: values_or(options, "addopts", Vec::new()),
            python_files: PathPatterns::new(&files),
            python_classes: compile_names(&classes),
            python_functions: compile_names(&functions),
            norecursedirs: PathPatterns::new(&norecurse),
        }
    }

    /// Is this a test file? `rel` is the rootdir-relative path, when the file
    /// is under the rootdir.
    pub fn is_test_file(&self, name: &str, rel: Option<&FilePath>) -> (r: bool)
        ensures
            r == (".py"@.is_suffix_of(name@) && path_hit(
                self@.python_files,
                name@,
                text::opt(rel),
            )),
    {
        text::ends_with(name, ".py") && self.python_files.matches(name, rel)
    }

    /// Does a class of this name hold tests?
    pub fn class_matches(&self, name: &str) -> (r: bool)
        ensures
            r == any_name_hit(self@.python_classes, name@),
    {
        any_name(&self.python_classes, name)
    }

    /// Is a function of this name a test?
    pub fn function_matches(&self, name: &str) -> (r: bool)
        ensures
            r == any_name_hit(self@.python_functions, name@),
    {
        any_name(&self.python_functions, name)
    }

    /// Is a directory left out of collection? pytest also refuses to descend
    /// into virtual environments regardless of name: `venv` says that the
    /// directory holds a `pyvenv.cfg`.
    pub fn skip_dir(&self, dir: &FilePath, rel: Option<&FilePath>, venv: bool) -> (r: bool)
        ensures
            r == match crate::path::name_of(dir@) {
                Some(name) => path_hit(self@.norecursedirs, name, text::opt(rel)) || venv,
                None => false,
            },
    {
        match dir.file_name() {
            Some(name) => self.norecursedirs.matches(name, rel) || venv,
            None => false,
        }
    }

    /// Is the file at a path found by walking the tree it lies in?
    pub fn takes_file(&self, path: &FilePath) -> (r: bool)
        ensures
            r == is_test_path(self@, path@),
    {
        let rel: Option<FilePath> = self.relative_to_root(path);
        match path.file_name() {
            Some(name) => match &rel {
                Some(p) => self.is_test_file(name, Some(p)),
                None => self.is_test_file(name, None),
            },
            None => false,
        }
    }

    /// Does the walk of a tree go into a directory? It always enters the one it
    /// starts from. `venv` says that the directory holds a `pyvenv.cfg`.
    pub fn enters_dir(&self, dir: &FilePath, start: bool, venv: bool) -> (r: bool)
        ensures
            r == (start || !is_skipped_dir(self@, dir@, venv)),
    {
        if start {
            return true;
        }
        match self.relative_to_root(dir) {
            Some(p) => !self.skip_dir(dir, Some(&p), venv),
            None => !self.skip_dir(dir, None, venv),
        }
    }

    /// The path relative to the rootdir, where it lies under it.
    pub fn relative_to_root(&self, abs: &FilePath) -> (r: Option<FilePath>)
        ensures
            text::opt(r) == crate::path::relative_to(abs@, self@.rootdir),
    {
        abs.strip(&self.rootdir)
    }

    /// The value of a flag inside addopts (`-m X`, `-m=X`); the last one wins,
    /// mirroring how pytest prepends addopts to the command line.
    pub fn addopts_flag(&self, flag: &str) -> (r: Option<String>)
        ensures
            text::opt(r) == flag_from(self@.addopts, flag@, 0, None),
    {
        let ghost args = self@.addopts;
        let prefix: String = concat(flag, "=");
        let mut found: Option<String> = None;
        let mut i: usize = 0;
        let n: usize = self.addopts.len();
        while i < n
            invariant
                i <= n,
                n == self.addopts@.len(),
                args == text::deep(self.addopts@),
                prefix@ == flag@ + "="@,
                flag_from(args, flag@, i as int, text::opt(found)) == flag_from(
                    args,
                    flag@,
                    0,
                    None,
                ),
            decreases n - i,
        {
            if same(self.addopts[i].as_str(), flag) {
                if n - i > 1 {
                    found = Some(self.addopts[i + 1].clone());
                    i += 2;
                } else {
                    i += 1;
                }
            } else {
                match text::strip_prefix(self.addopts[i].as_str(), prefix.as_str()) {
                    Some(rest) => {
                        found = Some(rest);
                    },
                    None => {},
                }
                i += 1;
            }
        }
        found
    }
}

// ---------------------------------------------------------------------------
// Laws
// ---------------------------------------------------------------------------

/// Does a name fit what is written for it: a prefix, or a glob where there is a
/// `*`, `?` or `[` in it?
pub open spec fn fits(written: Seq<char>, name: Seq<char>) -> bool {
    if written.contains('*') || written.contains('?') || written.contains('[') {
        crate::glob::glob_matches(written, name)
    } else {
        written.is_prefix_of(name)
    }
}

/// A function is a test where its name fits one of the values of
/// `python_functions`, and where that is not set, where it begins with `test`. A
/// class is one by `python_classes`, and by `Test`.
pub proof fn law_names_of_tests(
    rootdir: Seq<Seq<char>>,
    source: Option<Seq<Seq<char>>>,
    options: Seq<(Seq<char>, Seq<Seq<char>>)>,
    name: Seq<char>,
)
    ensures
        ({
            let c = config_of(rootdir, source, options);
            &&& any_name_hit(c.python_functions, name) <==> match crate::table::find(
                options,
                "python_functions"@,
            ) {
                Some(v) => exists|i: int| 0 <= i < v.len() && fits(#[trigger] v[i], name),
                None => seq!['t', 'e', 's', 't'].is_prefix_of(name),
            }
            &&& any_name_hit(c.python_classes, name) <==> match crate::table::find(
                options,
                "python_classes"@,
            ) {
                Some(v) => exists|i: int| 0 <= i < v.len() && fits(#[trigger] v[i], name),
                None => seq!['T', 'e', 's', 't'].is_prefix_of(name),
            }
        }),
{
    let functions = option_or(options, "python_functions"@, seq!["test"@]);
    let classes = option_or(options, "python_classes"@, seq!["Test"@]);
    names_hit(functions, 0, Seq::empty(), name);
    names_hit(classes, 0, Seq::empty(), name);
    reveal_strlit("test");
    reveal_strlit("Test");
    assert("test"@ =~= seq!['t', 'e', 's', 't']);
    assert("Test"@ =~= seq!['T', 'e', 's', 't']);
    assert(fits("test"@, name) <==> "test"@.is_prefix_of(name));
    assert(fits("Test"@, name) <==> "Test"@.is_prefix_of(name));
    if crate::table::find(options, "python_functions"@) is None {
        assert(functions[0] == "test"@);
    }
    if crate::table::find(options, "python_classes"@) is None {
        assert(classes[0] == "Test"@);
    }
}

proof fn meta_is_contained(s: Seq<char>)
    ensures
        has_meta(s) <==> s.contains('*') || s.contains('?') || s.contains('['),
{
    if has_meta(s) {
        let i = choose|i: int| 0 <= i < s.len() && meta(#[trigger] s[i]);
        assert(s.contains(s[i]));
    }
    if s.contains('*') {
        assert(meta(s[s.index_of('*')]));
    }
    if s.contains('?') {
        assert(meta(s[s.index_of('?')]));
    }
    if s.contains('[') {
        assert(meta(s[s.index_of('[')]));
    }
}

proof fn names_hit(v: Seq<Seq<char>>, i: int, out: Seq<NamePatternView>, name: Seq<char>)
    requires
        0 <= i <= v.len(),
    ensures
        any_name_hit(name_patterns(v, i, out), name) <==> any_name_hit(out, name) || exists|j: int|
            i <= j < v.len() && fits(#[trigger] v[j], name),
    decreases v.len() - i,
{
    if i < v.len() {
        let next = match name_pattern(v[i]) {
            Some(p) => out.push(p),
            None => out,
        };
        names_hit(v, i + 1, next, name);
        meta_is_contained(v[i]);
        if has_meta(v[i]) && crate::glob::glob_ok(v[i]) {
            crate::glob::law_compiled_matches_the_same(v[i], name);
        }
        assert(any_name_hit(next, name) <==> any_name_hit(out, name) || fits(v[i], name)) by {
            if any_name_hit(out, name) {
                let q = choose|q: int| 0 <= q < out.len() && name_hit(#[trigger] out[q], name);
                assert(name_hit(next[q], name));
            }
            if fits(v[i], name) {
                assert(name_hit(next[out.len() as int], name));
            }
            if any_name_hit(next, name) {
                let q = choose|q: int| 0 <= q < next.len() && name_hit(#[trigger] next[q], name);
                if q < out.len() {
                    assert(name_hit(out[q], name));
                }
            }
        }
    }
}

/// Does a path fit a pattern: the whole path below the root directory where there
/// is a `/` in the pattern, and else its last name?
pub open spec fn path_fits(
    written: Seq<char>,
    name: Seq<char>,
    path: Seq<Seq<char>>,
    rootdir: Seq<Seq<char>>,
) -> bool {
    if text::occurs(written, seq!['/']) {
        rootdir.is_prefix_of(path) && crate::glob::glob_matches(
            written,
            crate::path::shown(path.skip(rootdir.len() as int)),
        )
    } else {
        crate::glob::glob_matches(written, name)
    }
}

/// A test file is a Python file that fits one of the values of `python_files`,
/// and where that is not set, `test_*.py` or `*_test.py`.
pub proof fn law_test_files(
    rootdir: Seq<Seq<char>>,
    source: Option<Seq<Seq<char>>>,
    options: Seq<(Seq<char>, Seq<Seq<char>>)>,
    path: Seq<Seq<char>>,
    name: Seq<char>,
)
    requires
        crate::path::name_of(path) == Some(name),
    ensures
        is_test_path(config_of(rootdir, source, options), path) <==> seq![
            '.',
            'p',
            'y',
        ].is_suffix_of(name) && match crate::table::find(options, "python_files"@) {
            Some(v) => exists|i: int|
                0 <= i < v.len() && path_fits(#[trigger] v[i], name, path, rootdir),
            None => path_fits("test_*.py"@, name, path, rootdir) || path_fits(
                "*_test.py"@,
                name,
                path,
                rootdir,
            ),
        },
{
    let v = option_or(options, "python_files"@, default_files());
    let none = PathPatternsView { names: Seq::empty(), paths: Seq::empty() };
    paths_hit(v, 0, none, name, path, rootdir);
    reveal_strlit(".py");
    assert(".py"@ =~= seq!['.', 'p', 'y']);
    if crate::table::find(options, "python_files"@) is None {
        assert(v[0] == "test_*.py"@);
        assert(v[1] == "*_test.py"@);
        assert forall|i: int| 0 <= i < v.len() implies #[trigger] v[i] == "test_*.py"@ || v[i]
            == "*_test.py"@ by {}
    }
}

/// A directory is left out where it holds a virtual environment, where it fits
/// one of the values of `norecursedirs` or, where that is not set, of the usual
/// ones, and where it fits `__pycache__`, whatever is set.
pub proof fn law_skipped_directories(
    rootdir: Seq<Seq<char>>,
    source: Option<Seq<Seq<char>>>,
    options: Seq<(Seq<char>, Seq<Seq<char>>)>,
    dir: Seq<Seq<char>>,
    venv: bool,
    name: Seq<char>,
)
    requires
        crate::path::name_of(dir) == Some(name),
    ensures
        is_skipped_dir(config_of(rootdir, source, options), dir, venv) <==> venv || path_fits(
            "__pycache__"@,
            name,
            dir,
            rootdir,
        ) || match crate::table::find(options, "norecursedirs"@) {
            Some(v) => exists|i: int|
                0 <= i < v.len() && path_fits(#[trigger] v[i], name, dir, rootdir),
            None => exists|i: int|
                0 <= i < default_norecurse().len() && path_fits(
                    #[trigger] default_norecurse()[i],
                    name,
                    dir,
                    rootdir,
                ),
        },
{
    let set = option_or(options, "norecursedirs"@, default_norecurse());
    let v = set.push("__pycache__"@);
    let none = PathPatternsView { names: Seq::empty(), paths: Seq::empty() };
    paths_hit(v, 0, none, name, dir, rootdir);
    assert(v[set.len() as int] == "__pycache__"@);
    if exists|i: int| 0 <= i < set.len() && path_fits(#[trigger] set[i], name, dir, rootdir) {
        let i = choose|i: int|
            0 <= i < set.len() && path_fits(#[trigger] set[i], name, dir, rootdir);
        assert(path_fits(v[i], name, dir, rootdir));
    }
    if exists|i: int| 0 <= i < v.len() && path_fits(#[trigger] v[i], name, dir, rootdir) {
        let i = choose|i: int| 0 <= i < v.len() && path_fits(#[trigger] v[i], name, dir, rootdir);
        if i < set.len() {
            assert(path_fits(set[i], name, dir, rootdir));
        }
    }
}

proof fn paths_hit(
    v: Seq<Seq<char>>,
    i: int,
    out: PathPatternsView,
    name: Seq<char>,
    path: Seq<Seq<char>>,
    rootdir: Seq<Seq<char>>,
)
    requires
        0 <= i <= v.len(),
    ensures
        path_hit(
            path_patterns(v, i, out),
            name,
            crate::path::relative_to(path, rootdir),
        ) <==> path_hit(out, name, crate::path::relative_to(path, rootdir)) || exists|j: int|
            i <= j < v.len() && path_fits(#[trigger] v[j], name, path, rootdir),
    decreases v.len() - i,
{
    if i < v.len() {
        let rel = crate::path::relative_to(path, rootdir);
        let w = v[i];
        reveal_strlit("/");
        assert("/"@ =~= seq!['/']);
        let next = if !crate::glob::glob_ok(w) {
            out
        } else if text::occurs(w, "/"@) {
            PathPatternsView { paths: out.paths.push(seq![w]), ..out }
        } else {
            PathPatternsView { names: out.names.push(seq![w]), ..out }
        };
        paths_hit(v, i + 1, next, name, path, rootdir);
        if crate::glob::glob_ok(w) {
            crate::glob::law_compiled_matches_the_same(w, name);
            if let Some(r) = rel {
                crate::glob::law_compiled_matches_the_same(w, crate::path::shown(r));
                any_hit_grows(out.paths, seq![w], crate::path::shown(r));
            }
            any_hit_grows(out.names, seq![w], name);
        }
        assert(path_hit(next, name, rel) <==> path_hit(out, name, rel) || path_fits(
            w,
            name,
            path,
            rootdir,
        ));
    }
}

proof fn any_hit_grows(v: Seq<Seq<Seq<char>>>, p: Seq<Seq<char>>, path: Seq<char>)
    ensures
        any_hit(v.push(p), path) <==> any_hit(v, path) || crate::glob::hits(p, path),
{
    let more = v.push(p);
    if any_hit(v, path) {
        let q = choose|q: int| 0 <= q < v.len() && crate::glob::hits(#[trigger] v[q], path);
        assert(crate::glob::hits(more[q], path));
    }
    if crate::glob::hits(p, path) {
        assert(crate::glob::hits(more[v.len() as int], path));
    }
    if any_hit(more, path) {
        let q = choose|q: int| 0 <= q < more.len() && crate::glob::hits(#[trigger] more[q], path);
        if q < v.len() {
            assert(crate::glob::hits(v[q], path));
        }
    }
}

/// The paths to search and the extra arguments are those that are set, and none
/// where none are.
pub proof fn law_options_are_kept(
    rootdir: Seq<Seq<char>>,
    source: Option<Seq<Seq<char>>>,
    options: Seq<(Seq<char>, Seq<Seq<char>>)>,
)
    ensures
        ({
            let c = config_of(rootdir, source, options);
            &&& c.rootdir == rootdir && c.source == source
            &&& crate::table::find(options, "testpaths"@) matches Some(v) ==> c.testpaths == v
            &&& crate::table::find(options, "testpaths"@) is None ==> c.testpaths.len() == 0
            &&& crate::table::find(options, "addopts"@) matches Some(v) ==> c.addopts == v
            &&& crate::table::find(options, "addopts"@) is None ==> c.addopts.len() == 0
        }),
{
}

/// The value of a flag among arguments is read from the first argument on. An
/// argument that neither is the flag nor begins with it and `=` changes nothing.
/// The flag with a value behind it, or with one behind `=`, gives this value
/// unless a later argument gives another.
pub proof fn law_flags_are_read(args: Seq<Seq<char>>, flag: Seq<char>, a: Seq<char>, v: Seq<char>)
    ensures
        flag_from(Seq::empty(), flag, 0, None) is None,
        a != flag && !(flag + seq!['=']).is_prefix_of(a) ==> flag_from(
            seq![a] + args,
            flag,
            0,
            None,
        ) == flag_from(args, flag, 0, None),
        flag_from(seq![flag, v] + args, flag, 0, None) == match flag_from(args, flag, 0, None) {
            Some(later) => Some(later),
            None => Some(v),
        },
        flag_from(seq![flag + seq!['='] + v] + args, flag, 0, None) == match flag_from(
            args,
            flag,
            0,
            None,
        ) {
            Some(later) => Some(later),
            None => Some(v),
        },
        flag_from(seq![flag], flag, 0, None) is None,
{
    reveal_strlit("=");
    assert("="@ =~= seq!['=']);
    let with = flag + seq!['='] + v;
    flag_shifts(seq![a], args, flag, 0, None);
    flag_shifts(seq![flag, v], args, flag, 0, Some(v));
    flag_shifts(seq![with], args, flag, 0, Some(v));
    later_wins(args, flag, 0, v);
    assert((seq![a] + args)[0] == a);
    assert((seq![flag, v] + args)[0] == flag);
    assert((seq![flag, v] + args)[1] == v);
    assert((seq![with] + args)[0] == with);
    assert(with.subrange(0, flag.len() as int + 1) =~= flag + seq!['=']);
    assert(with.skip((flag + seq!['=']).len() as int) =~= v);
    assert(with != flag) by {
        assert(with.len() > flag.len());
    }
    reveal_with_fuel(flag_from, 2);
}

proof fn flag_shifts(
    before: Seq<Seq<char>>,
    args: Seq<Seq<char>>,
    flag: Seq<char>,
    i: int,
    found: Option<Seq<char>>,
)
    requires
        0 <= i,
    ensures
        flag_from(before + args, flag, before.len() as int + i, found) == flag_from(
            args,
            flag,
            i,
            found,
        ),
    decreases args.len() - i,
{
    let all = before + args;
    let at = before.len() as int + i;
    if i < args.len() {
        assert(all[at] == args[i]);
        if args[i] == flag {
            if i + 1 < args.len() {
                assert(all[at + 1] == args[i + 1]);
                flag_shifts(before, args, flag, i + 2, Some(args[i + 1]));
            }
        } else {
            flag_shifts(
                before,
                args,
                flag,
                i + 1,
                match text::after_prefix(args[i], flag + "="@) {
                    Some(rest) => Some(rest),
                    None => found,
                },
            );
        }
    }
}

proof fn later_wins(args: Seq<Seq<char>>, flag: Seq<char>, i: int, v: Seq<char>)
    requires
        0 <= i,
    ensures
        flag_from(args, flag, i, Some(v)) == match flag_from(args, flag, i, None) {
            Some(later) => Some(later),
            None => Some(v),
        },
    decreases args.len() - i,
{
    if i < args.len() {
        if args[i] == flag {
            if i + 1 < args.len() {
                later_wins(args, flag, i + 2, v);
                later_wins(args, flag, i + 2, args[i + 1]);
            }
        } else {
            later_wins(args, flag, i + 1, v);
            if let Some(rest) = text::after_prefix(args[i], flag + "="@) {
                later_wins(args, flag, i + 1, rest);
            }
        }
    }
}

} // verus!
