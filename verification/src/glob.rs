//! Glob patterns, compiled by `globset`.

use vstd::prelude::*;

use globset::GlobSet;

verus! {

/// A set of compiled glob patterns.
#[verifier::external_type_specification]
#[verifier::external_body]
pub struct ExGlobSet(globset::GlobSet);

/// Whether `globset` can compile a pattern.
pub uninterp spec fn glob_ok(pattern: Seq<char>) -> bool;

/// Whether a path matches a pattern. Which separators a path may have and what
/// a backslash means follow the system that `globset` was built for; within one
/// build the answer depends on the two texts alone.
pub uninterp spec fn glob_hit(pattern: Seq<char>, path: Seq<char>) -> bool;

/// The patterns that a set was made of.
pub uninterp spec fn globs_of(set: GlobSet) -> Seq<Seq<char>>;

/// `globset::Glob::new` parses a pattern and `globset::GlobSetBuilder::build`
/// compiles it into a set that holds it alone. Both report a pattern that they
/// do not take as an error.
#[verifier::external_body]
fn compile(pattern: &str) -> (r: Option<GlobSet>)
    ensures
        match r {
            Some(set) => glob_ok(pattern@) && globs_of(set) == seq![pattern@],
            None => !glob_ok(pattern@),
        },
{
    let glob = globset::Glob::new(pattern).ok()?;
    GlobSet::builder().add(glob).build().ok()
}

/// Does one of some patterns match a path?
pub open spec fn hits(patterns: Seq<Seq<char>>, path: Seq<char>) -> bool {
    exists|i: int| 0 <= i < patterns.len() && glob_hit(#[trigger] patterns[i], path)
}

/// `globset::GlobSet::is_match` says whether any pattern of the set matches the
/// path, by the rules for backslashes of the system it was built for.
#[verifier::external_body]
fn any_match(set: &GlobSet, path: &str) -> (r: bool)
    ensures
        r == (exists|i: int|
            0 <= i < globs_of(*set).len() && glob_hit(#[trigger] globs_of(*set)[i], path@)),
{
    set.is_match(path)
}

/// A compiled glob pattern.
#[derive(Debug)]
pub struct Pattern {
    set: GlobSet,
}

impl View for Pattern {
    type V = Seq<Seq<char>>;

    closed spec fn view(&self) -> Seq<Seq<char>> {
        globs_of(self.set)
    }
}

/// Does a pattern, as it is written, match a path? One that cannot be compiled
/// matches nothing.
pub open spec fn glob_matches(pattern: Seq<char>, path: Seq<char>) -> bool {
    glob_ok(pattern) && glob_hit(pattern, path)
}

impl Pattern {
    /// Compiles a pattern.
    pub fn new(pattern: &str) -> (r: Option<Pattern>)
        ensures
            match r {
                Some(p) => glob_ok(pattern@) && p@ == seq![pattern@],
                None => !glob_ok(pattern@),
            },
    {
        match compile(pattern) {
            Some(set) => Some(Pattern { set }),
            None => None,
        }
    }

    /// Does this pattern match a path?
    pub fn matches(&self, path: &str) -> (r: bool)
        ensures
            r == hits(self@, path@),
    {
        any_match(&self.set, path)
    }
}

/// A compiled pattern matches what it matches as it is written.
pub proof fn law_compiled_matches_the_same(pattern: Seq<char>, path: Seq<char>)
    requires
        glob_ok(pattern),
    ensures
        hits(seq![pattern], path) == glob_matches(pattern, path),
{
    if glob_hit(pattern, path) {
        assert(glob_hit(seq![pattern][0], path));
    }
}

} // verus!
