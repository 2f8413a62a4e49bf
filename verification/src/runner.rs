//! Running collected tests in chunks, and what pytest says of each.

use vstd::prelude::*;

use crate::collector::{FileTests, FileTestsView};
use crate::text::{
    self, concat3, copy_list, decimal, lines, same, split, split_once, to_chars,
    Separator, Strings,
};

verus! {

broadcast use crate::text::group_deep;

// ---------------------------------------------------------------------------
// Summary lines
// ---------------------------------------------------------------------------

/// Test totals parsed from pytest's summary lines.
#[derive(Debug, Default, Clone, Copy, PartialEq)]
pub struct Counts {
    pub passed: u32,
    pub failed: u32,
    pub skipped: u32,
}

/// Test totals, however large.
pub struct Totals {
    pub passed: nat,
    pub failed: nat,
    pub skipped: nat,
}

impl View for Counts {
    type V = Totals;

    open spec fn view(&self) -> Totals {
        Totals {
            passed: self.passed as nat,
            failed: self.failed as nat,
            skipped: self.skipped as nat,
        }
    }
}

/// No tests.
pub open spec fn no_tests() -> Totals {
    Totals { passed: 0, failed: 0, skipped: 0 }
}

/// The sums of two totals.
pub open spec fn sums(a: Totals, b: Totals) -> Totals {
    Totals {
        passed: a.passed + b.passed,
        failed: a.failed + b.failed,
        skipped: a.skipped + b.skipped,
    }
}

/// Can `Counts` hold these totals?
pub open spec fn fits(t: Totals) -> bool {
    t.passed <= u32::MAX && t.failed <= u32::MAX && t.skipped <= u32::MAX
}

impl Counts {
    /// No tests.
    pub fn none() -> (r: Counts)
        ensures
            r@ == no_tests(),
    {
        Counts { passed: 0, failed: 0, skipped: 0 }
    }

    /// Can the totals of both be held?
    pub fn fits_with(&self, other: Counts) -> (r: bool)
        ensures
            r == fits(sums(self@, other@)),
    {
        self.passed <= u32::MAX - other.passed && self.failed <= u32::MAX - other.failed
            && self.skipped <= u32::MAX - other.skipped
    }

    /// Adds other totals.
    pub fn add(&mut self, other: Counts)
        requires
            fits(sums(old(self)@, other@)),
        ensures
            final(self)@ == sums(old(self)@, other@),
    {
        self.passed = self.passed + other.passed;
        self.failed = self.failed + other.failed;
        self.skipped = self.skipped + other.skipped;
    }
}

/// The value of decimal digits from position `i` on, where `so_far` has been
/// read; none where a character is no digit.
pub open spec fn digits_value(s: Seq<char>, i: int, so_far: nat) -> Option<nat>
    decreases s.len() - i,
{
    if i < 0 || i >= s.len() {
        Some(so_far)
    } else if text::digit(s[i]) {
        digits_value(s, i + 1, so_far * 10 + (s[i] as u32 - '0' as u32) as nat)
    } else {
        None
    }
}

/// The number that a token is, where it fits in 32 bits.
pub open spec fn number_of(s: Seq<char>) -> Option<nat> {
    if s.len() == 0 {
        None
    } else {
        match digits_value(s, 0, 0) {
            Some(n) => if n <= u32::MAX {
                Some(n)
            } else {
                None
            },
            None => None,
        }
    }
}

proof fn digits_grow(s: Seq<char>, i: int, so_far: nat)
    requires
        0 <= i <= s.len(),
    ensures
        digits_value(s, i, so_far) matches Some(n) ==> n >= so_far,
    decreases s.len() - i,
{
    if i < s.len() && text::digit(s[i]) {
        digits_grow(s, i + 1, so_far * 10 + (s[i] as u32 - '0' as u32) as nat);
    }
}

/// The number that a token is, where it fits in 32 bits.
pub fn parse_number(token: &str) -> (r: Option<u32>)
    ensures
        match r {
            Some(n) => number_of(token@) == Some(n as nat),
            None => number_of(token@) is None,
        },
{
    let chars: Vec<char> = to_chars(token);
    if chars.len() == 0 {
        return None;
    }
    let mut value: u64 = 0;
    let mut i: usize = 0;
    while i < chars.len()
        invariant
            i <= chars.len(),
            chars@ == token@,
            token@.len() > 0,
            value <= u32::MAX,
            digits_value(token@, i as int, value as nat) == digits_value(token@, 0, 0),
        decreases chars.len() - i,
    {
        let c: char = chars[i];
        if !('0' <= c && c <= '9') {
            return None;
        }
        let d: u64 = c as u64 - '0' as u64;
        value = value * 10 + d;
        i += 1;
        if value > 4294967295 {
            proof {
                digits_grow(token@, i as int, value as nat);
            }
            return None;
        }
    }
    Some(value as u32)
}

/// What has been read of a summary line: the totals, and a number that waits
/// for its word.
pub struct Reading {
    pub totals: Totals,
    pub pending: Option<nat>,
}

/// The number that waits, or zero.
pub open spec fn waiting(r: Reading) -> nat {
    match r.pending {
        Some(n) => n,
        None => 0,
    }
}

/// Take up a token.
pub open spec fn with_token(r: Reading, token: Seq<char>) -> Reading {
    match number_of(token) {
        Some(n) => Reading { pending: Some(n), ..r },
        None => if token == "passed"@ {
            Reading {
                totals: Totals { passed: r.totals.passed + waiting(r), ..r.totals },
                pending: None,
            }
        } else if token == "failed"@ || token == "error"@ || token == "errors"@ {
            Reading {
                totals: Totals { failed: r.totals.failed + waiting(r), ..r.totals },
                pending: None,
            }
        } else if token == "skipped"@ {
            Reading {
                totals: Totals { skipped: r.totals.skipped + waiting(r), ..r.totals },
                pending: None,
            }
        } else {
            Reading { pending: None, ..r }
        },
    }
}

/// What is read of the tokens from position `i` on, on top of `r`.
pub open spec fn read_from(tokens: Seq<Seq<char>>, i: int, r: Reading) -> Reading
    decreases tokens.len() - i,
{
    if i < 0 || i >= tokens.len() {
        r
    } else {
        read_from(tokens, i + 1, with_token(r, tokens[i]))
    }
}

/// The last of the first `i` lines that is not blank.
pub open spec fn last_solid_line(lines: Seq<Seq<char>>, i: int) -> Option<Seq<char>>
    decreases i,
{
    if i <= 0 || i > lines.len() {
        None
    } else if text::trimmed(lines[i - 1]).len() > 0 {
        Some(lines[i - 1])
    } else {
        last_solid_line(lines, i - 1)
    }
}

/// The totals that the last line of a pytest run that is not blank tells:
/// "N passed, M failed, K skipped in X.XXs".
pub open spec fn summary_of(stdout: Seq<char>) -> Totals {
    let lines = text::lines_of(stdout);
    match last_solid_line(lines, lines.len() as int) {
        Some(line) => read_from(
            text::fields(line, Separator::NotAlnum, false),
            0,
            Reading { totals: no_tests(), pending: None },
        ).totals,
        None => no_tests(),
    }
}

proof fn totals_grow(tokens: Seq<Seq<char>>, i: int, r: Reading)
    requires
        0 <= i <= tokens.len(),
    ensures
        ({
            let t = read_from(tokens, i, r).totals;
            t.passed >= r.totals.passed && t.failed >= r.totals.failed && t.skipped
                >= r.totals.skipped
        }),
    decreases tokens.len() - i,
{
    if i < tokens.len() {
        totals_grow(tokens, i + 1, with_token(r, tokens[i]));
    }
}

/// The last line that is not blank.
fn last_line(all: &Vec<String>) -> (r: Option<&String>)
    ensures
        text::opt(r) == last_solid_line(text::deep(all@), all@.len() as int),
{
    let ghost ls = text::deep(all@);
    let mut i: usize = all.len();
    while i > 0
        invariant
            i <= all.len(),
            ls == text::deep(all@),
            last_solid_line(ls, i as int) == last_solid_line(ls, all@.len() as int),
        decreases i,
    {
        let trimmed: String = text::trim(all[i - 1].as_str());
        if !trimmed.as_str().is_empty() {
            return Some(&all[i - 1]);
        }
        i -= 1;
    }
    None
}

/// Reads the tokens of a summary line; `None` where a total is too large.
fn read_tokens(tokens: &Vec<String>) -> (r: Option<Counts>)
    ensures
        ({
            let t = read_from(
                text::deep(tokens@),
                0,
                Reading { totals: no_tests(), pending: None },
            ).totals;
            match r {
                Some(c) => c@ == t,
                None => !fits(t),
            }
        }),
{
    let ghost ts = text::deep(tokens@);
    let ghost start = Reading { totals: no_tests(), pending: None };
    let mut counts: Counts = Counts::none();
    let mut pending: Option<u32> = None;
    let ghost mut reading = start;
    let mut i: usize = 0;
    while i < tokens.len()
        invariant
            i <= tokens.len(),
            ts == text::deep(tokens@),
            start == (Reading { totals: no_tests(), pending: None }),
            reading.totals == counts@,
            reading.pending == (match pending {
                Some(n) => Some(n as nat),
                None => None,
            }),
            read_from(ts, i as int, reading) == read_from(ts, 0, start),
        decreases tokens.len() - i,
    {
        let token: &str = tokens[i].as_str();
        let ghost next = with_token(reading, ts[i as int]);
        proof {
            totals_grow(ts, i + 1, next);
        }
        match parse_number(token) {
            Some(n) => {
                pending = Some(n);
            },
            None => {
                let n: u32 = match pending {
                    Some(n) => n,
                    None => 0,
                };
                pending = None;
                let more: Counts = if same(token, "passed") {
                    Counts { passed: n, failed: 0, skipped: 0 }
                } else if same(token, "failed") || same(token, "error") || same(
                    token,
                    "errors",
                ) {
                    Counts { passed: 0, failed: n, skipped: 0 }
                } else if same(token, "skipped") {
                    Counts { passed: 0, failed: 0, skipped: n }
                } else {
                    Counts::none()
                };
                if !counts.fits_with(more) {
                    return None;
                }
                counts.add(more);
            },
        }
        proof {
            reading = next;
        }
        i += 1;
    }
    Some(counts)
}

/// The totals of a pytest run; `None` where one is too large for `Counts`.
pub fn try_summary(stdout: &str) -> (r: Option<Counts>)
    ensures
        match r {
            Some(c) => c@ == summary_of(stdout@),
            None => !fits(summary_of(stdout@)),
        },
{
    let all: Vec<String> = lines(stdout);
    proof {
        assert(text::deep(all@).len() == all@.len());
    }
    match last_line(&all) {
        Some(line) => {
            let tokens: Vec<String> = split(line.as_str(), Separator::NotAlnum, false);
            read_tokens(&tokens)
        },
        None => Some(Counts::none()),
    }
}

/// Parse "N passed, M failed, K skipped in X.XXs" from the last nonempty line
/// of a pytest run.
pub fn summary_counts(stdout: &str) -> (r: Counts)
    requires
        fits(summary_of(stdout@)),
    ensures
        r@ == summary_of(stdout@),
{
    match try_summary(stdout) {
        Some(c) => c,
        None => Counts::none(),
    }
}

// ---------------------------------------------------------------------------
// Failed tests
// ---------------------------------------------------------------------------

/// The node ID that a short summary line names: what follows `FAILED` or
/// `ERROR`, up to a dash.
pub open spec fn failure_in(line: Seq<char>) -> Option<Seq<char>> {
    let t = text::trimmed(line);
    let rest = match text::after_prefix(t, "FAILED "@) {
        Some(r) => Some(r),
        None => text::after_prefix(t, "ERROR "@),
    };
    match rest {
        Some(r) => Some(
            text::trimmed(
                match text::split_at(r, " - "@) {
                    Some((id, _)) => id,
                    None => r,
                },
            ),
        ),
        None => None,
    }
}

/// The node IDs that the lines from position `i` on name, behind those in
/// `out`.
pub open spec fn failures_from(
    lines: Seq<Seq<char>>,
    i: int,
    out: Seq<Seq<char>>,
) -> Seq<Seq<char>>
    decreases lines.len() - i,
{
    if i < 0 || i >= lines.len() {
        out
    } else {
        failures_from(
            lines,
            i + 1,
            match failure_in(lines[i]) {
                Some(id) => out.push(id),
                None => out,
            },
        )
    }
}

/// The node IDs that the short summary of a pytest run names.
pub open spec fn failures_of(stdout: Seq<char>) -> Seq<Seq<char>> {
    failures_from(text::lines_of(stdout), 0, Seq::empty())
}

fn failed_id(line: &str) -> (r: Option<String>)
    ensures
        text::opt(r) == failure_in(line@),
{
    let t: String = text::trim(line);
    let rest: String = match text::strip_prefix(t.as_str(), "FAILED ") {
        Some(r) => r,
        None => match text::strip_prefix(t.as_str(), "ERROR ") {
            Some(r) => r,
            None => {
                return None;
            },
        },
    };
    match split_once(rest.as_str(), " - ") {
        Some((id, _)) => Some(text::trim(id.as_str())),
        None => Some(text::trim(rest.as_str())),
    }
}

/// Node IDs from pytest's `-rfE` short summary lines.
pub fn failed_ids(stdout: &str) -> (r: Vec<String>)
    ensures
        text::deep(r@) == failures_of(stdout@),
{
    let all: Vec<String> = lines(stdout);
    let ghost ls = text::deep(all@);
    let mut out: Vec<String> = Vec::new();
    let mut i: usize = 0;
    while i < all.len()
        invariant
            i <= all.len(),
            ls == text::deep(all@),
            failures_from(ls, i as int, text::deep(out@)) == failures_from(ls, 0, Seq::empty()),
        decreases all.len() - i,
    {
        match failed_id(all[i].as_str()) {
            Some(id) => {
                out.push(id);
            },
            None => {},
        }
        i += 1;
    }
    out
}

// ---------------------------------------------------------------------------
// Chunks
// ---------------------------------------------------------------------------

/// The node IDs of a file's tests, built from its absolute path.
pub open spec fn full_ids(f: FileTestsView) -> Seq<Seq<char>> {
    crate::emit::prefixed(crate::path::shown(f.abs_path), f.tests)
}

/// How a partition stands: the chunks that are done, and the one being filled.
pub struct Filling {
    pub chunks: Seq<Seq<Seq<char>>>,
    pub current: Seq<Seq<char>>,
}

/// The chunks with the one being filled, unless it is empty.
pub open spec fn closed(f: Filling) -> Seq<Seq<Seq<char>>> {
    if f.current.len() == 0 {
        f.chunks
    } else {
        f.chunks.push(f.current)
    }
}

/// Take up a file: into the chunk being filled where there is room, else into a
/// new one.
pub open spec fn with_file(f: Filling, file: FileTestsView, size: nat) -> Filling {
    if file.tests.len() == 0 {
        f
    } else if f.current.len() > 0 && f.current.len() + file.tests.len() > size {
        Filling { chunks: f.chunks.push(f.current), current: full_ids(file) }
    } else {
        Filling { current: f.current + full_ids(file), ..f }
    }
}

/// The partition with the files from position `i` on.
pub open spec fn filled_from(
    files: Seq<FileTestsView>,
    size: nat,
    i: int,
    f: Filling,
) -> Filling
    decreases files.len() - i,
{
    if i < 0 || i >= files.len() {
        f
    } else {
        filled_from(files, size, i + 1, with_file(f, files[i], size))
    }
}

/// Nothing partitioned yet.
pub open spec fn unfilled() -> Filling {
    Filling { chunks: Seq::empty(), current: Seq::empty() }
}

/// The node IDs of all files in chunks, whole files together.
pub open spec fn chunks_of(files: Seq<FileTestsView>, size: nat) -> Seq<Seq<Seq<char>>> {
    closed(filled_from(files, size, 0, unfilled()))
}

fn ids_of(file: &FileTests) -> (r: Vec<String>)
    ensures
        text::deep(r@) == full_ids(file@),
{
    let path: String = file.abs_path.display();
    let mut out: Vec<String> = Vec::new();
    let mut i: usize = 0;
    while i < file.tests.len()
        invariant
            i <= file.tests.len(),
            out.len() == i,
            forall|j: int| 0 <= j < i ==> (#[trigger] out@[j])@ == path@ + "::"@ + file.tests@[j]@,
        decreases file.tests.len() - i,
    {
        out.push(concat3(path.as_str(), "::", file.tests[i].as_str()));
        i += 1;
    }
    proof {
        assert(text::deep(out@) =~= crate::emit::prefixed(path@, text::deep(file.tests@)));
    }
    out
}

/// Partition node IDs into chunks, keeping whole files together so fixture
/// scoping behaves like `pytest-xdist --dist loadfile`. IDs are built from
/// absolute paths so workers resolve them from any cwd.
pub fn make_chunks(files: &Vec<FileTests>, chunk_size: usize) -> (r: Vec<Strings>)
    ensures
        text::deep(r@) == chunks_of(text::deep(files@), chunk_size as nat),
{
    let ghost fs = text::deep(files@);
    let ghost size = chunk_size as nat;
    let mut chunks: Vec<Strings> = Vec::new();
    let mut current: Vec<String> = Vec::new();
    let mut i: usize = 0;
    proof {
        assert(text::deep(current@).len() == 0);
    }
    while i < files.len()
        invariant
            i <= files.len(),
            fs == text::deep(files@),
            size == chunk_size,
            filled_from(
                fs,
                size,
                i as int,
                Filling { chunks: text::deep(chunks@), current: text::deep(current@) },
            ) == filled_from(fs, size, 0, unfilled()),
        decreases files.len() - i,
    {
        let n: usize = files[i].tests.len();
        proof {
            assert(fs[i as int].tests.len() == n);
            assert(text::deep(current@).len() == current@.len());
        }
        if n > 0 {
            let ids: Vec<String> = ids_of(&files[i]);
            let filled: usize = current.len();
            if filled > 0 && (filled > chunk_size || n > chunk_size - filled) {
                chunks.push(Strings { items: current });
                current = ids;
            } else {
                text::extend(&mut current, &ids);
            }
        }
        i += 1;
    }
    proof {
        assert(text::deep(current@).len() == current@.len());
    }
    if current.len() > 0 {
        chunks.push(Strings { items: current });
    }
    chunks
}

// ---------------------------------------------------------------------------
// Reports
// ---------------------------------------------------------------------------

/// What one chunk came to.
#[derive(Debug)]
pub struct ChunkReport {
    pub failed: bool,
    pub counts: Counts,
    pub failed_ids: Vec<String>,
    /// What pytest printed to its standard output, where the chunk failed.
    pub output: Option<String>,
    /// What pytest printed to its standard error, where the chunk failed.
    pub errors: Option<String>,
}

/// What one chunk came to.
pub struct ChunkReportView {
    pub failed: bool,
    pub counts: Totals,
    pub failed_ids: Seq<Seq<char>>,
    pub output: Option<Seq<char>>,
    pub errors: Option<Seq<char>>,
}

impl View for ChunkReport {
    type V = ChunkReportView;

    open spec fn view(&self) -> ChunkReportView {
        ChunkReportView {
            failed: self.failed,
            counts: self.counts@,
            failed_ids: text::deep(self.failed_ids@),
            output: text::opt(self.output),
            errors: text::opt(self.errors),
        }
    }
}

/// Did pytest end well? Exit code 5 means "no tests collected": harmless here.
pub open spec fn ended_well(code: Option<i32>) -> bool {
    code == Some(0i32) || code == Some(5i32)
}

/// What a chunk came to: quiet on success, full output on failure, each stream
/// by itself.
pub open spec fn report_of(
    code: Option<i32>,
    stdout: Seq<char>,
    stderr: Seq<char>,
) -> ChunkReportView {
    ChunkReportView {
        failed: !ended_well(code),
        counts: summary_of(stdout),
        failed_ids: failures_of(stdout),
        output: if ended_well(code) {
            None
        } else {
            Some(stdout)
        },
        errors: if ended_well(code) {
            None
        } else {
            Some(stderr)
        },
    }
}

/// What a chunk came to, from pytest's exit code and what it printed.
pub fn report_chunk(code: Option<i32>, stdout: &str, stderr: &str) -> (r: ChunkReport)
    requires
        fits(summary_of(stdout@)),
    ensures
        r@ == report_of(code, stdout@, stderr@),
{
    let counts: Counts = summary_counts(stdout);
    let ids: Vec<String> = failed_ids(stdout);
    let well: bool = match code {
        Some(c) => c == 0 || c == 5,
        None => false,
    };
    if well {
        ChunkReport { failed: false, counts, failed_ids: ids, output: None, errors: None }
    } else {
        ChunkReport {
            failed: true,
            counts,
            failed_ids: ids,
            output: Some(stdout.to_owned()),
            errors: Some(stderr.to_owned()),
        }
    }
}

/// The message for a worker that died.
pub open spec fn died_message() -> Seq<char> {
    "cito: pytest worker died; its chunk is marked failed\n"@
}

/// The report of a chunk whose worker died.
pub fn worker_died() -> (r: ChunkReport)
    ensures
        r@ == (ChunkReportView {
            failed: true,
            counts: no_tests(),
            failed_ids: Seq::empty(),
            output: Some(died_message()),
            errors: None,
        }),
{
    ChunkReport {
        failed: true,
        counts: Counts::none(),
        failed_ids: Vec::new(),
        output: Some("cito: pytest worker died; its chunk is marked failed\n".to_owned()),
        errors: None,
    }
}

// ---------------------------------------------------------------------------
// What pytest is called with
// ---------------------------------------------------------------------------

/// The options that every chunk runs with.
pub open spec fn base_args() -> Seq<Seq<char>> {
    seq!["-q"@, "--no-header"@, "-rfE"@]
}

/// The arguments of pytest for a chunk: the options, those passed through, and
/// the node IDs.
pub open spec fn args_of(extra: Seq<Seq<char>>, ids: Seq<Seq<char>>) -> Seq<Seq<char>> {
    base_args() + extra + ids
}

/// The arguments of pytest for a chunk.
pub fn chunk_args(extra: &Vec<String>, ids: &Vec<String>) -> (r: Vec<String>)
    ensures
        text::deep(r@) == args_of(text::deep(extra@), text::deep(ids@)),
{
    let mut args: Vec<String> = Vec::new();
    args.push("-q".to_owned());
    args.push("--no-header".to_owned());
    args.push("-rfE".to_owned());
    proof {
        assert(text::deep(args@) =~= base_args());
    }
    text::extend(&mut args, extra);
    text::extend(&mut args, ids);
    args
}

/// The coverage file of the chunk with the number `seq`: unique per chunk, so
/// that parallel pytest-cov runs never clobber each other.
pub fn coverage_file(base: &str, seq: usize) -> (r: String)
    ensures
        r@ == base@ + "."@ + text::decimal_of(seq as nat),
{
    let number: String = decimal(seq);
    concat3(base, ".", number.as_str())
}

// ---------------------------------------------------------------------------
// A run
// ---------------------------------------------------------------------------

/// What a run came to.
#[derive(Debug)]
pub struct Outcome {
    pub chunks: usize,
    pub failed: usize,
    /// Chunks abandoned because `--maxfail` tripped.
    pub skipped_chunks: usize,
    pub counts: Counts,
    /// Node IDs pytest reported as FAILED or ERROR (rootdir-relative).
    pub failed_ids: Vec<String>,
    /// What the failed chunks printed to their standard output.
    pub failure_output: Vec<String>,
    /// What the failed chunks printed to their standard error.
    pub failure_errors: Vec<String>,
}

/// What a run came to.
pub struct OutcomeView {
    pub chunks: nat,
    pub failed: nat,
    pub skipped_chunks: nat,
    pub counts: Totals,
    pub failed_ids: Seq<Seq<char>>,
    pub failure_output: Seq<Seq<char>>,
    pub failure_errors: Seq<Seq<char>>,
}

impl View for Outcome {
    type V = OutcomeView;

    open spec fn view(&self) -> OutcomeView {
        OutcomeView {
            chunks: self.chunks as nat,
            failed: self.failed as nat,
            skipped_chunks: self.skipped_chunks as nat,
            counts: self.counts@,
            failed_ids: text::deep(self.failed_ids@),
            failure_output: text::deep(self.failure_output@),
            failure_errors: text::deep(self.failure_errors@),
        }
    }
}

/// A run: chunks are handed out to workers, and their reports come back in any
/// order.
#[derive(Debug)]
pub struct Run {
    chunks: Vec<Strings>,
    /// The chunks in front of this one are not waiting any more.
    at: usize,
    running: usize,
    finished: usize,
    failed: usize,
    skipped: usize,
    counts: Counts,
    failed_ids: Vec<String>,
    failure_output: Vec<String>,
    failure_errors: Vec<String>,
}

/// How a run stands.
pub struct RunView {
    pub chunks: Seq<Seq<Seq<char>>>,
    pub at: nat,
    pub running: nat,
    pub finished: nat,
    pub failed: nat,
    pub skipped: nat,
    pub counts: Totals,
    pub failed_ids: Seq<Seq<char>>,
    pub failure_output: Seq<Seq<char>>,
    pub failure_errors: Seq<Seq<char>>,
}

impl View for Run {
    type V = RunView;

    closed spec fn view(&self) -> RunView {
        RunView {
            chunks: text::deep(self.chunks@),
            at: self.at as nat,
            running: self.running as nat,
            finished: self.finished as nat,
            failed: self.failed as nat,
            skipped: self.skipped as nat,
            counts: self.counts@,
            failed_ids: text::deep(self.failed_ids@),
            failure_output: text::deep(self.failure_output@),
            failure_errors: text::deep(self.failure_errors@),
        }
    }
}

/// Every chunk waits, runs, is finished or is skipped, and only finished ones
/// have failed.
pub open spec fn accounted(r: RunView) -> bool {
    r.at <= r.chunks.len() && r.running + r.finished + r.skipped == r.at && r.failed <= r.finished
}

/// A run at its beginning.
pub open spec fn run_of(chunks: Seq<Seq<Seq<char>>>) -> RunView {
    RunView {
        chunks,
        at: 0,
        running: 0,
        finished: 0,
        failed: 0,
        skipped: 0,
        counts: no_tests(),
        failed_ids: Seq::empty(),
        failure_output: Seq::empty(),
        failure_errors: Seq::empty(),
    }
}

/// The run after the next chunk was handed out.
pub open spec fn handed_out(r: RunView) -> RunView {
    RunView { at: r.at + 1, running: r.running + 1, ..r }
}

/// Has `--maxfail` tripped? Zero means never.
pub open spec fn tripped(counts: Totals, maxfail: nat) -> bool {
    maxfail > 0 && counts.failed >= maxfail
}

/// The run without the chunks that wait, where `--maxfail` has tripped.
pub open spec fn curtailed(r: RunView, maxfail: nat) -> RunView {
    if tripped(r.counts, maxfail) {
        RunView {
            skipped: (r.skipped + (r.chunks.len() - r.at)) as nat,
            at: r.chunks.len(),
            ..r
        }
    } else {
        r
    }
}

/// The run after the report of a chunk that was handed out came back.
pub open spec fn reported(r: RunView, report: ChunkReportView, maxfail: nat) -> RunView {
    curtailed(
        RunView {
            running: (r.running - 1) as nat,
            finished: r.finished + 1,
            failed: if report.failed {
                r.failed + 1
            } else {
                r.failed
            },
            counts: sums(r.counts, report.counts),
            failed_ids: r.failed_ids + report.failed_ids,
            failure_output: match report.output {
                Some(s) => r.failure_output.push(s),
                None => r.failure_output,
            },
            failure_errors: match report.errors {
                Some(s) => r.failure_errors.push(s),
                None => r.failure_errors,
            },
            ..r
        },
        maxfail,
    )
}

/// The run after a chunk that was handed out found no worker.
pub open spec fn unserved(r: RunView) -> RunView {
    RunView {
        running: (r.running - 1) as nat,
        finished: r.finished + 1,
        failed: r.failed + 1,
        ..r
    }
}

/// What a run came to. Chunks left behind by dead workers count as failures,
/// not silence.
pub open spec fn outcome_of(r: RunView) -> OutcomeView {
    OutcomeView {
        chunks: r.chunks.len(),
        failed: (r.failed + (r.chunks.len() - r.at)) as nat,
        skipped_chunks: r.skipped,
        counts: r.counts,
        failed_ids: r.failed_ids,
        failure_output: r.failure_output,
        failure_errors: r.failure_errors,
    }
}

impl Run {
    /// A run of all tests of the files, in chunks of about the given size.
    pub fn start(files: &Vec<FileTests>, chunk_size: usize) -> (r: Run)
        ensures
            r@ == run_of(chunks_of(text::deep(files@), chunk_size as nat)),
            accounted(r@),
    {
        Run {
            chunks: make_chunks(files, chunk_size),
            at: 0,
            running: 0,
            finished: 0,
            failed: 0,
            skipped: 0,
            counts: Counts::none(),
            failed_ids: Vec::new(),
            failure_output: Vec::new(),
            failure_errors: Vec::new(),
        }
    }

    /// Hands the next chunk out, if one waits.
    pub fn take(&mut self) -> (r: Option<Strings>)
        requires
            accounted(old(self)@),
        ensures
            accounted(final(self)@),
            match r {
                Some(chunk) => old(self)@.at < old(self)@.chunks.len() && chunk@ == old(
                    self,
                )@.chunks[old(self)@.at as int] && final(self)@ == handed_out(old(self)@),
                None => old(self)@.at == old(self)@.chunks.len() && final(self)@ == old(self)@,
            },
    {
        if self.at >= self.chunks.len() {
            return None;
        }
        let chunk: Strings = Strings { items: copy_list(&self.chunks[self.at].items) };
        self.at = self.at + 1;
        self.running = self.running + 1;
        Some(chunk)
    }

    /// Can the totals of a report be added?
    pub fn can_report(&self, report: &ChunkReport) -> (r: bool)
        ensures
            r == fits(sums(self@.counts, report@.counts)),
    {
        self.counts.fits_with(report.counts)
    }

    /// Takes up the report of a chunk. Once `maxfail` tests have failed no
    /// further chunk is handed out.
    pub fn report(&mut self, report: ChunkReport, maxfail: usize)
        requires
            accounted(old(self)@),
            old(self)@.running > 0,
            fits(sums(old(self)@.counts, report@.counts)),
        ensures
            accounted(final(self)@),
            final(self)@ == reported(old(self)@, report@, maxfail as nat),
    {
        proof {
            assert(self@.chunks.len() == self.chunks@.len());
        }
        self.running = self.running - 1;
        self.finished = self.finished + 1;
        if report.failed {
            self.failed = self.failed + 1;
        }
        self.counts.add(report.counts);
        text::extend(&mut self.failed_ids, &report.failed_ids);
        match report.output {
            Some(s) => {
                self.failure_output.push(s);
            },
            None => {},
        }
        match report.errors {
            Some(s) => {
                self.failure_errors.push(s);
            },
            None => {},
        }
        if maxfail > 0 && self.counts.failed as usize >= maxfail {
            self.skipped = self.skipped + (self.chunks.len() - self.at);
            self.at = self.chunks.len();
        }
    }

    /// Takes up that no worker could be had for a chunk.
    pub fn lose(&mut self)
        requires
            accounted(old(self)@),
            old(self)@.running > 0,
        ensures
            accounted(final(self)@),
            final(self)@ == unserved(old(self)@),
    {
        self.running = self.running - 1;
        self.finished = self.finished + 1;
        self.failed = self.failed + 1;
    }

    /// What the run came to.
    pub fn outcome(self) -> (r: Outcome)
        requires
            accounted(self@),
        ensures
            r@ == outcome_of(self@),
    {
        proof {
            assert(self@.chunks.len() == self.chunks@.len());
        }
        Outcome {
            chunks: self.chunks.len(),
            failed: self.failed + (self.chunks.len() - self.at),
            skipped_chunks: self.skipped,
            counts: self.counts,
            failed_ids: self.failed_ids,
            failure_output: self.failure_output,
            failure_errors: self.failure_errors,
        }
    }
}

// ---------------------------------------------------------------------------
// Laws
// ---------------------------------------------------------------------------

/// Lists, one behind the other.
pub open spec fn flat(lists: Seq<Seq<Seq<char>>>) -> Seq<Seq<char>>
    decreases lists.len(),
{
    if lists.len() == 0 {
        Seq::empty()
    } else {
        flat(lists.drop_last()) + lists.last()
    }
}

/// The node IDs of the tests of the files from position `i` on.
pub open spec fn ids_from(files: Seq<FileTestsView>, i: int) -> Seq<Seq<char>>
    decreases files.len() - i,
{
    if i < 0 || i >= files.len() {
        Seq::empty()
    } else {
        full_ids(files[i]) + ids_from(files, i + 1)
    }
}

proof fn flat_push(lists: Seq<Seq<Seq<char>>>, x: Seq<Seq<char>>)
    ensures
        flat(lists.push(x)) == flat(lists) + x,
{
    assert(lists.push(x).drop_last() =~= lists);
}

proof fn flat_closed(f: Filling)
    ensures
        flat(closed(f)) == flat(f.chunks) + f.current,
{
    if f.current.len() == 0 {
        assert(flat(f.chunks) + f.current =~= flat(f.chunks));
    } else {
        flat_push(f.chunks, f.current);
    }
}

proof fn filled_keeps_ids(files: Seq<FileTestsView>, size: nat, i: int, f: Filling)
    requires
        0 <= i <= files.len(),
    ensures
        flat(closed(filled_from(files, size, i, f))) == flat(f.chunks) + f.current + ids_from(
            files,
            i,
        ),
    decreases files.len() - i,
{
    if i < files.len() {
        let next = with_file(f, files[i], size);
        filled_keeps_ids(files, size, i + 1, next);
        let ids = full_ids(files[i]);
        let rest = ids_from(files, i + 1);
        if files[i].tests.len() == 0 {
            assert(ids + rest =~= rest);
        } else if f.current.len() > 0 && f.current.len() + files[i].tests.len() > size {
            flat_push(f.chunks, f.current);
        }
        assert(flat(next.chunks) + next.current + rest =~= flat(f.chunks) + f.current + (ids
            + rest));
    } else {
        flat_closed(f);
        assert(flat(f.chunks) + f.current + ids_from(files, i) =~= flat(f.chunks) + f.current);
    }
}

/// The chunks hold the node IDs of all tests, each once and in order: nothing
/// is lost, repeated or moved.
pub proof fn law_chunks_hold_all_tests(files: Seq<FileTestsView>, size: nat)
    ensures
        flat(chunks_of(files, size)) == ids_from(files, 0),
{
    filled_keeps_ids(files, size, 0, unfilled());
    assert(flat(unfilled().chunks) + unfilled().current + ids_from(files, 0) =~= ids_from(
        files,
        0,
    ));
}

/// Is a chunk no larger than asked for, or the tests of a single file?
pub open spec fn fair(chunk: Seq<Seq<char>>, files: Seq<FileTestsView>, size: nat) -> bool {
    0 < chunk.len() && (chunk.len() <= size || exists|k: int|
        0 <= k < files.len() && chunk == full_ids(#[trigger] files[k]))
}

proof fn filled_is_fair(files: Seq<FileTestsView>, size: nat, i: int, f: Filling)
    requires
        0 <= i <= files.len(),
        forall|c: int| 0 <= c < f.chunks.len() ==> fair(#[trigger] f.chunks[c], files, size),
        f.current.len() > 0 ==> fair(f.current, files, size),
    ensures
        forall|c: int|
            0 <= c < closed(filled_from(files, size, i, f)).len() ==> fair(
                #[trigger] closed(filled_from(files, size, i, f))[c],
                files,
                size,
            ),
    decreases files.len() - i,
{
    if i < files.len() {
        let next = with_file(f, files[i], size);
        if files[i].tests.len() > 0 {
            let ids = full_ids(files[i]);
            assert(fair(ids, files, size));
            if f.current.len() == 0 {
                assert(next.current =~= ids);
            }
        }
        assert forall|c: int| 0 <= c < next.chunks.len() implies fair(
            #[trigger] next.chunks[c],
            files,
            size,
        ) by {
            if c < f.chunks.len() {
                assert(next.chunks[c] == f.chunks[c]);
            }
        }
        filled_is_fair(files, size, i + 1, next);
        assert(filled_from(files, size, i, f) == filled_from(files, size, i + 1, next));
    } else {
        let all = closed(f);
        assert(filled_from(files, size, i, f) == f);
        assert forall|c: int| 0 <= c < all.len() implies fair(#[trigger] all[c], files, size) by {
            if c < f.chunks.len() {
                assert(all[c] == f.chunks[c]);
            }
        }
    }
}

/// No chunk is empty, and one that is larger than asked for holds the tests of
/// a single file.
pub proof fn law_chunks_are_fair(files: Seq<FileTestsView>, size: nat, c: int)
    requires
        0 <= c < chunks_of(files, size).len(),
    ensures
        fair(chunks_of(files, size)[c], files, size),
{
    filled_is_fair(files, size, 0, unfilled());
}

/// Does one of the lists hold `ids` in one piece?
pub open spec fn holds_whole(lists: Seq<Seq<Seq<char>>>, ids: Seq<Seq<char>>) -> bool {
    exists|c: int, at: int|
        0 <= c < lists.len() && 0 <= at && at + ids.len() <= lists[c].len()
            && #[trigger] lists[c].subrange(at, at + ids.len()) == ids
}

proof fn filled_keeps_whole(
    files: Seq<FileTestsView>,
    size: nat,
    i: int,
    f: Filling,
    ids: Seq<Seq<char>>,
)
    requires
        0 <= i <= files.len(),
        holds_whole(closed(f), ids),
        ids.len() > 0,
    ensures
        holds_whole(closed(filled_from(files, size, i, f)), ids),
    decreases files.len() - i,
{
    if i < files.len() {
        let next = with_file(f, files[i], size);
        let (c, at) = choose|c: int, at: int|
            0 <= c < closed(f).len() && 0 <= at && at + ids.len() <= closed(f)[c].len()
                && #[trigger] closed(f)[c].subrange(at, at + ids.len()) == ids;
        let all = closed(next);
        if c < f.chunks.len() {
            assert(all[c] == closed(f)[c]);
        } else {
            assert(closed(f)[c] == f.current);
            assert(all[c].subrange(at, at + ids.len()) =~= f.current.subrange(
                at,
                at + ids.len(),
            ));
        }
        assert(all[c].subrange(at, at + ids.len()) == ids);
        filled_keeps_whole(files, size, i + 1, next, ids);
    }
}

proof fn filled_holds_whole(
    files: Seq<FileTestsView>,
    size: nat,
    i: int,
    f: Filling,
    k: int,
)
    requires
        0 <= i <= k < files.len(),
        files[k].tests.len() > 0,
    ensures
        holds_whole(closed(filled_from(files, size, i, f)), full_ids(files[k])),
    decreases files.len() - i,
{
    let next = with_file(f, files[i], size);
    if i == k {
        let ids = full_ids(files[k]);
        let all = closed(next);
        let c = all.len() - 1;
        let at = next.current.len() - ids.len();
        assert(all[c] == next.current);
        assert(all[c].subrange(at, at + ids.len()) =~= ids);
        filled_keeps_whole(files, size, i + 1, next, ids);
    } else {
        filled_holds_whole(files, size, i + 1, next, k);
    }
}

/// The tests of a file stay together in one chunk.
pub proof fn law_files_stay_whole(files: Seq<FileTestsView>, size: nat, k: int)
    requires
        0 <= k < files.len(),
        files[k].tests.len() > 0,
    ensures
        holds_whole(chunks_of(files, size), full_ids(files[k])),
{
    filled_holds_whole(files, size, 0, unfilled(), k);
}

/// Once `maxfail` tests have failed no chunk waits any more, and a failure that
/// was counted is never taken back.
pub proof fn law_maxfail_stops(r: RunView, report: ChunkReportView, maxfail: nat)
    requires
        accounted(r),
        r.running > 0,
    ensures
        tripped(sums(r.counts, report.counts), maxfail) ==> reported(r, report, maxfail).at
            == r.chunks.len(),
        !tripped(sums(r.counts, report.counts), maxfail) ==> reported(r, report, maxfail).at
            == r.at,
        reported(r, report, maxfail).failed >= r.failed,
        reported(r, report, maxfail).counts.failed >= r.counts.failed,
{
}

/// When nothing runs and nothing waits any more, every chunk is finished or
/// skipped, and those that failed are among the finished ones.
pub proof fn law_every_chunk_is_accounted(r: RunView)
    requires
        accounted(r),
        r.running == 0,
        r.at == r.chunks.len(),
    ensures
        r.finished + r.skipped == outcome_of(r).chunks,
        outcome_of(r).failed + outcome_of(r).skipped_chunks <= outcome_of(r).chunks,
{
}

/// Only the last line that is not blank counts: whatever lines stand before it
/// and however much white space behind it, the totals are those of the line.
pub proof fn law_last_line_counts(head: Seq<char>, line: Seq<char>, tail: Seq<char>)
    requires
        text::whole_lines(head),
        !line.contains('\n'),
        !text::blank(line),
        text::blank(tail),
    ensures
        summary_of(head + line.push('\n') + tail) == summary_of(line),
        summary_of(head + line) == summary_of(line),
{
    let one = text::without_return(line);
    let before = text::lines_of(head);
    let after = text::lines_of(tail);
    text::law_line_is_one(line);
    text::law_lines_add_up(head, line);
    text::law_lines_add_up(head, line.push('\n'));
    text::law_lines_add_up(head + line.push('\n'), tail);
    text::law_lines_of_blank_are_blank(tail);
    text::law_blank_is_trimmed_away(line);
    text::law_return_is_trimmed(line);
    let all = text::lines_of(head + line.push('\n') + tail);
    let n = before.len() as int;
    assert(all == before + seq![one] + after);
    assert forall|j: int| n + 1 <= j < all.len() implies text::blank(#[trigger] all[j]) by {
        assert(all[j] == after[j - n - 1]);
    }
    blank_lines_are_passed(all, n + 1, all.len() as int);
    assert(all[n] == one);
    assert(last_solid_line(all, n + 1) == Some(one));
    let short = text::lines_of(head + line);
    assert(short == before + seq![line]);
    assert(short[n] == line);
    assert(last_solid_line(short, n + 1) == Some(line));
    assert(text::lines_of(line)[0] == line);
    assert(last_solid_line(text::lines_of(line), 1) == Some(line));
    if one.len() < line.len() {
        return_says_nothing(line, 0, Seq::empty(), Seq::empty());
    }
}

/// A blank output tells of no tests.
pub proof fn law_blank_output_counts_nothing(stdout: Seq<char>)
    requires
        text::blank(stdout),
    ensures
        summary_of(stdout) == no_tests(),
{
    text::law_lines_of_blank_are_blank(stdout);
    let lines = text::lines_of(stdout);
    blank_lines_are_passed(lines, 0, lines.len() as int);
}

proof fn blank_lines_are_passed(lines: Seq<Seq<char>>, n: int, i: int)
    requires
        0 <= n <= i <= lines.len(),
        forall|j: int| n <= j < i ==> text::blank(#[trigger] lines[j]),
    ensures
        last_solid_line(lines, i) == last_solid_line(lines, n),
    decreases i,
{
    if n < i {
        assert(text::blank(lines[i - 1]));
        text::law_blank_is_trimmed_away(lines[i - 1]);
        blank_lines_are_passed(lines, n, i - 1);
    }
}

proof fn return_says_nothing(
    line: Seq<char>,
    i: int,
    field: Seq<char>,
    out: Seq<Seq<char>>,
)
    requires
        0 <= i < line.len(),
        line.last() == '\r',
    ensures
        text::fields_from(line, Separator::NotAlnum, false, i, field, out) == text::fields_from(
            line.drop_last(),
            Separator::NotAlnum,
            false,
            i,
            field,
            out,
        ),
    decreases line.len() - i,
{
    let cut = line.drop_last();
    if i < cut.len() {
        if text::alnum(cut[i]) {
            return_says_nothing(line, i + 1, field.push(cut[i]), out);
        } else {
            return_says_nothing(
                line,
                i + 1,
                Seq::empty(),
                text::put_field(out, field, false),
            );
        }
    } else {
        let done = text::put_field(out, field, false);
        assert(text::fields_from(
            line,
            Separator::NotAlnum,
            false,
            i + 1,
            Seq::empty(),
            done,
        ) == done);
    }
}

// ---------------------------------------------------------------------------
// Laws of summary lines
// ---------------------------------------------------------------------------

/// The sum of the numbers that stand directly before one of the words, from
/// position `i` on.
pub open spec fn sum_before(tokens: Seq<Seq<char>>, words: Seq<Seq<char>>, i: int) -> nat
    decreases tokens.len() - i,
{
    if i < 0 || i + 1 >= tokens.len() {
        0
    } else {
        (match number_of(tokens[i]) {
            Some(n) => if words.contains(tokens[i + 1]) {
                n
            } else {
                0
            },
            None => 0,
        }) + sum_before(tokens, words, i + 1)
    }
}

/// A word of letters and digits is read as a number exactly where it is one in
/// decimal that fits in 32 bits.
pub proof fn law_numbers_are_read(n: nat, s: Seq<char>)
    ensures
        number_of(text::decimal_of(n)) == (if n <= u32::MAX {
            Some(n)
        } else {
            None
        }),
        number_of(s) is Some ==> s.len() > 0 && forall|i: int|
            0 <= i < s.len() ==> '0' <= #[trigger] s[i] <= '9',
{
    text::law_decimal_is_digits(n);
    decimal_has_value(n);
    digits_are_digits(s, 0, 0);
}

/// The totals of a line are sums: of the numbers directly before `passed`, of
/// those before `failed`, `error` and `errors`, and of those before `skipped`. No
/// other word counts.
pub proof fn law_totals_are_sums(line: Seq<char>)
    requires
        !line.contains('\n'),
    ensures
        ({
            let tokens = text::fields(line, Separator::NotAlnum, false);
            let t = summary_of(line);
            &&& t.passed == sum_before(tokens, seq!["passed"@], 0)
            &&& t.failed == sum_before(tokens, seq!["failed"@, "error"@, "errors"@], 0)
            &&& t.skipped == sum_before(tokens, seq!["skipped"@], 0)
        }),
{
    text::law_line_is_one(line);
    let tokens = text::fields(line, Separator::NotAlnum, false);
    let start = Reading { totals: no_tests(), pending: None };
    if text::blank(line) {
        law_blank_output_counts_nothing(line);
        blank_has_no_words(line);
    } else {
        text::law_blank_is_trimmed_away(line);
        assert(text::lines_of(line)[0] == line);
        assert(last_solid_line(text::lines_of(line), 1) == Some(line));
        reading_sums(tokens, 0, start);
    }
}

/// A number before a word that is none of these adds to no total: the totals are
/// the same with and without the two, wherever between two other words they
/// stand.
pub proof fn law_other_words_add_nothing(
    before: Seq<char>,
    number: Seq<char>,
    word: Seq<char>,
    after: Seq<char>,
)
    requires
        !before.contains('\n'),
        !after.contains('\n'),
        ({
            let tokens = text::fields(before, Separator::NotAlnum, false);
            tokens.len() > 0 ==> number_of(tokens.last()) is None
        }),
        number_of(number) is Some,
        word.len() > 0,
        forall|i: int| 0 <= i < word.len() ==> text::alnum(#[trigger] word[i]),
        number_of(word) is None,
        word != "passed"@ && word != "failed"@ && word != "error"@ && word != "errors"@ && word
            != "skipped"@,
    ensures
        summary_of(before + (seq![' '] + number + seq![' '] + word + seq![' ']) + after)
            == summary_of(before + seq![' '] + after),
{
    let sep = Separator::NotAlnum;
    let b = text::fields(before, sep, false);
    let a = text::fields(after, sep, false);
    let long = before + (seq![' '] + number + seq![' '] + word + seq![' ']) + after;
    let short = before + seq![' '] + after;
    law_numbers_are_read(0, number);
    assert forall|i: int| 0 <= i < number.len() implies !text::separates(
        sep,
        #[trigger] number[i],
    ) by {}
    assert forall|i: int| 0 <= i < word.len() implies !text::separates(sep, #[trigger] word[i]) by {
        assert(text::alnum(word[i]));
    }
    text::law_word_is_one_field(number, sep, false);
    text::law_word_is_one_field(word, sep, false);
    text::law_all_fields_add_up(word, ' ', after, sep, false);
    text::law_all_fields_add_up(number, ' ', word.push(' ') + after, sep, false);
    text::law_all_fields_add_up(
        before,
        ' ',
        number.push(' ') + (word.push(' ') + after),
        sep,
        false,
    );
    text::law_all_fields_add_up(before, ' ', after, sep, false);
    assert(long =~= before.push(' ') + (number.push(' ') + (word.push(' ') + after)));
    assert(short =~= before.push(' ') + after);
    assert(text::fields(long, sep, false) =~= b + seq![number, word] + a);
    assert(text::fields(short, sep, false) =~= b + a);
    let start = Reading { totals: no_tests(), pending: None };
    tokens_in_turn(b + seq![number, word], a, start);
    tokens_in_turn(b, seq![number, word], start);
    tokens_in_turn(b, a, start);
    nothing_waits(b, 0, start);
    let r = read_from(b, 0, start);
    let pair = seq![number, word];
    assert(pair[0] == number && pair[1] == word);
    let r1 = with_token(r, number);
    let r2 = with_token(r1, word);
    assert(read_from(pair, 2, r2) == r2);
    assert(read_from(pair, 1, r1) == r2);
    assert(read_from(pair, 0, r) == r2);
    assert(r2 == r);
    assert(!long.contains('\n')) by {
        if long.contains('\n') {
            let i = long.index_of('\n');
            let n = before.len() as int;
            if i < n {
                assert(before[i] == '\n');
            } else if i >= long.len() - after.len() {
                assert(after[i - (long.len() - after.len())] == '\n');
            } else if n < i <= n + number.len() {
                assert(number[i - n - 1] == '\n');
            } else if n + number.len() + 1 < i < n + number.len() + 2 + word.len() {
                assert(text::alnum(word[i - n - number.len() - 2]));
            }
        }
    }
    assert(!short.contains('\n')) by {
        if short.contains('\n') {
            let i = short.index_of('\n');
            let n = before.len() as int;
            if i < n {
                assert(before[i] == '\n');
            } else if i > n {
                assert(after[i - n - 1] == '\n');
            }
        }
    }
    line_totals(long);
    line_totals(short);
}

proof fn line_totals(line: Seq<char>)
    requires
        !line.contains('\n'),
    ensures
        summary_of(line) == read_from(
            text::fields(line, Separator::NotAlnum, false),
            0,
            Reading { totals: no_tests(), pending: None },
        ).totals,
{
    text::law_line_is_one(line);
    if text::blank(line) {
        law_blank_output_counts_nothing(line);
        blank_has_no_words(line);
    } else {
        text::law_blank_is_trimmed_away(line);
        assert(text::lines_of(line)[0] == line);
        assert(last_solid_line(text::lines_of(line), 1) == Some(line));
    }
}

proof fn digits_push(s: Seq<char>, d: char, i: int, so_far: nat)
    requires
        0 <= i <= s.len(),
        text::digit(d),
    ensures
        digits_value(s.push(d), i, so_far) == (match digits_value(s, i, so_far) {
            Some(n) => Some((n * 10 + (d as u32 - '0' as u32)) as nat),
            None => None,
        }),
    decreases s.len() - i,
{
    let t = s.push(d);
    if i < s.len() {
        assert(t[i] == s[i]);
        if text::digit(s[i]) {
            digits_push(s, d, i + 1, so_far * 10 + (s[i] as u32 - '0' as u32) as nat);
        }
    } else {
        assert(t[i] == d);
        let n = so_far * 10 + (d as u32 - '0' as u32) as nat;
        assert(digits_value(t, i + 1, n) == Some(n));
    }
}

proof fn decimal_has_value(n: nat)
    ensures
        digits_value(text::decimal_of(n), 0, 0) == Some(n),
    decreases n,
{
    let d = text::digit_of(n % 10);
    if n < 10 {
        let s = Seq::<char>::empty();
        digits_push(s, d, 0, 0);
        assert(s.push(d) =~= text::decimal_of(n));
    } else {
        decimal_has_value(n / 10);
        digits_push(text::decimal_of(n / 10), d, 0, 0);
    }
}

proof fn digits_are_digits(s: Seq<char>, i: int, so_far: nat)
    requires
        0 <= i <= s.len(),
    ensures
        digits_value(s, i, so_far) is Some ==> forall|j: int|
            i <= j < s.len() ==> '0' <= #[trigger] s[j] <= '9',
    decreases s.len() - i,
{
    if i < s.len() && text::digit(s[i]) {
        digits_are_digits(s, i + 1, so_far * 10 + (s[i] as u32 - '0' as u32) as nat);
    }
}

proof fn words_are_no_numbers()
    ensures
        number_of("passed"@) is None,
        number_of("failed"@) is None,
        number_of("error"@) is None,
        number_of("errors"@) is None,
        number_of("skipped"@) is None,
        "passed"@ != "failed"@,
        "passed"@ != "error"@,
        "passed"@ != "errors"@,
        "skipped"@ != "passed"@,
        "skipped"@ != "failed"@,
        "skipped"@ != "error"@,
        "skipped"@ != "errors"@,
{
    reveal_strlit("passed");
    reveal_strlit("failed");
    reveal_strlit("error");
    reveal_strlit("errors");
    reveal_strlit("skipped");
    assert("passed"@[0] == 'p');
    assert("failed"@[0] == 'f');
    assert("error"@[0] == 'e');
    assert("errors"@[0] == 'e');
    assert("skipped"@[0] == 's');
}

/// What a number that waits adds to a total.
spec fn due(tokens: Seq<Seq<char>>, words: Seq<Seq<char>>, i: int, r: Reading) -> nat {
    if 0 <= i < tokens.len() && words.contains(tokens[i]) {
        waiting(r)
    } else {
        0
    }
}

proof fn reading_sums(tokens: Seq<Seq<char>>, i: int, r: Reading)
    requires
        0 <= i <= tokens.len(),
    ensures
        ({
            let t = read_from(tokens, i, r).totals;
            let p = seq!["passed"@];
            let f = seq!["failed"@, "error"@, "errors"@];
            let s = seq!["skipped"@];
            &&& t.passed == r.totals.passed + due(tokens, p, i, r) + sum_before(tokens, p, i)
            &&& t.failed == r.totals.failed + due(tokens, f, i, r) + sum_before(tokens, f, i)
            &&& t.skipped == r.totals.skipped + due(tokens, s, i, r) + sum_before(tokens, s, i)
        }),
    decreases tokens.len() - i,
{
    let p = seq!["passed"@];
    let f = seq!["failed"@, "error"@, "errors"@];
    let s = seq!["skipped"@];
    if i < tokens.len() {
        words_are_no_numbers();
        let next = with_token(r, tokens[i]);
        reading_sums(tokens, i + 1, next);
        word_lists(tokens[i]);
        if i + 1 < tokens.len() {
            word_lists(tokens[i + 1]);
        } else {
            assert(sum_before(tokens, p, i + 1) == 0);
            assert(sum_before(tokens, f, i + 1) == 0);
            assert(sum_before(tokens, s, i + 1) == 0);
        }
    }
}

proof fn word_lists(token: Seq<char>)
    ensures
        seq!["passed"@].contains(token) <==> token == "passed"@,
        seq!["failed"@, "error"@, "errors"@].contains(token) <==> (token == "failed"@ || token
            == "error"@ || token == "errors"@),
        seq!["skipped"@].contains(token) <==> token == "skipped"@,
{
    let p = seq!["passed"@];
    let f = seq!["failed"@, "error"@, "errors"@];
    let s = seq!["skipped"@];
    assert(p[0] == "passed"@);
    assert(f[0] == "failed"@ && f[1] == "error"@ && f[2] == "errors"@);
    assert(s[0] == "skipped"@);
}

proof fn blank_has_no_words(line: Seq<char>)
    requires
        text::blank(line),
    ensures
        text::fields(line, Separator::NotAlnum, false) == Seq::<Seq<char>>::empty(),
{
    blank_fields(line, 0);
}

proof fn blank_fields(line: Seq<char>, i: int)
    requires
        text::blank(line),
        0 <= i <= line.len(),
    ensures
        text::fields_from(
            line,
            Separator::NotAlnum,
            false,
            i,
            Seq::empty(),
            Seq::empty(),
        ) == Seq::<Seq<char>>::empty(),
    decreases line.len() - i,
{
    if i < line.len() {
        assert(text::white(line[i]));
        blank_fields(line, i + 1);
    }
}

proof fn tokens_in_turn(a: Seq<Seq<char>>, b: Seq<Seq<char>>, r: Reading)
    ensures
        read_from(a + b, 0, r) == read_from(b, 0, read_from(a, 0, r)),
{
    tokens_in_front(a, b, 0, r);
    tokens_in_back(a, b, 0, read_from(a, 0, r));
}

proof fn tokens_in_front(a: Seq<Seq<char>>, b: Seq<Seq<char>>, i: int, r: Reading)
    requires
        0 <= i <= a.len(),
    ensures
        read_from(a + b, i, r) == read_from(a + b, a.len() as int, read_from(a, i, r)),
    decreases a.len() - i,
{
    if i < a.len() {
        assert((a + b)[i] == a[i]);
        tokens_in_front(a, b, i + 1, with_token(r, a[i]));
    }
}

proof fn tokens_in_back(a: Seq<Seq<char>>, b: Seq<Seq<char>>, i: int, r: Reading)
    requires
        0 <= i <= b.len(),
    ensures
        read_from(a + b, a.len() + i, r) == read_from(b, i, r),
    decreases b.len() - i,
{
    if i < b.len() {
        assert((a + b)[a.len() + i] == b[i]);
        tokens_in_back(a, b, i + 1, with_token(r, b[i]));
    }
}

proof fn nothing_waits(tokens: Seq<Seq<char>>, i: int, r: Reading)
    requires
        0 <= i <= tokens.len(),
        i == tokens.len() ==> r.pending is None,
        tokens.len() > 0 ==> number_of(tokens.last()) is None,
    ensures
        read_from(tokens, i, r).pending is None,
    decreases tokens.len() - i,
{
    if i < tokens.len() {
        nothing_waits(tokens, i + 1, with_token(r, tokens[i]));
    }
}

// ---------------------------------------------------------------------------
// Laws of failures
// ---------------------------------------------------------------------------

/// The failures of an output are those of its parts, in order.
pub proof fn law_failures_add_up(a: Seq<char>, b: Seq<char>)
    requires
        text::whole_lines(a),
    ensures
        failures_of(a + b) == failures_of(a) + failures_of(b),
{
    text::law_lines_add_up(a, b);
    let x = text::lines_of(a);
    let y = text::lines_of(b);
    failures_in_front(x, y, 0, Seq::empty());
    failures_in_back(x, y, 0, failures_of(a));
}

/// A short summary line names the node ID behind `FAILED` or `ERROR`, with or
/// without a message behind a dash. A line that begins with neither names none.
pub proof fn law_failure_is_named(id: Seq<char>, message: Seq<char>, line: Seq<char>)
    requires
        id.len() > 0,
        text::trimmed(id) == id,
        !text::occurs(id + " -"@, " - "@),
        text::trimmed(message) == message,
        message.len() > 0,
    ensures
        failure_in("FAILED "@ + id) == Some(id),
        failure_in("ERROR "@ + id) == Some(id),
        failure_in("FAILED "@ + id + " - "@ + message) == Some(id),
        failure_in("ERROR "@ + id + " - "@ + message) == Some(id),
        failure_in(line) is Some ==> "FAILED "@.is_prefix_of(text::trimmed(line))
            || "ERROR "@.is_prefix_of(text::trimmed(line)),
{
    failure_of_kind("FAILED "@, id, message);
    failure_of_kind("ERROR "@, id, message);
    reveal_strlit("FAILED ");
    reveal_strlit("ERROR ");
}

proof fn failure_of_kind(kind: Seq<char>, id: Seq<char>, message: Seq<char>)
    requires
        kind == "FAILED "@ || kind == "ERROR "@,
        id.len() > 0,
        text::trimmed(id) == id,
        !text::occurs(id + " -"@, " - "@),
        text::trimmed(message) == message,
        message.len() > 0,
    ensures
        failure_in(kind + id) == Some(id),
        failure_in(kind + id + " - "@ + message) == Some(id),
{
    text::law_trimmed_is_solid(id);
    text::law_trimmed_is_solid(message);
    let rest = id + " - "@ + message;
    assert(rest.last() == message.last());
    assert(kind + id + " - "@ + message =~= kind + rest);
    kind_is_taken_off(kind, id);
    kind_is_taken_off(kind, rest);
    dash_parts(id, message);
}

proof fn kind_is_taken_off(kind: Seq<char>, rest: Seq<char>)
    requires
        kind == "FAILED "@ || kind == "ERROR "@,
        rest.len() > 0,
        !text::white(rest.last()),
    ensures
        failure_in(kind + rest) == Some(
            text::trimmed(
                match text::split_at(rest, " - "@) {
                    Some((id, _)) => id,
                    None => rest,
                },
            ),
        ),
{
    reveal_strlit("FAILED ");
    reveal_strlit("ERROR ");
    let whole = kind + rest;
    let n = kind.len() as int;
    assert(whole.last() == rest.last());
    assert(whole[0] == kind[0]);
    text::law_solid_is_trimmed(whole);
    assert(whole.skip(n) =~= rest);
    assert(whole.subrange(0, n) =~= kind);
    if kind == "ERROR "@ {
        assert(whole[0] == 'E');
        if "FAILED "@.is_prefix_of(whole) {
            assert(whole.subrange(0, 7)[0] == whole[0]);
            assert("FAILED "@[0] == 'F');
        }
    }
}

proof fn dash_parts(id: Seq<char>, message: Seq<char>)
    requires
        !text::occurs(id + " -"@, " - "@),
    ensures
        text::split_at(id, " - "@) is None,
        text::split_at(id + " - "@ + message, " - "@) matches Some((a, _)) && a == id,
{
    reveal_strlit(" - ");
    reveal_strlit(" -");
    let dash = " - "@;
    let n = id.len() as int;
    let longer = id + " -"@;
    let rest = id + " - "@ + message;
    assert forall|at: int| !text::occurs_at(id, dash, at) by {
        if text::occurs_at(id, dash, at) {
            assert(longer.subrange(at, at + 3) =~= id.subrange(at, at + 3));
            assert(text::occurs_at(longer, dash, at));
        }
    }
    text::law_first_is_nowhere(id, dash);
    assert forall|at: int| 0 <= at < n implies !text::occurs_at(rest, dash, at) by {
        if text::occurs_at(rest, dash, at) {
            assert(longer.subrange(at, at + 3) =~= rest.subrange(at, at + 3));
            assert(text::occurs_at(longer, dash, at));
        }
    }
    assert(rest.subrange(n, n + 3) =~= dash);
    assert(text::occurs_at(rest, dash, n));
    text::law_first_is_found(rest, dash, n);
    assert(rest.subrange(0, n) =~= id);
}

proof fn failures_in_front(a: Seq<Seq<char>>, b: Seq<Seq<char>>, i: int, out: Seq<Seq<char>>)
    requires
        0 <= i <= a.len(),
    ensures
        failures_from(a + b, i, out) == failures_from(
            a + b,
            a.len() as int,
            failures_from(a, i, out),
        ),
    decreases a.len() - i,
{
    if i < a.len() {
        assert((a + b)[i] == a[i]);
        let next = match failure_in(a[i]) {
            Some(id) => out.push(id),
            None => out,
        };
        failures_in_front(a, b, i + 1, next);
    }
}

proof fn failures_in_back(a: Seq<Seq<char>>, b: Seq<Seq<char>>, i: int, out: Seq<Seq<char>>)
    requires
        0 <= i <= b.len(),
    ensures
        failures_from(a + b, a.len() + i, out) == out + failures_from(b, i, Seq::empty()),
    decreases b.len() - i, 0int,
{
    let none = Seq::<Seq<char>>::empty();
    if i < b.len() {
        assert((a + b)[a.len() + i] == b[i]);
        match failure_in(b[i]) {
            Some(id) => {
                failures_in_back(a, b, i + 1, out.push(id));
                failures_behind(b, i + 1, none.push(id));
                let rest = failures_from(b, i + 1, none);
                assert(out.push(id) + rest =~= out + (none.push(id) + rest));
            },
            None => {
                failures_in_back(a, b, i + 1, out);
            },
        }
    } else {
        assert(out + none =~= out);
    }
}

proof fn failures_behind(b: Seq<Seq<char>>, i: int, out: Seq<Seq<char>>)
    requires
        0 <= i <= b.len(),
    ensures
        failures_from(b, i, out) == out + failures_from(b, i, Seq::empty()),
    decreases b.len() - i, 1int,
{
    let none = Seq::<Seq<char>>::empty();
    assert(none + b =~= b);
    failures_in_back(none, b, i, out);
}

// ---------------------------------------------------------------------------
// Laws of chunks and runs
// ---------------------------------------------------------------------------

/// The node IDs of a file are the path of the file, `::` and the test, for each
/// test in order.
pub proof fn law_ids_name_file_and_test(f: FileTestsView, i: int)
    requires
        0 <= i < f.tests.len(),
    ensures
        full_ids(f).len() == f.tests.len(),
        full_ids(f)[i] == crate::path::shown(f.abs_path) + seq![':', ':'] + f.tests[i],
{
    reveal_strlit("::");
    assert("::"@ =~= seq![':', ':']);
}

/// No chunk is cut short: two chunks, one behind the other, hold more tests than
/// fit in one.
pub proof fn law_chunks_are_filled(files: Seq<FileTestsView>, size: nat, c: int)
    requires
        0 <= c < chunks_of(files, size).len() - 1,
    ensures
        chunks_of(files, size)[c].len() + chunks_of(files, size)[c + 1].len() > size,
{
    filled_is_full(files, size, 0, unfilled(), c);
}

/// Are the chunks so far full: does each with the next one exceed the size?
spec fn full_so_far(f: Filling, size: nat) -> bool {
    &&& forall|c: int|
        0 <= c < f.chunks.len() - 1 ==> (#[trigger] f.chunks[c]).len() + f.chunks[c + 1].len()
            > size
    &&& f.chunks.len() > 0 ==> f.chunks.last().len() + f.current.len() > size && f.current.len() > 0
}

proof fn filled_is_full(files: Seq<FileTestsView>, size: nat, i: int, f: Filling, c: int)
    requires
        0 <= i <= files.len(),
        full_so_far(f, size),
        0 <= c < closed(filled_from(files, size, i, f)).len() - 1,
    ensures
        closed(filled_from(files, size, i, f))[c].len() + closed(
            filled_from(files, size, i, f),
        )[c + 1].len() > size,
    decreases files.len() - i,
{
    if i < files.len() {
        let next = with_file(f, files[i], size);
        filled_is_full(files, size, i + 1, next, c);
    } else {
        let all = closed(f);
        if c < f.chunks.len() - 1 {
            assert(all[c] == f.chunks[c]);
            assert(all[c + 1] == f.chunks[c + 1]);
        }
    }
}

/// A report is added to a run: the totals are added up, one more chunk is
/// finished, a failed one counts as failed, the failed tests go behind those
/// before, and the output of a failed chunk is kept.
pub proof fn law_reports_are_added(r: RunView, report: ChunkReportView, maxfail: nat)
    requires
        accounted(r),
        r.running > 0,
    ensures
        ({
            let after = reported(r, report, maxfail);
            let stops = maxfail > 0 && r.counts.failed + report.counts.failed >= maxfail;
            &&& after.chunks == r.chunks
            &&& after.counts.passed == r.counts.passed + report.counts.passed
            &&& after.counts.failed == r.counts.failed + report.counts.failed
            &&& after.counts.skipped == r.counts.skipped + report.counts.skipped
            &&& after.running + 1 == r.running
            &&& after.finished == r.finished + 1
            &&& after.failed == (if report.failed {
                r.failed + 1
            } else {
                r.failed
            })
            &&& after.failed_ids == r.failed_ids + report.failed_ids
            &&& report.output is None ==> after.failure_output == r.failure_output
            &&& report.output matches Some(s) ==> after.failure_output == r.failure_output.push(s)
            &&& report.errors is None ==> after.failure_errors == r.failure_errors
            &&& report.errors matches Some(s) ==> after.failure_errors == r.failure_errors.push(s)
            &&& after.at == (if stops {
                r.chunks.len()
            } else {
                r.at
            })
            &&& after.skipped == (if stops {
                r.skipped + (r.chunks.len() - r.at)
            } else {
                r.skipped as int
            })
        }),
{
}

/// A chunk failed unless pytest ended with the code for success or for no tests;
/// what it printed is kept where it failed, each stream by itself; and its totals
/// and failed tests are those that it printed.
pub proof fn law_reports_tell_of_their_chunk(
    code: Option<i32>,
    stdout: Seq<char>,
    stderr: Seq<char>,
)
    ensures
        ({
            let r = report_of(code, stdout, stderr);
            let well = code == Some(0i32) || code == Some(5i32);
            &&& r.failed == !well
            &&& r.counts == summary_of(stdout)
            &&& r.failed_ids == failures_of(stdout)
            &&& well ==> r.output is None && r.errors is None
            &&& !well ==> r.output == Some(stdout) && r.errors == Some(stderr)
        }),
{
}

/// What a run came to: its totals and failed tests as they were reported, and
/// every chunk that neither came back nor was skipped as failed.
pub proof fn law_outcome_tells_of_the_run(r: RunView)
    requires
        accounted(r),
    ensures
        ({
            let o = outcome_of(r);
            &&& o.chunks == r.chunks.len()
            &&& o.failed == r.failed + (r.chunks.len() - r.at)
            &&& o.skipped_chunks == r.skipped
            &&& o.counts == r.counts
            &&& o.failed_ids == r.failed_ids
            &&& o.failure_output == r.failure_output
            &&& o.failure_errors == r.failure_errors
        }),
{
}

/// pytest is called with the node IDs of the chunk, behind the arguments that
/// are passed through and the options that make it name its failures.
pub proof fn law_arguments_of_a_chunk(extra: Seq<Seq<char>>, ids: Seq<Seq<char>>)
    ensures
        ({
            let args = args_of(extra, ids);
            &&& args.len() == 3 + extra.len() + ids.len()
            &&& args[0] == "-q"@ && args[1] == "--no-header"@ && args[2] == "-rfE"@
            &&& args.subrange(3, 3 + extra.len() as int) == extra
            &&& args.skip((3 + extra.len()) as int) == ids
        }),
{
    let args = args_of(extra, ids);
    assert(args.subrange(3, 3 + extra.len() as int) =~= extra);
    assert(args.skip((3 + extra.len()) as int) =~= ids);
}

} // verus!
