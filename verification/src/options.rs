//! Configuration files as texts.

use vstd::prelude::*;

use crate::config::Options;
use crate::document::{inner_table, parse_toml, Toml, TomlView};
use crate::table::Table;
use crate::text::{
    self, concat3, from_range, is_white, lines, same, split, to_chars, Separator, Strings,
};

verus! {

broadcast use crate::text::group_deep;

// ---------------------------------------------------------------------------
// Splitting
// ---------------------------------------------------------------------------

/// The list with a word behind it, unless the word is empty.
pub open spec fn with_word(out: Seq<Seq<char>>, word: Seq<char>) -> Seq<Seq<char>> {
    if word.len() == 0 {
        out
    } else {
        out.push(word)
    }
}

/// The words of a text from position `i` on, behind those in `out`, where
/// `word` has been read and `quote` is open. Quotes group and are dropped.
pub open spec fn shell_words(
    s: Seq<char>,
    i: int,
    out: Seq<Seq<char>>,
    word: Seq<char>,
    quote: Option<char>,
) -> Seq<Seq<char>>
    decreases s.len() - i,
{
    if i < 0 || i >= s.len() {
        with_word(out, word)
    } else {
        let c = s[i];
        match quote {
            Some(q) => if c == q {
                shell_words(s, i + 1, out, word, None)
            } else {
                shell_words(s, i + 1, out, word.push(c), quote)
            },
            None => if c == '\'' || c == '"' {
                shell_words(s, i + 1, out, word, Some(c))
            } else if text::white(c) {
                shell_words(s, i + 1, with_word(out, word), Seq::empty(), None)
            } else {
                shell_words(s, i + 1, out, word.push(c), None)
            },
        }
    }
}

/// The words of a text; quotes group.
pub open spec fn shell_fields(s: Seq<char>) -> Seq<Seq<char>> {
    shell_words(s, 0, Seq::empty(), Seq::empty(), None)
}

/// Quote-aware splitting for `addopts = "-m 'not stress'"` style values.
pub fn shell_split(input: &str) -> (r: Vec<String>)
    ensures
        text::deep(r@) == shell_fields(input@),
{
    let chars: Vec<char> = to_chars(input);
    let mut out: Vec<String> = Vec::new();
    let mut current: String = String::new();
    let mut quote: Option<char> = None;
    let mut i: usize = 0;
    while i < chars.len()
        invariant
            i <= chars.len(),
            chars@ == input@,
            shell_words(input@, i as int, text::deep(out@), current@, quote) == shell_fields(
                input@,
            ),
        decreases chars.len() - i,
    {
        let c: char = chars[i];
        match quote {
            Some(q) => {
                if c == q {
                    quote = None;
                } else {
                    current.push(c);
                }
            },
            None => {
                if c == '\'' || c == '"' {
                    quote = Some(c);
                } else if is_white(c) {
                    if !current.as_str().is_empty() {
                        out.push(current);
                    }
                    current = String::new();
                } else {
                    current.push(c);
                }
            },
        }
        i += 1;
    }
    if !current.as_str().is_empty() {
        out.push(current);
    }
    out
}

/// The values that the text of an option gives: words, quote-aware for
/// `addopts`.
pub open spec fn option_values(key: Seq<char>, value: Seq<char>) -> Seq<Seq<char>> {
    if key == "addopts"@ {
        shell_fields(value)
    } else {
        text::fields(value, Separator::White, false)
    }
}

fn split_option(key: &str, value: &str) -> (r: Strings)
    ensures
        r@ == option_values(key@, value@),
{
    if same(key, "addopts") {
        Strings { items: shell_split(value) }
    } else {
        Strings { items: split(value, Separator::White, false) }
    }
}

// ---------------------------------------------------------------------------
// INI files
// ---------------------------------------------------------------------------

/// What has been read of an INI file.
pub struct Ini {
    pub in_section: bool,
    pub found: bool,
    pub values: Seq<(Seq<char>, Seq<char>)>,
    pub key: Option<Seq<char>>,
}

/// A line that says nothing: empty, or a comment.
pub open spec fn is_comment(trimmed: Seq<char>) -> bool {
    trimmed.len() == 0 || "#"@.is_prefix_of(trimmed) || ";"@.is_prefix_of(trimmed)
}

/// The name of the section that a line opens.
pub open spec fn section_of(trimmed: Seq<char>) -> Option<Seq<char>> {
    if trimmed.len() >= 2 && trimmed[0] == '[' && trimmed[trimmed.len() - 1] == ']' {
        Some(text::trimmed(trimmed.subrange(1, trimmed.len() - 1)))
    } else {
        None
    }
}

/// Does a line begin with a blank?
pub open spec fn is_indented(raw: Seq<char>) -> bool {
    raw.len() > 0 && (raw[0] == ' ' || raw[0] == '\t')
}

/// The first position from `i` on that holds `c`, or the length.
pub open spec fn position_of(s: Seq<char>, c: char, i: int) -> int
    decreases s.len() - i,
{
    if i < 0 || i >= s.len() || s[i] == c {
        i
    } else {
        position_of(s, c, i + 1)
    }
}

/// Take up `key = value`.
pub open spec fn with_pair(ini: Ini, line: Seq<char>) -> Ini {
    let eq = position_of(line, '=', 0);
    if eq < line.len() {
        let key = text::trimmed(line.subrange(0, eq));
        Ini {
            values: crate::table::put(
                ini.values,
                key,
                text::trimmed(line.subrange(eq + 1, line.len() as int)),
            ),
            key: Some(key),
            ..ini
        }
    } else {
        ini
    }
}

/// Take up an indented line: it continues the value of the last key.
pub open spec fn with_continuation(ini: Ini, trimmed: Seq<char>) -> Ini {
    match ini.key {
        Some(key) => Ini {
            values: crate::table::put(
                ini.values,
                key,
                (match crate::table::find(ini.values, key) {
                    Some(v) => v,
                    None => Seq::empty(),
                }) + " "@ + trimmed,
            ),
            ..ini
        },
        None => ini,
    }
}

/// Take up one line.
pub open spec fn with_line(ini: Ini, raw: Seq<char>, section: Seq<char>) -> Ini {
    let line = text::trimmed_end(raw);
    let trimmed = text::trimmed_start(line);
    if is_comment(trimmed) {
        ini
    } else {
        match section_of(trimmed) {
            Some(name) => Ini {
                in_section: name == section,
                found: ini.found || name == section,
                values: ini.values,
                key: None,
            },
            None => if !ini.in_section {
                ini
            } else if is_indented(raw) {
                with_continuation(ini, trimmed)
            } else {
                with_pair(ini, line)
            },
        }
    }
}

/// What is read of the lines from position `i` on, on top of `ini`.
pub open spec fn ini_from(
    lines: Seq<Seq<char>>,
    i: int,
    ini: Ini,
    section: Seq<char>,
) -> Ini
    decreases lines.len() - i,
{
    if i < 0 || i >= lines.len() {
        ini
    } else {
        ini_from(lines, i + 1, with_line(ini, lines[i], section), section)
    }
}

/// The options of some pairs from position `i` on, on top of `out`.
pub open spec fn options_of(
    values: Seq<(Seq<char>, Seq<char>)>,
    i: int,
    out: Seq<(Seq<char>, Seq<Seq<char>>)>,
) -> Seq<(Seq<char>, Seq<Seq<char>>)>
    decreases values.len() - i,
{
    if i < 0 || i >= values.len() {
        out
    } else {
        options_of(
            values,
            i + 1,
            crate::table::put(out, values[i].0, option_values(values[i].0, values[i].1)),
        )
    }
}

/// Nothing has been read of an INI file.
pub open spec fn unread() -> Ini {
    Ini { in_section: false, found: false, values: Seq::empty(), key: None }
}

/// The options of a section of an INI text; none if the section is absent.
pub open spec fn ini_options(
    text: Seq<char>,
    section: Seq<char>,
) -> Option<Seq<(Seq<char>, Seq<Seq<char>>)>> {
    let ini = ini_from(text::lines_of(text), 0, unread(), section);
    if ini.found {
        Some(options_of(ini.values, 0, Seq::empty()))
    } else {
        None
    }
}

/// What has been read of an INI file.
struct IniBuf {
    in_section: bool,
    found: bool,
    values: Table<String>,
    key: Option<String>,
}

impl View for IniBuf {
    type V = Ini;

    closed spec fn view(&self) -> Ini {
        Ini {
            in_section: self.in_section,
            found: self.found,
            values: self.values@,
            key: text::opt(self.key),
        }
    }
}

fn take_pair(ini: &mut IniBuf, line: &str)
    ensures
        final(ini)@ == with_pair(old(ini)@, line@),
{
    let chars: Vec<char> = to_chars(line);
    let mut eq: usize = 0;
    while eq < chars.len() && chars[eq] != '='
        invariant
            eq <= chars.len(),
            chars@ == line@,
            position_of(line@, '=', eq as int) == position_of(line@, '=', 0),
        decreases chars.len() - eq,
    {
        eq += 1;
    }
    if eq < chars.len() {
        let left: String = from_range(&chars, 0, eq);
        let right: String = from_range(&chars, eq + 1, chars.len());
        let key: String = text::trim(left.as_str());
        ini.values.insert(key.clone(), text::trim(right.as_str()));
        ini.key = Some(key);
    }
}

fn take_continuation(ini: &mut IniBuf, trimmed: &str)
    ensures
        final(ini)@ == with_continuation(old(ini)@, trimmed@),
{
    match &ini.key {
        Some(key) => {
            let longer: String = match ini.values.get(key.as_str()) {
                Some(v) => concat3(v.as_str(), " ", trimmed),
                None => concat3("", " ", trimmed),
            };
            proof {
                reveal_strlit("");
                assert(""@ =~= Seq::<char>::empty());
            }
            ini.values.insert(key.clone(), longer);
        },
        None => {},
    }
}

/// The name of the section that a line opens.
fn section_name(trimmed: &str) -> (r: Option<String>)
    ensures
        text::opt(r) == section_of(trimmed@),
{
    let chars: Vec<char> = to_chars(trimmed);
    let n: usize = chars.len();
    if n >= 2 && chars[0] == '[' && chars[n - 1] == ']' {
        let inner: String = from_range(&chars, 1, n - 1);
        Some(text::trim(inner.as_str()))
    } else {
        None
    }
}

fn starts_blank(raw: &str) -> (r: bool)
    ensures
        r == is_indented(raw@),
{
    let chars: Vec<char> = to_chars(raw);
    chars.len() > 0 && (chars[0] == ' ' || chars[0] == '\t')
}

fn take_line(ini: &mut IniBuf, raw: &str, section: &str)
    ensures
        final(ini)@ == with_line(old(ini)@, raw@, section@),
{
    let line: String = text::trim_end(raw);
    let trimmed: String = text::trim_start(line.as_str());
    let t: &str = trimmed.as_str();
    if t.is_empty() || text::starts_with(t, "#") || text::starts_with(t, ";") {
        return;
    }
    match section_name(t) {
        Some(name) => {
            let here: bool = same(name.as_str(), section);
            ini.in_section = here;
            ini.found = ini.found || here;
            ini.key = None;
        },
        None => {
            if ini.in_section {
                if starts_blank(raw) {
                    take_continuation(ini, t);
                } else {
                    take_pair(ini, line.as_str());
                }
            }
        },
    }
}

/// Minimal INI reader: `key = value` pairs plus indented continuation lines,
/// which is all pytest configs use. Returns `None` if the section is absent.
pub fn ini_section(text: &str, section: &str) -> (r: Option<Options>)
    ensures
        text::opt(r) == ini_options(text@, section@),
{
    let all: Vec<String> = lines(text);
    let ghost ls = text::deep(all@);
    let mut ini: IniBuf = IniBuf {
        in_section: false,
        found: false,
        values: Table::new(),
        key: None,
    };
    let ghost start = ini@;
    let mut i: usize = 0;
    while i < all.len()
        invariant
            i <= all.len(),
            ls == text::deep(all@),
            ini_from(ls, i as int, ini@, section@) == ini_from(ls, 0, start, section@),
        decreases all.len() - i,
    {
        take_line(&mut ini, all[i].as_str(), section);
        i += 1;
    }
    if !ini.found {
        return None;
    }
    let ghost vs = ini.values@;
    let mut out: Options = Table::new();
    let mut j: usize = 0;
    while j < ini.values.entries.len()
        invariant
            j <= ini.values.entries.len(),
            vs == text::deep(ini.values.entries@),
            options_of(vs, j as int, out@) == options_of(vs, 0, Seq::empty()),
        decreases ini.values.entries.len() - j,
    {
        let key: String = ini.values.entries[j].0.clone();
        let values: Strings = split_option(key.as_str(), ini.values.entries[j].1.as_str());
        out.insert(key, values);
        j += 1;
    }
    Some(out)
}

// ---------------------------------------------------------------------------
// TOML files
// ---------------------------------------------------------------------------

/// The texts of a list from position `i` on, behind those in `out`.
pub open spec fn texts_from(v: Seq<TomlView>, i: int, out: Seq<Seq<char>>) -> Seq<Seq<char>>
    decreases v.len() - i,
{
    if i < 0 || i >= v.len() {
        out
    } else {
        texts_from(
            v,
            i + 1,
            match v[i] {
                TomlView::Text(s) => out.push(s),
                _ => out,
            },
        )
    }
}

/// The values that a TOML value gives an option: the words of a text, the texts
/// of a list; none for anything else.
pub open spec fn toml_values(key: Seq<char>, value: TomlView) -> Option<Seq<Seq<char>>> {
    match value {
        TomlView::Text(s) => Some(option_values(key, s)),
        TomlView::List(items) => Some(texts_from(items, 0, Seq::empty())),
        _ => None,
    }
}

/// The options of a TOML table from position `i` on, on top of `out`.
pub open spec fn toml_options(
    t: Seq<(Seq<char>, TomlView)>,
    i: int,
    out: Seq<(Seq<char>, Seq<Seq<char>>)>,
) -> Seq<(Seq<char>, Seq<Seq<char>>)>
    decreases t.len() - i,
{
    if i < 0 || i >= t.len() {
        out
    } else {
        toml_options(
            t,
            i + 1,
            match toml_values(t[i].0, t[i].1) {
                Some(v) => crate::table::put(out, t[i].0, v),
                None => out,
            },
        )
    }
}

fn list_texts(items: &Vec<Toml>) -> (r: Vec<String>)
    ensures
        text::deep(r@) == texts_from(text::deep(items@), 0, Seq::empty()),
{
    let ghost vs = text::deep(items@);
    let mut out: Vec<String> = Vec::new();
    let mut i: usize = 0;
    while i < items.len()
        invariant
            i <= items.len(),
            vs == text::deep(items@),
            texts_from(vs, i as int, text::deep(out@)) == texts_from(vs, 0, Seq::empty()),
        decreases items.len() - i,
    {
        proof {
            crate::document::toml_parts(items@[i as int]);
        }
        match &items[i] {
            Toml::Text(s) => {
                out.push(s.clone());
            },
            _ => {},
        }
        i += 1;
    }
    out
}

/// The options of a TOML table: strings are split into words, lists give their
/// strings, anything else is no option.
pub fn extract_toml_options(table: &Vec<(String, Toml)>) -> (r: Options)
    ensures
        r@ == toml_options(text::deep(table@), 0, Seq::empty()),
{
    let ghost ts = text::deep(table@);
    let mut out: Options = Table::new();
    let mut i: usize = 0;
    while i < table.len()
        invariant
            i <= table.len(),
            ts == text::deep(table@),
            toml_options(ts, i as int, out@) == toml_options(ts, 0, Seq::empty()),
        decreases table.len() - i,
    {
        proof {
            crate::document::toml_parts(table@[i as int].1);
        }
        let key: String = table[i].0.clone();
        match &table[i].1 {
            Toml::Text(s) => {
                let values: Strings = split_option(key.as_str(), s.as_str());
                out.insert(key, values);
            },
            Toml::List(items) => {
                out.insert(key, Strings { items: list_texts(items) });
            },
            _ => {},
        }
        i += 1;
    }
    out
}

/// The options of a `pyproject.toml` whose document is `doc`. pytest accepts
/// both `[tool.pytest]` and the legacy `[tool.pytest.ini_options]`, which wins;
/// an empty `[tool.pytest]` is no configuration.
pub open spec fn pyproject_of(
    doc: Seq<(Seq<char>, TomlView)>,
) -> Option<Seq<(Seq<char>, Seq<Seq<char>>)>> {
    match crate::document::table_under(doc, "tool"@) {
        Some(tool) => match crate::document::table_under(tool, "pytest"@) {
            Some(pytest) => match crate::document::table_under(pytest, "ini_options"@) {
                Some(ini) => Some(toml_options(ini, 0, Seq::empty())),
                None => if pytest.len() == 0 {
                    None
                } else {
                    Some(toml_options(pytest, 0, Seq::empty()))
                },
            },
            None => None,
        },
        None => None,
    }
}

/// The options of the text of a `pyproject.toml`.
pub open spec fn pyproject_text(
    text: Seq<char>,
) -> Option<Seq<(Seq<char>, Seq<Seq<char>>)>> {
    match crate::document::toml_source(text) {
        Some(doc) => pyproject_of(doc),
        None => None,
    }
}

/// The options of a `pyproject.toml` whose document is `doc`.
pub fn pyproject_document(doc: &Vec<(String, Toml)>) -> (r: Option<Options>)
    ensures
        text::opt(r) == pyproject_of(text::deep(doc@)),
{
    match inner_table(doc, "tool") {
        Some(tool) => match inner_table(tool, "pytest") {
            Some(pytest) => match inner_table(pytest, "ini_options") {
                Some(ini) => Some(extract_toml_options(ini)),
                None => if pytest.len() == 0 {
                    None
                } else {
                    Some(extract_toml_options(pytest))
                },
            },
            None => None,
        },
        None => None,
    }
}

/// The options of a `pyproject.toml`; none where it does not configure pytest.
pub fn pyproject_options(text: &str) -> (r: Option<Options>)
    ensures
        text::opt(r) == pyproject_text(text@),
{
    match parse_toml(text) {
        Some(doc) => pyproject_document(&doc),
        None => None,
    }
}

/// The options of a `pytest.toml` whose document is `doc`: those of its
/// `[pytest]` table.
pub open spec fn pytest_toml_of(
    doc: Seq<(Seq<char>, TomlView)>,
) -> Seq<(Seq<char>, Seq<Seq<char>>)> {
    match crate::document::table_under(doc, "pytest"@) {
        Some(t) => toml_options(t, 0, Seq::empty()),
        None => Seq::empty(),
    }
}

/// The options of a `pytest.toml` whose document is `doc`.
pub fn pytest_toml_document(doc: &Vec<(String, Toml)>) -> (r: Options)
    ensures
        r@ == pytest_toml_of(text::deep(doc@)),
{
    match inner_table(doc, "pytest") {
        Some(t) => extract_toml_options(t),
        None => Table::new(),
    }
}

/// What a configuration file of the given name says; none where it is not a
/// pytest configuration (a bare `pyproject.toml`, a `tox.ini` without
/// `[pytest]`). A `pytest.ini` always is one, even when empty.
pub open spec fn file_options(
    name: Seq<char>,
    text: Seq<char>,
) -> Option<Seq<(Seq<char>, Seq<Seq<char>>)>> {
    if name == "pytest.ini"@ || name == ".pytest.ini"@ {
        match ini_options(text, "pytest"@) {
            Some(o) => Some(o),
            None => Some(Seq::empty()),
        }
    } else if name == "pytest.toml"@ || name == ".pytest.toml"@ {
        match crate::document::toml_source(text) {
            Some(doc) => Some(pytest_toml_of(doc)),
            None => None,
        }
    } else if name == "pyproject.toml"@ {
        pyproject_text(text)
    } else if name == "tox.ini"@ {
        ini_options(text, "pytest"@)
    } else if name == "setup.cfg"@ {
        ini_options(text, "tool:pytest"@)
    } else {
        None
    }
}

/// What the text of a configuration file of the given name says.
pub fn load_config_file(name: &str, text: &str) -> (r: Option<Options>)
    ensures
        text::opt(r) == file_options(name@, text@),
{
    if same(name, "pytest.ini") || same(name, ".pytest.ini") {
        match ini_section(text, "pytest") {
            Some(o) => Some(o),
            None => Some(Table::new()),
        }
    } else if same(name, "pytest.toml") || same(name, ".pytest.toml") {
        match parse_toml(text) {
            Some(doc) => Some(pytest_toml_document(&doc)),
            None => None,
        }
    } else if same(name, "pyproject.toml") {
        pyproject_options(text)
    } else if same(name, "tox.ini") {
        ini_section(text, "pytest")
    } else if same(name, "setup.cfg") {
        ini_section(text, "tool:pytest")
    } else {
        None
    }
}

// ---------------------------------------------------------------------------
// Laws of INI files
// ---------------------------------------------------------------------------

/// Is a line the header of the section?
pub open spec fn opens(line: Seq<char>, section: Seq<char>) -> bool {
    section_of(text::trimmed(line)) == Some(section)
}

/// Is the section the one that the last header among the lines opens?
pub open spec fn ends_in(lines: Seq<Seq<char>>, section: Seq<char>) -> bool
    decreases lines.len(),
{
    if lines.len() == 0 {
        false
    } else {
        match section_of(text::trimmed(lines.last())) {
            Some(name) => name == section,
            None => ends_in(lines.drop_last(), section),
        }
    }
}

/// Is it a line `key = value` that is not indented?
pub open spec fn sets(line: Seq<char>, key: Seq<char>) -> bool {
    let whole = text::trimmed_end(line);
    let eq = position_of(whole, '=', 0);
    &&& !is_comment(text::trimmed(line))
    &&& section_of(text::trimmed(line)) is None
    &&& !is_indented(line)
    &&& eq < whole.len()
    &&& text::trimmed(whole.subrange(0, eq)) == key
}

/// The value that a line `key = value` gives.
pub open spec fn value_in(line: Seq<char>) -> Seq<char> {
    let whole = text::trimmed_end(line);
    text::trimmed(whole.subrange(position_of(whole, '=', 0) + 1, whole.len() as int))
}

/// A section has options exactly where one of the lines, without the white
/// space around it, is its header.
pub proof fn law_section_needs_its_header(text: Seq<char>, section: Seq<char>)
    ensures
        ini_options(text, section) is Some <==> exists|i: int|
            0 <= i < text::lines_of(text).len() && opens(
                #[trigger] text::lines_of(text)[i],
                section,
            ),
{
    state_after(text::lines_of(text), section);
}

/// Lines under the header of another section, or under none, say nothing: the
/// options are the same without them.
pub proof fn law_other_sections_say_nothing(
    head: Seq<char>,
    part: Seq<char>,
    tail: Seq<char>,
    section: Seq<char>,
)
    requires
        text::whole_lines(head),
        text::whole_lines(part),
        !ends_in(text::lines_of(head), section),
        forall|i: int|
            0 <= i < text::lines_of(part).len() ==> section_of(
                text::trimmed(#[trigger] text::lines_of(part)[i]),
            ) is None,
    ensures
        ini_options(head + part + tail, section) == ini_options(head + tail, section),
{
    let a = text::lines_of(head);
    let b = text::lines_of(part);
    let before = ini_from(a, 0, unread(), section);
    state_after(a, section);
    outside_says_nothing(b, 0, before, section);
    part_is_left_out(head, part, tail, section);
}

/// Blank lines and lines whose first character that is not blank is `#` or `;`
/// say nothing: the options are the same with and without them.
pub proof fn law_comments_say_nothing(
    head: Seq<char>,
    part: Seq<char>,
    tail: Seq<char>,
    section: Seq<char>,
)
    requires
        text::whole_lines(head),
        text::whole_lines(part),
        forall|i: int|
            0 <= i < text::lines_of(part).len() ==> is_comment(
                text::trimmed(#[trigger] text::lines_of(part)[i]),
            ),
    ensures
        ini_options(head + part + tail, section) == ini_options(head + tail, section),
{
    let before = ini_from(text::lines_of(head), 0, unread(), section);
    comments_say_nothing(text::lines_of(part), 0, before, section);
    part_is_left_out(head, part, tail, section);
}

/// Of the lines of a section that set the same key the last one counts alone:
/// where a line sets the key, its value is the same whatever stands above the
/// line, as long as the line stands in the section.
pub proof fn law_last_setting_counts(
    head: Seq<char>,
    other: Seq<char>,
    rest: Seq<char>,
    section: Seq<char>,
    key: Seq<char>,
)
    requires
        text::whole_lines(head),
        text::whole_lines(other),
        ends_in(text::lines_of(head), section),
        ends_in(text::lines_of(other), section),
        text::lines_of(rest).len() > 0,
        sets(text::lines_of(rest)[0], key),
    ensures
        ini_options(head + rest, section) is Some,
        ini_options(other + rest, section) is Some,
        crate::table::find(ini_options(head + rest, section)->0, key) == crate::table::find(
            ini_options(other + rest, section)->0,
            key,
        ),
{
    let ls = text::lines_of(rest);
    let one = ini_from(text::lines_of(head), 0, unread(), section);
    let two = ini_from(text::lines_of(other), 0, unread(), section);
    state_after(text::lines_of(head), section);
    state_after(text::lines_of(other), section);
    text::law_lines_add_up(head, rest);
    text::law_lines_add_up(other, rest);
    read_in_turn(text::lines_of(head), ls, unread(), section);
    read_in_turn(text::lines_of(other), ls, unread(), section);
    let line = ls[0];
    setting_is_taken(one, line, section, key);
    setting_is_taken(two, line, section, key);
    let first = with_line(one, line, section);
    let second = with_line(two, line, section);
    stay_alike(ls, 1, first, second, section, key);
    let x = ini_from(ls, 1, first, section);
    let y = ini_from(ls, 1, second, section);
    section_stays_found(ls, 1, first, section);
    values_stay_sorted(text::lines_of(head) + ls, 0, unread(), section);
    values_stay_sorted(text::lines_of(other) + ls, 0, unread(), section);
    options_hold(x.values, 0, Seq::empty(), key);
    options_hold(y.values, 0, Seq::empty(), key);
}

/// A line of a section that sets a key, with nothing behind it, gives the key
/// its value.
pub proof fn law_setting_is_read(
    head: Seq<char>,
    rest: Seq<char>,
    line: Seq<char>,
    section: Seq<char>,
    key: Seq<char>,
)
    requires
        text::whole_lines(head),
        ends_in(text::lines_of(head), section),
        text::lines_of(rest) == seq![line],
        sets(line, key),
    ensures
        ini_options(head + rest, section) matches Some(t) && crate::table::find(t, key) == Some(
            option_values(key, value_in(line)),
        ),
{
    let ls = text::lines_of(rest);
    let one = ini_from(text::lines_of(head), 0, unread(), section);
    state_after(text::lines_of(head), section);
    text::law_lines_add_up(head, rest);
    read_in_turn(text::lines_of(head), ls, unread(), section);
    setting_is_taken(one, line, section, key);
    let first = with_line(one, line, section);
    assert(ini_from(ls, 1, first, section) == first);
    assert(ls[0] == line);
    values_stay_sorted(text::lines_of(head) + ls, 0, unread(), section);
    options_hold(first.values, 0, Seq::empty(), key);
}

proof fn read_in_turn(a: Seq<Seq<char>>, b: Seq<Seq<char>>, ini: Ini, section: Seq<char>)
    ensures
        ini_from(a + b, 0, ini, section) == ini_from(b, 0, ini_from(a, 0, ini, section), section),
{
    read_front(a, b, 0, ini, section);
    read_back(a, b, 0, ini_from(a, 0, ini, section), section);
}

proof fn read_front(
    a: Seq<Seq<char>>,
    b: Seq<Seq<char>>,
    i: int,
    ini: Ini,
    section: Seq<char>,
)
    requires
        0 <= i <= a.len(),
    ensures
        ini_from(a + b, i, ini, section) == ini_from(
            a + b,
            a.len() as int,
            ini_from(a, i, ini, section),
            section,
        ),
    decreases a.len() - i,
{
    if i < a.len() {
        assert((a + b)[i] == a[i]);
        read_front(a, b, i + 1, with_line(ini, a[i], section), section);
    }
}

proof fn read_back(
    a: Seq<Seq<char>>,
    b: Seq<Seq<char>>,
    i: int,
    ini: Ini,
    section: Seq<char>,
)
    requires
        0 <= i <= b.len(),
    ensures
        ini_from(a + b, a.len() + i, ini, section) == ini_from(b, i, ini, section),
    decreases b.len() - i,
{
    if i < b.len() {
        assert((a + b)[a.len() + i] == b[i]);
        read_back(a, b, i + 1, with_line(ini, b[i], section), section);
    }
}

proof fn part_is_left_out(
    head: Seq<char>,
    part: Seq<char>,
    tail: Seq<char>,
    section: Seq<char>,
)
    requires
        text::whole_lines(head),
        text::whole_lines(part),
        ({
            let before = ini_from(text::lines_of(head), 0, unread(), section);
            ini_from(text::lines_of(part), 0, before, section) == before
        }),
    ensures
        ini_options(head + part + tail, section) == ini_options(head + tail, section),
{
    let a = text::lines_of(head);
    let b = text::lines_of(part);
    let c = text::lines_of(tail);
    text::law_lines_add_up(head, part);
    text::law_lines_add_up(head + part, tail);
    text::law_lines_add_up(head, tail);
    read_in_turn(a, b, unread(), section);
    read_in_turn(a + b, c, unread(), section);
    read_in_turn(a, c, unread(), section);
}

proof fn header_is_no_comment(trimmed: Seq<char>)
    requires
        section_of(trimmed) is Some,
    ensures
        !is_comment(trimmed),
{
    reveal_strlit("#");
    reveal_strlit(";");
    let first = trimmed.subrange(0, 1);
    assert(first[0] == trimmed[0]);
    assert("#"@[0] == '#' && ";"@[0] == ';');
}

proof fn state_after(lines: Seq<Seq<char>>, section: Seq<char>)
    ensures
        ini_from(lines, 0, unread(), section).in_section == ends_in(lines, section),
        ini_from(lines, 0, unread(), section).found <==> exists|i: int|
            0 <= i < lines.len() && opens(#[trigger] lines[i], section),
        ends_in(lines, section) ==> ini_from(lines, 0, unread(), section).found,
    decreases lines.len(),
{
    if lines.len() > 0 {
        let front = lines.drop_last();
        let last = lines.last();
        assert(lines =~= front + seq![last]);
        state_after(front, section);
        read_in_turn(front, seq![last], unread(), section);
        let before = ini_from(front, 0, unread(), section);
        assert(seq![last][0] == last);
        let after = with_line(before, last, section);
        assert(ini_from(seq![last], 1, after, section) == after);
        assert(ini_from(seq![last], 0, before, section) == after);
        if section_of(text::trimmed(last)) is Some {
            header_is_no_comment(text::trimmed(last));
        }
        if before.found {
            let i = choose|i: int| 0 <= i < front.len() && opens(#[trigger] front[i], section);
            assert(opens(lines[i], section));
        }
        if opens(last, section) {
            assert(opens(lines[lines.len() - 1], section));
        }
        if exists|i: int| 0 <= i < lines.len() && opens(#[trigger] lines[i], section) {
            let i = choose|i: int| 0 <= i < lines.len() && opens(#[trigger] lines[i], section);
            if i < front.len() {
                assert(opens(front[i], section));
            }
        }
    }
}

proof fn section_stays_found(lines: Seq<Seq<char>>, i: int, ini: Ini, section: Seq<char>)
    requires
        0 <= i <= lines.len(),
        ini.found,
    ensures
        ini_from(lines, i, ini, section).found,
    decreases lines.len() - i,
{
    if i < lines.len() {
        section_stays_found(lines, i + 1, with_line(ini, lines[i], section), section);
    }
}

proof fn outside_says_nothing(lines: Seq<Seq<char>>, i: int, ini: Ini, section: Seq<char>)
    requires
        0 <= i <= lines.len(),
        !ini.in_section,
        forall|j: int|
            0 <= j < lines.len() ==> section_of(text::trimmed(#[trigger] lines[j])) is None,
    ensures
        ini_from(lines, i, ini, section) == ini,
    decreases lines.len() - i,
{
    if i < lines.len() {
        assert(section_of(text::trimmed(lines[i])) is None);
        outside_says_nothing(lines, i + 1, ini, section);
    }
}

proof fn comments_say_nothing(lines: Seq<Seq<char>>, i: int, ini: Ini, section: Seq<char>)
    requires
        0 <= i <= lines.len(),
        forall|j: int| 0 <= j < lines.len() ==> is_comment(text::trimmed(#[trigger] lines[j])),
    ensures
        ini_from(lines, i, ini, section) == ini,
    decreases lines.len() - i,
{
    if i < lines.len() {
        assert(is_comment(text::trimmed(lines[i])));
        comments_say_nothing(lines, i + 1, ini, section);
    }
}

proof fn setting_is_taken(ini: Ini, line: Seq<char>, section: Seq<char>, key: Seq<char>)
    requires
        ini.in_section,
        sets(line, key),
    ensures
        with_line(ini, line, section).in_section,
        with_line(ini, line, section).found == ini.found,
        with_line(ini, line, section).key == Some(key),
        crate::table::find(with_line(ini, line, section).values, key) == Some(value_in(line)),
{
    crate::table::law_find_after_put(ini.values, key, value_in(line), key);
}

/// Do two readings agree on where they are and on the value of a key?
spec fn alike(a: Ini, b: Ini, key: Seq<char>) -> bool {
    &&& a.in_section == b.in_section
    &&& a.found == b.found
    &&& a.key == b.key
    &&& crate::table::find(a.values, key) == crate::table::find(b.values, key)
}

proof fn stay_alike(
    lines: Seq<Seq<char>>,
    i: int,
    a: Ini,
    b: Ini,
    section: Seq<char>,
    key: Seq<char>,
)
    requires
        0 <= i <= lines.len(),
        alike(a, b, key),
    ensures
        alike(ini_from(lines, i, a, section), ini_from(lines, i, b, section), key),
    decreases lines.len() - i,
{
    if i < lines.len() {
        let raw = lines[i];
        let line = text::trimmed_end(raw);
        let trimmed = text::trimmed_start(line);
        if !is_comment(trimmed) && section_of(trimmed) is None && a.in_section {
            if is_indented(raw) {
                if let Some(k) = a.key {
                    let x = (match crate::table::find(a.values, k) {
                        Some(v) => v,
                        None => Seq::empty(),
                    }) + " "@ + trimmed;
                    let y = (match crate::table::find(b.values, k) {
                        Some(v) => v,
                        None => Seq::empty(),
                    }) + " "@ + trimmed;
                    crate::table::law_find_after_put(a.values, k, x, key);
                    crate::table::law_find_after_put(b.values, k, y, key);
                }
            } else {
                let eq = position_of(line, '=', 0);
                if eq < line.len() {
                    let k = text::trimmed(line.subrange(0, eq));
                    let v = text::trimmed(line.subrange(eq + 1, line.len() as int));
                    crate::table::law_find_after_put(a.values, k, v, key);
                    crate::table::law_find_after_put(b.values, k, v, key);
                }
            }
        }
        stay_alike(
            lines,
            i + 1,
            with_line(a, raw, section),
            with_line(b, raw, section),
            section,
            key,
        );
    }
}

proof fn values_stay_sorted(lines: Seq<Seq<char>>, i: int, ini: Ini, section: Seq<char>)
    requires
        0 <= i <= lines.len(),
        crate::table::sorted(ini.values),
    ensures
        crate::table::sorted(ini_from(lines, i, ini, section).values),
    decreases lines.len() - i,
{
    if i < lines.len() {
        let raw = lines[i];
        let line = text::trimmed_end(raw);
        let trimmed = text::trimmed_start(line);
        if let Some(k) = ini.key {
            crate::table::law_put_keeps_order(
                ini.values,
                k,
                (match crate::table::find(ini.values, k) {
                    Some(v) => v,
                    None => Seq::empty(),
                }) + " "@ + trimmed,
            );
        }
        let eq = position_of(line, '=', 0);
        if eq < line.len() {
            crate::table::law_put_keeps_order(
                ini.values,
                text::trimmed(line.subrange(0, eq)),
                text::trimmed(line.subrange(eq + 1, line.len() as int)),
            );
        }
        values_stay_sorted(lines, i + 1, with_line(ini, raw, section), section);
    }
}

proof fn options_hold(
    values: Seq<(Seq<char>, Seq<char>)>,
    i: int,
    out: Seq<(Seq<char>, Seq<Seq<char>>)>,
    key: Seq<char>,
)
    requires
        0 <= i <= values.len(),
        crate::table::sorted(values),
    ensures
        crate::table::find(options_of(values, i, out), key) == (match crate::table::find_from(
            values,
            key,
            i,
        ) {
            Some(v) => Some(option_values(key, v)),
            None => crate::table::find(out, key),
        }),
    decreases values.len() - i,
{
    if i < values.len() {
        let (k, v) = values[i];
        crate::table::law_find_after_put(out, k, option_values(k, v), key);
        options_hold(
            values,
            i + 1,
            crate::table::put(out, k, option_values(k, v)),
            key,
        );
        if k == key {
            not_found_again(values, key, i + 1);
        }
    }
}

proof fn not_found_again(values: Seq<(Seq<char>, Seq<char>)>, key: Seq<char>, i: int)
    requires
        0 < i <= values.len(),
        crate::table::sorted(values),
        values[i - 1].0 == key || text::less(key, values[i - 1].0),
    ensures
        crate::table::find_from(values, key, i) is None,
    decreases values.len() - i,
{
    if i < values.len() {
        let last = values[i - 1].0;
        let next = values[i].0;
        assert(text::less(last, next));
        if last != key {
            text::law_order_is_transitive(key, last, next);
        }
        text::law_order_is_total(key, next);
        not_found_again(values, key, i + 1);
    }
}

// ---------------------------------------------------------------------------
// Laws of words
// ---------------------------------------------------------------------------

/// The quote that is open at the end of a text.
pub open spec fn open_quote(s: Seq<char>) -> Option<char>
    decreases s.len(),
{
    if s.len() == 0 {
        None
    } else {
        match open_quote(s.drop_last()) {
            Some(q) => if s.last() == q {
                None
            } else {
                Some(q)
            },
            None => if s.last() == '\'' || s.last() == '"' {
                Some(s.last())
            } else {
                None
            },
        }
    }
}

/// White space outside quotes parts words: the words of a text are those before
/// and those behind it.
pub proof fn law_words_add_up(a: Seq<char>, c: char, b: Seq<char>)
    requires
        text::white(c),
        c != '\'' && c != '"',
        open_quote(a) is None,
    ensures
        shell_fields(a.push(c) + b) == shell_fields(a) + shell_fields(b),
{
    let s = a.push(c) + b;
    let n = a.len() as int;
    assert(s.subrange(0, n) =~= a);
    words_in_front(s, n, 0, Seq::empty(), Seq::empty(), None);
    let st = words_until(s, n, 0, Seq::empty(), Seq::empty(), None);
    words_until_quote(s, n, 0, Seq::empty(), Seq::empty(), None);
    assert(s.take(0) =~= Seq::empty());
    assert(s.take(n) =~= a);
    words_of_front(s, a, 0, Seq::empty(), Seq::empty(), None);
    let first = with_word(st.0, st.1);
    assert(s[n] == c);
    words_shift(s, n + 1, b, 0, first, Seq::empty(), None);
    words_go_behind(b, 0, first, Seq::empty(), Seq::empty(), None);
    assert(first + Seq::<Seq<char>>::empty() =~= first);
}

/// What has been read when `n` characters have.
spec fn words_until(
    s: Seq<char>,
    n: int,
    i: int,
    out: Seq<Seq<char>>,
    word: Seq<char>,
    quote: Option<char>,
) -> (Seq<Seq<char>>, Seq<char>, Option<char>)
    decreases n - i,
{
    if i < 0 || i >= n {
        (out, word, quote)
    } else {
        let c = s[i];
        match quote {
            Some(q) => if c == q {
                words_until(s, n, i + 1, out, word, None)
            } else {
                words_until(s, n, i + 1, out, word.push(c), quote)
            },
            None => if c == '\'' || c == '"' {
                words_until(s, n, i + 1, out, word, Some(c))
            } else if text::white(c) {
                words_until(s, n, i + 1, with_word(out, word), Seq::empty(), None)
            } else {
                words_until(s, n, i + 1, out, word.push(c), None)
            },
        }
    }
}

proof fn words_in_front(
    s: Seq<char>,
    n: int,
    i: int,
    out: Seq<Seq<char>>,
    word: Seq<char>,
    quote: Option<char>,
)
    requires
        0 <= i <= n <= s.len(),
    ensures
        ({
            let st = words_until(s, n, i, out, word, quote);
            shell_words(s, i, out, word, quote) == shell_words(s, n, st.0, st.1, st.2)
        }),
    decreases n - i,
{
    if i < n {
        let c = s[i];
        match quote {
            Some(q) => if c == q {
                words_in_front(s, n, i + 1, out, word, None);
            } else {
                words_in_front(s, n, i + 1, out, word.push(c), quote);
            },
            None => if c == '\'' || c == '"' {
                words_in_front(s, n, i + 1, out, word, Some(c));
            } else if text::white(c) {
                words_in_front(s, n, i + 1, with_word(out, word), Seq::empty(), None);
            } else {
                words_in_front(s, n, i + 1, out, word.push(c), None);
            },
        }
    }
}

proof fn words_until_quote(
    s: Seq<char>,
    n: int,
    i: int,
    out: Seq<Seq<char>>,
    word: Seq<char>,
    quote: Option<char>,
)
    requires
        0 <= i <= n <= s.len(),
        quote == open_quote(s.take(i)),
    ensures
        words_until(s, n, i, out, word, quote).2 == open_quote(s.take(n)),
    decreases n - i,
{
    if i < n {
        let c = s[i];
        assert(s.take(i + 1).drop_last() =~= s.take(i));
        assert(s.take(i + 1).last() == c);
        match quote {
            Some(q) => if c == q {
                words_until_quote(s, n, i + 1, out, word, None);
            } else {
                words_until_quote(s, n, i + 1, out, word.push(c), quote);
            },
            None => if c == '\'' || c == '"' {
                words_until_quote(s, n, i + 1, out, word, Some(c));
            } else if text::white(c) {
                words_until_quote(s, n, i + 1, with_word(out, word), Seq::empty(), None);
            } else {
                words_until_quote(s, n, i + 1, out, word.push(c), None);
            },
        }
    }
}

proof fn words_of_front(
    s: Seq<char>,
    a: Seq<char>,
    i: int,
    out: Seq<Seq<char>>,
    word: Seq<char>,
    quote: Option<char>,
)
    requires
        0 <= i <= a.len() <= s.len(),
        s.take(a.len() as int) == a,
    ensures
        ({
            let st = words_until(s, a.len() as int, i, out, word, quote);
            shell_words(a, i, out, word, quote) == with_word(st.0, st.1)
        }),
    decreases a.len() - i,
{
    if i < a.len() {
        let c = s[i];
        assert(s.take(a.len() as int)[i] == c);
        match quote {
            Some(q) => if c == q {
                words_of_front(s, a, i + 1, out, word, None);
            } else {
                words_of_front(s, a, i + 1, out, word.push(c), quote);
            },
            None => if c == '\'' || c == '"' {
                words_of_front(s, a, i + 1, out, word, Some(c));
            } else if text::white(c) {
                words_of_front(s, a, i + 1, with_word(out, word), Seq::empty(), None);
            } else {
                words_of_front(s, a, i + 1, out, word.push(c), None);
            },
        }
    }
}

proof fn words_shift(
    s: Seq<char>,
    n: int,
    b: Seq<char>,
    i: int,
    out: Seq<Seq<char>>,
    word: Seq<char>,
    quote: Option<char>,
)
    requires
        0 <= i <= b.len(),
        0 <= n,
        s.len() == n + b.len(),
        forall|j: int| 0 <= j < b.len() ==> s[n + j] == #[trigger] b[j],
    ensures
        shell_words(s, n + i, out, word, quote) == shell_words(b, i, out, word, quote),
    decreases b.len() - i,
{
    if i < b.len() {
        let c = b[i];
        assert(s[n + i] == c);
        match quote {
            Some(q) => if c == q {
                words_shift(s, n, b, i + 1, out, word, None);
            } else {
                words_shift(s, n, b, i + 1, out, word.push(c), quote);
            },
            None => if c == '\'' || c == '"' {
                words_shift(s, n, b, i + 1, out, word, Some(c));
            } else if text::white(c) {
                words_shift(s, n, b, i + 1, with_word(out, word), Seq::empty(), None);
            } else {
                words_shift(s, n, b, i + 1, out, word.push(c), None);
            },
        }
    }
}

proof fn words_go_behind(
    b: Seq<char>,
    i: int,
    before: Seq<Seq<char>>,
    out: Seq<Seq<char>>,
    word: Seq<char>,
    quote: Option<char>,
)
    requires
        0 <= i <= b.len(),
    ensures
        shell_words(b, i, before + out, word, quote) == before + shell_words(
            b,
            i,
            out,
            word,
            quote,
        ),
    decreases b.len() - i,
{
    assert(with_word(before + out, word) =~= before + with_word(out, word));
    if i < b.len() {
        let c = b[i];
        match quote {
            Some(q) => if c == q {
                words_go_behind(b, i + 1, before, out, word, None);
            } else {
                words_go_behind(b, i + 1, before, out, word.push(c), quote);
            },
            None => if c == '\'' || c == '"' {
                words_go_behind(b, i + 1, before, out, word, Some(c));
            } else if text::white(c) {
                words_go_behind(b, i + 1, before, with_word(out, word), Seq::empty(), None);
            } else {
                words_go_behind(b, i + 1, before, out, word.push(c), None);
            },
        }
    }
}

/// Is there neither white space nor a quote in a text?
pub open spec fn is_plain(s: Seq<char>) -> bool {
    forall|i: int|
        0 <= i < s.len() ==> !text::white(#[trigger] s[i]) && s[i] != '\'' && s[i] != '"'
}

/// A text between quotes is part of one word, white space and all, together with
/// what stands right before and right behind the quotes; the quotes themselves
/// are dropped.
pub proof fn law_quotes_group(u: Seq<char>, q: char, x: Seq<char>, v: Seq<char>)
    requires
        is_plain(u),
        is_plain(v),
        q == '\'' || q == '"',
        !x.contains(q),
        u.len() + x.len() + v.len() > 0,
    ensures
        shell_fields(u.push(q) + x.push(q) + v) == seq![u + x + v],
{
    let s = u.push(q) + x.push(q) + v;
    let none = Seq::<Seq<char>>::empty();
    let at = u.len() as int;
    let end = at + 1 + x.len();
    plain_part(s, 0, at, Seq::empty());
    assert(s.subrange(0, at) =~= u);
    assert(s[at] == q);
    assert(Seq::<char>::empty() + u =~= u);
    assert forall|j: int| at < j < end implies #[trigger] s[j] != q by {
        assert(s[j] == x[j - at - 1]);
        assert(x.contains(x[j - at - 1]));
    }
    quoted_part(s, at + 1, end, u, q);
    assert(s.subrange(at + 1, end) =~= x);
    assert(s[end] == q);
    assert forall|j: int| end < j < s.len() implies s[j] == #[trigger] v[j - end - 1] by {}
    plain_part(s, end + 1, s.len() as int, u + x);
    assert(s.subrange(end + 1, s.len() as int) =~= v);
    assert(none.push(u + x + v) =~= seq![u + x + v]);
}

/// A text without white space and quotes is one word.
pub proof fn law_plain_text_is_one_word(w: Seq<char>)
    requires
        is_plain(w),
        w.len() > 0,
    ensures
        shell_fields(w) == seq![w],
{
    plain_part(w, 0, w.len() as int, Seq::empty());
    assert(w.subrange(0, w.len() as int) =~= w);
    assert(Seq::<char>::empty() + w =~= w);
    assert(Seq::<Seq<char>>::empty().push(w) =~= seq![w]);
}

proof fn plain_part(s: Seq<char>, i: int, n: int, word: Seq<char>)
    requires
        0 <= i <= n <= s.len(),
        forall|j: int|
            i <= j < n ==> !text::white(#[trigger] s[j]) && s[j] != '\'' && s[j] != '"',
    ensures
        shell_words(s, i, Seq::empty(), word, None) == shell_words(
            s,
            n,
            Seq::empty(),
            word + s.subrange(i, n),
            None,
        ),
    decreases n - i,
{
    if i < n {
        plain_part(s, i + 1, n, word.push(s[i]));
        assert(word.push(s[i]) + s.subrange(i + 1, n) =~= word + s.subrange(i, n));
    } else {
        assert(word + s.subrange(i, n) =~= word);
    }
}

proof fn quoted_part(s: Seq<char>, i: int, n: int, word: Seq<char>, q: char)
    requires
        0 <= i <= n <= s.len(),
        forall|j: int| i <= j < n ==> #[trigger] s[j] != q,
    ensures
        shell_words(s, i, Seq::empty(), word, Some(q)) == shell_words(
            s,
            n,
            Seq::empty(),
            word + s.subrange(i, n),
            Some(q),
        ),
    decreases n - i,
{
    if i < n {
        quoted_part(s, i + 1, n, word.push(s[i]), q);
        assert(word.push(s[i]) + s.subrange(i + 1, n) =~= word + s.subrange(i, n));
    } else {
        assert(word + s.subrange(i, n) =~= word);
    }
}

// ---------------------------------------------------------------------------
// Laws of TOML files
// ---------------------------------------------------------------------------

/// An option has the words of the text, or the texts of the list, that stand
/// under its key; of several entries the last one that says something counts. An
/// option that no entry says anything about is not set.
pub proof fn law_toml_options_are_read(t: Seq<(Seq<char>, TomlView)>, key: Seq<char>, at: int)
    requires
        0 <= at <= t.len(),
        at < t.len() ==> t[at].0 == key && toml_values(key, t[at].1) is Some,
        at == t.len() ==> forall|j: int|
            0 <= j < t.len() && (#[trigger] t[j]).0 == key ==> toml_values(key, t[j].1) is None,
        forall|j: int|
            at < j < t.len() && (#[trigger] t[j]).0 == key ==> toml_values(key, t[j].1) is None,
    ensures
        at < t.len() ==> crate::table::find(toml_options(t, 0, Seq::empty()), key) == toml_values(
            key,
            t[at].1,
        ),
        at == t.len() ==> crate::table::find(toml_options(t, 0, Seq::empty()), key) is None,
{
    let none = Seq::<(Seq<char>, Seq<Seq<char>>)>::empty();
    if at < t.len() {
        let before = toml_until(t, 0, at, none);
        crate::table::law_find_after_put(before, key, toml_values(key, t[at].1)->0, key);
        silent_entries(
            t,
            key,
            at + 1,
            crate::table::put(before, key, toml_values(key, t[at].1)->0),
        );
    } else {
        silent_entries(t, key, 0, none);
    }
}

proof fn toml_until(
    t: Seq<(Seq<char>, TomlView)>,
    i: int,
    at: int,
    out: Seq<(Seq<char>, Seq<Seq<char>>)>,
) -> (before: Seq<(Seq<char>, Seq<Seq<char>>)>)
    requires
        0 <= i <= at < t.len(),
    ensures
        toml_options(t, i, out) == toml_options(t, at, before),
    decreases at - i,
{
    if i < at {
        let next = match toml_values(t[i].0, t[i].1) {
            Some(v) => crate::table::put(out, t[i].0, v),
            None => out,
        };
        toml_until(t, i + 1, at, next)
    } else {
        out
    }
}

proof fn silent_entries(
    t: Seq<(Seq<char>, TomlView)>,
    key: Seq<char>,
    i: int,
    out: Seq<(Seq<char>, Seq<Seq<char>>)>,
)
    requires
        0 <= i <= t.len(),
        forall|j: int|
            i <= j < t.len() && (#[trigger] t[j]).0 == key ==> toml_values(key, t[j].1) is None,
    ensures
        crate::table::find(toml_options(t, i, out), key) == crate::table::find(out, key),
    decreases t.len() - i,
{
    if i < t.len() {
        match toml_values(t[i].0, t[i].1) {
            Some(v) => {
                crate::table::law_find_after_put(out, t[i].0, v, key);
                silent_entries(t, key, i + 1, crate::table::put(out, t[i].0, v));
            },
            None => {
                silent_entries(t, key, i + 1, out);
            },
        }
    }
}

/// A text gives its words, quote-aware for `addopts` alone, and a list of texts
/// gives the texts as they stand. What is neither says nothing.
pub proof fn law_toml_values(key: Seq<char>, s: Seq<char>, items: Seq<TomlView>)
    requires
        forall|i: int| 0 <= i < items.len() ==> (#[trigger] items[i]) is Text,
    ensures
        key == "addopts"@ ==> toml_values(key, TomlView::Text(s)) == Some(shell_fields(s)),
        key != "addopts"@ ==> toml_values(key, TomlView::Text(s)) == Some(
            text::fields(s, Separator::White, false),
        ),
        toml_values(key, TomlView::List(items)) == Some(
            Seq::new(items.len(), |i: int| items[i]->Text_0),
        ),
        forall|v: TomlView| !(v is Text) && !(v is List) ==> #[trigger] toml_values(key, v) is None,
{
    all_texts(items, 0, Seq::empty());
}

proof fn all_texts(items: Seq<TomlView>, i: int, out: Seq<Seq<char>>)
    requires
        0 <= i <= items.len(),
        forall|j: int| 0 <= j < items.len() ==> (#[trigger] items[j]) is Text,
    ensures
        texts_from(items, i, out) == out + Seq::new(
            (items.len() - i) as nat,
            |j: int| items[i + j]->Text_0,
        ),
    decreases items.len() - i,
{
    if i < items.len() {
        let s = items[i]->Text_0;
        assert(items[i] is Text);
        all_texts(items, i + 1, out.push(s));
        assert(out.push(s) + Seq::new(
            (items.len() - i - 1) as nat,
            |j: int| items[i + 1 + j]->Text_0,
        ) =~= out + Seq::new((items.len() - i) as nat, |j: int| items[i + j]->Text_0));
    } else {
        assert(out + Seq::new(0nat, |j: int| items[i + j]->Text_0) =~= out);
    }
}

/// `[tool.pytest.ini_options]` of a `pyproject.toml` counts before
/// `[tool.pytest]`; without either, and with an empty `[tool.pytest]` alone, the
/// file does not configure pytest.
pub proof fn law_pyproject_sections(
    doc: Seq<(Seq<char>, TomlView)>,
    tool: Seq<(Seq<char>, TomlView)>,
    pytest: Seq<(Seq<char>, TomlView)>,
    ini: Seq<(Seq<char>, TomlView)>,
)
    ensures
        crate::table::find(doc, "tool"@) is None ==> pyproject_of(doc) is None,
        crate::table::find(doc, "tool"@) == Some(TomlView::Table(tool)) ==> {
            &&& crate::table::find(tool, "pytest"@) is None ==> pyproject_of(doc) is None
            &&& crate::table::find(tool, "pytest"@) == Some(TomlView::Table(pytest)) ==> {
                &&& crate::table::find(pytest, "ini_options"@) == Some(TomlView::Table(ini))
                    ==> pyproject_of(doc) == Some(toml_options(ini, 0, Seq::empty()))
                &&& crate::table::find(pytest, "ini_options"@) is None && pytest.len() > 0
                    ==> pyproject_of(doc) == Some(toml_options(pytest, 0, Seq::empty()))
                &&& pytest.len() == 0 ==> pyproject_of(doc) is None
            }
        },
{
    if pytest.len() == 0 {
        assert(crate::table::find(pytest, "ini_options"@) is None);
    }
}

/// A `pytest.ini` configures pytest whatever it holds; a `tox.ini` only with a
/// section `[pytest]`, a `setup.cfg` only with a section `[tool:pytest]`. A file
/// of any other name than the known ones does not.
pub proof fn law_which_files_configure(name: Seq<char>, content: Seq<char>)
    ensures
        file_options("pytest.ini"@, content) is Some,
        file_options(".pytest.ini"@, content) is Some,
        ini_options(content, "pytest"@) is Some ==> file_options("pytest.ini"@, content)
            == ini_options(content, "pytest"@) && file_options(".pytest.ini"@, content)
            == ini_options(content, "pytest"@),
        ini_options(content, "pytest"@) is None ==> file_options("pytest.ini"@, content) == Some(
            Seq::<(Seq<char>, Seq<Seq<char>>)>::empty(),
        ),
        name != "pytest.ini"@ && name != ".pytest.ini"@ && name != "pytest.toml"@ && name
            != ".pytest.toml"@ && name != "pyproject.toml"@ && name != "tox.ini"@ && name
            != "setup.cfg"@ ==> file_options(name, content) is None,
        file_options("tox.ini"@, content) == ini_options(content, "pytest"@),
        file_options("setup.cfg"@, content) == ini_options(content, "tool:pytest"@),
{
    reveal_strlit("pytest.ini");
    reveal_strlit(".pytest.ini");
    reveal_strlit("pytest.toml");
    reveal_strlit(".pytest.toml");
    reveal_strlit("pyproject.toml");
    reveal_strlit("tox.ini");
    reveal_strlit("setup.cfg");
    assert("pytest.ini"@.len() == 10 && ".pytest.ini"@.len() == 11 && "pytest.toml"@.len() == 11);
    assert(".pytest.toml"@.len() == 12 && "pyproject.toml"@.len() == 14);
    assert("tox.ini"@.len() == 7 && "setup.cfg"@.len() == 9);
    assert(".pytest.ini"@[0] == '.' && "pytest.toml"@[0] == 'p');
}

} // verus!
