//! Strings as sequences of characters: the small vocabulary that every other
//! module states its contracts in.

use vstd::prelude::*;

verus! {

/// The views of a sequence of values, position by position.
pub open spec fn deep<T: View>(v: Seq<T>) -> Seq<T::V> {
    Seq::new(v.len(), |i: int| v[i]@)
}

/// The view of an optional value.
pub open spec fn opt<T: View>(o: Option<T>) -> Option<T::V> {
    match o {
        Some(x) => Some(x@),
        None => None,
    }
}

pub broadcast proof fn deep_push<T: View>(v: Seq<T>, x: T)
    ensures
        #[trigger] deep(v.push(x)) == deep(v).push(x@),
{
    assert(deep(v.push(x)) =~= deep(v).push(x@));
}

pub broadcast proof fn deep_empty<T: View>()
    ensures
        #[trigger] deep(Seq::<T>::empty()) == Seq::<T::V>::empty(),
{
    assert(deep(Seq::<T>::empty()) =~= Seq::<T::V>::empty());
}

pub broadcast group group_deep {
    deep_push,
    deep_empty,
}

/// A list of strings.
#[derive(Debug)]
pub struct Strings {
    pub items: Vec<String>,
}

impl View for Strings {
    type V = Seq<Seq<char>>;

    open spec fn view(&self) -> Seq<Seq<char>> {
        deep(self.items@)
    }
}

/// `String::push` appends one character.
pub assume_specification[ String::push ](s: &mut String, c: char)
    ensures
        final(s)@ == old(s)@.push(c),
;

/// Are the two strings the same? Their UTF-8 forms are compared, which decide
/// it: a text can be read back from its UTF-8 form.
pub fn same(a: &str, b: &str) -> (r: bool)
    ensures
        r == (a@ == b@),
{
    broadcast use vstd::utf8::encode_utf8_decode_utf8;

    let x: &[u8] = a.as_bytes();
    let y: &[u8] = b.as_bytes();
    proof {
        assert(vstd::utf8::decode_utf8(x@) == a@);
        assert(vstd::utf8::decode_utf8(y@) == b@);
    }
    if x.len() != y.len() {
        return false;
    }
    let mut i: usize = 0;
    while i < x.len()
        invariant
            i <= x.len(),
            x@.len() == y@.len(),
            x@ == vstd::utf8::encode_utf8(a@),
            y@ == vstd::utf8::encode_utf8(b@),
            forall|j: int| 0 <= j < i ==> x@[j] == y@[j],
        decreases x.len() - i,
    {
        if x[i] != y[i] {
            return false;
        }
        i += 1;
    }
    proof {
        assert(x@ =~= y@);
    }
    true
}

/// The characters of `s`, in order.
pub fn to_chars(s: &str) -> (r: Vec<char>)
    ensures
        r@ == s@,
{
    let mut out: Vec<char> = Vec::new();
    for c in it: s.chars()
        invariant
            out@ == it.seq().take(it.index() as int),
            it.seq() == s@,
    {
        proof {
            assert(it.seq().take(it.index() + 1) =~= it.seq().take(it.index() as int).push(c));
        }
        out.push(c);
    }
    proof {
        assert(out@ =~= s@);
    }
    out
}

/// The string made of `v[from..to]`.
pub fn from_range(v: &Vec<char>, from: usize, to: usize) -> (r: String)
    requires
        from <= to <= v.len(),
    ensures
        r@ == v@.subrange(from as int, to as int),
{
    let mut out: String = String::new();
    let mut i: usize = from;
    while i < to
        invariant
            from <= i <= to <= v.len(),
            out@ == v@.subrange(from as int, i as int),
        decreases to - i,
    {
        out.push(v[i]);
        proof {
            assert(v@.subrange(from as int, i + 1) =~= v@.subrange(from as int, i as int).push(v@[i as int]));
        }
        i += 1;
    }
    out
}

/// `a` followed by `b`.
pub fn concat(a: &str, b: &str) -> (r: String)
    ensures
        r@ == a@ + b@,
{
    a.to_owned().concat(b)
}

/// `a`, `b` and `c` in a row.
pub fn concat3(a: &str, b: &str, c: &str) -> (r: String)
    ensures
        r@ == a@ + b@ + c@,
{
    a.to_owned().concat(b).concat(c)
}

/// Does `part` stand in `s` at position `at`?
pub open spec fn occurs_at(s: Seq<char>, part: Seq<char>, at: int) -> bool {
    0 <= at && at + part.len() <= s.len() && s.subrange(at, at + part.len()) == part
}

/// Does `part` stand anywhere in `s`?
pub open spec fn occurs(s: Seq<char>, part: Seq<char>) -> bool {
    exists|at: int| occurs_at(s, part, at)
}

/// Does `part` stand in `s` at position `at`?
pub fn chars_at(s: &Vec<char>, part: &Vec<char>, at: usize) -> (r: bool)
    requires
        at <= s.len(),
    ensures
        r == occurs_at(s@, part@, at as int),
{
    if part.len() > s.len() - at {
        return false;
    }
    let mut i: usize = 0;
    while i < part.len()
        invariant
            i <= part.len(),
            at + part.len() <= s.len(),
            forall|j: int| 0 <= j < i ==> s@[at + j] == part@[j],
        decreases part.len() - i,
    {
        if s[at + i] != part[i] {
            proof {
                assert(s@.subrange(at as int, at + part@.len())[i as int] == s@[at + i]);
            }
            return false;
        }
        i += 1;
    }
    proof {
        assert(s@.subrange(at as int, at + part@.len()) =~= part@);
    }
    true
}

/// Is `part` a substring of `s`?
pub fn contains(s: &str, part: &str) -> (r: bool)
    ensures
        r == occurs(s@, part@),
{
    let hay: Vec<char> = to_chars(s);
    let needle: Vec<char> = to_chars(part);
    let mut at: usize = 0;
    while at < hay.len()
        invariant
            hay@ == s@,
            needle@ == part@,
            at <= hay.len(),
            forall|j: int| 0 <= j < at ==> !occurs_at(s@, part@, j),
        decreases hay.len() - at,
    {
        if chars_at(&hay, &needle, at) {
            return true;
        }
        at += 1;
    }
    chars_at(&hay, &needle, at)
}

/// The first position from `at` on where `part` stands in `s`; none where it
/// does not.
pub open spec fn first_at(s: Seq<char>, part: Seq<char>, at: int) -> Option<int>
    decreases s.len() + 1 - at,
{
    if at < 0 || at > s.len() {
        None
    } else if occurs_at(s, part, at) {
        Some(at)
    } else {
        first_at(s, part, at + 1)
    }
}

/// The two sides of the first `part` in `s`; none where it does not occur.
pub open spec fn split_at(s: Seq<char>, part: Seq<char>) -> Option<(Seq<char>, Seq<char>)> {
    match first_at(s, part, 0) {
        Some(at) => Some(
            (s.subrange(0, at), s.subrange(at + part.len(), s.len() as int)),
        ),
        None => None,
    }
}

/// The two sides of the first `part` in `s`.
pub fn split_once(s: &str, part: &str) -> (r: Option<(String, String)>)
    ensures
        opt(r) == split_at(s@, part@),
{
    let hay: Vec<char> = to_chars(s);
    let needle: Vec<char> = to_chars(part);
    let n: usize = hay.len();
    let mut at: usize = 0;
    while at < n
        invariant
            hay@ == s@,
            needle@ == part@,
            n == hay.len(),
            at <= n,
            first_at(s@, part@, at as int) == first_at(s@, part@, 0),
        decreases n - at,
    {
        if chars_at(&hay, &needle, at) {
            return Some((from_range(&hay, 0, at), from_range(&hay, at + needle.len(), n)));
        }
        at += 1;
    }
    proof {
        assert(first_at(s@, part@, n + 1) is None);
    }
    if chars_at(&hay, &needle, at) {
        Some((from_range(&hay, 0, at), from_range(&hay, at + needle.len(), n)))
    } else {
        None
    }
}

/// Does `s` begin with `prefix`?
pub fn starts_with(s: &str, prefix: &str) -> (r: bool)
    ensures
        r == prefix@.is_prefix_of(s@),
{
    let text: Vec<char> = to_chars(s);
    let head: Vec<char> = to_chars(prefix);
    let r: bool = chars_at(&text, &head, 0);
    proof {
        assert(occurs_at(s@, prefix@, 0) == prefix@.is_prefix_of(s@));
    }
    r
}

/// Does `s` end with `suffix`?
pub fn ends_with(s: &str, suffix: &str) -> (r: bool)
    ensures
        r == suffix@.is_suffix_of(s@),
{
    let text: Vec<char> = to_chars(s);
    let tail: Vec<char> = to_chars(suffix);
    if tail.len() > text.len() {
        return false;
    }
    let at: usize = text.len() - tail.len();
    let r: bool = chars_at(&text, &tail, at);
    proof {
        assert(occurs_at(s@, suffix@, at as int) == suffix@.is_suffix_of(s@)) by {
            assert(s@.subrange(at as int, at + suffix@.len()) =~= s@.subrange(
                (s@.len() - suffix@.len()) as int,
                s@.len() as int,
            ));
        }
    }
    r
}

/// What is left of `s` behind `prefix`, where `s` begins with it.
pub open spec fn after_prefix(s: Seq<char>, prefix: Seq<char>) -> Option<Seq<char>> {
    if prefix.is_prefix_of(s) {
        Some(s.skip(prefix.len() as int))
    } else {
        None
    }
}

/// What is left of `s` behind `prefix`, where `s` begins with it.
pub fn strip_prefix(s: &str, prefix: &str) -> (r: Option<String>)
    ensures
        opt(r) == after_prefix(s@, prefix@),
{
    let text: Vec<char> = to_chars(s);
    let head: Vec<char> = to_chars(prefix);
    if chars_at(&text, &head, 0) {
        let rest: String = from_range(&text, head.len(), text.len());
        proof {
            assert(prefix@.is_prefix_of(s@));
            assert(rest@ =~= s@.skip(prefix@.len() as int));
        }
        Some(rest)
    } else {
        proof {
            assert(occurs_at(s@, prefix@, 0) == prefix@.is_prefix_of(s@));
        }
        None
    }
}

/// The characters with the Unicode property White_Space.
pub open spec fn white(c: char) -> bool {
    let n = c as u32;
    ||| 9 <= n <= 13
    ||| n == 32
    ||| n == 0x85
    ||| n == 0xa0
    ||| n == 0x1680
    ||| 0x2000 <= n <= 0x200a
    ||| n == 0x2028
    ||| n == 0x2029
    ||| n == 0x202f
    ||| n == 0x205f
    ||| n == 0x3000
}

/// Is `c` white space?
pub fn is_white(c: char) -> (r: bool)
    ensures
        r == white(c),
{
    let n: u32 = c as u32;
    (9 <= n && n <= 13) || n == 32 || n == 0x85 || n == 0xa0 || n == 0x1680 || (0x2000 <= n && n
        <= 0x200a) || n == 0x2028 || n == 0x2029 || n == 0x202f || n == 0x205f || n == 0x3000
}

/// An ASCII digit.
pub open spec fn digit(c: char) -> bool {
    '0' <= c <= '9'
}

/// An ASCII letter or digit.
pub open spec fn alnum(c: char) -> bool {
    digit(c) || 'a' <= c <= 'z' || 'A' <= c <= 'Z'
}

/// Is `c` an ASCII letter or digit?
pub fn is_alnum(c: char) -> (r: bool)
    ensures
        r == alnum(c),
{
    ('0' <= c && c <= '9') || ('a' <= c && c <= 'z') || ('A' <= c && c <= 'Z')
}

/// What separates the fields of a line.
#[derive(Clone, Copy)]
pub enum Separator {
    /// One given character.
    Char(char),
    /// Any white space.
    White,
    /// Anything but an ASCII letter or digit.
    NotAlnum,
}

/// Does `c` separate fields?
pub open spec fn separates(sep: Separator, c: char) -> bool {
    match sep {
        Separator::Char(d) => c == d,
        Separator::White => white(c),
        Separator::NotAlnum => !alnum(c),
    }
}

/// Does `c` separate fields?
pub fn is_separator(sep: Separator, c: char) -> (r: bool)
    ensures
        r == separates(sep, c),
{
    match sep {
        Separator::Char(d) => c == d,
        Separator::White => is_white(c),
        Separator::NotAlnum => !is_alnum(c),
    }
}

/// `out` with `field` behind it, unless `field` is empty and empty fields do
/// not count.
pub open spec fn put_field(
    out: Seq<Seq<char>>,
    field: Seq<char>,
    keep_empty: bool,
) -> Seq<Seq<char>> {
    if field.len() == 0 && !keep_empty {
        out
    } else {
        out.push(field)
    }
}

/// The fields of `s` from position `i` on, behind those in `out`, where
/// `field` has been read of the current one.
pub open spec fn fields_from(
    s: Seq<char>,
    sep: Separator,
    keep_empty: bool,
    i: int,
    field: Seq<char>,
    out: Seq<Seq<char>>,
) -> Seq<Seq<char>>
    decreases s.len() - i,
{
    if i < 0 || i >= s.len() {
        put_field(out, field, keep_empty)
    } else if separates(sep, s[i]) {
        fields_from(s, sep, keep_empty, i + 1, Seq::empty(), put_field(out, field, keep_empty))
    } else {
        fields_from(s, sep, keep_empty, i + 1, field.push(s[i]), out)
    }
}

/// The fields of `s` between separators.
pub open spec fn fields(s: Seq<char>, sep: Separator, keep_empty: bool) -> Seq<Seq<char>> {
    fields_from(s, sep, keep_empty, 0, Seq::empty(), Seq::empty())
}

/// The fields of `s` between separators.
pub fn split(s: &str, sep: Separator, keep_empty: bool) -> (r: Vec<String>)
    ensures
        deep(r@) == fields(s@, sep, keep_empty),
{
    broadcast use group_deep;

    let text: Vec<char> = to_chars(s);
    let mut out: Vec<String> = Vec::new();
    let mut field: String = String::new();
    let mut i: usize = 0;
    while i < text.len()
        invariant
            i <= text.len(),
            text@ == s@,
            fields_from(s@, sep, keep_empty, i as int, field@, deep(out@)) == fields(
                s@,
                sep,
                keep_empty,
            ),
        decreases text.len() - i,
    {
        if is_separator(sep, text[i]) {
            let ghost before = out@;
            if keep_empty || !field.as_str().is_empty() {
                out.push(field);
                proof {
                    deep_push(before, field);
                }
            }
            field = String::new();
        } else {
            field.push(text[i]);
        }
        i += 1;
    }
    if keep_empty || !field.as_str().is_empty() {
        out.push(field);
    }
    out
}

/// The position of the first character of `s` that is no white space, from
/// `i` on; the length of `s` if there is none.
pub open spec fn first_solid(s: Seq<char>, i: int) -> int
    decreases s.len() - i,
{
    if i < 0 || i >= s.len() || !white(s[i]) {
        i
    } else {
        first_solid(s, i + 1)
    }
}

/// The position behind the last character of `s` before `i` that is no white
/// space; 0 if there is none.
pub open spec fn last_solid(s: Seq<char>, i: int) -> int
    decreases i,
{
    if i <= 0 || i > s.len() || !white(s[i - 1]) {
        i
    } else {
        last_solid(s, i - 1)
    }
}

/// `s` without the white space at its end.
pub open spec fn trimmed_end(s: Seq<char>) -> Seq<char> {
    s.take(last_solid(s, s.len() as int))
}

/// `s` without the white space at its beginning.
pub open spec fn trimmed_start(s: Seq<char>) -> Seq<char> {
    s.skip(first_solid(s, 0))
}

/// `s` without the white space around it.
pub open spec fn trimmed(s: Seq<char>) -> Seq<char> {
    trimmed_start(trimmed_end(s))
}

pub proof fn first_solid_range(s: Seq<char>, i: int)
    requires
        0 <= i <= s.len(),
    ensures
        i <= first_solid(s, i) <= s.len(),
    decreases s.len() - i,
{
    if i < s.len() && white(s[i]) {
        first_solid_range(s, i + 1);
    }
}

pub proof fn last_solid_range(s: Seq<char>, i: int)
    requires
        0 <= i <= s.len(),
    ensures
        0 <= last_solid(s, i) <= i,
    decreases i,
{
    if i > 0 && white(s[i - 1]) {
        last_solid_range(s, i - 1);
    }
}

/// `s` without the white space at its end.
pub fn trim_end(s: &str) -> (r: String)
    ensures
        r@ == trimmed_end(s@),
{
    let text: Vec<char> = to_chars(s);
    let mut end: usize = text.len();
    while end > 0 && is_white(text[end - 1])
        invariant
            end <= text.len(),
            text@ == s@,
            last_solid(s@, end as int) == last_solid(s@, s@.len() as int),
        decreases end,
    {
        end -= 1;
    }
    from_range(&text, 0, end)
}

/// `s` without the white space at its beginning.
pub fn trim_start(s: &str) -> (r: String)
    ensures
        r@ == trimmed_start(s@),
{
    let text: Vec<char> = to_chars(s);
    let mut at: usize = 0;
    while at < text.len() && is_white(text[at])
        invariant
            at <= text.len(),
            text@ == s@,
            first_solid(s@, at as int) == first_solid(s@, 0),
        decreases text.len() - at,
    {
        at += 1;
    }
    from_range(&text, at, text.len())
}

/// `s` without the white space around it.
pub fn trim(s: &str) -> (r: String)
    ensures
        r@ == trimmed(s@),
{
    let t: String = trim_end(s);
    trim_start(t.as_str())
}

/// A line without the carriage return that stands before its line feed.
pub open spec fn without_return(line: Seq<char>) -> Seq<char> {
    if line.len() > 0 && line.last() == '\r' {
        line.drop_last()
    } else {
        line
    }
}

/// The lines of `s` from position `i` on, behind those in `out`, where `line`
/// has been read of the current one.
pub open spec fn lines_from(
    s: Seq<char>,
    i: int,
    line: Seq<char>,
    out: Seq<Seq<char>>,
) -> Seq<Seq<char>>
    decreases s.len() - i,
{
    if i < 0 || i >= s.len() {
        put_field(out, line, false)
    } else if s[i] == '\n' {
        lines_from(s, i + 1, Seq::empty(), out.push(without_return(line)))
    } else {
        lines_from(s, i + 1, line.push(s[i]), out)
    }
}

/// The lines of a text: each ends with a line feed, or a carriage return and
/// a line feed, or with the text.
pub open spec fn lines_of(s: Seq<char>) -> Seq<Seq<char>> {
    lines_from(s, 0, Seq::empty(), Seq::empty())
}

/// The lines of a text, without their line ends.
pub fn lines(s: &str) -> (r: Vec<String>)
    ensures
        deep(r@) == lines_of(s@),
{
    broadcast use group_deep;

    let text: Vec<char> = to_chars(s);
    let mut out: Vec<String> = Vec::new();
    let mut start: usize = 0;
    let mut i: usize = 0;
    proof {
        assert(s@.subrange(0, 0) =~= Seq::empty());
    }
    while i < text.len()
        invariant
            start <= i <= text.len(),
            text@ == s@,
            lines_from(s@, i as int, s@.subrange(start as int, i as int), deep(out@)) == lines_of(s@),
        decreases text.len() - i,
    {
        if text[i] == '\n' {
            let ghost line = s@.subrange(start as int, i as int);
            let end: usize = if i > start && text[i - 1] == '\r' {
                i - 1
            } else {
                i
            };
            let next: String = from_range(&text, start, end);
            proof {
                assert(next@ =~= without_return(line));
                assert(s@.subrange(i + 1, i + 1) =~= Seq::empty());
            }
            proof {
                deep_push(out@, next);
            }
            out.push(next);
            start = i + 1;
        } else {
            proof {
                assert(s@.subrange(start as int, i + 1) =~= s@.subrange(start as int, i as int).push(
                    s@[i as int],
                ));
            }
        }
        i += 1;
    }
    if start < i {
        out.push(from_range(&text, start, i));
    }
    out
}

/// The parts with `sep` between each two.
pub open spec fn joined(parts: Seq<Seq<char>>, sep: Seq<char>) -> Seq<char>
    decreases parts.len(),
{
    if parts.len() == 0 {
        Seq::empty()
    } else if parts.len() == 1 {
        parts[0]
    } else {
        joined(parts.drop_last(), sep) + sep + parts.last()
    }
}

/// The parts with `sep` between each two.
pub fn join(parts: &Vec<String>, sep: &str) -> (r: String)
    ensures
        r@ == joined(deep(parts@), sep@),
{
    let mut out: String = String::new();
    let mut i: usize = 0;
    while i < parts.len()
        invariant
            i <= parts.len(),
            out@ == joined(deep(parts@).take(i as int), sep@),
        decreases parts.len() - i,
    {
        proof {
            let upto = deep(parts@).take(i + 1);
            assert(upto.drop_last() =~= deep(parts@).take(i as int));
            assert(upto.last() == parts@[i as int]@);
        }
        if i > 0 {
            out.append(sep);
        }
        out.append(parts[i].as_str());
        i += 1;
    }
    proof {
        assert(deep(parts@).take(parts@.len() as int) =~= deep(parts@));
    }
    out
}

/// Alphabetical order, by code point, from position `i` on.
pub open spec fn less_from(a: Seq<char>, b: Seq<char>, i: int) -> bool
    decreases a.len() - i,
{
    if i < 0 || i >= b.len() {
        false
    } else if i >= a.len() {
        true
    } else if a[i] != b[i] {
        a[i] < b[i]
    } else {
        less_from(a, b, i + 1)
    }
}

/// Alphabetical order, by code point.
pub open spec fn less(a: Seq<char>, b: Seq<char>) -> bool {
    less_from(a, b, 0)
}

proof fn less_from_total(a: Seq<char>, b: Seq<char>, i: int)
    requires
        0 <= i,
        i <= a.len(),
        i <= b.len(),
        forall|j: int| 0 <= j < i ==> a[j] == b[j],
    ensures
        less_from(a, b, i) || less_from(b, a, i) || a == b,
        !(less_from(a, b, i) && less_from(b, a, i)),
        a == b ==> !less_from(a, b, i),
    decreases a.len() - i,
{
    if i < a.len() && i < b.len() && a[i] == b[i] {
        less_from_total(a, b, i + 1);
    } else if i >= a.len() && i >= b.len() {
        assert(a =~= b);
    }
}

/// Of two different texts exactly one stands before the other, and none before
/// itself.
pub proof fn law_order_is_total(a: Seq<char>, b: Seq<char>)
    ensures
        less(a, b) || less(b, a) || a == b,
        !(less(a, b) && less(b, a)),
        a == b ==> !less(a, b),
{
    less_from_total(a, b, 0);
}

proof fn less_from_transitive(a: Seq<char>, b: Seq<char>, c: Seq<char>, i: int)
    requires
        0 <= i,
        less_from(a, b, i),
        less_from(b, c, i),
    ensures
        less_from(a, c, i),
    decreases a.len() - i,
{
    if i < a.len() && i < b.len() && i < c.len() && a[i] == b[i] && b[i] == c[i] {
        less_from_transitive(a, b, c, i + 1);
    }
}

/// What stands before a text stands before all that follow it.
pub proof fn law_order_is_transitive(a: Seq<char>, b: Seq<char>, c: Seq<char>)
    requires
        less(a, b),
        less(b, c),
    ensures
        less(a, c),
{
    less_from_transitive(a, b, c, 0);
}

/// Does `a` stand before `b` in alphabetical order?
pub fn is_less(a: &str, b: &str) -> (r: bool)
    ensures
        r == less(a@, b@),
{
    let x: Vec<char> = to_chars(a);
    let y: Vec<char> = to_chars(b);
    let mut i: usize = 0;
    while i < x.len() && i < y.len() && x[i] == y[i]
        invariant
            i <= x.len(),
            i <= y.len(),
            x@ == a@,
            y@ == b@,
            less_from(a@, b@, i as int) == less(a@, b@),
        decreases x.len() - i,
    {
        i += 1;
    }
    if i >= y.len() {
        false
    } else if i >= x.len() {
        true
    } else {
        x[i] < y[i]
    }
}

/// Is `s` one of `list`?
pub fn is_in(list: &Vec<String>, s: &str) -> (r: bool)
    ensures
        r == deep(list@).contains(s@),
{
    let mut i: usize = 0;
    while i < list.len()
        invariant
            i <= list.len(),
            forall|j: int| 0 <= j < i ==> deep(list@)[j] != s@,
        decreases list.len() - i,
    {
        if same(list[i].as_str(), s) {
            proof {
                assert(deep(list@)[i as int] == s@);
            }
            return true;
        }
        i += 1;
    }
    false
}

/// A list with the same strings.
pub fn copy_list(list: &Vec<String>) -> (r: Vec<String>)
    ensures
        deep(r@) == deep(list@),
{
    let mut out: Vec<String> = Vec::new();
    let mut i: usize = 0;
    while i < list.len()
        invariant
            i <= list.len(),
            out.len() == i,
            forall|j: int| 0 <= j < i ==> out@[j]@ == list@[j]@,
        decreases list.len() - i,
    {
        out.push(list[i].clone());
        i += 1;
    }
    proof {
        assert(deep(out@) =~= deep(list@));
    }
    out
}

/// Puts the strings of `more` behind those of `list`.
pub fn extend(list: &mut Vec<String>, more: &Vec<String>)
    ensures
        deep(final(list)@) == deep(old(list)@) + deep(more@),
{
    let mut i: usize = 0;
    while i < more.len()
        invariant
            i <= more.len(),
            deep(list@) == deep(old(list)@) + deep(more@).take(i as int),
        decreases more.len() - i,
    {
        proof {
            assert(deep(more@).take(i + 1) =~= deep(more@).take(i as int).push(more@[i as int]@));
        }
        let ghost before = list@;
        list.push(more[i].clone());
        proof {
            deep_push(before, more@[i as int]);
            assert(deep(list@) =~= deep(old(list)@) + deep(more@).take(i + 1));
        }
        i += 1;
    }
    proof {
        assert(deep(more@).take(more@.len() as int) =~= deep(more@));
    }
}

/// The fields of a string are never none.
pub proof fn fields_nonempty(s: Seq<char>, i: int, field: Seq<char>, out: Seq<Seq<char>>, c: char)
    requires
        0 <= i <= s.len(),
    ensures
        fields_from(s, Separator::Char(c), true, i, field, out).len() > 0,
    decreases s.len() - i,
{
    reveal_with_fuel(fields_from, 2);
    if i < s.len() {
        if separates(Separator::Char(c), s[i]) {
            fields_nonempty(s, i + 1, Seq::empty(), put_field(out, field, true), c);
        } else {
            fields_nonempty(s, i + 1, field.push(s[i]), out, c);
        }
    }
}

/// The number `n` in decimal.
pub open spec fn decimal_of(n: nat) -> Seq<char>
    decreases n,
{
    if n < 10 {
        seq![digit_of(n)]
    } else {
        decimal_of(n / 10).push(digit_of(n % 10))
    }
}

/// The digit of a number below ten.
pub open spec fn digit_of(n: nat) -> char {
    if n == 0 {
        '0'
    } else if n == 1 {
        '1'
    } else if n == 2 {
        '2'
    } else if n == 3 {
        '3'
    } else if n == 4 {
        '4'
    } else if n == 5 {
        '5'
    } else if n == 6 {
        '6'
    } else if n == 7 {
        '7'
    } else if n == 8 {
        '8'
    } else {
        '9'
    }
}

pub fn to_digit(n: usize) -> (r: char)
    requires
        n < 10,
    ensures
        r == digit_of(n as nat),
{
    if n == 0 {
        '0'
    } else if n == 1 {
        '1'
    } else if n == 2 {
        '2'
    } else if n == 3 {
        '3'
    } else if n == 4 {
        '4'
    } else if n == 5 {
        '5'
    } else if n == 6 {
        '6'
    } else if n == 7 {
        '7'
    } else if n == 8 {
        '8'
    } else {
        '9'
    }
}

/// The number `n` in decimal.
pub fn decimal(n: usize) -> (r: String)
    ensures
        r@ == decimal_of(n as nat),
    decreases n,
{
    let mut out: String = if n < 10 {
        String::new()
    } else {
        decimal(n / 10)
    };
    out.push(to_digit(n % 10));
    proof {
        if n < 10 {
            assert(out@ =~= seq![digit_of(n as nat)]);
        }
    }
    out
}


/// What is left of a text without the white space around it begins and ends
/// with no white space, and nothing more can be taken off.
pub proof fn law_trimmed_is_solid(s: Seq<char>)
    requires
        trimmed(s).len() > 0,
    ensures
        !white(trimmed(s)[0]),
        !white(trimmed(s).last()),
        trimmed(trimmed(s)) == trimmed(s),
{
    let n = s.len() as int;
    last_solid_range(s, n);
    last_solid_stops(s, n);
    let cut = trimmed_end(s);
    first_solid_range(cut, 0);
    let t = trimmed(s);
    assert(t.last() == cut.last());
    assert(cut.last() == s[last_solid(s, n) - 1]);
    assert(last_solid(t, t.len() as int) == t.len());
    assert(trimmed_end(t) =~= t);
    first_solid_stops(cut, 0);
    assert(t[0] == cut[first_solid(cut, 0)]);
    assert(first_solid(t, 0) == 0);
    assert(trimmed(t) =~= t);
}

proof fn last_solid_stops(s: Seq<char>, i: int)
    requires
        0 <= i <= s.len(),
    ensures
        last_solid(s, i) > 0 ==> !white(s[last_solid(s, i) - 1]),
    decreases i,
{
    if i > 0 && white(s[i - 1]) {
        last_solid_stops(s, i - 1);
    }
}

proof fn first_solid_stops(s: Seq<char>, i: int)
    requires
        0 <= i <= s.len(),
    ensures
        first_solid(s, i) < s.len() ==> !white(s[first_solid(s, i)]),
    decreases s.len() - i,
{
    if i < s.len() && white(s[i]) {
        first_solid_stops(s, i + 1);
    }
}

/// Joining the fields of a text gives the text back.
pub proof fn law_join_undoes_split(s: Seq<char>, c: char)
    ensures
        joined(fields(s, Separator::Char(c), true), seq![c]) == s,
{
    join_fields(s, c, 0, Seq::empty(), Seq::empty());
    assert(s.skip(0) =~= s);
    assert(Seq::<char>::empty() + s =~= s);
}

proof fn join_fields(s: Seq<char>, c: char, i: int, field: Seq<char>, out: Seq<Seq<char>>)
    requires
        0 <= i <= s.len(),
    ensures
        joined(fields_from(s, Separator::Char(c), true, i, field, out), seq![c]) == joined(
            out.push(field),
            seq![c],
        ) + s.skip(i),
    decreases s.len() - i,
{
    let sep = seq![c];
    let whole = out.push(field);
    assert(whole.drop_last() =~= out);
    if i < s.len() {
        assert(s.skip(i) =~= seq![s[i]] + s.skip(i + 1));
        if s[i] == c {
            join_fields(s, c, i + 1, Seq::empty(), whole);
            let next = whole.push(Seq::<char>::empty());
            assert(next.drop_last() =~= whole);
            assert(joined(next, sep) =~= joined(whole, sep) + sep);
            assert(joined(next, sep) + s.skip(i + 1) =~= joined(whole, sep) + s.skip(i));
        } else {
            join_fields(s, c, i + 1, field.push(s[i]), out);
            let next = out.push(field.push(s[i]));
            assert(next.drop_last() =~= out);
            assert(joined(next, sep) =~= joined(whole, sep).push(s[i]));
            assert(joined(next, sep) + s.skip(i + 1) =~= joined(whole, sep) + s.skip(i));
        }
    } else {
        assert(s.skip(i) =~= Seq::empty());
        assert(joined(whole, sep) + s.skip(i) =~= joined(whole, sep));
    }
}

/// Splitting a text that was joined gives its parts back, unless one of them
/// holds the separator.
pub proof fn law_split_undoes_join(parts: Seq<Seq<char>>, c: char)
    requires
        parts.len() > 0,
        forall|i: int| 0 <= i < parts.len() ==> !(#[trigger] parts[i]).contains(c),
    ensures
        fields(joined(parts, seq![c]), Separator::Char(c), true) == parts,
    decreases parts.len(),
{
    let sep = Separator::Char(c);
    let whole = joined(parts, seq![c]);
    let last = parts.last();
    assert(!parts[parts.len() - 1].contains(c));
    if parts.len() == 1 {
        assert forall|j: int| 0 <= j < whole.len() implies whole[j] != c by {
            assert(last.contains(last[j]));
        }
        last_field(whole, c, 0, 0, Seq::empty());
        assert(whole.subrange(0, 0) =~= Seq::empty());
        assert(whole.subrange(0, whole.len() as int) =~= last);
        assert(Seq::<Seq<char>>::empty().push(last) =~= parts);
    } else {
        let front = parts.drop_last();
        let head = joined(front, seq![c]);
        let n = head.len() as int;
        assert forall|i: int| 0 <= i < front.len() implies !(#[trigger] front[i]).contains(c) by {
            assert(!parts[i].contains(c));
        }
        law_split_undoes_join(front, c);
        assert(whole == head + seq![c] + last);
        assert(whole.take(n) =~= head);
        fields_of_front(head, whole, c, 0, Seq::empty(), Seq::empty());
        assert forall|j: int| n + 1 <= j < whole.len() implies whole[j] != c by {
            assert(whole[j] == last[j - n - 1]);
            assert(last.contains(last[j - n - 1]));
        }
        last_field(whole, c, n + 1, n + 1, front);
        assert(whole.subrange(n + 1, n + 1) =~= Seq::empty());
        assert(whole.subrange(n + 1, whole.len() as int) =~= last);
        assert(front.push(last) =~= parts);
    }
}

proof fn last_field(s: Seq<char>, c: char, start: int, i: int, out: Seq<Seq<char>>)
    requires
        0 <= start <= i <= s.len(),
        forall|j: int| start <= j < s.len() ==> s[j] != c,
    ensures
        fields_from(s, Separator::Char(c), true, i, s.subrange(start, i), out) == out.push(
            s.subrange(start, s.len() as int),
        ),
    decreases s.len() - i,
{
    if i < s.len() {
        assert(s.subrange(start, i + 1) =~= s.subrange(start, i).push(s[i]));
        last_field(s, c, start, i + 1, out);
    }
}

proof fn fields_of_front(
    head: Seq<char>,
    s: Seq<char>,
    c: char,
    i: int,
    field: Seq<char>,
    out: Seq<Seq<char>>,
)
    requires
        0 <= i <= head.len() < s.len(),
        s.take(head.len() as int) == head,
        s[head.len() as int] == c,
    ensures
        fields_from(s, Separator::Char(c), true, i, field, out) == fields_from(
            s,
            Separator::Char(c),
            true,
            head.len() as int + 1,
            Seq::empty(),
            fields_from(head, Separator::Char(c), true, i, field, out),
        ),
    decreases head.len() - i,
{
    if i < head.len() {
        assert(s.take(head.len() as int)[i] == head[i]);
        if head[i] == c {
            fields_of_front(head, s, c, i + 1, Seq::empty(), put_field(out, field, true));
        } else {
            fields_of_front(head, s, c, i + 1, field.push(head[i]), out);
        }
    }
}

/// Is it made of whole lines: is it empty, or does it end with a line feed?
pub open spec fn whole_lines(s: Seq<char>) -> bool {
    s.len() == 0 || s.last() == '\n'
}

/// The lines of whole lines with more text behind them are the lines of the
/// two.
pub proof fn law_lines_add_up(a: Seq<char>, b: Seq<char>)
    requires
        whole_lines(a),
    ensures
        lines_of(a + b) == lines_of(a) + lines_of(b),
{
    let s = a + b;
    assert(s.take(a.len() as int) =~= a);
    assert(s.skip(a.len() as int) =~= b);
    lines_of_front(a, s, 0, Seq::empty(), Seq::empty());
    lines_of_back(s, a.len() as int, b, 0, Seq::empty(), lines_of(a));
}

/// A line with its line feed behind it is one line.
pub proof fn law_line_is_one(line: Seq<char>)
    requires
        !line.contains('\n'),
    ensures
        lines_of(line.push('\n')) == seq![without_return(line)],
        lines_of(line) == (if line.len() == 0 {
            Seq::empty()
        } else {
            seq![line]
        }),
{
    assert(line.take(0) =~= Seq::empty());
    line_is_read(line, line.push('\n'), 0);
    line_is_read(line, line, 0);
}

/// The carriage return of a line is white space at its end.
pub proof fn law_return_is_trimmed(line: Seq<char>)
    ensures
        trimmed(without_return(line)) == trimmed(line),
{
    if line.len() > 0 && line.last() == '\r' {
        let cut = line.drop_last();
        let n = cut.len() as int;
        last_solid_of_front(line, cut, n);
        last_solid_range(cut, n);
        assert(trimmed_end(line) =~= trimmed_end(cut));
    }
}

/// Is it blank?
pub open spec fn blank(s: Seq<char>) -> bool {
    forall|i: int| 0 <= i < s.len() ==> white(#[trigger] s[i])
}

/// Are the texts blank?
pub open spec fn all_blank(list: Seq<Seq<char>>) -> bool {
    forall|i: int| 0 <= i < list.len() ==> blank(#[trigger] list[i])
}

/// Nothing is left of a blank text without its white space, and of no other
/// text.
pub proof fn law_blank_is_trimmed_away(s: Seq<char>)
    ensures
        trimmed(s).len() == 0 <==> blank(s),
{
    let n = s.len() as int;
    last_solid_range(s, n);
    let cut = trimmed_end(s);
    first_solid_range(cut, 0);
    if blank(s) {
        last_solid_of_blank(s, n);
    } else {
        let at = choose|i: int| 0 <= i < s.len() && !white(#[trigger] s[i]);
        last_solid_is_behind(s, n, at);
        assert(cut[at] == s[at]);
        first_solid_is_before(cut, 0, at);
    }
}

/// The lines of a blank text are blank.
pub proof fn law_lines_of_blank_are_blank(s: Seq<char>)
    requires
        blank(s),
    ensures
        all_blank(lines_of(s)),
{
    blank_lines(s, 0, Seq::empty(), Seq::empty());
}

proof fn lines_of_front(
    a: Seq<char>,
    s: Seq<char>,
    i: int,
    line: Seq<char>,
    out: Seq<Seq<char>>,
)
    requires
        0 <= i <= a.len() <= s.len(),
        whole_lines(a),
        s.take(a.len() as int) == a,
        i == a.len() ==> line.len() == 0,
    ensures
        lines_from(s, i, line, out) == lines_from(
            s,
            a.len() as int,
            Seq::empty(),
            lines_from(a, i, line, out),
        ),
    decreases a.len() - i,
{
    if i < a.len() {
        assert(s.take(a.len() as int)[i] == a[i]);
        if a[i] == '\n' {
            lines_of_front(a, s, i + 1, Seq::empty(), out.push(without_return(line)));
        } else {
            lines_of_front(a, s, i + 1, line.push(a[i]), out);
        }
    } else {
        assert(line =~= Seq::empty());
    }
}

proof fn lines_of_back(
    s: Seq<char>,
    n: int,
    b: Seq<char>,
    i: int,
    line: Seq<char>,
    out: Seq<Seq<char>>,
)
    requires
        0 <= n <= s.len(),
        s.skip(n) == b,
        0 <= i <= b.len(),
    ensures
        lines_from(s, n + i, line, out) == out + lines_from(b, i, line, Seq::empty()),
    decreases b.len() - i, 0int,
{
    if i < b.len() {
        assert(s.skip(n)[i] == s[n + i]);
        if b[i] == '\n' {
            let one = without_return(line);
            lines_of_back(s, n, b, i + 1, Seq::empty(), out.push(one));
            lines_behind(b, i + 1, Seq::empty(), seq![one]);
            assert(Seq::<Seq<char>>::empty().push(one) =~= seq![one]);
            assert(out.push(one) + lines_from(b, i + 1, Seq::empty(), Seq::empty()) =~= out + (
            seq![one] + lines_from(b, i + 1, Seq::empty(), Seq::empty())));
        } else {
            lines_of_back(s, n, b, i + 1, line.push(b[i]), out);
        }
    } else {
        assert(put_field(out, line, false) =~= out + put_field(Seq::empty(), line, false));
    }
}

proof fn lines_behind(b: Seq<char>, i: int, line: Seq<char>, out: Seq<Seq<char>>)
    requires
        0 <= i <= b.len(),
    ensures
        lines_from(b, i, line, out) == out + lines_from(b, i, line, Seq::empty()),
    decreases b.len() - i, 1int,
{
    assert(b.skip(0) =~= b);
    lines_of_back(b, 0, b, i, line, out);
}

proof fn line_is_read(line: Seq<char>, s: Seq<char>, i: int)
    requires
        0 <= i <= line.len(),
        !line.contains('\n'),
        s == line || s == line.push('\n'),
    ensures
        lines_from(s, i, line.take(i), Seq::empty()) == (if s.len() > line.len() {
            seq![without_return(line)]
        } else if line.len() == 0 {
            Seq::empty()
        } else {
            seq![line]
        }),
    decreases line.len() - i,
{
    if i < line.len() {
        assert(line.contains(line[i]));
        assert(line.take(i + 1) =~= line.take(i).push(line[i]));
        line_is_read(line, s, i + 1);
    } else {
        assert(line.take(i) =~= line);
        if s.len() > line.len() {
            let one = Seq::<Seq<char>>::empty().push(without_return(line));
            assert(one =~= seq![without_return(line)]);
            assert(lines_from(s, i + 1, Seq::empty(), one) == one);
        } else {
            assert(Seq::<Seq<char>>::empty().push(line) =~= seq![line]);
        }
    }
}

proof fn last_solid_of_front(s: Seq<char>, front: Seq<char>, i: int)
    requires
        0 <= i <= front.len() <= s.len(),
        s.take(front.len() as int) == front,
    ensures
        last_solid(s, i) == last_solid(front, i),
    decreases i,
{
    if i > 0 {
        assert(s.take(front.len() as int)[i - 1] == front[i - 1]);
        if white(front[i - 1]) {
            last_solid_of_front(s, front, i - 1);
        }
    }
}

proof fn last_solid_of_blank(s: Seq<char>, i: int)
    requires
        0 <= i <= s.len(),
        blank(s),
    ensures
        last_solid(s, i) == 0,
    decreases i,
{
    if i > 0 {
        assert(white(s[i - 1]));
        last_solid_of_blank(s, i - 1);
    }
}

proof fn last_solid_is_behind(s: Seq<char>, i: int, at: int)
    requires
        0 <= at < i <= s.len(),
        !white(s[at]),
    ensures
        at < last_solid(s, i),
    decreases i,
{
    if white(s[i - 1]) {
        last_solid_is_behind(s, i - 1, at);
    }
}

proof fn first_solid_is_before(s: Seq<char>, i: int, at: int)
    requires
        0 <= i <= at < s.len(),
        !white(s[at]),
    ensures
        first_solid(s, i) <= at,
    decreases at - i,
{
    if white(s[i]) {
        first_solid_is_before(s, i + 1, at);
    }
}

proof fn blank_lines(s: Seq<char>, i: int, line: Seq<char>, out: Seq<Seq<char>>)
    requires
        0 <= i <= s.len(),
        blank(s),
        blank(line),
        all_blank(out),
    ensures
        all_blank(lines_from(s, i, line, out)),
    decreases s.len() - i,
{
    if i < s.len() {
        assert(white(s[i]));
        if s[i] == '\n' {
            let one = without_return(line);
            assert(blank(one)) by {
                assert forall|j: int| 0 <= j < one.len() implies white(#[trigger] one[j]) by {
                    assert(white(line[j]));
                }
            }
            blank_lines(s, i + 1, Seq::empty(), out.push(one));
        } else {
            blank_lines(s, i + 1, line.push(s[i]), out);
        }
    }
}

/// A number in decimal is made of digits, and begins with a zero only where it is
/// zero.
pub proof fn law_decimal_is_digits(n: nat)
    ensures
        decimal_of(n).len() > 0,
        forall|i: int| 0 <= i < decimal_of(n).len() ==> digit(#[trigger] decimal_of(n)[i]),
        decimal_of(n)[0] == '0' <==> n == 0,
    decreases n,
{
    if n >= 10 {
        law_decimal_is_digits(n / 10);
    }
}

/// The fields of a text are those before and those behind a separator.
pub proof fn law_fields_add_up(a: Seq<char>, c: char, b: Seq<char>, keep_empty: bool)
    ensures
        fields(a.push(c) + b, Separator::Char(c), keep_empty) == fields(
            a,
            Separator::Char(c),
            keep_empty,
        ) + fields(b, Separator::Char(c), keep_empty),
{
    law_all_fields_add_up(a, c, b, Separator::Char(c), keep_empty);
}

/// The fields of a text are those before and those behind a separator, of any
/// kind.
pub proof fn law_all_fields_add_up(
    a: Seq<char>,
    c: char,
    b: Seq<char>,
    sep: Separator,
    keep_empty: bool,
)
    requires
        separates(sep, c),
    ensures
        fields(a.push(c) + b, sep, keep_empty) == fields(a, sep, keep_empty) + fields(
            b,
            sep,
            keep_empty,
        ),
{
    let s = a.push(c) + b;
    let n = a.len() as int + 1;
    front_fields(a, c, s, sep, keep_empty, 0, Seq::empty(), Seq::empty());
    back_fields(s, n, b, sep, keep_empty, 0, Seq::empty(), fields(a, sep, keep_empty));
}

/// A text without a separator is one field; an empty one is a field only where
/// empty fields are kept.
pub proof fn law_field_is_one(s: Seq<char>, c: char)
    requires
        !s.contains(c),
    ensures
        fields(s, Separator::Char(c), true) == seq![s],
        fields(s, Separator::Char(c), false) == (if s.len() == 0 {
            Seq::empty()
        } else {
            seq![s]
        }),
{
    assert forall|i: int| 0 <= i < s.len() implies !separates(Separator::Char(c), #[trigger] s[i]) by {
        assert(s.contains(s[i]));
    }
    law_word_is_one_field(s, Separator::Char(c), true);
    law_word_is_one_field(s, Separator::Char(c), false);
}

/// A text without a separator is one field, of any kind.
pub proof fn law_word_is_one_field(s: Seq<char>, sep: Separator, keep_empty: bool)
    requires
        forall|i: int| 0 <= i < s.len() ==> !separates(sep, #[trigger] s[i]),
    ensures
        fields(s, sep, keep_empty) == (if s.len() == 0 && !keep_empty {
            Seq::empty()
        } else {
            seq![s]
        }),
{
    assert(s.take(0) =~= Seq::empty());
    one_field(s, sep, keep_empty, 0);
}

proof fn one_field(s: Seq<char>, sep: Separator, keep_empty: bool, i: int)
    requires
        0 <= i <= s.len(),
        forall|i: int| 0 <= i < s.len() ==> !separates(sep, #[trigger] s[i]),
    ensures
        fields_from(s, sep, keep_empty, i, s.take(i), Seq::empty()) == (if s.len() == 0
            && !keep_empty {
            Seq::empty()
        } else {
            seq![s]
        }),
    decreases s.len() - i,
{
    if i < s.len() {
        assert(!separates(sep, s[i]));
        assert(s.take(i + 1) =~= s.take(i).push(s[i]));
        one_field(s, sep, keep_empty, i + 1);
    } else {
        assert(s.take(i) =~= s);
        assert(Seq::<Seq<char>>::empty().push(s) =~= seq![s]);
    }
}

proof fn front_fields(
    a: Seq<char>,
    c: char,
    s: Seq<char>,
    sep: Separator,
    keep_empty: bool,
    i: int,
    field: Seq<char>,
    out: Seq<Seq<char>>,
)
    requires
        0 <= i <= a.len() < s.len(),
        forall|j: int| 0 <= j < a.len() ==> #[trigger] s[j] == a[j],
        s[a.len() as int] == c,
        separates(sep, c),
    ensures
        fields_from(s, sep, keep_empty, i, field, out) == fields_from(
            s,
            sep,
            keep_empty,
            a.len() as int + 1,
            Seq::empty(),
            fields_from(a, sep, keep_empty, i, field, out),
        ),
    decreases a.len() - i,
{
    if i < a.len() {
        assert(s[i] == a[i]);
        if separates(sep, a[i]) {
            front_fields(
                a,
                c,
                s,
                sep,
                keep_empty,
                i + 1,
                Seq::empty(),
                put_field(out, field, keep_empty),
            );
        } else {
            front_fields(a, c, s, sep, keep_empty, i + 1, field.push(a[i]), out);
        }
    }
}

proof fn back_fields(
    s: Seq<char>,
    n: int,
    b: Seq<char>,
    sep: Separator,
    keep_empty: bool,
    i: int,
    field: Seq<char>,
    out: Seq<Seq<char>>,
)
    requires
        0 <= n,
        n + b.len() == s.len(),
        forall|j: int| 0 <= j < b.len() ==> #[trigger] b[j] == s[n + j],
        0 <= i <= b.len(),
    ensures
        fields_from(s, sep, keep_empty, n + i, field, out) == out + fields_from(
            b,
            sep,
            keep_empty,
            i,
            field,
            Seq::empty(),
        ),
    decreases b.len() - i, 0int,
{
    let none = Seq::<Seq<char>>::empty();
    if i < b.len() {
        assert(b[i] == s[n + i]);
        if separates(sep, b[i]) {
            let more = put_field(none, field, keep_empty);
            let all = put_field(out, field, keep_empty);
            back_fields(s, n, b, sep, keep_empty, i + 1, Seq::empty(), all);
            fields_behind(b, sep, keep_empty, i + 1, Seq::empty(), more);
            let rest = fields_from(b, sep, keep_empty, i + 1, Seq::empty(), none);
            assert(all + rest =~= out + (more + rest));
        } else {
            back_fields(s, n, b, sep, keep_empty, i + 1, field.push(b[i]), out);
        }
    } else {
        assert(put_field(out, field, keep_empty) =~= out + put_field(none, field, keep_empty));
    }
}

proof fn fields_behind(
    b: Seq<char>,
    sep: Separator,
    keep_empty: bool,
    i: int,
    field: Seq<char>,
    out: Seq<Seq<char>>,
)
    requires
        0 <= i <= b.len(),
    ensures
        fields_from(b, sep, keep_empty, i, field, out) == out + fields_from(
            b,
            sep,
            keep_empty,
            i,
            field,
            Seq::empty(),
        ),
    decreases b.len() - i, 1int,
{
    back_fields(b, 0, b, sep, keep_empty, i, field, out);
}

/// A text that begins and ends with no white space has none to take off.
pub proof fn law_solid_is_trimmed(s: Seq<char>)
    requires
        s.len() > 0,
        !white(s[0]),
        !white(s.last()),
    ensures
        trimmed(s) == s,
{
    let n = s.len() as int;
    assert(last_solid(s, n) == n);
    assert(s.take(n) =~= s);
    assert(first_solid(s, 0) == 0);
    assert(s.skip(0) =~= s);
}

/// The first occurrence of a part is where it occurs and nowhere before.
pub proof fn law_first_is_found(s: Seq<char>, part: Seq<char>, at: int)
    requires
        occurs_at(s, part, at),
        forall|i: int| 0 <= i < at ==> !occurs_at(s, part, i),
    ensures
        first_at(s, part, 0) == Some(at),
{
    first_from(s, part, 0, at);
}

/// A part that does not occur has no first occurrence.
pub proof fn law_first_is_nowhere(s: Seq<char>, part: Seq<char>)
    requires
        forall|i: int| !occurs_at(s, part, i),
    ensures
        first_at(s, part, 0) is None,
{
    first_nowhere(s, part, 0);
}

proof fn first_from(s: Seq<char>, part: Seq<char>, i: int, at: int)
    requires
        0 <= i <= at,
        occurs_at(s, part, at),
        forall|i: int| 0 <= i < at ==> !occurs_at(s, part, i),
    ensures
        first_at(s, part, i) == Some(at),
    decreases at - i,
{
    if i < at {
        assert(!occurs_at(s, part, i));
        first_from(s, part, i + 1, at);
    }
}

proof fn first_nowhere(s: Seq<char>, part: Seq<char>, i: int)
    requires
        0 <= i,
        forall|i: int| !occurs_at(s, part, i),
    ensures
        first_at(s, part, i) is None,
    decreases s.len() + 1 - i,
{
    assert(!occurs_at(s, part, i));
    if i <= s.len() {
        first_nowhere(s, part, i + 1);
    }
}

/// A list behind another one holds what either of them holds.
pub proof fn law_both_hold(a: Seq<Seq<char>>, b: Seq<Seq<char>>, x: Seq<char>)
    ensures
        (a + b).contains(x) <==> a.contains(x) || b.contains(x),
{
    let both = a + b;
    if a.contains(x) {
        assert(both[a.index_of(x)] == x);
    }
    if b.contains(x) {
        assert(both[a.len() + b.index_of(x)] == x);
    }
    if both.contains(x) {
        let i = both.index_of(x);
        if i < a.len() {
            assert(a[i] == x);
        } else {
            assert(b[i - a.len()] == x);
        }
    }
}

pub(crate) proof fn prefixes_chain(a: Seq<Seq<char>>, b: Seq<Seq<char>>, c: Seq<Seq<char>>)
    requires
        a.is_prefix_of(b),
        b.is_prefix_of(c),
    ensures
        a.is_prefix_of(c),
{
    assert(a =~= c.subrange(0, a.len() as int)) by {
        assert forall|q: int| 0 <= q < a.len() implies a[q] == c[q] by {
            assert(b.subrange(0, a.len() as int)[q] == b[q]);
            assert(c.subrange(0, b.len() as int)[q] == c[q]);
        }
    }
}

} // verus!
