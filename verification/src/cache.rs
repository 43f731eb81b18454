//! The text in which a list of environments is kept between runs.
//!
//! One record per line, each line ended by a line feed: the name, the kind's
//! label and the location, parted by `|`. In the name and the location four
//! characters are written as two, so that any text can be kept: `%` as `%%`,
//! `|` as `%p`, line feed as `%n`, carriage return as `%r`.

use crate::environment::{EnvKind, Environment, EnvironmentView};
use crate::text::{chars_of, string_of};
use vstd::prelude::*;

verus! {

/// Why a record could not be read.
#[derive(Clone, Copy, Debug, PartialEq, Eq, Structural)]
pub enum Fault {
    /// The line does not hold exactly three fields.
    FieldCount,
    /// A `%` in the name or the location is not followed by `%`, `p`, `n` or `r`.
    Escape,
    /// The second field is not the label of a kind.
    Kind,
}

/// The first record that could not be read, counted from 0, and why.
#[derive(Clone, Copy, Debug, PartialEq, Eq, Structural)]
pub struct CacheError {
    pub record: usize,
    pub fault: Fault,
}

/// How one character of a name or a location is written.
pub open spec fn escaped_char(c: char) -> Seq<char> {
    if c == '%' {
        seq!['%', '%']
    } else if c == '|' {
        seq!['%', 'p']
    } else if c == '\n' {
        seq!['%', 'n']
    } else if c == '\r' {
        seq!['%', 'r']
    } else {
        seq![c]
    }
}

/// How a name or a location is written: character by character.
pub open spec fn escaped(s: Seq<char>) -> Seq<char>
    decreases s.len(),
{
    if s.len() == 0 {
        Seq::empty()
    } else {
        escaped(s.drop_last()) + escaped_char(s.last())
    }
}

/// The character that `code` stands for when it follows a `%`.
pub open spec fn code_meaning(code: char) -> Option<char> {
    if code == '%' {
        Some('%')
    } else if code == 'p' {
        Some('|')
    } else if code == 'n' {
        Some('\n')
    } else if code == 'r' {
        Some('\r')
    } else {
        None
    }
}

/// `prefix` put before a text that may be missing.
pub open spec fn after(prefix: Seq<char>, rest: Option<Seq<char>>) -> Option<Seq<char>> {
    match rest {
        Some(r) => Some(prefix + r),
        None => None,
    }
}

/// The text that `s` is the written form of; none where a `%` in `s` is
/// followed by nothing or by a character that is no code.
pub open spec fn unescaped(s: Seq<char>) -> Option<Seq<char>>
    decreases s.len(),
{
    if s.len() == 0 {
        Some(Seq::empty())
    } else if s[0] != '%' {
        after(seq![s[0]], unescaped(s.skip(1)))
    } else if s.len() < 2 {
        None
    } else {
        match code_meaning(s[1]) {
            None => None,
            Some(c) => after(seq![c], unescaped(s.skip(2))),
        }
    }
}

/// The line that holds one record, without the line feed that ends it.
pub open spec fn line_of(e: EnvironmentView) -> Seq<char> {
    escaped(e.name) + seq!['|'] + e.kind.label() + seq!['|'] + escaped(e.location)
}

/// The text that holds a list of records.
pub open spec fn encoded(envs: Seq<EnvironmentView>) -> Seq<char>
    decreases envs.len(),
{
    if envs.len() == 0 {
        Seq::empty()
    } else {
        encoded(envs.drop_last()) + line_of(envs.last()) + seq!['\n']
    }
}

/// The index of the first `c` in `s`; the length of `s` where there is none.
pub open spec fn first_of(s: Seq<char>, c: char) -> int
    decreases s.len(),
{
    if s.len() == 0 || s[0] == c {
        0
    } else {
        1 + first_of(s.skip(1), c)
    }
}

/// The record that a line holds: three fields parted by two `|`, the first
/// and the third written as `escaped` writes them, the second a kind's label.
pub open spec fn parsed_line(line: Seq<char>) -> Result<EnvironmentView, Fault> {
    let a = first_of(line, '|');
    let rest = line.skip(a + 1);
    let b = first_of(rest, '|');
    let tail = rest.skip(b + 1);
    if a == line.len() || b == rest.len() || first_of(tail, '|') != tail.len() {
        Err(Fault::FieldCount)
    } else {
        match unescaped(line.take(a)) {
            None => Err(Fault::Escape),
            Some(name) => match EnvKind::labelled(rest.take(b)) {
                None => Err(Fault::Kind),
                Some(kind) => match unescaped(tail) {
                    None => Err(Fault::Escape),
                    Some(location) => Ok(EnvironmentView { name, kind, location }),
                },
            },
        }
    }
}

/// `prefix` put before a list of records that may have failed to read.
pub open spec fn records_after(
    prefix: Seq<EnvironmentView>,
    rest: Result<Seq<EnvironmentView>, CacheError>,
) -> Result<Seq<EnvironmentView>, CacheError> {
    match rest {
        Ok(r) => Ok(prefix + r),
        Err(e) => Err(e),
    }
}

/// The records that `text` holds, where `text` starts with record number
/// `record`. A text is a run of lines, each ended by a line feed; a last line
/// without one is read too. The first line that holds no record ends the
/// reading with an error.
pub open spec fn decoded_from(text: Seq<char>, record: int) -> Result<
    Seq<EnvironmentView>,
    CacheError,
>
    decreases text.len(),
{
    if text.len() == 0 {
        Ok(Seq::empty())
    } else {
        let n = first_of(text, '\n');
        let rest = if 0 <= n < text.len() {
            text.skip(n + 1)
        } else {
            Seq::empty()
        };
        match parsed_line(text.take(n)) {
            Err(fault) => Err(CacheError { record: record as usize, fault }),
            Ok(e) => records_after(seq![e], decoded_from(rest, record + 1)),
        }
    }
}

/// The records that `text` holds.
pub open spec fn decoded(text: Seq<char>) -> Result<Seq<EnvironmentView>, CacheError> {
    decoded_from(text, 0)
}

/// Where a text without `c` is followed by `c`, that `c` is the first.
proof fn lemma_first_of_found(a: Seq<char>, c: char, b: Seq<char>)
    requires
        forall|i: int| 0 <= i < a.len() ==> a[i] != c,
    ensures
        first_of(a + seq![c] + b, c) == a.len(),
    decreases a.len(),
{
    let s = a + seq![c] + b;
    if a.len() == 0 {
        assert(s[0] == c);
    } else {
        assert(s[0] == a[0]);
        assert(s.skip(1) == a.skip(1) + seq![c] + b);
        lemma_first_of_found(a.skip(1), c, b);
    }
}

/// In a text without `c`, `first_of` finds nothing.
proof fn lemma_first_of_absent(a: Seq<char>, c: char)
    requires
        forall|i: int| 0 <= i < a.len() ==> a[i] != c,
    ensures
        first_of(a, c) == a.len(),
    decreases a.len(),
{
    if a.len() > 0 {
        lemma_first_of_absent(a.skip(1), c);
    }
}

/// The written form of a text, taken apart at its first character.
proof fn lemma_escaped_front(s: Seq<char>)
    requires
        s.len() > 0,
    ensures
        escaped(s) == escaped_char(s[0]) + escaped(s.skip(1)),
    decreases s.len(),
{
    if s.len() == 1 {
        assert(s.drop_last() == Seq::<char>::empty());
        assert(s.skip(1) == Seq::<char>::empty());
        assert(escaped(s.drop_last()) == Seq::<char>::empty());
        assert(escaped(s) == escaped_char(s[0]));
        assert(escaped_char(s[0]) + Seq::<char>::empty() == escaped_char(s[0]));
    } else {
        let front = s.drop_last();
        lemma_escaped_front(front);
        assert(front.skip(1) == s.skip(1).drop_last());
        assert(front[0] == s[0]);
        assert(s.skip(1).last() == s.last());
        assert(escaped(s.skip(1)) == escaped(front.skip(1)) + escaped_char(s.last()));
        assert(escaped(s) == escaped_char(s[0]) + escaped(front.skip(1)) + escaped_char(
            s.last(),
        ));
        assert(escaped_char(s[0]) + escaped(front.skip(1)) + escaped_char(s.last())
            == escaped_char(s[0]) + (escaped(front.skip(1)) + escaped_char(s.last())));
    }
}

/// The written form of a text holds neither `|` nor a line feed.
proof fn lemma_escaped_is_plain(s: Seq<char>)
    ensures
        forall|i: int| 0 <= i < escaped(s).len() ==> escaped(s)[i] != '|' && escaped(s)[i] != '\n',
    decreases s.len(),
{
    if s.len() > 0 {
        lemma_escaped_is_plain(s.drop_last());
        let front = escaped(s.drop_last());
        let back = escaped_char(s.last());
        assert forall|i: int| 0 <= i < escaped(s).len() implies escaped(s)[i] != '|' && escaped(
            s,
        )[i] != '\n' by {
            if i < front.len() {
                assert(escaped(s)[i] == front[i]);
            } else {
                assert(escaped(s)[i] == back[i - front.len()]);
            }
        }
    }
}

/// What was written reads back as it was.
pub proof fn lemma_unescape_escaped(s: Seq<char>)
    ensures
        unescaped(escaped(s)) == Some(s),
    decreases s.len(),
{
    if s.len() == 0 {
        assert(unescaped(escaped(s)) == Some(Seq::<char>::empty()));
        assert(s == Seq::<char>::empty());
    } else {
        lemma_escaped_front(s);
        lemma_unescape_escaped(s.skip(1));
        let head = escaped_char(s[0]);
        let tail = escaped(s.skip(1));
        let all = head + tail;
        assert(seq![s[0]] + s.skip(1) == s);
        if head.len() == 1 {
            assert(all[0] == s[0]);
            assert(all.skip(1) == tail);
        } else {
            assert(all[0] == '%');
            assert(all[1] == head[1]);
            assert(code_meaning(all[1]) == Some(s[0]));
            assert(all.skip(2) == tail);
        }
    }
}

/// No label of a kind holds `|` or a line feed.
proof fn lemma_label_is_plain(kind: EnvKind)
    ensures
        forall|i: int|
            0 <= i < kind.label().len() ==> kind.label()[i] != '|' && kind.label()[i] != '\n',
{
    reveal_strlit("venv");
    reveal_strlit("conda");
    reveal_strlit("uv");
    reveal_strlit("unknown");
}

/// A record's line holds no line feed.
proof fn lemma_line_is_one_line(e: EnvironmentView)
    ensures
        forall|i: int| 0 <= i < line_of(e).len() ==> line_of(e)[i] != '\n',
{
    lemma_escaped_is_plain(e.name);
    lemma_escaped_is_plain(e.location);
    lemma_label_is_plain(e.kind);
}

/// A record's line reads back as the record.
proof fn lemma_line_reads_back(e: EnvironmentView)
    ensures
        parsed_line(line_of(e)) == Ok::<EnvironmentView, Fault>(e),
{
    let name = escaped(e.name);
    let label = e.kind.label();
    let location = escaped(e.location);
    let line = line_of(e);
    lemma_escaped_is_plain(e.name);
    lemma_escaped_is_plain(e.location);
    lemma_label_is_plain(e.kind);
    assert(line == name + seq!['|'] + (label + seq!['|'] + location));
    lemma_first_of_found(name, '|', label + seq!['|'] + location);
    let a = first_of(line, '|');
    assert(a == name.len());
    let rest = line.skip(a + 1);
    assert(rest == label + seq!['|'] + location);
    lemma_first_of_found(label, '|', location);
    let b = first_of(rest, '|');
    assert(b == label.len());
    let tail = rest.skip(b + 1);
    assert(tail == location);
    lemma_first_of_absent(location, '|');
    assert(line.take(a) == name);
    assert(rest.take(b) == label);
    lemma_unescape_escaped(e.name);
    lemma_unescape_escaped(e.location);
    e.kind.lemma_label_reads_back();
}

/// The text of a list of records, taken apart at its first record.
proof fn lemma_encoded_front(envs: Seq<EnvironmentView>)
    requires
        envs.len() > 0,
    ensures
        encoded(envs) == line_of(envs[0]) + seq!['\n'] + encoded(envs.skip(1)),
    decreases envs.len(),
{
    if envs.len() == 1 {
        assert(envs.drop_last() == Seq::<EnvironmentView>::empty());
        assert(envs.skip(1) == Seq::<EnvironmentView>::empty());
        assert(encoded(envs.drop_last()) == Seq::<char>::empty());
        assert(encoded(envs) == line_of(envs[0]) + seq!['\n']);
        assert(line_of(envs[0]) + seq!['\n'] + Seq::<char>::empty() == line_of(envs[0])
            + seq!['\n']);
    } else {
        let front = envs.drop_last();
        lemma_encoded_front(front);
        assert(front.skip(1) == envs.skip(1).drop_last());
        assert(front[0] == envs[0]);
        assert(envs.skip(1).last() == envs.last());
        let first = line_of(envs[0]) + seq!['\n'];
        let last = line_of(envs.last()) + seq!['\n'];
        assert(encoded(envs.skip(1)) == encoded(front.skip(1)) + line_of(envs.last())
            + seq!['\n']);
        assert(encoded(envs) == first + encoded(front.skip(1)) + line_of(envs.last())
            + seq!['\n']);
        assert(first + encoded(front.skip(1)) + line_of(envs.last()) + seq!['\n'] == first + (
        encoded(front.skip(1)) + line_of(envs.last()) + seq!['\n']));
    }
}

/// Reading what was written gives the records back, whatever number the
/// first of them is given.
proof fn lemma_decode_encoded_from(envs: Seq<EnvironmentView>, record: int)
    ensures
        decoded_from(encoded(envs), record) == Ok::<Seq<EnvironmentView>, CacheError>(envs),
    decreases envs.len(),
{
    if envs.len() == 0 {
        assert(envs == Seq::<EnvironmentView>::empty());
    } else {
        let e = envs[0];
        let line = line_of(e);
        let rest = encoded(envs.skip(1));
        let text = encoded(envs);
        lemma_encoded_front(envs);
        assert(text == line + seq!['\n'] + rest);
        lemma_line_is_one_line(e);
        lemma_first_of_found(line, '\n', rest);
        let n = first_of(text, '\n');
        assert(n == line.len());
        assert(text.take(n) == line);
        assert(text.skip(n + 1) == rest);
        lemma_line_reads_back(e);
        lemma_decode_encoded_from(envs.skip(1), record + 1);
        assert(seq![e] + envs.skip(1) == envs);
    }
}

/// Writing a list of records and reading the text gives the list back,
/// record for record and field for field; so writing what was read gives the
/// same text again. This holds of every list: the empty one, and records
/// whose fields hold spaces, `|`, `%` or line ends.
pub proof fn lemma_round_trip(envs: Seq<EnvironmentView>)
    ensures
        decoded(encoded(envs)) == Ok::<Seq<EnvironmentView>, CacheError>(envs),
        decoded(encoded(envs)) matches Ok(read) && encoded(read) == encoded(envs),
{
    lemma_decode_encoded_from(envs, 0);
}

/// Appends the written form of `text` to `out`.
fn escape_into(out: &mut String, text: &str)
    ensures
        final(out)@ == old(out)@ + escaped(text@),
{
    let t = chars_of(text);
    let ghost before = out@;
    let mut i: usize = 0;
    assert(t@.take(0) == Seq::<char>::empty());
    assert(before + Seq::<char>::empty() == before);
    while i < t.len()
        invariant
            i <= t.len(),
            out@ == before + escaped(t@.take(i as int)),
        decreases t.len() - i,
    {
        let c = t[i];
        let ghost done = escaped(t@.take(i as int));
        assert(t@.take(i + 1).drop_last() == t@.take(i as int));
        assert(t@.take(i + 1).last() == c);
        if c == '%' {
            out.push('%');
            out.push('%');
        } else if c == '|' {
            out.push('%');
            out.push('p');
        } else if c == '\n' {
            out.push('%');
            out.push('n');
        } else if c == '\r' {
            out.push('%');
            out.push('r');
        } else {
            out.push(c);
        }
        assert(out@ == before + done + escaped_char(c));
        assert(before + done + escaped_char(c) == before + (done + escaped_char(c)));
        i += 1;
    }
    assert(t@.take(t.len() as int) == t@);
}

/// The text that holds the given records.
pub fn encode(envs: &Vec<Environment>) -> (r: String)
    ensures
        r@ == encoded(envs.deep_view()),
{
    let mut out = String::new();
    let mut i: usize = 0;
    assert(envs.deep_view().take(0) == Seq::<EnvironmentView>::empty());
    while i < envs.len()
        invariant
            i <= envs.len(),
            out@ == encoded(envs.deep_view().take(i as int)),
        decreases envs.len() - i,
    {
        let ghost done = out@;
        let ghost e = envs@[i as int]@;
        assert(envs.deep_view().take(i + 1).drop_last() == envs.deep_view().take(i as int));
        assert(envs.deep_view().take(i + 1).last() == e);
        escape_into(&mut out, envs[i].name.as_str());
        out.push('|');
        out.append(envs[i].kind.as_str());
        out.push('|');
        escape_into(&mut out, envs[i].location.as_str());
        out.push('\n');
        assert(out@ == done + escaped(e.name) + seq!['|'] + e.kind.label() + seq!['|'] + escaped(
            e.location,
        ) + seq!['\n']);
        assert(out@ == done + line_of(e) + seq!['\n']);
        i += 1;
    }
    assert(envs.deep_view().take(envs.len() as int) == envs.deep_view());
    out
}

/// The index of the first `c` in `v[from..to]`, counted in `v`; `to` where
/// there is none.
fn find_char(v: &Vec<char>, from: usize, to: usize, c: char) -> (r: usize)
    requires
        from <= to <= v.len(),
    ensures
        from <= r <= to,
        r - from == first_of(v@.subrange(from as int, to as int), c),
{
    let mut i: usize = from;
    while i < to && v[i] != c
        invariant
            from <= i <= to <= v.len(),
            first_of(v@.subrange(from as int, to as int), c) == (i - from) + first_of(
                v@.subrange(i as int, to as int),
                c,
            ),
        decreases to - i,
    {
        assert(v@.subrange(i as int, to as int).skip(1) == v@.subrange(i + 1, to as int));
        i += 1;
    }
    i
}

/// The text that `v[from..to]` is the written form of.
fn unescape(v: &Vec<char>, from: usize, to: usize) -> (r: Option<String>)
    requires
        from <= to <= v.len(),
    ensures
        r.deep_view() == unescaped(v@.subrange(from as int, to as int)),
{
    let ghost whole = v@.subrange(from as int, to as int);
    let mut out = String::new();
    let mut i: usize = from;
    assert(Seq::<char>::empty() + whole == whole);
    assert(after(out@, unescaped(whole)) == unescaped(whole)) by {
        match unescaped(whole) {
            Some(r) => {
                assert(out@ + r == r);
            },
            None => {},
        }
    }
    while i < to
        invariant
            from <= i <= to <= v.len(),
            whole == v@.subrange(from as int, to as int),
            unescaped(whole) == after(out@, unescaped(v@.subrange(i as int, to as int))),
        decreases to - i,
    {
        let ghost here = v@.subrange(i as int, to as int);
        let ghost done = out@;
        let c = v[i];
        assert(here[0] == c);
        if c != '%' {
            assert(here.skip(1) == v@.subrange(i + 1, to as int));
            out.push(c);
            i += 1;
            proof {
                match unescaped(here.skip(1)) {
                    Some(r) => {
                        assert(done + (seq![c] + r) == done.push(c) + r);
                    },
                    None => {},
                }
            }
        } else {
            if to - i < 2 {
                return None;
            }
            let code = v[i + 1];
            assert(here[1] == code);
            let meaning = if code == '%' {
                '%'
            } else if code == 'p' {
                '|'
            } else if code == 'n' {
                '\n'
            } else if code == 'r' {
                '\r'
            } else {
                return None;
            };
            assert(code_meaning(code) == Some(meaning));
            assert(here.skip(2) == v@.subrange(i + 2, to as int));
            out.push(meaning);
            i += 2;
            proof {
                match unescaped(here.skip(2)) {
                    Some(r) => {
                        assert(done + (seq![meaning] + r) == done.push(meaning) + r);
                    },
                    None => {},
                }
            }
        }
    }
    assert(v@.subrange(to as int, to as int) == Seq::<char>::empty());
    assert(out@ + Seq::<char>::empty() == out@);
    Some(out)
}

/// The record that the line `v[from..to]` holds.
fn parse_line(v: &Vec<char>, from: usize, to: usize) -> (r: Result<Environment, Fault>)
    requires
        from <= to <= v.len(),
    ensures
        match parsed_line(v@.subrange(from as int, to as int)) {
            Ok(e) => r matches Ok(env) && env@ == e,
            Err(fault) => r == Err::<Environment, Fault>(fault),
        },
{
    let ghost line = v@.subrange(from as int, to as int);
    let first = find_char(v, from, to, '|');
    if first == to {
        return Err(Fault::FieldCount);
    }
    let ghost a = first - from;
    let ghost rest = line.skip(a + 1);
    assert(rest == v@.subrange(first + 1, to as int));
    let second = find_char(v, first + 1, to, '|');
    if second == to {
        return Err(Fault::FieldCount);
    }
    let ghost b = second - (first + 1);
    let ghost tail = rest.skip(b + 1);
    assert(tail == v@.subrange(second + 1, to as int));
    let third = find_char(v, second + 1, to, '|');
    if third != to {
        return Err(Fault::FieldCount);
    }
    assert(line.take(a) == v@.subrange(from as int, first as int));
    assert(rest.take(b) == v@.subrange(first + 1, second as int));
    let name = match unescape(v, from, first) {
        None => {
            return Err(Fault::Escape);
        },
        Some(name) => name,
    };
    let label = string_of(v, first + 1, second);
    let kind = match EnvKind::from_label(label.as_str()) {
        None => {
            return Err(Fault::Kind);
        },
        Some(kind) => kind,
    };
    let location = match unescape(v, second + 1, to) {
        None => {
            return Err(Fault::Escape);
        },
        Some(location) => location,
    };
    Ok(Environment { name, kind, location })
}

/// The records that `text` holds, or the first record that could not be read.
pub fn decode(text: &str) -> (r: Result<Vec<Environment>, CacheError>)
    ensures
        match decoded(text@) {
            Ok(envs) => r matches Ok(v) && v.deep_view() == envs,
            Err(e) => r == Err::<Vec<Environment>, CacheError>(e),
        },
{
    let t = chars_of(text);
    let mut out: Vec<Environment> = Vec::new();
    let mut pos: usize = 0;
    let mut record: usize = 0;
    assert(t@.subrange(0, t.len() as int) == t@);
    assert(out.deep_view() == Seq::<EnvironmentView>::empty());
    assert(records_after(out.deep_view(), decoded_from(t@, 0)) == decoded_from(t@, 0)) by {
        match decoded_from(t@, 0) {
            Ok(r) => {
                assert(out.deep_view() + r == r);
            },
            Err(_) => {},
        }
    }
    while pos < t.len()
        invariant
            pos <= t.len(),
            record <= pos,
            t@ == text@,
            decoded(text@) == records_after(
                out.deep_view(),
                decoded_from(t@.subrange(pos as int, t.len() as int), record as int),
            ),
        decreases t.len() - pos,
    {
        let ghost here = t@.subrange(pos as int, t.len() as int);
        let ghost done = out.deep_view();
        let end = find_char(&t, pos, t.len(), '\n');
        assert(here.take(end - pos) == t@.subrange(pos as int, end as int));
        match parse_line(&t, pos, end) {
            Err(fault) => {
                return Err(CacheError { record, fault });
            },
            Ok(env) => {
                let ghost e = env@;
                out.push(env);
                assert(out.deep_view() == done + seq![e]);
                let ghost next = if end < t.len() {
                    here.skip(end - pos + 1)
                } else {
                    Seq::<char>::empty()
                };
                if end < t.len() {
                    assert(here.skip(end - pos + 1) == t@.subrange(end + 1, t.len() as int));
                    pos = end + 1;
                } else {
                    assert(t@.subrange(end as int, t.len() as int) == Seq::<char>::empty());
                    pos = end;
                }
                record += 1;
                proof {
                    match decoded_from(next, record as int) {
                        Ok(r) => {
                            assert(done + (seq![e] + r) == done + seq![e] + r);
                        },
                        Err(_) => {},
                    }
                }
            },
        }
    }
    assert(t@.subrange(t.len() as int, t.len() as int) == Seq::<char>::empty());
    assert(out.deep_view() + Seq::<EnvironmentView>::empty() == out.deep_view());
    Ok(out)
}

} // verus!
