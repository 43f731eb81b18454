//! Paths as plain text. A path is a sequence of segments parted by `\` or
//! `/`; new paths are built with `\`. A segment `.` at the end of a path
//! stands for the directory before it, and a segment `..` names nothing.

use crate::text::{chars_of, string_of};
use vstd::prelude::*;

verus! {

/// The characters that part the segments of a path.
pub open spec fn is_separator(c: char) -> bool {
    c == '\\' || c == '/'
}

/// `path` ends in a segment that is a single `.`: one that stands for the
/// directory before it.
pub open spec fn ends_in_dot(path: Seq<char>) -> bool {
    &&& path.len() > 0
    &&& path.last() == '.'
    &&& (path.len() == 1 || is_separator(path[path.len() - 2]))
}

/// The segment `..`: it stands for the directory above and names nothing.
pub open spec fn is_dot_dot(segment: Seq<char>) -> bool {
    segment == seq!['.', '.']
}

/// The length of `path` once what stands at its end and names nothing is
/// dropped: separators and segments that are a single `.`.
pub open spec fn trimmed_len(path: Seq<char>) -> int
    decreases path.len(),
{
    if path.len() > 0 && (is_separator(path.last()) || ends_in_dot(path)) {
        trimmed_len(path.drop_last())
    } else {
        path.len() as int
    }
}

/// `path` without its trailing separators and `.` segments.
pub open spec fn trimmed(path: Seq<char>) -> Seq<char> {
    path.take(trimmed_len(path))
}

/// The index at which the last segment of `path` begins: the length of
/// `path` where it is empty or ends in a separator.
pub open spec fn segment_start(path: Seq<char>) -> int
    decreases path.len(),
{
    if path.len() == 0 || is_separator(path.last()) {
        path.len() as int
    } else {
        segment_start(path.drop_last())
    }
}

/// The final segment of `path`, trailing separators and `.` segments set
/// aside; none where the path holds no segment at all, or where the segment
/// is `..`.
pub open spec fn base_name_of(path: Seq<char>) -> Option<Seq<char>> {
    let whole = trimmed(path);
    let start = segment_start(whole);
    if start == whole.len() || is_dot_dot(whole.skip(start)) {
        None
    } else {
        Some(whole.skip(start))
    }
}

/// What stands before the final segment of `path`, without the separators that
/// part the two, unless nothing but separators stands there (a root); none
/// where the path holds no segment.
pub open spec fn parent_of(path: Seq<char>) -> Option<Seq<char>> {
    let whole = trimmed(path);
    let start = segment_start(whole);
    if start == whole.len() {
        None
    } else {
        let head = whole.take(start);
        if trimmed_len(head) == 0 {
            Some(head)
        } else {
            Some(trimmed(head))
        }
    }
}

/// `segment` put below `base`: a `\` is set between them unless `base` is
/// empty or already ends in a separator.
pub open spec fn joined(base: Seq<char>, segment: Seq<char>) -> Seq<char> {
    if base.len() == 0 || is_separator(base.last()) {
        base + segment
    } else {
        base.push('\\') + segment
    }
}

/// One segment that names something: a text that is not empty, holds no
/// separator and is neither `.` nor `..`.
pub open spec fn is_segment(name: Seq<char>) -> bool {
    &&& name.len() > 0
    &&& forall|i: int| 0 <= i < name.len() ==> !is_separator(#[trigger] name[i])
    &&& name != seq!['.']
    &&& !is_dot_dot(name)
}

/// Behind a head that is empty or ends in a separator, a run of characters
/// that are no separators is the last segment.
proof fn lemma_segment_starts_behind(head: Seq<char>, run: Seq<char>)
    requires
        head.len() == 0 || is_separator(head.last()),
        forall|i: int| 0 <= i < run.len() ==> !is_separator(#[trigger] run[i]),
    ensures
        segment_start(head + run) == head.len(),
    decreases run.len(),
{
    if run.len() == 0 {
        assert(head + run == head);
    } else {
        let whole = head + run;
        assert(whole.last() == run.last());
        assert(whole.drop_last() == head + run.drop_last());
        lemma_segment_starts_behind(head, run.drop_last());
    }
}

/// What is put below a directory is found again as the final segment: the
/// base name of `joined(base, name)` is `name`, whatever `base` is, as long
/// as `name` is one segment.
pub proof fn lemma_base_name_of_joined(base: Seq<char>, name: Seq<char>)
    requires
        is_segment(name),
    ensures
        base_name_of(joined(base, name)) == Some(name),
{
    let head = if base.len() == 0 || is_separator(base.last()) {
        base
    } else {
        base.push('\\')
    };
    let whole = head + name;
    assert(whole == joined(base, name));
    lemma_ends_in_segment(head, name);
    lemma_segment_starts_behind(head, name);
    assert(whole.skip(head.len() as int) == name);
}

/// A path that ends in a segment that names something loses nothing when it
/// is trimmed.
proof fn lemma_ends_in_segment(head: Seq<char>, name: Seq<char>)
    requires
        is_segment(name),
        head.len() == 0 || is_separator(head.last()),
    ensures
        trimmed(head + name) == head + name,
{
    let whole = head + name;
    assert(whole.last() == name.last());
    assert(!is_separator(name[name.len() - 1]));
    if name.last() == '.' {
        if name.len() == 1 {
            assert(name == seq!['.']);
        } else {
            assert(whole[whole.len() - 2] == name[name.len() - 2]);
            assert(!is_separator(name[name.len() - 2]));
        }
    }
    assert(!ends_in_dot(whole));
    assert(whole.take(whole.len() as int) == whole);
}

/// Trimming never lengthens a path.
proof fn lemma_trimmed_len_bounds(path: Seq<char>)
    ensures
        0 <= trimmed_len(path) <= path.len(),
    decreases path.len(),
{
    if path.len() > 0 && (is_separator(path.last()) || ends_in_dot(path)) {
        lemma_trimmed_len_bounds(path.drop_last());
    }
}

/// What is put below a directory lies in that directory: the parent of
/// `joined(dir, name)` is `dir`, as long as `name` is one segment and `dir`
/// is not empty and ends in neither a separator nor a `.` segment.
pub proof fn lemma_parent_of_joined(dir: Seq<char>, name: Seq<char>)
    requires
        is_segment(name),
        dir.len() > 0,
        trimmed_len(dir) == dir.len(),
    ensures
        parent_of(joined(dir, name)) == Some(dir),
{
    lemma_trimmed_len_bounds(dir.drop_last());
    assert(!is_separator(dir.last()));
    let head = dir.push('\\');
    let whole = head + name;
    assert(whole == joined(dir, name));
    lemma_ends_in_segment(head, name);
    lemma_segment_starts_behind(head, name);
    assert(whole.take(head.len() as int) == head);
    assert(head.drop_last() == dir);
    assert(trimmed_len(head) == dir.len());
    assert(head.take(dir.len() as int) == dir);
}

/// Whether `c` parts path segments.
pub fn separates(c: char) -> (r: bool)
    ensures
        r == is_separator(c),
{
    c == '\\' || c == '/'
}

/// The length of `v[..limit]` once its trailing separators and `.` segments
/// are dropped.
fn trimmed_end(v: &Vec<char>, limit: usize) -> (end: usize)
    requires
        limit <= v.len(),
    ensures
        end == trimmed_len(v@.take(limit as int)),
        end <= limit,
{
    let mut end: usize = limit;
    while end > 0 && (separates(v[end - 1]) || (v[end - 1] == '.' && (end == 1 || separates(
        v[end - 2],
    ))))
        invariant
            end <= limit <= v.len(),
            trimmed_len(v@.take(limit as int)) == trimmed_len(v@.take(end as int)),
        decreases end,
    {
        assert(v@.take(end as int).drop_last() == v@.take(end - 1));
        assert(v@.take(end as int).last() == v@[end - 1]);
        assert(end > 1 ==> v@.take(end as int)[end - 2] == v@[end - 2]);
        end -= 1;
    }
    proof {
        if end > 0 {
            assert(v@.take(end as int).last() == v@[end - 1]);
            assert(end > 1 ==> v@.take(end as int)[end - 2] == v@[end - 2]);
        }
    }
    end
}

/// The index at which the last segment of `v[..end]` begins.
fn segment_begin(v: &Vec<char>, end: usize) -> (start: usize)
    requires
        end <= v.len(),
    ensures
        start == segment_start(v@.take(end as int)),
        start <= end,
{
    let mut start: usize = end;
    while start > 0 && !separates(v[start - 1])
        invariant
            start <= end <= v.len(),
            segment_start(v@.take(end as int)) == segment_start(v@.take(start as int)),
        decreases start,
    {
        assert(v@.take(start as int).drop_last() == v@.take(start - 1));
        start -= 1;
    }
    start
}

/// The final segment of `path`.
pub fn base_name(path: &str) -> (r: Option<String>)
    ensures
        r.deep_view() == base_name_of(path@),
{
    let v = chars_of(path);
    let end = trimmed_end(&v, v.len());
    let start = segment_begin(&v, end);
    proof {
        assert(v@.take(v.len() as int) == v@);
        assert(v@.take(end as int).skip(start as int) == v@.subrange(start as int, end as int));
    }
    if start == end || (end - start == 2 && v[start] == '.' && v[start + 1] == '.') {
        proof {
            if start < end {
                assert(v@.subrange(start as int, end as int) == seq!['.', '.']);
            }
        }
        None
    } else {
        proof {
            let segment = v@.subrange(start as int, end as int);
            if is_dot_dot(segment) {
                assert(segment.len() == 2);
                assert(segment[0] == v@[start as int]);
                assert(segment[1] == v@[start + 1]);
            }
        }
        Some(string_of(&v, start, end))
    }
}

/// The directory that holds the final segment of `path`.
pub fn parent(path: &str) -> (r: Option<String>)
    ensures
        r.deep_view() == parent_of(path@),
{
    let v = chars_of(path);
    let end = trimmed_end(&v, v.len());
    let start = segment_begin(&v, end);
    proof {
        assert(v@.take(v.len() as int) == v@);
        assert(v@.take(end as int).take(start as int) == v@.take(start as int));
    }
    if start == end {
        None
    } else {
        let cut = trimmed_end(&v, start);
        proof {
            assert(v@.take(start as int).take(cut as int) == v@.subrange(0, cut as int));
            assert(v@.take(start as int) == v@.subrange(0, start as int));
        }
        if cut == 0 {
            Some(string_of(&v, 0, start))
        } else {
            Some(string_of(&v, 0, cut))
        }
    }
}

/// `segment` put below `base`.
pub fn join(base: &str, segment: &str) -> (r: String)
    ensures
        r@ == joined(base@, segment@),
{
    let b = chars_of(base);
    let mut r = base.to_owned();
    if b.len() > 0 && !separates(b[b.len() - 1]) {
        r.push('\\');
    }
    r.append(segment);
    r
}

} // verus!
