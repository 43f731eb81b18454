//! Text operations: substring search and replacement, ASCII case folding
//! for the search of plain words, and the comparison of names without regard
//! to case, each with an exact specification over `Seq<char>`.

use vstd::prelude::*;

verus! {

/// The ASCII lower-case form of a character; every other character is itself.
pub open spec fn lower(c: char) -> char {
    if 'A' <= c && c <= 'Z' {
        ((c as u8) + 32) as char
    } else {
        c
    }
}

/// A text with every character folded to ASCII lower case.
pub open spec fn folded(s: Seq<char>) -> Seq<char> {
    Seq::new(s.len(), |i: int| lower(s[i]))
}

/// The lower-case form of a text as Unicode defines it for every letter, of
/// whatever script: what `str::to_lowercase` of the standard library gives.
pub uninterp spec fn lowercase_of(s: Seq<char>) -> Seq<char>;

/// Two texts are the same up to the case of their letters: their lower-case
/// forms are the same text.
pub open spec fn same_ignoring_case(a: Seq<char>, b: Seq<char>) -> bool {
    lowercase_of(a) == lowercase_of(b)
}

/// `needle` stands in `hay` at index `at`.
pub open spec fn occurs_at(hay: Seq<char>, needle: Seq<char>, at: int) -> bool {
    &&& 0 <= at
    &&& at + needle.len() <= hay.len()
    &&& hay.subrange(at, at + needle.len()) == needle
}

/// `needle` is a contiguous part of `hay`.
pub open spec fn occurs_in(hay: Seq<char>, needle: Seq<char>) -> bool {
    exists|at: int| occurs_at(hay, needle, at)
}

/// `text` with every occurrence of `pattern` replaced by `with`, scanning from
/// the left and never looking again at what was already replaced. An empty
/// pattern replaces nothing.
pub open spec fn replaced(text: Seq<char>, pattern: Seq<char>, with: Seq<char>) -> Seq<char>
    decreases text.len(),
{
    if pattern.len() == 0 || text.len() < pattern.len() {
        text
    } else if text.take(pattern.len() as int) == pattern {
        with + replaced(text.skip(pattern.len() as int), pattern, with)
    } else {
        seq![text[0]] + replaced(text.skip(1), pattern, with)
    }
}

/// `String::push` of the standard library: the string afterwards is the string
/// before with `ch` as one more character at its end.
pub assume_specification[ String::push ](s: &mut String, ch: char)
    ensures
        final(s)@ == old(s)@.push(ch),
;

/// Folds one character to ASCII lower case.
pub fn to_lower(c: char) -> (r: char)
    ensures
        r == lower(c),
{
    if 'A' <= c && c <= 'Z' {
        ((c as u8) + 32) as char
    } else {
        c
    }
}

/// The characters of a string, in order.
pub fn chars_of(s: &str) -> (v: Vec<char>)
    ensures
        v@ == s@,
{
    let mut v: Vec<char> = Vec::new();
    for c in it: s.chars()
        invariant
            it.seq() == s@,
            v@ == it.seq().take(it.index() as int),
    {
        v.push(c);
    }
    assert(v@ == s@);
    v
}

/// The string made of the characters `v[from..to]`.
pub fn string_of(v: &Vec<char>, from: usize, to: usize) -> (s: String)
    requires
        from <= to <= v.len(),
    ensures
        s@ == v@.subrange(from as int, to as int),
{
    let mut s = String::new();
    let mut i: usize = from;
    while i < to
        invariant
            from <= i <= to <= v.len(),
            s@ == v@.subrange(from as int, i as int),
        decreases to - i,
    {
        s.push(v[i]);
        i += 1;
        assert(s@ == v@.subrange(from as int, i as int));
    }
    s
}

/// The characters of `v`, each folded to ASCII lower case.
pub fn fold_chars(v: &Vec<char>) -> (r: Vec<char>)
    ensures
        r@ == folded(v@),
{
    let mut r: Vec<char> = Vec::new();
    let mut i: usize = 0;
    while i < v.len()
        invariant
            i <= v.len(),
            r@ == folded(v@.take(i as int)),
        decreases v.len() - i,
    {
        r.push(to_lower(v[i]));
        i += 1;
        assert(r@ == folded(v@.take(i as int)));
    }
    assert(v@.take(v.len() as int) == v@);
    r
}

/// Whether `needle` stands in `hay` at index `at`.
pub fn stands_at(hay: &Vec<char>, needle: &Vec<char>, at: usize) -> (r: bool)
    requires
        at + needle.len() <= hay.len(),
    ensures
        r == occurs_at(hay@, needle@, at as int),
{
    let mut k: usize = 0;
    while k < needle.len()
        invariant
            k <= needle.len(),
            at + needle.len() <= hay.len(),
            forall|j: int| 0 <= j < k ==> hay@[at + j] == needle@[j],
        decreases needle.len() - k,
    {
        if hay[at + k] != needle[k] {
            assert(hay@.subrange(at as int, at + needle.len())[k as int] != needle@[k as int]);
            return false;
        }
        k += 1;
    }
    assert(hay@.subrange(at as int, at + needle.len()) == needle@);
    true
}

/// The first index at which `needle` stands in `hay`, if it stands anywhere.
pub fn find(hay: &Vec<char>, needle: &Vec<char>) -> (r: Option<usize>)
    ensures
        r is Some <==> occurs_in(hay@, needle@),
        r matches Some(at) ==> occurs_at(hay@, needle@, at as int) && forall|j: int|
            0 <= j < at ==> !occurs_at(hay@, needle@, j),
{
    if needle.len() > hay.len() {
        return None;
    }
    let last: usize = hay.len() - needle.len();
    let mut at: usize = 0;
    loop
        invariant
            at <= last,
            last == hay.len() - needle.len(),
            needle.len() <= hay.len(),
            forall|j: int| 0 <= j < at ==> !occurs_at(hay@, needle@, j),
        decreases last - at,
    {
        if stands_at(hay, needle, at) {
            return Some(at);
        }
        if at == last {
            return None;
        }
        at += 1;
    }
}

/// Whether `needle` is a contiguous part of `hay`.
pub fn contains(hay: &str, needle: &str) -> (r: bool)
    ensures
        r == occurs_in(hay@, needle@),
{
    let h = chars_of(hay);
    let n = chars_of(needle);
    find(&h, &n).is_some()
}

/// Whether `needle` is a contiguous part of `hay` once `hay` is folded to
/// ASCII lower case.
pub fn contains_folded(hay: &str, needle: &str) -> (r: bool)
    ensures
        r == occurs_in(folded(hay@), needle@),
{
    let h = fold_chars(&chars_of(hay));
    let n = chars_of(needle);
    find(&h, &n).is_some()
}

/// `str::to_lowercase` of the standard library: the result is the lower-case
/// form of `s`, which depends on `s` alone. Nothing more is claimed of it.
#[verifier::external_body]
pub(crate) fn lowercase(s: &str) -> (r: String)
    ensures
        r@ == lowercase_of(s@),
{
    s.to_lowercase()
}

/// Whether two texts are the same up to the case of their letters. Both are
/// brought to lower case, and the two lower-case texts are compared as
/// `eq_text` compares them.
pub fn eq_ignoring_case(a: &str, b: &str) -> (r: bool)
    ensures
        r == same_ignoring_case(a@, b@),
{
    let x = lowercase(a);
    let y = lowercase(b);
    eq_text(x.as_str(), y.as_str())
}

/// Whether two texts are the same, character for character.
pub fn eq_text(a: &str, b: &str) -> (r: bool)
    ensures
        r == (a@ == b@),
{
    let x = chars_of(a);
    let y = chars_of(b);
    if x.len() != y.len() {
        return false;
    }
    let mut i: usize = 0;
    while i < x.len()
        invariant
            i <= x.len(),
            x.len() == y.len(),
            x@ == a@,
            y@ == b@,
            forall|j: int| 0 <= j < i ==> x@[j] == y@[j],
        decreases x.len() - i,
    {
        if x[i] != y[i] {
            return false;
        }
        i += 1;
    }
    assert(x@ == y@);
    true
}

/// `text` with every occurrence of `pattern` replaced by `with`.
pub fn replace(text: &str, pattern: &str, with: &str) -> (r: String)
    ensures
        r@ == replaced(text@, pattern@, with@),
{
    let t = chars_of(text);
    let p = chars_of(pattern);
    let mut out = String::new();
    if p.len() == 0 {
        return text.to_owned();
    }
    let mut i: usize = 0;
    assert(t@.skip(0) == t@);
    assert(out@ + replaced(t@, pattern@, with@) == replaced(t@, pattern@, with@));
    while i < t.len()
        invariant
            i <= t.len(),
            p.len() > 0,
            t@ == text@,
            p@ == pattern@,
            replaced(text@, pattern@, with@) == out@ + replaced(
                t@.skip(i as int),
                pattern@,
                with@,
            ),
        decreases t.len() - i,
    {
        let ghost rest = t@.skip(i as int);
        if t.len() - i >= p.len() && stands_at(&t, &p, i) {
            assert(rest.take(p.len() as int) == t@.subrange(i as int, i + p.len()));
            assert(rest.skip(p.len() as int) == t@.skip(i + p.len()));
            out.append(with);
            i += p.len();
        } else {
            if t.len() - i >= p.len() {
                assert(rest.take(p.len() as int) == t@.subrange(i as int, i + p.len()));
            }
            assert(rest.skip(1) == t@.skip(i + 1));
            proof {
                if rest.len() < p.len() {
                    lemma_replaced_short(rest, pattern@, with@);
                }
            }
            out.push(t[i]);
            i += 1;
        }
    }
    assert(t@.skip(t.len() as int) == Seq::<char>::empty());
    out
}

/// A text shorter than the pattern is left as it is, also when it is taken
/// apart character by character.
proof fn lemma_replaced_short(text: Seq<char>, pattern: Seq<char>, with: Seq<char>)
    requires
        0 < text.len() < pattern.len(),
    ensures
        replaced(text, pattern, with) == seq![text[0]] + replaced(text.skip(1), pattern, with),
{
    assert(replaced(text.skip(1), pattern, with) == text.skip(1));
    assert(seq![text[0]] + text.skip(1) == text);
}

} // verus!
