//! Picking one environment out of a list by what the user typed: its number
//! in the list, counted from 1, or its name. Names are matched by their
//! keys, the lower-case forms of the names.

use crate::environment::{keys_of, name_keys, Environment, EnvironmentView};
use crate::text::{chars_of, eq_text, lowercase, lowercase_of, same_ignoring_case};
use vstd::prelude::*;

verus! {

/// A decimal digit.
pub open spec fn is_digit(c: char) -> bool {
    '0' <= c && c <= '9'
}

/// The value of a decimal digit.
pub open spec fn digit_value(c: char) -> nat {
    (c as u8 - 48) as nat
}

/// Every character of `s` is a decimal digit.
pub open spec fn all_digits(s: Seq<char>) -> bool {
    forall|i: int| 0 <= i < s.len() ==> is_digit(#[trigger] s[i])
}

/// The number that a run of digits writes, in base ten.
pub open spec fn number_of(digits: Seq<char>) -> nat
    decreases digits.len(),
{
    if digits.len() == 0 {
        0
    } else {
        number_of(digits.drop_last()) * 10 + digit_value(digits.last())
    }
}

/// What is left of `input` when one leading `+` is set aside.
pub open spec fn unsigned_part(input: Seq<char>) -> Seq<char> {
    if input.len() > 0 && input[0] == '+' {
        input.skip(1)
    } else {
        input
    }
}

/// The number that `input` writes: one or more digits, with or without a `+`
/// before them, and nothing else.
pub open spec fn number_read(input: Seq<char>) -> Option<nat> {
    let digits = unsigned_part(input);
    if digits.len() > 0 && all_digits(digits) {
        Some(number_of(digits))
    } else {
        None
    }
}

/// The index of the first key at or after `from` that is `key`.
pub open spec fn first_keyed(keys: Seq<Seq<char>>, key: Seq<char>, from: nat) -> Option<nat>
    decreases keys.len() - from,
{
    if from >= keys.len() {
        None
    } else if keys[from as int] == key {
        Some(from)
    } else {
        first_keyed(keys, key, from + 1)
    }
}

/// The index that `input` picks in a list whose entries are matched by
/// `keys`: where `input` is a number from 1 to the length of the list, the
/// place before that number; otherwise the first entry whose key is `key`.
pub open spec fn selected_by(keys: Seq<Seq<char>>, input: Seq<char>, key: Seq<char>) -> Option<
    nat,
> {
    match number_read(input) {
        Some(n) => if 1 <= n <= keys.len() {
            Some((n - 1) as nat)
        } else {
            first_keyed(keys, key, 0)
        },
        None => first_keyed(keys, key, 0),
    }
}

/// The index of the environment that `input` picks: where `input` is a number
/// from 1 to the length of the list, the one at that place; otherwise the
/// first whose name is `input` up to the case of its letters.
pub open spec fn selected(envs: Seq<EnvironmentView>, input: Seq<char>) -> Option<nat> {
    selected_by(keys_of(envs), input, lowercase_of(input))
}

/// A run of digits writes at least what any of its beginnings writes.
proof fn lemma_number_grows(digits: Seq<char>, n: int)
    requires
        0 <= n <= digits.len(),
    ensures
        number_of(digits.take(n)) <= number_of(digits),
    decreases digits.len() - n,
{
    if n == digits.len() {
        assert(digits.take(n) == digits);
    } else {
        lemma_number_grows(digits, n + 1);
        assert(digits.take(n + 1).drop_last() == digits.take(n));
    }
}

/// The number that `input` writes, where it writes one that fits.
pub fn read_number(input: &str) -> (r: Option<usize>)
    ensures
        r == (match number_read(input@) {
            Some(n) => if n <= usize::MAX {
                Some(n as usize)
            } else {
                None
            },
            None => None,
        }),
{
    let v = chars_of(input);
    let start: usize = if v.len() > 0 && v[0] == '+' {
        1
    } else {
        0
    };
    let ghost digits = unsigned_part(input@);
    assert(digits == v@.subrange(start as int, v.len() as int));
    if start == v.len() {
        return None;
    }
    let mut value: usize = 0;
    let mut i: usize = start;
    assert(digits.take(0) == Seq::<char>::empty());
    while i < v.len()
        invariant
            start <= i <= v.len(),
            digits == unsigned_part(input@),
            digits == v@.subrange(start as int, v.len() as int),
            all_digits(digits.take(i - start)),
            value == number_of(digits.take(i - start)),
        decreases v.len() - i,
    {
        let c = v[i];
        let ghost seen = digits.take(i - start);
        let ghost more = digits.take(i - start + 1);
        assert(more.drop_last() == seen);
        assert(more.last() == c);
        assert(digits[i - start] == c);
        if !('0' <= c && c <= '9') {
            assert(!is_digit(digits[i - start]));
            return None;
        }
        let digit: usize = (c as u8 - 48) as usize;
        if value > (usize::MAX - digit) / 10 {
            proof {
                assert(value * 10 + digit > usize::MAX) by (nonlinear_arith)
                    requires
                        value > (usize::MAX - digit) / 10,
                        0 <= digit <= 9,
                ;
                lemma_number_grows(digits, i - start + 1);
            }
            return None;
        }
        assert(value * 10 + digit <= usize::MAX) by (nonlinear_arith)
            requires
                value <= (usize::MAX - digit) / 10,
                0 <= digit <= 9,
        ;
        value = value * 10 + digit;
        assert(all_digits(more)) by {
            assert forall|j: int| 0 <= j < more.len() implies is_digit(#[trigger] more[j]) by {
                if j < seen.len() {
                    assert(seen[j] == more[j]);
                }
            }
        }
        i += 1;
    }
    assert(digits.take(digits.len() as int) == digits);
    Some(value)
}

/// The index that `input` picks in a list whose entries are matched by
/// `keys`, where `key` is the key of `input`.
pub fn find_by_key(keys: &Vec<String>, input: &str, key: &str) -> (r: Option<usize>)
    ensures
        match selected_by(keys.deep_view(), input@, key@) {
            Some(i) => r == Some(i as usize),
            None => r is None,
        },
        r matches Some(i) ==> i < keys.len(),
{
    match read_number(input) {
        Some(n) => {
            if n > 0 && n <= keys.len() {
                return Some(n - 1);
            }
        },
        None => {},
    }
    let mut i: usize = 0;
    assert(keys.deep_view().len() == keys.len());
    while i < keys.len()
        invariant
            i <= keys.len(),
            selected_by(keys.deep_view(), input@, key@) == first_keyed(
                keys.deep_view(),
                key@,
                i as nat,
            ),
        decreases keys.len() - i,
    {
        assert(keys.deep_view()[i as int] == keys@[i as int]@);
        if eq_text(keys[i].as_str(), key) {
            return Some(i);
        }
        i += 1;
    }
    None
}

/// The index in `envs` of the environment that `input` picks, if it picks one.
pub fn find_by_input(envs: &Vec<Environment>, input: &str) -> (r: Option<usize>)
    ensures
        match selected(envs.deep_view(), input@) {
            Some(i) => r == Some(i as usize),
            None => r is None,
        },
        r matches Some(i) ==> i < envs.len(),
{
    let keys = name_keys(envs);
    let key = lowercase(input);
    assert(keys.deep_view().len() == envs.len());
    find_by_key(&keys, input, key.as_str())
}

/// Where `input` is no number of the list, it picks by name: the entry at
/// index `i` is picked only if its name is `input` up to the case of its
/// letters, and no entry before it has such a name.
pub proof fn lemma_selected_by_name(envs: Seq<EnvironmentView>, input: Seq<char>, i: nat)
    requires
        number_read(input) matches Some(n) ==> !(1 <= n <= envs.len()),
        selected(envs, input) == Some(i),
    ensures
        i < envs.len(),
        same_ignoring_case(envs[i as int].name, input),
        forall|j: int| 0 <= j < i ==> !same_ignoring_case(envs[j].name, input),
{
    let keys = keys_of(envs);
    lemma_first_keyed(keys, lowercase_of(input), 0, i);
    assert forall|j: int| 0 <= j < i implies !same_ignoring_case(envs[j].name, input) by {
        assert(keys[j] == lowercase_of(envs[j].name));
    }
}

/// The first key from `from` on that is `key` stands at the index that
/// `first_keyed` gives, and none before it is `key`.
proof fn lemma_first_keyed(keys: Seq<Seq<char>>, key: Seq<char>, from: nat, i: nat)
    requires
        first_keyed(keys, key, from) == Some(i),
    ensures
        from <= i < keys.len(),
        keys[i as int] == key,
        forall|j: int| from <= j < i ==> keys[j] != key,
    decreases keys.len() - from,
{
    if from < keys.len() && keys[from as int] != key {
        lemma_first_keyed(keys, key, from + 1, i);
    }
}

} // verus!
