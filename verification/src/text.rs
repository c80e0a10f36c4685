//! Texts as sequences of characters: comparison, prefixes, and the search
//! for the first occurrence of one text in another.

use vstd::prelude::*;
use vstd::std_specs::iter::IteratorSpec;

verus! {

/// The character sequences of a list of strings, in the list's order.
pub open spec fn texts(names: Seq<String>) -> Seq<Seq<char>> {
    names.map_values(|name: String| name@)
}

/// `pattern` stands in `text` at offset `at`.
pub open spec fn occurs_at(text: Seq<char>, pattern: Seq<char>, at: int) -> bool {
    &&& 0 <= at
    &&& at + pattern.len() <= text.len()
    &&& text.subrange(at, at + pattern.len()) == pattern
}

/// `pattern` stands somewhere in `text`.
pub open spec fn occurs(text: Seq<char>, pattern: Seq<char>) -> bool {
    exists|at: int| occurs_at(text, pattern, at)
}

/// `at` is the leftmost offset at which `pattern` stands in `text`.
pub open spec fn first_occurs_at(text: Seq<char>, pattern: Seq<char>, at: int) -> bool {
    &&& occurs_at(text, pattern, at)
    &&& forall|earlier: int| 0 <= earlier < at ==> !occurs_at(text, pattern, earlier)
}

/// The part of `text` that precedes the leftmost occurrence of `pattern`;
/// all of `text` where `pattern` does not occur.
pub open spec fn before_first(text: Seq<char>, pattern: Seq<char>) -> Seq<char> {
    if occurs(text, pattern) {
        text.take(choose|at: int| first_occurs_at(text, pattern, at))
    } else {
        text
    }
}

/// A leftmost occurrence is unique, so it fixes `before_first`.
pub proof fn lemma_before_first(text: Seq<char>, pattern: Seq<char>, at: int)
    requires
        first_occurs_at(text, pattern, at),
    ensures
        occurs(text, pattern),
        before_first(text, pattern) == text.take(at),
{
    let chosen = choose|at: int| first_occurs_at(text, pattern, at);
    assert(first_occurs_at(text, pattern, chosen));
    assert(chosen == at);
}

/// Whether two strings hold the same characters.
pub fn text_eq(a: &str, b: &str) -> (same: bool)
    ensures
        same == (a@ == b@),
{
    broadcast use vstd::string::group_string_axioms;

    let mut left = a.chars();
    let mut right = b.chars();
    let ghost mut seen: int = 0;
    loop
        invariant
            0 <= seen <= a@.len(),
            seen <= b@.len(),
            left.remaining() == a@.skip(seen),
            right.remaining() == b@.skip(seen),
            a@.take(seen) == b@.take(seen),
        decreases a@.len() - seen,
    {
        match (left.next(), right.next()) {
            (None, None) => {
                proof {
                    assert(a@ =~= a@.take(seen));
                    assert(b@ =~= b@.take(seen));
                }
                return true;
            },
            (Some(c), Some(d)) => {
                if c != d {
                    assert(a@[seen] != b@[seen]);
                    return false;
                }
                proof {
                    assert(a@.take(seen + 1) =~= a@.take(seen).push(c));
                    assert(b@.take(seen + 1) =~= b@.take(seen).push(d));
                    assert(a@.skip(seen).drop_first() =~= a@.skip(seen + 1));
                    assert(b@.skip(seen).drop_first() =~= b@.skip(seen + 1));
                    seen = seen + 1;
                }
            },
            _ => {
                assert(a@.len() != b@.len());
                return false;
            },
        }
    }
}

/// Whether `text` begins with `prefix`.
pub fn starts_with(text: &str, prefix: &str) -> (found: bool)
    ensures
        found == prefix@.is_prefix_of(text@),
{
    broadcast use vstd::string::group_string_axioms;

    let mut rest = text.chars();
    let mut wanted = prefix.chars();
    let ghost mut seen: int = 0;
    loop
        invariant
            0 <= seen <= prefix@.len(),
            seen <= text@.len(),
            rest.remaining() == text@.skip(seen),
            wanted.remaining() == prefix@.skip(seen),
            text@.take(seen) == prefix@.take(seen),
        decreases prefix@.len() - seen,
    {
        match wanted.next() {
            None => {
                proof {
                    assert(prefix@ =~= prefix@.take(seen));
                    assert(text@.subrange(0, prefix@.len() as int) =~= text@.take(seen));
                }
                return true;
            },
            Some(d) => {
                match rest.next() {
                    None => {
                        return false;
                    },
                    Some(c) => {
                        if c != d {
                            assert(prefix@.len() <= text@.len() ==> text@.subrange(
                                0,
                                prefix@.len() as int,
                            )[seen] != prefix@[seen]);
                            return false;
                        }
                        proof {
                            assert(text@.take(seen + 1) =~= text@.take(seen).push(c));
                            assert(prefix@.take(seen + 1) =~= prefix@.take(seen).push(d));
                            assert(text@.skip(seen).drop_first() =~= text@.skip(seen + 1));
                            assert(prefix@.skip(seen).drop_first() =~= prefix@.skip(seen + 1));
                            seen = seen + 1;
                        }
                    },
                }
            },
        }
    }
}

/// The characters of a string, one per element.
pub fn chars_of(text: &str) -> (chars: Vec<char>)
    ensures
        chars@ == text@,
{
    let mut chars: Vec<char> = Vec::new();
    for c in it: text.chars()
        invariant
            chars@ == it.seq().take(it.index()),
    {
        chars.push(c);
    }
    chars
}

/// A copy of a list of strings.
pub fn copy_texts(list: &Vec<String>) -> (copy: Vec<String>)
    ensures
        texts(copy@) == texts(list@),
{
    let mut copy: Vec<String> = Vec::new();
    let mut i: usize = 0;
    while i < list.len()
        invariant
            i <= list.len(),
            texts(copy@) == texts(list@.take(i as int)),
        decreases list.len() - i,
    {
        let item = list[i].clone();
        proof {
            assert(list@.take(i + 1) =~= list@.take(i as int).push(list@[i as int]));
            assert(texts(copy@.push(item)) =~= texts(copy@).push(item@));
            assert(texts(list@.take(i as int).push(list@[i as int])) =~= texts(
                list@.take(i as int),
            ).push(list@[i as int]@));
        }
        copy.push(item);
        i += 1;
    }
    assert(list@.take(i as int) =~= list@);
    copy
}

/// Whether `pattern` stands in `text` at offset `at`.
fn matches_at(text: &Vec<char>, pattern: &Vec<char>, at: usize) -> (found: bool)
    requires
        at + pattern.len() <= text.len(),
    ensures
        found == occurs_at(text@, pattern@, at as int),
{
    let mut k: usize = 0;
    while k < pattern.len()
        invariant
            k <= pattern.len(),
            at + pattern.len() <= text.len(),
            forall|j: int| 0 <= j < k ==> text@[at + j] == pattern@[j],
        decreases pattern@.len() - k,
    {
        if text[at + k] != pattern[k] {
            assert(text@.subrange(at as int, at + pattern@.len())[k as int] != pattern@[k as int]);
            return false;
        }
        k += 1;
    }
    assert(text@.subrange(at as int, at + pattern@.len()) =~= pattern@);
    true
}

/// The leftmost offset at which `pattern` stands in `text`, if it stands there at all.
pub fn find_first(text: &Vec<char>, pattern: &Vec<char>) -> (found: Option<usize>)
    ensures
        match found {
            Some(at) => first_occurs_at(text@, pattern@, at as int),
            None => !occurs(text@, pattern@),
        },
{
    if pattern.len() > text.len() {
        return None;
    }
    let last: usize = text.len() - pattern.len();
    let mut at: usize = 0;
    loop
        invariant
            last == text@.len() - pattern@.len(),
            at <= last,
            forall|earlier: int| 0 <= earlier < at ==> !occurs_at(text@, pattern@, earlier),
        decreases last - at,
    {
        if matches_at(text, pattern, at) {
            return Some(at);
        }
        if at == last {
            return None;
        }
        at += 1;
    }
}

} // verus!
