//! Searching and trimming text, over sequences of characters.

use vstd::prelude::*;
use vstd::string::*;

verus! {

/// `pattern` stands in `text` at the place `at`.
pub open spec fn occurs_at(text: Seq<char>, pattern: Seq<char>, at: int) -> bool {
    &&& 0 <= at
    &&& at + pattern.len() <= text.len()
    &&& text.subrange(at, at + pattern.len()) == pattern
}

/// `pattern` stands somewhere in `text`, at the place `from` or after it.
pub open spec fn occurs_from(text: Seq<char>, pattern: Seq<char>, from: int) -> bool {
    exists|at: int| from <= at && occurs_at(text, pattern, at)
}

/// `pattern` stands somewhere in `text`.
pub open spec fn occurs(text: Seq<char>, pattern: Seq<char>) -> bool {
    occurs_from(text, pattern, 0)
}

/// `at` is the first place at or after `from` where `pattern` stands in
/// `text`.
pub open spec fn is_first_occurrence(text: Seq<char>, pattern: Seq<char>, from: int, at: int) -> bool {
    &&& from <= at
    &&& occurs_at(text, pattern, at)
    &&& forall|earlier: int| from <= earlier < at ==> !occurs_at(text, pattern, earlier)
}

/// The first place at or after `from` where `pattern` stands in `text`.
/// It means something only where `occurs_from(text, pattern, from)`.
pub open spec fn first_occurrence(text: Seq<char>, pattern: Seq<char>, from: int) -> int {
    choose|at: int| is_first_occurrence(text, pattern, from, at)
}

/// Among the places from `from` up to an occurrence at `last`, one is the first.
proof fn lemma_first_occurrence_exists(text: Seq<char>, pattern: Seq<char>, from: int, last: int)
    requires
        from <= last,
        occurs_at(text, pattern, last),
    ensures
        exists|at: int| is_first_occurrence(text, pattern, from, at),
    decreases last - from,
{
    if exists|earlier: int| from <= earlier < last && occurs_at(text, pattern, earlier) {
        let earlier = choose|earlier: int|
            from <= earlier < last && occurs_at(text, pattern, earlier);
        lemma_first_occurrence_exists(text, pattern, from, earlier);
    } else {
        assert(is_first_occurrence(text, pattern, from, last));
    }
}

/// Where the pattern occurs, `first_occurrence` is the first place.
pub proof fn lemma_first_occurrence(text: Seq<char>, pattern: Seq<char>, from: int)
    requires
        occurs_from(text, pattern, from),
    ensures
        is_first_occurrence(text, pattern, from, first_occurrence(text, pattern, from)),
{
    let last = choose|at: int| from <= at && occurs_at(text, pattern, at);
    lemma_first_occurrence_exists(text, pattern, from, last);
}

/// There is one first place only.
pub proof fn lemma_first_occurrence_unique(text: Seq<char>, pattern: Seq<char>, from: int, at: int)
    requires
        is_first_occurrence(text, pattern, from, at),
    ensures
        occurs_from(text, pattern, from),
        first_occurrence(text, pattern, from) == at,
{
    let chosen = first_occurrence(text, pattern, from);
    assert(is_first_occurrence(text, pattern, from, chosen));
    if chosen < at {
        assert(!occurs_at(text, pattern, chosen));
    }
    if at < chosen {
        assert(!occurs_at(text, pattern, at));
    }
}

/// An occurrence that lies within a part of the text is an occurrence in
/// that part.
pub proof fn lemma_occurs_in_part(
    text: Seq<char>,
    pattern: Seq<char>,
    at: int,
    from: int,
    to: int,
)
    requires
        occurs_at(text, pattern, at),
        0 <= from <= at,
        at + pattern.len() <= to <= text.len(),
    ensures
        occurs_at(text.subrange(from, to), pattern, at - from),
{
    assert(text.subrange(from, to).subrange(at - from, at - from + pattern.len())
        =~= text.subrange(at, at + pattern.len()));
}

/// The characters with the Unicode property `White_Space`.
pub open spec fn is_whitespace(c: char) -> bool {
    ||| '\u{9}' <= c <= '\u{d}'
    ||| c == ' '
    ||| c == '\u{85}'
    ||| c == '\u{a0}'
    ||| c == '\u{1680}'
    ||| '\u{2000}' <= c <= '\u{200a}'
    ||| c == '\u{2028}'
    ||| c == '\u{2029}'
    ||| c == '\u{202f}'
    ||| c == '\u{205f}'
    ||| c == '\u{3000}'
}

/// How many whitespace characters `text` begins with.
pub open spec fn leading_whitespace(text: Seq<char>) -> nat
    decreases text.len(),
{
    if text.len() > 0 && is_whitespace(text.first()) {
        1 + leading_whitespace(text.drop_first())
    } else {
        0
    }
}

/// How many whitespace characters `text` ends with.
pub open spec fn trailing_whitespace(text: Seq<char>) -> nat
    decreases text.len(),
{
    if text.len() > 0 && is_whitespace(text.last()) {
        1 + trailing_whitespace(text.drop_last())
    } else {
        0
    }
}

/// `text` without the whitespace it begins with and ends with.
pub open spec fn trimmed(text: Seq<char>) -> Seq<char> {
    let rest = text.skip(leading_whitespace(text) as int);
    rest.take(rest.len() - trailing_whitespace(rest))
}

/// `text` neither begins nor ends with whitespace.
pub open spec fn is_trimmed(text: Seq<char>) -> bool {
    text.len() > 0 ==> !is_whitespace(text.first()) && !is_whitespace(text.last())
}

proof fn lemma_leading_whitespace_ends(text: Seq<char>)
    ensures
        leading_whitespace(text) <= text.len(),
        leading_whitespace(text) < text.len() ==> !is_whitespace(
            text[leading_whitespace(text) as int],
        ),
    decreases text.len(),
{
    if text.len() > 0 && is_whitespace(text.first()) {
        lemma_leading_whitespace_ends(text.drop_first());
    }
}

proof fn lemma_trailing_whitespace_ends(text: Seq<char>)
    ensures
        trailing_whitespace(text) <= text.len(),
        trailing_whitespace(text) < text.len() ==> !is_whitespace(
            text[text.len() - 1 - trailing_whitespace(text)],
        ),
    decreases text.len(),
{
    if text.len() > 0 && is_whitespace(text.last()) {
        lemma_trailing_whitespace_ends(text.drop_last());
    }
}

/// What is left after trimming neither begins nor ends with whitespace.
pub proof fn lemma_trimmed_is_trimmed(text: Seq<char>)
    ensures
        is_trimmed(trimmed(text)),
{
    lemma_leading_whitespace_ends(text);
    let rest = text.skip(leading_whitespace(text) as int);
    lemma_trailing_whitespace_ends(rest);
}

proof fn lemma_leading_whitespace_skips(before: Seq<char>, rest: Seq<char>)
    requires
        forall|i: int| 0 <= i < before.len() ==> is_whitespace(before[i]),
    ensures
        leading_whitespace(before + rest) == before.len() + leading_whitespace(rest),
    decreases before.len(),
{
    if before.len() == 0 {
        assert(before + rest =~= rest);
    } else {
        assert((before + rest).drop_first() =~= before.drop_first() + rest);
        lemma_leading_whitespace_skips(before.drop_first(), rest);
    }
}

proof fn lemma_trailing_whitespace_skips(rest: Seq<char>, after: Seq<char>)
    requires
        forall|i: int| 0 <= i < after.len() ==> is_whitespace(after[i]),
    ensures
        trailing_whitespace(rest + after) == after.len() + trailing_whitespace(rest),
    decreases after.len(),
{
    if after.len() == 0 {
        assert(rest + after =~= rest);
    } else {
        assert((rest + after).drop_last() =~= rest + after.drop_last());
        lemma_trailing_whitespace_skips(rest, after.drop_last());
    }
}

/// Trimming takes away the whitespace that was put around a text which
/// itself neither begins nor ends with whitespace.
pub proof fn lemma_trimmed_padded(before: Seq<char>, text: Seq<char>, after: Seq<char>)
    requires
        forall|i: int| 0 <= i < before.len() ==> is_whitespace(before[i]),
        forall|i: int| 0 <= i < after.len() ==> is_whitespace(after[i]),
        is_trimmed(text),
    ensures
        trimmed(before + text + after) == text,
{
    let whole = before + text + after;
    if text.len() == 0 {
        let empty = Seq::<char>::empty();
        assert(whole + empty =~= whole);
        lemma_leading_whitespace_skips(whole, empty);
        assert(trimmed(whole) =~= text);
    } else {
        assert(whole =~= before + (text + after));
        lemma_leading_whitespace_skips(before, text + after);
        let rest = whole.skip(before.len() as int);
        assert(rest =~= text + after);
        lemma_trailing_whitespace_skips(text, after);
        assert(trimmed(whole) =~= text);
    }
}

/// The characters of a string, one by one.
pub fn chars_of(s: &str) -> (chars: Vec<char>)
    ensures
        chars@ == s@,
{
    let mut chars: Vec<char> = Vec::new();
    for c in it: s.chars()
        invariant
            chars@ == it.seq().take(it.index() as int),
    {
        chars.push(c);
    }
    chars
}

/// Whether the character is whitespace.
pub fn char_is_whitespace(c: char) -> (white: bool)
    ensures
        white == is_whitespace(c),
{
    ('\u{9}' <= c && c <= '\u{d}') || c == ' ' || c == '\u{85}' || c == '\u{a0}' || c
        == '\u{1680}' || ('\u{2000}' <= c && c <= '\u{200a}') || c == '\u{2028}' || c
        == '\u{2029}' || c == '\u{202f}' || c == '\u{205f}' || c == '\u{3000}'
}

/// Whether `pattern` stands in `text` at the place `at`.
fn matches_at(text: &[char], pattern: &[char], at: usize) -> (found: bool)
    requires
        at + pattern@.len() <= text@.len(),
    ensures
        found == occurs_at(text@, pattern@, at as int),
{
    let length: usize = text.len();
    let mut k: usize = 0;
    while k < pattern.len()
        invariant
            k <= pattern@.len(),
            at + pattern@.len() <= text@.len() == length,
            forall|j: int| 0 <= j < k ==> text@[at + j] == pattern@[j],
        decreases pattern@.len() - k,
    {
        if text[at + k] != pattern[k] {
            proof {
                let part = text@.subrange(at as int, at + pattern@.len());
                assert(part[k as int] == text@[at + k]);
            }
            return false;
        }
        k += 1;
    }
    proof {
        assert(text@.subrange(at as int, at + pattern@.len()) =~= pattern@);
    }
    true
}

/// The first place at or after `from` where `pattern` stands in `text`.
pub fn find(text: &[char], pattern: &[char], from: usize) -> (found: Option<usize>)
    ensures
        match found {
            Some(at) => is_first_occurrence(text@, pattern@, from as int, at as int),
            None => !occurs_from(text@, pattern@, from as int),
        },
{
    if from > text.len() || pattern.len() > text.len() - from {
        return None;
    }
    let last: usize = text.len() - pattern.len();
    let mut at: usize = from;
    loop
        invariant
            from <= at <= last,
            last + pattern@.len() == text@.len(),
            forall|earlier: int| from <= earlier < at ==> !occurs_at(text@, pattern@, earlier),
        decreases last - at,
    {
        if matches_at(text, pattern, at) {
            return Some(at);
        }
        if at == last {
            return None;
        }
        at += 1;
    }
}

/// The part of `text` between `from` and `to` without the whitespace
/// around it, as the places where it begins and ends.
pub(crate) fn trim_bounds(text: &[char], from: usize, to: usize) -> (bounds: (usize, usize))
    requires
        from <= to <= text@.len(),
    ensures
        from <= bounds.0 <= bounds.1 <= to,
        text@.subrange(bounds.0 as int, bounds.1 as int) == trimmed(
            text@.subrange(from as int, to as int),
        ),
{
    let ghost part = text@.subrange(from as int, to as int);
    let mut begin: usize = from;
    proof {
        assert(part.skip(0) =~= part);
    }
    while begin < to && char_is_whitespace(text[begin])
        invariant
            from <= begin <= to <= text@.len(),
            part == text@.subrange(from as int, to as int),
            leading_whitespace(part) == (begin - from) + leading_whitespace(
                part.skip(begin - from),
            ),
        decreases to - begin,
    {
        proof {
            assert(part.skip(begin - from).drop_first() =~= part.skip(begin - from + 1));
        }
        begin += 1;
    }
    let ghost rest = part.skip(begin - from);
    let mut end: usize = to;
    proof {
        assert(leading_whitespace(rest) == 0);
        assert(rest.take(rest.len() as int) =~= rest);
    }
    while end > begin && char_is_whitespace(text[end - 1])
        invariant
            from <= begin <= end <= to <= text@.len(),
            part == text@.subrange(from as int, to as int),
            rest == part.skip(begin - from),
            trailing_whitespace(rest) == (to - end) + trailing_whitespace(
                rest.take(end - begin),
            ),
        decreases end - begin,
    {
        proof {
            assert(rest.take(end - begin).drop_last() =~= rest.take(end - begin - 1));
        }
        end -= 1;
    }
    proof {
        assert(trailing_whitespace(rest.take(end - begin)) == 0);
        assert(text@.subrange(begin as int, end as int) =~= rest.take(
            rest.len() - trailing_whitespace(rest),
        ));
    }
    (begin, end)
}

} // verus!
