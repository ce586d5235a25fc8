//! Searching and rewriting of text, stated over sequences of characters.

use vstd::prelude::*;

verus! {

/// `pattern` stands in `text` at index `at`.
pub open spec fn occurs_at(text: Seq<char>, pattern: Seq<char>, at: int) -> bool {
    &&& 0 <= at
    &&& at + pattern.len() <= text.len()
    &&& text.subrange(at, at + pattern.len()) == pattern
}

/// `pattern` stands somewhere in `text`.
pub open spec fn contains(text: Seq<char>, pattern: Seq<char>) -> bool {
    exists|at: int| occurs_at(text, pattern, at)
}

/// The index of the leftmost occurrence of `pattern` in `text` that starts at
/// `from` or later.
pub open spec fn first_occurrence(text: Seq<char>, pattern: Seq<char>, from: int) -> Option<int>
    decreases text.len() + 1 - from,
{
    if from < 0 || from + pattern.len() > text.len() {
        None
    } else if occurs_at(text, pattern, from) {
        Some(from)
    } else {
        first_occurrence(text, pattern, from + 1)
    }
}

/// `text` with its leftmost occurrence of `pattern` replaced; `text` itself
/// where there is none.
pub open spec fn replaced_first(
    text: Seq<char>,
    pattern: Seq<char>,
    replacement: Seq<char>,
) -> Seq<char> {
    match first_occurrence(text, pattern, 0) {
        Some(at) => text.subrange(0, at) + replacement + text.subrange(
            at + pattern.len(),
            text.len() as int,
        ),
        None => text,
    }
}

/// `text` with every occurrence of `pattern` replaced, found from left to
/// right without overlap. An empty pattern is found before every character and
/// at the end.
pub open spec fn replaced_all(
    text: Seq<char>,
    pattern: Seq<char>,
    replacement: Seq<char>,
) -> Seq<char>
    decreases text.len(),
{
    if pattern.len() == 0 {
        if text.len() == 0 {
            replacement
        } else {
            replacement + seq![text[0]] + replaced_all(text.skip(1), pattern, replacement)
        }
    } else if text.len() < pattern.len() {
        text
    } else if occurs_at(text, pattern, 0) {
        replacement + replaced_all(text.skip(pattern.len() as int), pattern, replacement)
    } else {
        seq![text[0]] + replaced_all(text.skip(1), pattern, replacement)
    }
}

/// The decimal digit that stands for `d`.
pub open spec fn digit(d: nat) -> char {
    if d == 0 {
        '0'
    } else if d == 1 {
        '1'
    } else if d == 2 {
        '2'
    } else if d == 3 {
        '3'
    } else if d == 4 {
        '4'
    } else if d == 5 {
        '5'
    } else if d == 6 {
        '6'
    } else if d == 7 {
        '7'
    } else if d == 8 {
        '8'
    } else {
        '9'
    }
}

/// `n` written in decimal, without leading zeros.
pub open spec fn decimal_digits(n: nat) -> Seq<char>
    decreases n,
{
    if n < 10 {
        seq![digit(n)]
    } else {
        decimal_digits(n / 10).push(digit(n % 10))
    }
}

/// The view of an optional string.
pub open spec fn text_of(s: Option<String>) -> Option<Seq<char>> {
    match s {
        Some(s) => Some(s@),
        None => None,
    }
}

/// The views of a list of strings.
pub open spec fn texts(strings: Seq<String>) -> Seq<Seq<char>> {
    strings.map_values(|s: String| s@)
}

/// `parts` written one after another with `separator` between them.
pub open spec fn joined(parts: Seq<Seq<char>>, separator: char) -> Seq<char>
    decreases parts.len(),
{
    if parts.len() == 0 {
        Seq::empty()
    } else if parts.len() == 1 {
        parts[0]
    } else {
        joined(parts.drop_last(), separator) + seq![separator] + parts.last()
    }
}

/// What `first_occurrence` finds is an occurrence, and the leftmost one from
/// `from` on; where it finds none there is none.
pub proof fn lemma_first_occurrence(text: Seq<char>, pattern: Seq<char>, from: int)
    requires
        0 <= from,
    ensures
        match first_occurrence(text, pattern, from) {
            Some(at) => {
                &&& from <= at
                &&& occurs_at(text, pattern, at)
                &&& forall|k: int| from <= k < at ==> !occurs_at(text, pattern, k)
            },
            None => forall|k: int| from <= k ==> !occurs_at(text, pattern, k),
        },
    decreases text.len() + 1 - from,
{
    if from + pattern.len() > text.len() {
    } else if occurs_at(text, pattern, from) {
    } else {
        lemma_first_occurrence(text, pattern, from + 1);
    }
}

/// The characters of `s`, in order.
pub fn to_chars(s: &str) -> (chars: Vec<char>)
    ensures
        chars@ == s@,
{
    let mut chars: Vec<char> = Vec::new();
    for c in it: s.chars()
        invariant
            it.seq() == s@,
            chars@ == s@.take(it.index() as int),
    {
        chars.push(c);
    }
    chars
}

/// Whether `pattern` stands in `text` at index `at`.
pub fn matches_at(text: &Vec<char>, pattern: &Vec<char>, at: usize) -> (hit: bool)
    ensures
        hit == occurs_at(text@, pattern@, at as int),
{
    if pattern.len() > text.len() || at > text.len() - pattern.len() {
        return false;
    }
    let mut j: usize = 0;
    while j < pattern.len()
        invariant
            j <= pattern.len(),
            at + pattern.len() <= text.len(),
            forall|k: int| 0 <= k < j ==> text@[at + k] == pattern@[k],
        decreases pattern.len() - j,
    {
        if text[at + j] != pattern[j] {
            assert(text@.subrange(at as int, at + pattern.len())[j as int] != pattern@[j as int]);
            return false;
        }
        j += 1;
    }
    assert(text@.subrange(at as int, at + pattern.len()) =~= pattern@);
    true
}

/// The index of the leftmost occurrence of `pattern` in `text` that starts at
/// `from` or later.
pub fn find(text: &Vec<char>, pattern: &Vec<char>, from: usize) -> (found: Option<usize>)
    ensures
        match found {
            Some(at) => first_occurrence(text@, pattern@, from as int) == Some(at as int),
            None => first_occurrence(text@, pattern@, from as int) is None,
        },
{
    if pattern.len() > text.len() {
        return None;
    }
    let last: usize = text.len() - pattern.len();
    let mut at: usize = from;
    while at <= last
        invariant
            from <= at,
            last == text.len() - pattern.len(),
            first_occurrence(text@, pattern@, from as int) == first_occurrence(
                text@,
                pattern@,
                at as int,
            ),
        decreases last - at,
    {
        if matches_at(text, pattern, at) {
            return Some(at);
        }
        if at == last {
            assert(first_occurrence(text@, pattern@, at + 1) is None);
            return None;
        }
        at += 1;
    }
    None
}

/// `text` with its leftmost occurrence of `pattern` replaced by `replacement`.
pub fn replace_first(text: &str, pattern: &str, replacement: &str) -> (out: String)
    ensures
        out@ == replaced_first(text@, pattern@, replacement@),
{
    let chars = to_chars(text);
    let wanted = to_chars(pattern);
    match find(&chars, &wanted, 0) {
        None => text.to_owned(),
        Some(at) => {
            proof {
                lemma_first_occurrence(text@, pattern@, 0);
                assert(occurs_at(text@, pattern@, at as int));
            }
            let end: usize = chars.len();
            let after: usize = at + wanted.len();
            let mut out = text.substring_char(0, at).to_owned();
            out.append(replacement);
            out.append(text.substring_char(after, end));
            out
        },
    }
}

/// `text` with every occurrence of `pattern` replaced by `replacement`.
pub fn replace_all(text: &str, pattern: &str, replacement: &str) -> (out: String)
    ensures
        out@ == replaced_all(text@, pattern@, replacement@),
{
    let chars = to_chars(text);
    let wanted = to_chars(pattern);
    let n: usize = chars.len();
    let m: usize = wanted.len();
    let mut out = String::new();
    proof {
        assert(text@.skip(0) =~= text@);
        assert(out@ + text@.subrange(0, 0) =~= Seq::<char>::empty());
        assert(Seq::<char>::empty() + replaced_all(text@, pattern@, replacement@)
            =~= replaced_all(text@, pattern@, replacement@));
    }
    if m == 0 {
        let mut i: usize = 0;
        while i < n
            invariant
                i <= n,
                n == text@.len(),
                pattern@.len() == 0,
                replaced_all(text@, pattern@, replacement@) == out@ + replaced_all(
                    text@.skip(i as int),
                    pattern@,
                    replacement@,
                ),
            decreases n - i,
        {
            proof {
                let rest = text@.skip(i as int);
                assert(rest[0] == text@[i as int]);
                assert(rest.skip(1) =~= text@.skip(i + 1));
                assert(text@.subrange(i as int, i + 1) =~= seq![text@[i as int]]);
                assert(out@ + (replacement@ + seq![rest[0]] + replaced_all(
                    rest.skip(1),
                    pattern@,
                    replacement@,
                )) =~= out@ + replacement@ + text@.subrange(i as int, i + 1) + replaced_all(
                    text@.skip(i + 1),
                    pattern@,
                    replacement@,
                ));
            }
            out.append(replacement);
            out.append(text.substring_char(i, i + 1));
            i += 1;
        }
        out.append(replacement);
        return out;
    }
    let mut copied: usize = 0;
    let mut at: usize = 0;
    while at < n && n - at >= m
        invariant
            copied <= at <= n,
            n == text@.len(),
            m == pattern@.len(),
            m > 0,
            chars@ == text@,
            wanted@ == pattern@,
            replaced_all(text@, pattern@, replacement@) == out@ + text@.subrange(
                copied as int,
                at as int,
            ) + replaced_all(text@.skip(at as int), pattern@, replacement@),
        decreases n - at,
    {
        let ghost rest = text@.skip(at as int);
        proof {
            assert(rest.subrange(0, m as int) =~= text@.subrange(at as int, at + m));
        }
        if matches_at(&chars, &wanted, at) {
            proof {
                assert(occurs_at(rest, pattern@, 0));
                assert(rest.skip(m as int) =~= text@.skip(at + m));
                assert(text@.subrange(at + m, at + m) =~= Seq::<char>::empty());
                assert(out@ + text@.subrange(copied as int, at as int) + (replacement@
                    + replaced_all(rest.skip(m as int), pattern@, replacement@)) =~= out@
                    + text@.subrange(copied as int, at as int) + replacement@ + text@.subrange(
                    at + m,
                    at + m,
                ) + replaced_all(text@.skip(at + m), pattern@, replacement@));
            }
            out.append(text.substring_char(copied, at));
            out.append(replacement);
            at += m;
            copied = at;
        } else {
            proof {
                assert(!occurs_at(rest, pattern@, 0));
                assert(rest.skip(1) =~= text@.skip(at + 1));
                assert(out@ + text@.subrange(copied as int, at as int) + (seq![rest[0]]
                    + replaced_all(rest.skip(1), pattern@, replacement@)) =~= out@
                    + text@.subrange(copied as int, at + 1) + replaced_all(
                    text@.skip(at + 1),
                    pattern@,
                    replacement@,
                ));
            }
            at += 1;
        }
    }
    proof {
        let rest = text@.skip(at as int);
        assert(replaced_all(rest, pattern@, replacement@) == rest);
        assert(text@.subrange(copied as int, at as int) + rest =~= text@.subrange(
            copied as int,
            n as int,
        ));
    }
    out.append(text.substring_char(copied, n));
    out
}

/// The text of one decimal digit.
fn digit_text(d: u8) -> (text: &'static str)
    requires
        d < 10,
    ensures
        text@ == seq![digit(d as nat)],
{
    proof {
        reveal_strlit("0");
        reveal_strlit("1");
        reveal_strlit("2");
        reveal_strlit("3");
        reveal_strlit("4");
        reveal_strlit("5");
        reveal_strlit("6");
        reveal_strlit("7");
        reveal_strlit("8");
        reveal_strlit("9");
    }
    let text = if d == 0 {
        "0"
    } else if d == 1 {
        "1"
    } else if d == 2 {
        "2"
    } else if d == 3 {
        "3"
    } else if d == 4 {
        "4"
    } else if d == 5 {
        "5"
    } else if d == 6 {
        "6"
    } else if d == 7 {
        "7"
    } else if d == 8 {
        "8"
    } else {
        "9"
    };
    assert(text@ =~= seq![digit(d as nat)]);
    text
}

/// `n` written in decimal, without leading zeros.
pub fn decimal(n: u128) -> (text: String)
    ensures
        text@ == decimal_digits(n as nat),
    decreases n,
{
    if n < 10 {
        digit_text(n as u8).to_owned()
    } else {
        let mut text = decimal(n / 10);
        text.append(digit_text((n % 10) as u8));
        text
    }
}

} // verus!
