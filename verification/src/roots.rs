//! The directories to scan, written as one text with `:` between them.

use crate::text::{joined, texts, to_chars};
use vstd::prelude::*;

verus! {

/// What stands between two directories in a list of directories.
pub const ROOT_SEPARATOR: char = ':';

/// Lengthening the last part by a character lengthens the joined text by it.
proof fn lemma_joined_grows(parts: Seq<Seq<char>>, last: Seq<char>, c: char, separator: char)
    ensures
        joined(parts.push(last.push(c)), separator) == joined(parts.push(last), separator).push(c),
{
    let short = parts.push(last);
    let long = parts.push(last.push(c));
    assert(short.drop_last() =~= parts);
    assert(long.drop_last() =~= parts);
    if parts.len() > 0 {
        assert(joined(parts, separator) + seq![separator] + last.push(c) =~= (joined(
            parts,
            separator,
        ) + seq![separator] + last).push(c));
    }
}

/// Opening a new, empty part lengthens the joined text by the separator.
proof fn lemma_joined_opens(parts: Seq<Seq<char>>, separator: char)
    requires
        parts.len() > 0,
    ensures
        joined(parts.push(Seq::empty()), separator) == joined(parts, separator).push(separator),
{
    let long = parts.push(Seq::<char>::empty());
    assert(long.drop_last() =~= parts);
    assert(joined(parts, separator) + seq![separator] + Seq::<char>::empty() =~= joined(
        parts,
        separator,
    ).push(separator));
}

/// The directories as one text, with `:` between them.
pub fn join_roots(directories: &Vec<String>) -> (list: String)
    ensures
        list@ == joined(texts(directories@), ROOT_SEPARATOR),
{
    let mut list = String::new();
    let mut i: usize = 0;
    while i < directories.len()
        invariant
            i <= directories.len(),
            list@ == joined(texts(directories@.take(i as int)), ROOT_SEPARATOR),
        decreases directories.len() - i,
    {
        proof {
            let before = texts(directories@.take(i as int));
            let now = texts(directories@.take(i + 1));
            assert(now =~= before.push(directories@[i as int]@));
            assert(now.drop_last() =~= before);
            reveal_strlit(":");
            assert(":"@ =~= seq![ROOT_SEPARATOR]);
            if i == 0 {
                assert(list@ + directories@[i as int]@ =~= directories@[i as int]@);
            }
        }
        if i > 0 {
            list.append(":");
        }
        list.append(directories[i].as_str());
        i += 1;
    }
    proof {
        assert(directories@.take(directories.len() as int) =~= directories@);
    }
    list
}

/// The directories that a list names: the parts of `list` between its `:`.
/// There is always at least one part, and a part may be empty; written with
/// `:` between them the parts give `list` again.
pub fn split_roots(list: &str) -> (directories: Vec<String>)
    ensures
        directories.len() > 0,
        joined(texts(directories@), ROOT_SEPARATOR) == list@,
        forall|i: int|
            0 <= i < directories.len() ==> !(#[trigger] directories[i])@.contains(ROOT_SEPARATOR),
{
    let chars = to_chars(list);
    let n: usize = chars.len();
    let mut directories: Vec<String> = Vec::new();
    let mut start: usize = 0;
    let mut i: usize = 0;
    proof {
        assert(texts(directories@).push(list@.subrange(0, 0)).drop_last() =~= texts(
            directories@,
        ));
        assert(list@.subrange(0, 0) =~= list@.take(0));
    }
    while i < n
        invariant
            start <= i <= n,
            n == list@.len(),
            chars@ == list@,
            forall|k: int|
                0 <= k < directories.len() ==> !(#[trigger] directories[k])@.contains(
                    ROOT_SEPARATOR,
                ),
            forall|k: int| start <= k < i ==> list@[k] != ROOT_SEPARATOR,
            joined(
                texts(directories@).push(list@.subrange(start as int, i as int)),
                ROOT_SEPARATOR,
            ) == list@.take(i as int),
        decreases n - i,
    {
        let ghost parts = texts(directories@);
        let ghost open = list@.subrange(start as int, i as int);
        if chars[i] == ROOT_SEPARATOR {
            let piece = list.substring_char(start, i).to_owned();
            proof {
                lemma_joined_opens(parts.push(open), ROOT_SEPARATOR);
                assert(texts(directories@.push(piece)) =~= parts.push(open));
                assert(list@.subrange(i + 1, i + 1) =~= Seq::<char>::empty());
                assert(list@.take(i as int).push(ROOT_SEPARATOR) =~= list@.take(i + 1));
                assert(!piece@.contains(ROOT_SEPARATOR)) by {
                    if piece@.contains(ROOT_SEPARATOR) {
                        let k = choose|k: int| 0 <= k < piece@.len() && piece@[k] == ROOT_SEPARATOR;
                        assert(list@[start + k] == ROOT_SEPARATOR);
                    }
                }
            }
            directories.push(piece);
            start = i + 1;
        } else {
            proof {
                lemma_joined_grows(parts, open, list@[i as int], ROOT_SEPARATOR);
                assert(open.push(list@[i as int]) =~= list@.subrange(start as int, i + 1));
                assert(list@.take(i as int).push(list@[i as int]) =~= list@.take(i + 1));
            }
        }
        i += 1;
    }
    let piece = list.substring_char(start, n).to_owned();
    proof {
        assert(texts(directories@.push(piece)) =~= texts(directories@).push(
            list@.subrange(start as int, n as int),
        ));
        assert(list@.take(n as int) =~= list@);
        assert(!piece@.contains(ROOT_SEPARATOR)) by {
            if piece@.contains(ROOT_SEPARATOR) {
                let k = choose|k: int| 0 <= k < piece@.len() && piece@[k] == ROOT_SEPARATOR;
                assert(list@[start + k] == ROOT_SEPARATOR);
            }
        }
    }
    directories.push(piece);
    directories
}

} // verus!
