//! Where the entries stand in the generated text.

use crate::template::{
    lemma_markers_close, marker_entry, rendered, Entry, DATA_MARKER, STR_MARKER,
};
use crate::text::{contains, first_occurrence, lemma_first_occurrence, occurs_at, replaced_first};
use vstd::prelude::*;

verus! {

/// `text` with `piece` put in at index `at`.
pub open spec fn put_in(text: Seq<char>, at: int, piece: Seq<char>) -> Seq<char> {
    text.subrange(0, at) + piece + text.subrange(at, text.len() as int)
}

/// `c` stands nowhere in `text`.
pub open spec fn lacks(text: Seq<char>, c: char) -> bool {
    forall|i: int| 0 <= i < text.len() ==> text[i] != c
}

/// `piece` begins and ends with `c`.
pub open spec fn fenced_by(piece: Seq<char>, c: char) -> bool {
    piece.len() > 0 && piece[0] == c && piece.last() == c
}

/// An occurrence that has none to its left is the one `first_occurrence`
/// finds.
pub proof fn lemma_first_occurrence_is(text: Seq<char>, pattern: Seq<char>, at: int)
    requires
        occurs_at(text, pattern, at),
        forall|k: int| 0 <= k < at ==> !occurs_at(text, pattern, k),
    ensures
        first_occurrence(text, pattern, 0) == Some(at),
{
    lemma_first_occurrence(text, pattern, 0);
}

/// Replacing the leftmost `marker` by itself and a tail puts the tail in
/// behind it.
pub proof fn lemma_replaced_is_put_in(
    text: Seq<char>,
    marker: Seq<char>,
    tail: Seq<char>,
    at: int,
)
    requires
        first_occurrence(text, marker, 0) == Some(at),
    ensures
        replaced_first(text, marker, marker + tail) == put_in(text, at + marker.len(), tail),
{
    lemma_first_occurrence(text, marker, 0);
    let end = at + marker.len();
    assert(text.subrange(at, end) == marker);
    assert(text.subrange(0, at) + text.subrange(at, end) =~= text.subrange(0, end));
    assert(text.subrange(0, at) + (marker + tail) + text.subrange(end, text.len() as int)
        =~= text.subrange(0, end) + tail + text.subrange(end, text.len() as int));
}

/// Where a pattern occurs after a piece was put in, given that the piece is
/// fenced by a character that the pattern lacks and does not hold the
/// pattern: exactly where it occurred before, left of the piece or moved to
/// the right by its length. An occurrence across the place of the piece is
/// gone.
pub proof fn lemma_occurrences_after_put_in(
    text: Seq<char>,
    at: int,
    piece: Seq<char>,
    pattern: Seq<char>,
    c: char,
    k: int,
)
    requires
        0 <= at <= text.len(),
        fenced_by(piece, c),
        lacks(pattern, c),
        !contains(piece, pattern),
    ensures
        occurs_at(put_in(text, at, piece), pattern, k) <==> (occurs_at(text, pattern, k) && k
            + pattern.len() <= at) || (k >= at + piece.len() && occurs_at(
            text,
            pattern,
            k - piece.len(),
        )),
{
    let after = put_in(text, at, piece);
    let n = pattern.len() as int;
    let w = piece.len() as int;
    if occurs_at(text, pattern, k) && k + n <= at {
        assert(after.subrange(k, k + n) =~= text.subrange(k, k + n));
    }
    if k >= at + w && occurs_at(text, pattern, k - w) {
        assert(after.subrange(k, k + n) =~= text.subrange(k - w, k - w + n));
    }
    if occurs_at(after, pattern, k) {
        let found = after.subrange(k, k + n);
        if k + n <= at {
            assert(text.subrange(k, k + n) =~= found);
        } else if k >= at + w {
            assert(text.subrange(k - w, k - w + n) =~= found);
        } else if k <= at {
            assert(found[at - k] == after[at]);
            assert(after[at] == piece[0]);
            assert(pattern[at - k] == c);
        } else if k + n <= at + w {
            assert(piece.subrange(k - at, k - at + n) =~= found);
            assert(occurs_at(piece, pattern, k - at));
        } else {
            let last = at + w - 1;
            assert(found[last - k] == after[last]);
            assert(after[last] == piece[w - 1]);
            assert(pattern[last - k] == c);
        }
    }
}

/// After a piece was put in at or behind the end of the leftmost occurrence
/// of a pattern, that occurrence is still the leftmost.
pub proof fn lemma_first_stays_left_of_piece(
    text: Seq<char>,
    at: int,
    piece: Seq<char>,
    pattern: Seq<char>,
    c: char,
    first: int,
)
    requires
        0 <= at <= text.len(),
        fenced_by(piece, c),
        lacks(pattern, c),
        !contains(piece, pattern),
        first_occurrence(text, pattern, 0) == Some(first),
        first + pattern.len() <= at,
    ensures
        first_occurrence(put_in(text, at, piece), pattern, 0) == Some(first),
{
    let after = put_in(text, at, piece);
    lemma_first_occurrence(text, pattern, 0);
    lemma_occurrences_after_put_in(text, at, piece, pattern, c, first);
    assert forall|k: int| 0 <= k < first implies !occurs_at(after, pattern, k) by {
        lemma_occurrences_after_put_in(text, at, piece, pattern, c, k);
    }
    lemma_first_occurrence_is(after, pattern, first);
}

/// After a piece was put in at or before the leftmost occurrence of a
/// pattern, the leftmost occurrence is the same one, moved to the right by
/// the length of the piece.
pub proof fn lemma_first_moves_right_of_piece(
    text: Seq<char>,
    at: int,
    piece: Seq<char>,
    pattern: Seq<char>,
    c: char,
    first: int,
)
    requires
        0 <= at <= text.len(),
        fenced_by(piece, c),
        lacks(pattern, c),
        !contains(piece, pattern),
        pattern.len() > 0,
        first_occurrence(text, pattern, 0) == Some(first),
        at <= first,
    ensures
        first_occurrence(put_in(text, at, piece), pattern, 0) == Some(first + piece.len()),
{
    let after = put_in(text, at, piece);
    let moved = first + piece.len();
    lemma_first_occurrence(text, pattern, 0);
    lemma_occurrences_after_put_in(text, at, piece, pattern, c, moved);
    assert forall|k: int| 0 <= k < moved implies !occurs_at(after, pattern, k) by {
        lemma_occurrences_after_put_in(text, at, piece, pattern, c, k);
    }
    lemma_first_occurrence_is(after, pattern, moved);
}

/// What an entry adds behind a marker: a line feed, then the entry's case
/// clause on two lines.
pub open spec fn entry_tail(entry: Entry) -> Seq<char> {
    "\n        case \""@ + entry.raw_reference + "\":\n            content = \""@
        + entry.encoded + "\"\n"@
}

/// What the entries add behind a marker: their tails, the newest first.
pub open spec fn block(entries: Seq<Entry>) -> Seq<char>
    decreases entries.len(),
{
    if entries.len() == 0 {
        Seq::empty()
    } else {
        entry_tail(entries.last()) + block(entries.drop_last())
    }
}

/// `template` with `lower` put in at `low` and `upper` put in at `high`.
pub open spec fn spliced_with(
    template: Seq<char>,
    low: int,
    high: int,
    lower: Seq<char>,
    upper: Seq<char>,
) -> Seq<char> {
    template.subrange(0, low) + lower + template.subrange(low, high) + upper
        + template.subrange(high, template.len() as int)
}

/// `template` with `block` put in at `low` and at `high`.
pub open spec fn spliced(template: Seq<char>, low: int, high: int, block: Seq<char>) -> Seq<char> {
    spliced_with(template, low, high, block, block)
}

/// Putting a piece in at the lower place lengthens the lower block at its
/// front.
proof fn lemma_put_in_low(
    template: Seq<char>,
    low: int,
    high: int,
    lower: Seq<char>,
    upper: Seq<char>,
    piece: Seq<char>,
)
    requires
        0 <= low <= high <= template.len(),
    ensures
        put_in(spliced_with(template, low, high, lower, upper), low, piece) == spliced_with(
            template,
            low,
            high,
            piece + lower,
            upper,
        ),
{
    let text = spliced_with(template, low, high, lower, upper);
    let n = template.len() as int;
    assert(text.subrange(0, low) =~= template.subrange(0, low));
    assert(text.subrange(low, text.len() as int) =~= lower + template.subrange(low, high) + upper
        + template.subrange(high, n));
    assert(put_in(text, low, piece) =~= spliced_with(template, low, high, piece + lower, upper));
}

/// Putting a piece in at the upper place lengthens the upper block at its
/// front.
proof fn lemma_put_in_high(
    template: Seq<char>,
    low: int,
    high: int,
    lower: Seq<char>,
    upper: Seq<char>,
    piece: Seq<char>,
)
    requires
        0 <= low <= high <= template.len(),
    ensures
        put_in(spliced_with(template, low, high, lower, upper), high + lower.len(), piece)
            == spliced_with(template, low, high, lower, piece + upper),
{
    let text = spliced_with(template, low, high, lower, upper);
    let n = template.len() as int;
    let at = high + lower.len();
    assert(text.subrange(0, at) =~= template.subrange(0, low) + lower + template.subrange(
        low,
        high,
    ));
    assert(text.subrange(at, text.len() as int) =~= upper + template.subrange(high, n));
    assert(put_in(text, at, piece) =~= spliced_with(template, low, high, lower, piece + upper));
}

/// No entry holds the text of a marker.
pub open spec fn marker_free(entries: Seq<Entry>) -> bool {
    forall|i: int|
        0 <= i < entries.len() ==> !contains(entry_tail(#[trigger] entries[i]), STR_MARKER@)
            && !contains(entry_tail(entries[i]), DATA_MARKER@)
}

/// The markers hold no line feed.
pub proof fn lemma_marker_shape()
    ensures
        lacks(STR_MARKER@, '\n'),
        lacks(DATA_MARKER@, '\n'),
        STR_MARKER@.len() == 27,
        DATA_MARKER@.len() == 28,
{
    reveal_strlit("// <precompile-content-str>");
    reveal_strlit("// <precompile-content-data>");
}

/// What replaces a marker is the marker and what the entry adds, and that
/// begins and ends with a line feed.
pub proof fn lemma_tail_shape(entry: Entry)
    ensures
        fenced_by(entry_tail(entry), '\n'),
        marker_entry(STR_MARKER@, entry.raw_reference, entry.encoded) == STR_MARKER@ + entry_tail(
            entry,
        ),
        marker_entry(DATA_MARKER@, entry.raw_reference, entry.encoded) == DATA_MARKER@
            + entry_tail(entry),
{
    reveal_strlit("\n        case \"");
    reveal_strlit("\"\n");
    assert(marker_entry(STR_MARKER@, entry.raw_reference, entry.encoded) =~= STR_MARKER@
        + entry_tail(entry));
    assert(marker_entry(DATA_MARKER@, entry.raw_reference, entry.encoded) =~= DATA_MARKER@
        + entry_tail(entry));
}

/// Occurrences of the two markers do not overlap.
pub proof fn lemma_markers_apart(text: Seq<char>, s: int, d: int)
    requires
        occurs_at(text, STR_MARKER@, s),
        occurs_at(text, DATA_MARKER@, d),
    ensures
        s + STR_MARKER@.len() <= d || d + DATA_MARKER@.len() <= s,
{
    lemma_markers_close();
    reveal_strlit("// <precompile-content-str>");
    reveal_strlit("// <precompile-content-data>");
    let in_str = text.subrange(s, s + 27);
    let in_data = text.subrange(d, d + 28);
    if s <= d < s + 27 {
        let p = s + 26;
        assert(in_str[26] == text[p]);
        assert(in_data[p - d] == text[p]);
    } else if d < s < d + 28 {
        let q = d + 27;
        assert(in_data[27] == text[q]);
        assert(in_str[q - s] == text[q]);
        assert(in_str[1] == text[s + 1]);
        assert(in_data[2] == text[d + 2]);
    }
}

/// What an entry adds behind a marker is fenced by line feeds and, where the
/// entries are free of markers, holds neither marker.
proof fn lemma_tail_is_harmless(entries: Seq<Entry>)
    requires
        entries.len() > 0,
        marker_free(entries),
    ensures
        fenced_by(entry_tail(entries.last()), '\n'),
        !contains(entry_tail(entries.last()), STR_MARKER@),
        !contains(entry_tail(entries.last()), DATA_MARKER@),
        marker_free(entries.drop_last()),
        block(entries) == entry_tail(entries.last()) + block(entries.drop_last()),
{
    let earlier = entries.drop_last();
    lemma_tail_shape(entries.last());
    assert(entries[entries.len() - 1] == entries.last());
    assert forall|i: int| 0 <= i < earlier.len() implies !contains(
        entry_tail(#[trigger] earlier[i]),
        STR_MARKER@,
    ) && !contains(entry_tail(earlier[i]), DATA_MARKER@) by {
        assert(earlier[i] == entries[i]);
    }
}

/// Two pieces put in, behind the first marker and then behind the second,
/// where the first marker stands left of the second.
proof fn lemma_put_in_behind_both_left_first(
    template: Seq<char>,
    old: Seq<char>,
    piece: Seq<char>,
    one: Seq<char>,
    two: Seq<char>,
    at_one: int,
    at_two: int,
    c: char,
)
    requires
        0 <= at_one,
        at_one + one.len() <= at_two,
        at_two + two.len() <= template.len(),
        one.len() > 0,
        two.len() > 0,
        fenced_by(piece, c),
        lacks(one, c),
        lacks(two, c),
        !contains(piece, one),
        !contains(piece, two),
        first_occurrence(
            spliced(template, at_one + one.len(), at_two + two.len(), old),
            one,
            0,
        ) == Some(at_one),
        first_occurrence(
            spliced(template, at_one + one.len(), at_two + two.len(), old),
            two,
            0,
        ) == Some(at_two + old.len()),
    ensures
        ({
            let before = spliced(template, at_one + one.len(), at_two + two.len(), old);
            let text = replaced_first(replaced_first(before, one, one + piece), two, two + piece);
            &&& text == spliced(template, at_one + one.len(), at_two + two.len(), piece + old)
            &&& first_occurrence(text, one, 0) == Some(at_one)
            &&& first_occurrence(text, two, 0) == Some(at_two + (piece + old).len())
        }),
{
    let low = at_one + one.len();
    let high = at_two + two.len();
    let before = spliced(template, low, high, old);
    let first = replaced_first(before, one, one + piece);
    lemma_replaced_is_put_in(before, one, piece, at_one);
    lemma_put_in_low(template, low, high, old, old, piece);
    assert(first == spliced_with(template, low, high, piece + old, old));
    lemma_first_stays_left_of_piece(before, low, piece, one, c, at_one);
    lemma_first_moves_right_of_piece(before, low, piece, two, c, at_two + old.len());
    let found = at_two + old.len() + piece.len();
    assert(first_occurrence(first, two, 0) == Some(found));
    lemma_replaced_is_put_in(first, two, piece, found);
    assert(found + two.len() == high + (piece + old).len());
    lemma_put_in_high(template, low, high, piece + old, old, piece);
    let second = replaced_first(first, two, two + piece);
    assert(second == spliced_with(template, low, high, piece + old, piece + old));
    lemma_first_stays_left_of_piece(first, found + two.len(), piece, one, c, at_one);
    lemma_first_stays_left_of_piece(first, found + two.len(), piece, two, c, found);
}

/// Two pieces put in, behind the first marker and then behind the second,
/// where the second marker stands left of the first.
proof fn lemma_put_in_behind_both_left_second(
    template: Seq<char>,
    old: Seq<char>,
    piece: Seq<char>,
    one: Seq<char>,
    two: Seq<char>,
    at_one: int,
    at_two: int,
    c: char,
)
    requires
        0 <= at_two,
        at_two + two.len() <= at_one,
        at_one + one.len() <= template.len(),
        one.len() > 0,
        two.len() > 0,
        fenced_by(piece, c),
        lacks(one, c),
        lacks(two, c),
        !contains(piece, one),
        !contains(piece, two),
        first_occurrence(
            spliced(template, at_two + two.len(), at_one + one.len(), old),
            two,
            0,
        ) == Some(at_two),
        first_occurrence(
            spliced(template, at_two + two.len(), at_one + one.len(), old),
            one,
            0,
        ) == Some(at_one + old.len()),
    ensures
        ({
            let before = spliced(template, at_two + two.len(), at_one + one.len(), old);
            let text = replaced_first(replaced_first(before, one, one + piece), two, two + piece);
            &&& text == spliced(template, at_two + two.len(), at_one + one.len(), piece + old)
            &&& first_occurrence(text, two, 0) == Some(at_two)
            &&& first_occurrence(text, one, 0) == Some(at_one + (piece + old).len())
        }),
{
    let low = at_two + two.len();
    let high = at_one + one.len();
    let before = spliced(template, low, high, old);
    let found = at_one + old.len();
    let first = replaced_first(before, one, one + piece);
    lemma_replaced_is_put_in(before, one, piece, found);
    assert(found + one.len() == high + old.len());
    lemma_put_in_high(template, low, high, old, old, piece);
    assert(first == spliced_with(template, low, high, old, piece + old));
    lemma_first_stays_left_of_piece(before, found + one.len(), piece, two, c, at_two);
    lemma_first_stays_left_of_piece(before, found + one.len(), piece, one, c, found);
    assert(first_occurrence(first, two, 0) == Some(at_two));
    lemma_replaced_is_put_in(first, two, piece, at_two);
    lemma_put_in_low(template, low, high, old, piece + old, piece);
    let second = replaced_first(first, two, two + piece);
    assert(second == spliced_with(template, low, high, piece + old, piece + old));
    lemma_first_stays_left_of_piece(first, low, piece, two, c, at_two);
    lemma_first_moves_right_of_piece(first, low, piece, one, c, found);
}

/// Where the entries stand. Let the template hold both markers and let no
/// entry hold the text of one. Then the generated text is the template with
/// the block of all entries, the newest first, directly behind the leftmost
/// occurrence of each marker; and each marker is still found where that
/// occurrence stands.
pub proof fn lemma_rendered_layout(template: Seq<char>, entries: Seq<Entry>, s: int, d: int)
    requires
        first_occurrence(template, STR_MARKER@, 0) == Some(s),
        first_occurrence(template, DATA_MARKER@, 0) == Some(d),
        marker_free(entries),
    ensures
        ({
            let text = rendered(template, entries);
            let all = block(entries);
            let behind_str = s + STR_MARKER@.len();
            let behind_data = d + DATA_MARKER@.len();
            if s < d {
                &&& text == spliced(template, behind_str, behind_data, all)
                &&& first_occurrence(text, STR_MARKER@, 0) == Some(s)
                &&& first_occurrence(text, DATA_MARKER@, 0) == Some(d + all.len())
            } else {
                &&& text == spliced(template, behind_data, behind_str, all)
                &&& first_occurrence(text, DATA_MARKER@, 0) == Some(d)
                &&& first_occurrence(text, STR_MARKER@, 0) == Some(s + all.len())
            }
        }),
    decreases entries.len(),
{
    lemma_first_occurrence(template, STR_MARKER@, 0);
    lemma_first_occurrence(template, DATA_MARKER@, 0);
    lemma_markers_apart(template, s, d);
    lemma_marker_shape();
    let behind_str = s + STR_MARKER@.len();
    let behind_data = d + DATA_MARKER@.len();
    if entries.len() == 0 {
        if s < d {
            assert(spliced(template, behind_str, behind_data, block(entries)) =~= template);
        } else {
            assert(spliced(template, behind_data, behind_str, block(entries)) =~= template);
        }
    } else {
        let earlier = entries.drop_last();
        let piece = entry_tail(entries.last());
        lemma_tail_is_harmless(entries);
        lemma_tail_shape(entries.last());
        lemma_rendered_layout(template, earlier, s, d);
        if s < d {
            lemma_put_in_behind_both_left_first(
                template,
                block(earlier),
                piece,
                STR_MARKER@,
                DATA_MARKER@,
                s,
                d,
                '\n',
            );
        } else {
            lemma_put_in_behind_both_left_second(
                template,
                block(earlier),
                piece,
                STR_MARKER@,
                DATA_MARKER@,
                s,
                d,
                '\n',
            );
        }
    }
}

} // verus!
