//! The generated file: a template with two markers, under which the entries
//! of the embedded files are written.

use crate::scanner::DirectiveKind;
use crate::text::{
    contains, first_occurrence, lemma_first_occurrence, occurs_at, replace_first, replaced_first,
};
use vstd::prelude::*;

verus! {

/// The marker under which the entries of the string form are written.
pub const STR_MARKER: &'static str = "// <precompile-content-str>";

/// The marker under which the entries of the data form are written.
pub const DATA_MARKER: &'static str = "// <precompile-content-data>";

/// One embedded file: the form of the directive that brought it in, the
/// reference as written, and the encoded content.
pub ghost struct Entry {
    pub kind: DirectiveKind,
    pub raw_reference: Seq<char>,
    pub encoded: Seq<char>,
}

/// What replaces a marker when an entry is written under it: the marker
/// itself and a line feed, then the entry's case clause on two lines.
pub open spec fn marker_entry(marker: Seq<char>, raw_reference: Seq<char>, encoded: Seq<char>) -> Seq<
    char,
> {
    marker + "\n        case \""@ + raw_reference + "\":\n            content = \""@ + encoded
        + "\"\n"@
}

/// `buffer` with the entry written under the leftmost `marker`; `buffer`
/// itself where the marker is absent.
pub open spec fn under_marker(
    buffer: Seq<char>,
    marker: Seq<char>,
    raw_reference: Seq<char>,
    encoded: Seq<char>,
) -> Seq<char> {
    replaced_first(buffer, marker, marker_entry(marker, raw_reference, encoded))
}

/// `buffer` with the entry written under the string marker and then under the
/// data marker: both forms read their content from the same entries.
pub open spec fn inserted(buffer: Seq<char>, raw_reference: Seq<char>, encoded: Seq<char>) -> Seq<
    char,
> {
    under_marker(
        under_marker(buffer, STR_MARKER@, raw_reference, encoded),
        DATA_MARKER@,
        raw_reference,
        encoded,
    )
}

/// The text that `template` becomes when `entries` are inserted one after
/// another.
pub open spec fn rendered(template: Seq<char>, entries: Seq<Entry>) -> Seq<char>
    decreases entries.len(),
{
    if entries.len() == 0 {
        template
    } else {
        inserted(
            rendered(template, entries.drop_last()),
            entries.last().raw_reference,
            entries.last().encoded,
        )
    }
}

/// `text` ends in `c` and holds it nowhere else.
pub open spec fn closes_with(text: Seq<char>, c: char) -> bool {
    &&& text.len() > 0
    &&& text.last() == c
    &&& forall|i: int| 0 <= i < text.len() - 1 ==> text[i] != c
}

/// Writing something directly behind the leftmost `marker` breaks no
/// occurrence of `other`, where both end in a character that neither holds
/// elsewhere: no occurrence of `other` can reach across the end of one of
/// `marker`.
pub proof fn lemma_marker_survives(
    buffer: Seq<char>,
    marker: Seq<char>,
    other: Seq<char>,
    tail: Seq<char>,
    c: char,
)
    requires
        closes_with(marker, c),
        closes_with(other, c),
        contains(buffer, other),
    ensures
        contains(replaced_first(buffer, marker, marker + tail), other),
{
    lemma_first_occurrence(buffer, marker, 0);
    let k = choose|k: int| occurs_at(buffer, other, k);
    match first_occurrence(buffer, marker, 0) {
        None => {
            assert(occurs_at(buffer, other, k));
        },
        Some(at) => {
            let m = marker.len() as int;
            let o = other.len() as int;
            let after = replaced_first(buffer, marker, marker + tail);
            let end = at + m;
            assert(buffer.subrange(at, end) == marker);
            if k + o <= end {
                assert forall|i: int| 0 <= i < o implies after.subrange(k, k + o)[i] == other[i] by {
                    assert(buffer.subrange(k, k + o)[i] == buffer[k + i]);
                    if k + i >= at {
                        assert(buffer.subrange(at, end)[k + i - at] == buffer[k + i]);
                    }
                }
                assert(after.subrange(k, k + o) =~= other);
                assert(occurs_at(after, other, k));
            } else if k >= end {
                let shifted = k + tail.len();
                assert forall|i: int| 0 <= i < o implies after.subrange(shifted, shifted + o)[i]
                    == other[i] by {
                    assert(buffer.subrange(k, k + o)[i] == buffer[k + i]);
                }
                assert(after.subrange(shifted, shifted + o) =~= other);
                assert(occurs_at(after, other, shifted));
            } else {
                let p = end - 1;
                assert(buffer.subrange(at, end)[m - 1] == buffer[p]);
                assert(buffer.subrange(k, k + o)[p - k] == buffer[p]);
                assert(other[p - k] == c);
                assert(false);
            }
        },
    }
}

/// Both markers end in `>` and hold it nowhere else.
pub proof fn lemma_markers_close()
    ensures
        closes_with(STR_MARKER@, '>'),
        closes_with(DATA_MARKER@, '>'),
{
    reveal_strlit("// <precompile-content-str>");
    reveal_strlit("// <precompile-content-data>");
}

/// A marker that stands in `buffer` still stands in it after an entry is
/// written under either marker.
pub proof fn lemma_under_marker_keeps_markers(
    buffer: Seq<char>,
    marker: Seq<char>,
    raw_reference: Seq<char>,
    encoded: Seq<char>,
)
    requires
        marker == STR_MARKER@ || marker == DATA_MARKER@,
    ensures
        contains(buffer, STR_MARKER@) ==> contains(
            under_marker(buffer, marker, raw_reference, encoded),
            STR_MARKER@,
        ),
        contains(buffer, DATA_MARKER@) ==> contains(
            under_marker(buffer, marker, raw_reference, encoded),
            DATA_MARKER@,
        ),
{
    lemma_markers_close();
    let tail = "\n        case \""@ + raw_reference + "\":\n            content = \""@ + encoded
        + "\"\n"@;
    assert(marker_entry(marker, raw_reference, encoded) =~= marker + tail);
    if contains(buffer, STR_MARKER@) {
        lemma_marker_survives(buffer, marker, STR_MARKER@, tail, '>');
    }
    if contains(buffer, DATA_MARKER@) {
        lemma_marker_survives(buffer, marker, DATA_MARKER@, tail, '>');
    }
}

/// A marker that stands in `buffer` still stands in it after an insertion.
pub proof fn lemma_inserted_keeps_markers(
    buffer: Seq<char>,
    raw_reference: Seq<char>,
    encoded: Seq<char>,
)
    ensures
        contains(buffer, STR_MARKER@) ==> contains(
            inserted(buffer, raw_reference, encoded),
            STR_MARKER@,
        ),
        contains(buffer, DATA_MARKER@) ==> contains(
            inserted(buffer, raw_reference, encoded),
            DATA_MARKER@,
        ),
{
    let first = under_marker(buffer, STR_MARKER@, raw_reference, encoded);
    lemma_under_marker_keeps_markers(buffer, STR_MARKER@, raw_reference, encoded);
    lemma_under_marker_keeps_markers(first, DATA_MARKER@, raw_reference, encoded);
}

/// A marker of the template stands in every text rendered from it.
pub proof fn lemma_rendered_keeps_markers(template: Seq<char>, entries: Seq<Entry>)
    ensures
        contains(template, STR_MARKER@) ==> contains(rendered(template, entries), STR_MARKER@),
        contains(template, DATA_MARKER@) ==> contains(rendered(template, entries), DATA_MARKER@),
    decreases entries.len(),
{
    if entries.len() > 0 {
        lemma_rendered_keeps_markers(template, entries.drop_last());
        lemma_inserted_keeps_markers(
            rendered(template, entries.drop_last()),
            entries.last().raw_reference,
            entries.last().encoded,
        );
    }
}

/// The text of the generated file while it is being written. It starts as
/// the template and grows by one entry per insertion.
pub struct TemplateRewriter {
    buffer: String,
    template: Ghost<Seq<char>>,
    entries: Ghost<Seq<Entry>>,
}

impl TemplateRewriter {
    /// The template that the rewriter started from.
    pub closed spec fn template(&self) -> Seq<char> {
        self.template@
    }

    /// The entries inserted so far, oldest first.
    pub closed spec fn entries(&self) -> Seq<Entry> {
        self.entries@
    }

    /// The text as it stands.
    pub closed spec fn buffer(&self) -> Seq<char> {
        self.buffer@
    }

    /// The text is the template with the entries inserted in order.
    pub open spec fn wf(&self) -> bool {
        self.buffer() == rendered(self.template(), self.entries())
    }

    /// A rewriter that holds `template` and no entry.
    pub fn new(template: &str) -> (rewriter: Self)
        ensures
            rewriter.wf(),
            rewriter.template() == template@,
            rewriter.entries() == Seq::<Entry>::empty(),
            rewriter.buffer() == template@,
    {
        TemplateRewriter {
            buffer: template.to_owned(),
            template: Ghost(template@),
            entries: Ghost(Seq::empty()),
        }
    }

    /// Writes the entry of one embedded file under each marker: the leftmost
    /// occurrence of the marker is replaced by the marker, a line feed and the
    /// entry's case clause, so that the marker stays in place for the next
    /// entry. A marker that the text lacks gets no entry.
    pub fn insert(&mut self, kind: DirectiveKind, raw_reference: &str, encoded: &str)
        ensures
            final(self).template() == old(self).template(),
            final(self).entries() == old(self).entries().push(
                Entry { kind, raw_reference: raw_reference@, encoded: encoded@ },
            ),
            final(self).buffer() == inserted(old(self).buffer(), raw_reference@, encoded@),
            old(self).wf() ==> final(self).wf(),
            contains(old(self).buffer(), STR_MARKER@) ==> contains(
                final(self).buffer(),
                STR_MARKER@,
            ),
            contains(old(self).buffer(), DATA_MARKER@) ==> contains(
                final(self).buffer(),
                DATA_MARKER@,
            ),
    {
        let ghost entry = Entry { kind, raw_reference: raw_reference@, encoded: encoded@ };
        let for_str = entry_text(STR_MARKER, raw_reference, encoded);
        let first = replace_first(self.buffer.as_str(), STR_MARKER, for_str.as_str());
        let for_data = entry_text(DATA_MARKER, raw_reference, encoded);
        let second = replace_first(first.as_str(), DATA_MARKER, for_data.as_str());
        proof {
            lemma_inserted_keeps_markers(self.buffer@, raw_reference@, encoded@);
            assert(self.entries@.push(entry).drop_last() =~= self.entries@);
        }
        self.buffer = second;
        self.entries = Ghost(self.entries@.push(entry));
    }

    /// The text as it stands.
    pub fn content(&self) -> (text: &str)
        ensures
            text@ == self.buffer(),
    {
        self.buffer.as_str()
    }

    /// Ends the rewriting and hands out the text.
    pub fn into_content(self) -> (text: String)
        ensures
            text@ == self.buffer(),
    {
        self.buffer
    }
}

/// The text that replaces `marker` when an entry is written under it.
fn entry_text(marker: &str, raw_reference: &str, encoded: &str) -> (text: String)
    ensures
        text@ == marker_entry(marker@, raw_reference@, encoded@),
{
    let mut text = marker.to_owned();
    text.append("\n        case \"");
    text.append(raw_reference);
    text.append("\":\n            content = \"");
    text.append(encoded);
    text.append("\"\n");
    text
}

} // verus!
