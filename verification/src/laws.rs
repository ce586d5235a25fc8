//! What holds of every run, proved from the definition of its steps.

use crate::codec::{base64_standard, encodable};
use crate::run::{
    after, after_all, artifact, consistent, lemma_after_consistent, lemma_started_consistent,
    references, started, Occurrence, ProbeView, RunView,
};
use crate::layout::{block, lemma_rendered_layout, marker_free, spliced};
use crate::template::{Entry, DATA_MARKER, STR_MARKER};
use crate::text::first_occurrence;
use vstd::prelude::*;

verus! {

/// The references of a sequence of occurrences, as written.
pub open spec fn raw_references(occurrences: Seq<Occurrence>) -> Seq<Seq<char>> {
    occurrences.map_values(|o: Occurrence| o.directive.raw_reference)
}

/// Two sequences of occurrences hold the same directives with the same
/// resolved paths, and agree on which of the referenced files exist.
pub open spec fn same_findings(a: Seq<Occurrence>, b: Seq<Occurrence>) -> bool {
    &&& a.len() == b.len()
    &&& forall|i: int|
        0 <= i < a.len() ==> {
            &&& (#[trigger] a[i]).directive == (#[trigger] b[i]).directive
            &&& a[i].path == b[i].path
            &&& (a[i].probe is Missing <==> b[i].probe is Missing)
        }
}

/// The content of every file that exists is at hand and short enough to
/// encode.
pub open spec fn all_loadable(occurrences: Seq<Occurrence>) -> bool {
    forall|i: int|
        0 <= i < occurrences.len() ==> match (#[trigger] occurrences[i]).probe {
            ProbeView::Missing => true,
            ProbeView::Present => false,
            ProbeView::Loaded(bytes) => encodable(bytes.len()),
        }
}

/// Every state that a run reaches from a consistent state is consistent.
pub proof fn lemma_after_all_consistent(state: RunView, occurrences: Seq<Occurrence>)
    requires
        consistent(state),
    ensures
        consistent(after_all(state, occurrences)),
    decreases occurrences.len(),
{
    if occurrences.len() > 0 {
        lemma_after_all_consistent(state, occurrences.drop_last());
        lemma_after_consistent(after_all(state, occurrences.drop_last()), occurrences.last());
    }
}

/// A run that has failed stays as it is, whatever follows.
pub proof fn lemma_failure_is_final(state: RunView, occurrences: Seq<Occurrence>)
    requires
        state.fault is Some,
    ensures
        after_all(state, occurrences) == state,
    decreases occurrences.len(),
{
    if occurrences.len() > 0 {
        lemma_failure_is_final(state, occurrences.drop_last());
    }
}

/// A directive whose file is missing fails the run, in a dry run as in one
/// that writes, wherever in the sequence it stands: the run ends with a
/// fault, and so without a report.
pub proof fn lemma_missing_reference_fails(state: RunView, occurrences: Seq<Occurrence>, i: int)
    requires
        0 <= i < occurrences.len(),
        occurrences[i].probe is Missing,
    ensures
        after_all(state, occurrences).fault is Some,
    decreases occurrences.len(),
{
    if i < occurrences.len() - 1 {
        lemma_missing_reference_fails(state, occurrences.drop_last(), i);
    }
}

/// The references that a run has taken up, where it did not fail, are those
/// it had at the start and those of the occurrences it met.
pub proof fn lemma_seen_references(state: RunView, occurrences: Seq<Occurrence>)
    requires
        after_all(state, occurrences).fault is None,
    ensures
        after_all(state, occurrences).seen.to_set() == state.seen.to_set().union(
            raw_references(occurrences).to_set(),
        ),
    decreases occurrences.len(),
{
    let end = after_all(state, occurrences);
    let raws = raw_references(occurrences);
    if occurrences.len() == 0 {
        assert(raws.to_set() =~= Set::<Seq<char>>::empty());
        assert(end.seen.to_set() =~= state.seen.to_set().union(raws.to_set()));
    } else {
        let shorter = occurrences.drop_last();
        let before = after_all(state, shorter);
        let raw = occurrences.last().directive.raw_reference;
        lemma_seen_references(state, shorter);
        assert(raws =~= raw_references(shorter).push(raw));
        raw_references(shorter).lemma_push_to_set_commute(raw);
        if before.seen.contains(raw) {
            assert(end.seen == before.seen);
        } else {
            assert(end.seen == before.seen.push(raw));
            before.seen.lemma_push_to_set_commute(raw);
        }
        assert(end.seen.to_set() =~= state.seen.to_set().union(raws.to_set()));
    }
}

/// A run that did not fail has taken up each distinct reference among its
/// occurrences exactly once; one that writes has written exactly one entry
/// for each, however often and in however many files the reference occurs.
pub proof fn lemma_one_entry_per_reference(
    template: Seq<char>,
    dry_run: bool,
    occurrences: Seq<Occurrence>,
)
    requires
        after_all(started(template, dry_run), occurrences).fault is None,
    ensures
        ({
            let end = after_all(started(template, dry_run), occurrences);
            let distinct = raw_references(occurrences).to_set();
            &&& distinct.finite()
            &&& end.seen.len() == distinct.len()
            &&& end.seen.to_set() == distinct
            &&& !dry_run ==> end.entries.len() == distinct.len()
            &&& !dry_run ==> references(end.entries) == end.seen
        }),
{
    let start = started(template, dry_run);
    let end = after_all(start, occurrences);
    let distinct = raw_references(occurrences).to_set();
    lemma_started_consistent(template, dry_run);
    lemma_after_all_consistent(start, occurrences);
    lemma_seen_references(start, occurrences);
    lemma_mode_and_template_stay(start, occurrences);
    assert(start.seen.to_set() =~= Set::<Seq<char>>::empty());
    assert(end.seen.to_set() =~= distinct);
    end.seen.unique_seq_to_set();
    vstd::seq_lib::seq_to_set_is_finite(raw_references(occurrences));
    if !dry_run {
        assert(references(end.entries).len() == end.entries.len());
    }
}

/// A run that has not failed in the end had not failed at any point before.
pub proof fn lemma_no_failure_before(state: RunView, occurrences: Seq<Occurrence>, n: int)
    requires
        0 <= n <= occurrences.len(),
        after_all(state, occurrences).fault is None,
    ensures
        after_all(state, occurrences.take(n)).fault is None,
    decreases occurrences.len(),
{
    if n < occurrences.len() {
        let shorter = occurrences.drop_last();
        assert(shorter.take(n) =~= occurrences.take(n));
        lemma_no_failure_before(state, shorter, n);
    } else {
        assert(occurrences.take(n) =~= occurrences);
    }
}

/// An entry, once written, stays: whatever follows, the run still holds it.
pub proof fn lemma_entries_stay(state: RunView, occurrences: Seq<Occurrence>, entry: Entry)
    requires
        state.entries.contains(entry),
    ensures
        after_all(state, occurrences).entries.contains(entry),
    decreases occurrences.len(),
{
    if occurrences.len() > 0 {
        let before = after_all(state, occurrences.drop_last());
        let end = after_all(state, occurrences);
        lemma_entries_stay(state, occurrences.drop_last(), entry);
        let i = choose|i: int| 0 <= i < before.entries.len() && before.entries[i] == entry;
        if end.entries != before.entries {
            assert(end.entries[i] == entry);
        }
    }
}

/// The first occurrence wins: in a run that writes and does not fail, the
/// entry of a reference holds the content that was found at the first
/// occurrence of that reference, whatever later occurrences of it resolve to.
pub proof fn lemma_first_occurrence_wins(
    template: Seq<char>,
    occurrences: Seq<Occurrence>,
    first: int,
    bytes: Seq<u8>,
)
    requires
        after_all(started(template, false), occurrences).fault is None,
        0 <= first < occurrences.len(),
        occurrences[first].probe == ProbeView::Loaded(bytes),
        forall|k: int|
            0 <= k < first ==> (#[trigger] occurrences[k]).directive.raw_reference
                != occurrences[first].directive.raw_reference,
    ensures
        after_all(started(template, false), occurrences).entries.contains(
            Entry {
                kind: occurrences[first].directive.kind,
                raw_reference: occurrences[first].directive.raw_reference,
                encoded: base64_standard(bytes),
            },
        ),
{
    let start = started(template, false);
    let met = occurrences.take(first);
    let raw = occurrences[first].directive.raw_reference;
    let entry = Entry {
        kind: occurrences[first].directive.kind,
        raw_reference: raw,
        encoded: base64_standard(bytes),
    };
    let before = after_all(start, met);
    lemma_no_failure_before(start, occurrences, first);
    lemma_no_failure_before(start, occurrences, first + 1);
    lemma_seen_references(start, met);
    lemma_mode_and_template_stay(start, met);
    assert(!before.seen.contains(raw)) by {
        if before.seen.contains(raw) {
            assert(before.seen.to_set().contains(raw));
            assert(start.seen.to_set() =~= Set::<Seq<char>>::empty());
            assert(raw_references(met).to_set().contains(raw));
            let k = choose|k: int|
                0 <= k < raw_references(met).len() && raw_references(met)[k] == raw;
            assert(met[k] == occurrences[k]);
        }
    }
    let through = occurrences.take(first + 1);
    assert(through.drop_last() =~= met);
    assert(through.last() == occurrences[first]);
    let then = after_all(start, through);
    assert(then == after(before, occurrences[first]));
    assert(then.entries == before.entries.push(entry));
    assert(then.entries[before.entries.len() as int] == entry);
    lemma_after_all_split(start, occurrences, first + 1);
    lemma_entries_stay(then, occurrences.skip(first + 1), entry);
}

/// Taking the occurrences in two parts, one after the other, is taking them
/// all.
pub proof fn lemma_after_all_split(state: RunView, occurrences: Seq<Occurrence>, n: int)
    requires
        0 <= n <= occurrences.len(),
    ensures
        after_all(state, occurrences) == after_all(
            after_all(state, occurrences.take(n)),
            occurrences.skip(n),
        ),
    decreases occurrences.len(),
{
    if n == occurrences.len() {
        assert(occurrences.take(n) =~= occurrences);
        assert(occurrences.skip(n).len() == 0);
    } else {
        let shorter = occurrences.drop_last();
        lemma_after_all_split(state, shorter, n);
        assert(shorter.take(n) =~= occurrences.take(n));
        assert(occurrences.skip(n).drop_last() =~= shorter.skip(n));
        assert(occurrences.skip(n).last() == occurrences.last());
    }
}

/// What a run writes. Let the template hold both markers, let the run write
/// and not fail, and let no entry hold the text of a marker. Then the text to
/// write is the template with one case clause for each distinct reference,
/// the newest first, directly behind each marker.
pub proof fn lemma_artifact_layout(
    template: Seq<char>,
    occurrences: Seq<Occurrence>,
    s: int,
    d: int,
)
    requires
        after_all(started(template, false), occurrences).fault is None,
        first_occurrence(template, STR_MARKER@, 0) == Some(s),
        first_occurrence(template, DATA_MARKER@, 0) == Some(d),
        marker_free(after_all(started(template, false), occurrences).entries),
    ensures
        ({
            let end = after_all(started(template, false), occurrences);
            let behind_str = s + STR_MARKER@.len();
            let behind_data = d + DATA_MARKER@.len();
            &&& end.entries.len() == raw_references(occurrences).to_set().len()
            &&& artifact(end) == Some(
                if s < d {
                    spliced(template, behind_str, behind_data, block(end.entries))
                } else {
                    spliced(template, behind_data, behind_str, block(end.entries))
                },
            )
        }),
{
    let start = started(template, false);
    let end = after_all(start, occurrences);
    lemma_one_entry_per_reference(template, false, occurrences);
    lemma_started_consistent(template, false);
    lemma_after_all_consistent(start, occurrences);
    lemma_mode_and_template_stay(start, occurrences);
    lemma_rendered_layout(template, end.entries, s, d);
}

/// A run keeps the mode and the template that it started with.
pub proof fn lemma_mode_and_template_stay(state: RunView, occurrences: Seq<Occurrence>)
    ensures
        after_all(state, occurrences).dry_run == state.dry_run,
        after_all(state, occurrences).template == state.template,
    decreases occurrences.len(),
{
    if occurrences.len() > 0 {
        lemma_mode_and_template_stay(state, occurrences.drop_last());
    }
}

/// What a run leaves depends on the template and on the occurrences alone:
/// two runs that start from the same template in the same mode and meet the
/// same occurrences end in the same state, with the same text to write.
pub proof fn lemma_same_inputs_same_artifact(
    template: Seq<char>,
    dry_run: bool,
    first: Seq<Occurrence>,
    second: Seq<Occurrence>,
)
    requires
        first.len() == second.len(),
        forall|i: int| 0 <= i < first.len() ==> first[i] == second[i],
    ensures
        after_all(started(template, dry_run), first) == after_all(
            started(template, dry_run),
            second,
        ),
        artifact(after_all(started(template, dry_run), first)) == artifact(
            after_all(started(template, dry_run), second),
        ),
{
    assert(first =~= second);
}

/// Occurrences whose files exist and whose references have all been taken
/// up change nothing.
pub proof fn lemma_seen_occurrences_change_nothing(state: RunView, occurrences: Seq<Occurrence>)
    requires
        forall|i: int|
            0 <= i < occurrences.len() ==> !((#[trigger] occurrences[i]).probe is Missing)
                && state.seen.contains(occurrences[i].directive.raw_reference),
    ensures
        after_all(state, occurrences) == state,
    decreases occurrences.len(),
{
    if occurrences.len() > 0 {
        let shorter = occurrences.drop_last();
        assert forall|i: int| 0 <= i < shorter.len() implies !((#[trigger] shorter[i]).probe
            is Missing) && state.seen.contains(shorter[i].directive.raw_reference) by {
            assert(shorter[i] == occurrences[i]);
        }
        lemma_seen_occurrences_change_nothing(state, shorter);
        assert(occurrences.last() == occurrences[occurrences.len() - 1]);
    }
}

/// Insertion is idempotent: a run that meets the same occurrences once more
/// stays as it is. Nothing is embedded a second time.
pub proof fn lemma_repeat_changes_nothing(state: RunView, occurrences: Seq<Occurrence>)
    ensures
        after_all(after_all(state, occurrences), occurrences) == after_all(state, occurrences),
{
    let end = after_all(state, occurrences);
    if end.fault is Some {
        lemma_failure_is_final(end, occurrences);
    } else {
        lemma_seen_references(state, occurrences);
        assert forall|i: int| 0 <= i < occurrences.len() implies !((
        #[trigger] occurrences[i]).probe is Missing) && end.seen.contains(
            occurrences[i].directive.raw_reference,
        ) by {
            if occurrences[i].probe is Missing {
                lemma_missing_reference_fails(state, occurrences, i);
            }
            let raw = occurrences[i].directive.raw_reference;
            assert(raw_references(occurrences)[i] == raw);
            assert(raw_references(occurrences).to_set().contains(raw));
            assert(end.seen.to_set().contains(raw));
        }
        lemma_seen_occurrences_change_nothing(end, occurrences);
    }
}

/// A dry run writes nothing: it inserts no entry, its text stays the
/// template, and it has no text to write to the generated file.
pub proof fn lemma_dry_run_writes_nothing(template: Seq<char>, occurrences: Seq<Occurrence>)
    ensures
        after_all(started(template, true), occurrences).entries.len() == 0,
        after_all(started(template, true), occurrences).buffer == template,
        artifact(after_all(started(template, true), occurrences)) is None,
    decreases occurrences.len(),
{
    if occurrences.len() > 0 {
        lemma_dry_run_writes_nothing(template, occurrences.drop_last());
        lemma_mode_and_template_stay(started(template, true), occurrences.drop_last());
    }
}

/// A dry run and a run that writes, started on states that agree on what was
/// seen and on the fault, still agree after occurrences with the same
/// findings, where the writing run has every content at hand.
pub proof fn lemma_modes_agree_from(
    dry: RunView,
    wet: RunView,
    dry_occurrences: Seq<Occurrence>,
    wet_occurrences: Seq<Occurrence>,
)
    requires
        dry.dry_run,
        !wet.dry_run,
        dry.seen == wet.seen,
        dry.fault == wet.fault,
        same_findings(dry_occurrences, wet_occurrences),
        all_loadable(wet_occurrences),
    ensures
        after_all(dry, dry_occurrences).seen == after_all(wet, wet_occurrences).seen,
        after_all(dry, dry_occurrences).fault == after_all(wet, wet_occurrences).fault,
    decreases dry_occurrences.len(),
{
    if dry_occurrences.len() > 0 {
        let dry_shorter = dry_occurrences.drop_last();
        let wet_shorter = wet_occurrences.drop_last();
        assert forall|i: int| 0 <= i < dry_shorter.len() implies {
            &&& (#[trigger] dry_shorter[i]).directive == (#[trigger] wet_shorter[i]).directive
            &&& dry_shorter[i].path == wet_shorter[i].path
            &&& (dry_shorter[i].probe is Missing <==> wet_shorter[i].probe is Missing)
        } by {
            assert(dry_shorter[i] == dry_occurrences[i]);
            assert(wet_shorter[i] == wet_occurrences[i]);
        }
        assert forall|i: int| 0 <= i < wet_shorter.len() implies match (
        #[trigger] wet_shorter[i]).probe {
            ProbeView::Missing => true,
            ProbeView::Present => false,
            ProbeView::Loaded(bytes) => encodable(bytes.len()),
        } by {
            assert(wet_shorter[i] == wet_occurrences[i]);
        }
        lemma_modes_agree_from(dry, wet, dry_shorter, wet_shorter);
        lemma_mode_and_template_stay(dry, dry_shorter);
        lemma_mode_and_template_stay(wet, wet_shorter);
        let last = dry_occurrences.len() - 1;
        assert(dry_occurrences.last() == dry_occurrences[last]);
        assert(wet_occurrences.last() == wet_occurrences[last]);
    }
}

/// A dry run takes up the same references as a run that writes, so it
/// reports the same count, and it fails at the same missing file with the
/// same fault, where the writing run has every content at hand.
pub proof fn lemma_dry_run_counts_alike(
    template: Seq<char>,
    dry_occurrences: Seq<Occurrence>,
    wet_occurrences: Seq<Occurrence>,
)
    requires
        same_findings(dry_occurrences, wet_occurrences),
        all_loadable(wet_occurrences),
    ensures
        after_all(started(template, true), dry_occurrences).seen == after_all(
            started(template, false),
            wet_occurrences,
        ).seen,
        after_all(started(template, true), dry_occurrences).fault == after_all(
            started(template, false),
            wet_occurrences,
        ).fault,
{
    lemma_modes_agree_from(
        started(template, true),
        started(template, false),
        dry_occurrences,
        wet_occurrences,
    );
}

} // verus!
