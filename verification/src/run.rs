//! One run over the occurrences of directives: what is embedded, what is
//! skipped, and when the run fails.

use crate::codec::{base64_standard, encodable, encode};
use crate::registry::DirectiveRegistry;
use crate::scanner::{Directive, DirectiveView};
use crate::template::{inserted, rendered, Entry, TemplateRewriter};
use crate::text::text_of;
use vstd::prelude::*;

verus! {

/// Why a run failed.
#[derive(Clone, Copy, Debug, PartialEq, Eq, Structural)]
pub enum FaultKind {
    /// A directive refers to a file that does not exist.
    Missing,
    /// The file that a directive refers to exists but could not be read.
    Unreadable,
    /// The file that a directive refers to is too long to encode.
    Oversized,
}

/// The failure of a run: what went wrong, at which directive, and with which
/// resolved path.
#[derive(Clone, Debug, PartialEq, Eq)]
pub struct Fault {
    pub kind: FaultKind,
    pub source_file: String,
    pub line_number: usize,
    pub path: String,
}

/// A fault as a mathematical value.
pub ghost struct FaultView {
    pub kind: FaultKind,
    pub source_file: Seq<char>,
    pub line_number: nat,
    pub path: Seq<char>,
}

impl View for Fault {
    type V = FaultView;

    open spec fn view(&self) -> FaultView {
        FaultView {
            kind: self.kind,
            source_file: self.source_file@,
            line_number: self.line_number as nat,
            path: self.path@,
        }
    }
}

/// What was found at the path that a reference resolved to.
#[derive(Clone, Debug, PartialEq, Eq)]
pub enum Probe {
    /// Nothing is there.
    Missing,
    /// Something is there; its content was not asked for, or could not be
    /// read.
    Present,
    /// A file is there, with this content.
    Loaded(Vec<u8>),
}

/// A probe as a mathematical value.
pub ghost enum ProbeView {
    Missing,
    Present,
    Loaded(Seq<u8>),
}

impl View for Probe {
    type V = ProbeView;

    open spec fn view(&self) -> ProbeView {
        match self {
            Probe::Missing => ProbeView::Missing,
            Probe::Present => ProbeView::Present,
            Probe::Loaded(bytes) => ProbeView::Loaded(bytes@),
        }
    }
}

/// One occurrence of a directive as the run meets it: the directive, the
/// path that its reference resolved to, and what was found there.
pub ghost struct Occurrence {
    pub directive: DirectiveView,
    pub path: Seq<char>,
    pub probe: ProbeView,
}

/// What a run did with one occurrence.
#[derive(Clone, Copy, Debug, PartialEq, Eq, Structural)]
pub enum Step {
    /// The reference was new: its file was encoded and inserted.
    Embedded,
    /// The reference was new in a dry run: it was counted, nothing was
    /// written.
    Counted,
    /// The reference had been seen before: nothing changed.
    Skipped,
    /// The run has failed, with this occurrence or an earlier one.
    Aborted,
}

/// The state of a run as a mathematical value.
pub ghost struct RunView {
    pub dry_run: bool,
    /// The text that the generated file starts from.
    pub template: Seq<char>,
    /// The distinct references taken up so far, in the order of their first
    /// occurrence.
    pub seen: Seq<Seq<char>>,
    /// The entries written so far, oldest first.
    pub entries: Seq<Entry>,
    /// The text of the generated file as it stands.
    pub buffer: Seq<char>,
    /// The failure that ended the run, if any.
    pub fault: Option<FaultView>,
}

/// The state in which a run starts.
pub open spec fn started(template: Seq<char>, dry_run: bool) -> RunView {
    RunView {
        dry_run,
        template,
        seen: Seq::empty(),
        entries: Seq::empty(),
        buffer: template,
        fault: None,
    }
}

/// The fault of the given kind at an occurrence.
pub open spec fn fault_at(kind: FaultKind, occurrence: Occurrence) -> FaultView {
    FaultView {
        kind,
        source_file: occurrence.directive.source_file,
        line_number: occurrence.directive.line_number,
        path: occurrence.path,
    }
}

/// The state with the run failed.
pub open spec fn failed(state: RunView, fault: FaultView) -> RunView {
    RunView { fault: Some(fault), ..state }
}

/// The state after one more occurrence.
///
/// A run that has failed stays as it is. Otherwise the existence of the
/// referenced file is checked first, for every occurrence: a missing file
/// fails the run. Then a reference that was seen before is skipped. A new one
/// is recorded; unless the run is dry, its file's content is encoded and
/// inserted, which fails the run where the content is not at hand or too long.
pub open spec fn after(state: RunView, occurrence: Occurrence) -> RunView {
    let raw = occurrence.directive.raw_reference;
    if state.fault is Some {
        state
    } else if occurrence.probe is Missing {
        failed(state, fault_at(FaultKind::Missing, occurrence))
    } else if state.seen.contains(raw) {
        state
    } else if state.dry_run {
        RunView { seen: state.seen.push(raw), ..state }
    } else {
        match occurrence.probe {
            ProbeView::Loaded(bytes) => if encodable(bytes.len()) {
                let encoded = base64_standard(bytes);
                RunView {
                    seen: state.seen.push(raw),
                    entries: state.entries.push(
                        Entry { kind: occurrence.directive.kind, raw_reference: raw, encoded },
                    ),
                    buffer: inserted(state.buffer, raw, encoded),
                    ..state
                }
            } else {
                failed(state, fault_at(FaultKind::Oversized, occurrence))
            },
            _ => failed(state, fault_at(FaultKind::Unreadable, occurrence)),
        }
    }
}

/// What the run reports of an occurrence that takes it from `state` to
/// `after(state, occurrence)`.
pub open spec fn step_of(state: RunView, occurrence: Occurrence) -> Step {
    if after(state, occurrence).fault is Some {
        Step::Aborted
    } else if state.seen.contains(occurrence.directive.raw_reference) {
        Step::Skipped
    } else if state.dry_run {
        Step::Counted
    } else {
        Step::Embedded
    }
}

/// The state after a sequence of occurrences, taken in order.
pub open spec fn after_all(state: RunView, occurrences: Seq<Occurrence>) -> RunView
    decreases occurrences.len(),
{
    if occurrences.len() == 0 {
        state
    } else {
        after(after_all(state, occurrences.drop_last()), occurrences.last())
    }
}

/// The references of a list of entries.
pub open spec fn references(entries: Seq<Entry>) -> Seq<Seq<char>> {
    entries.map_values(|e: Entry| e.raw_reference)
}

/// What holds of every state that a run reaches: no reference is taken up
/// twice; the text is the template with the entries inserted in order; a dry
/// run has written no entry; a run that writes has written exactly one entry
/// for each reference taken up, in the same order.
pub open spec fn consistent(state: RunView) -> bool {
    &&& state.seen.no_duplicates()
    &&& state.buffer == rendered(state.template, state.entries)
    &&& if state.dry_run {
        state.entries.len() == 0
    } else {
        references(state.entries) == state.seen
    }
}

/// The text to write to the generated file at the end of a run: none in a
/// dry run.
pub open spec fn artifact(state: RunView) -> Option<Seq<char>> {
    if state.dry_run {
        None
    } else {
        Some(state.buffer)
    }
}

/// A run starts in a consistent state.
pub proof fn lemma_started_consistent(template: Seq<char>, dry_run: bool)
    ensures
        consistent(started(template, dry_run)),
{
    assert(references(Seq::<Entry>::empty()) =~= Seq::<Seq<char>>::empty());
}

/// One more occurrence leaves a consistent state consistent.
pub proof fn lemma_after_consistent(state: RunView, occurrence: Occurrence)
    requires
        consistent(state),
    ensures
        consistent(after(state, occurrence)),
{
    let raw = occurrence.directive.raw_reference;
    let next = after(state, occurrence);
    if next.seen != state.seen {
        assert(next.seen == state.seen.push(raw));
        assert(!state.seen.contains(raw));
        assert forall|i: int, j: int|
            0 <= i < next.seen.len() && 0 <= j < next.seen.len() && i != j implies next.seen[i]
            != next.seen[j] by {
            if i < state.seen.len() && j < state.seen.len() {
            } else if i < state.seen.len() {
                assert(state.seen.contains(state.seen[i]));
            } else {
                assert(state.seen.contains(state.seen[j]));
            }
        }
        if !state.dry_run {
            assert(next.entries.drop_last() =~= state.entries);
            assert(references(next.entries) =~= references(state.entries).push(raw));
        }
    }
}

/// The result of a run that did not fail.
#[derive(Clone, Debug, PartialEq, Eq)]
pub struct Report {
    /// How many distinct references were taken up.
    pub count: usize,
    /// The text to write to the generated file; `None` in a dry run, which
    /// writes nothing.
    pub artifact: Option<String>,
}

/// A run in progress.
pub struct Run {
    dry_run: bool,
    registry: DirectiveRegistry,
    rewriter: TemplateRewriter,
    fault: Option<Fault>,
}

impl View for Run {
    type V = RunView;

    closed spec fn view(&self) -> RunView {
        RunView {
            dry_run: self.dry_run,
            template: self.rewriter.template(),
            seen: self.registry@,
            entries: self.rewriter.entries(),
            buffer: self.rewriter.buffer(),
            fault: match self.fault {
                Some(fault) => Some(fault@),
                None => None,
            },
        }
    }
}

impl Run {
    /// Starts a run from the pristine template. Whatever an earlier run wrote
    /// plays no part.
    pub fn new(template: &str, dry_run: bool) -> (run: Self)
        ensures
            run@ == started(template@, dry_run),
            consistent(run@),
    {
        proof {
            lemma_started_consistent(template@, dry_run);
        }
        Run {
            dry_run,
            registry: DirectiveRegistry::new(),
            rewriter: TemplateRewriter::new(template),
            fault: None,
        }
    }

    /// Whether the run is dry.
    pub fn is_dry(&self) -> (dry: bool)
        ensures
            dry == self@.dry_run,
    {
        self.dry_run
    }

    /// Whether the run has failed.
    pub fn has_failed(&self) -> (failed: bool)
        ensures
            failed == (self@.fault is Some),
    {
        self.fault.is_some()
    }

    /// How many distinct references the run has taken up.
    pub fn count(&self) -> (n: usize)
        ensures
            n == self@.seen.len(),
    {
        self.registry.len()
    }

    /// Whether the content of the file behind `raw_reference` is needed for
    /// the next step: the run goes on, writes, and has not seen the reference.
    pub fn wants_content(&self, raw_reference: &str) -> (wanted: bool)
        ensures
            wanted == (self@.fault is None && !self@.dry_run && !self@.seen.contains(
                raw_reference@,
            )),
    {
        self.fault.is_none() && !self.dry_run && !self.registry.contains(raw_reference)
    }

    /// Takes one occurrence of a directive: `path` is what its reference
    /// resolved to and `probe` what was found there.
    pub fn step(&mut self, directive: &Directive, path: &str, probe: Probe) -> (did: Step)
        ensures
            final(self)@ == after(
                old(self)@,
                Occurrence { directive: directive@, path: path@, probe: probe@ },
            ),
            did == step_of(
                old(self)@,
                Occurrence { directive: directive@, path: path@, probe: probe@ },
            ),
            consistent(old(self)@) ==> consistent(final(self)@),
    {
        let ghost occurrence = Occurrence { directive: directive@, path: path@, probe: probe@ };
        proof {
            if consistent(self@) {
                lemma_after_consistent(self@, occurrence);
            }
        }
        if self.fault.is_some() {
            return Step::Aborted;
        }
        if let Probe::Missing = probe {
            self.fail(FaultKind::Missing, directive, path);
            return Step::Aborted;
        }
        let raw = directive.raw_reference.as_str();
        if self.registry.contains(raw) {
            return Step::Skipped;
        }
        if self.dry_run {
            self.registry.mark_and_check(raw);
            return Step::Counted;
        }
        match probe {
            Probe::Loaded(bytes) => {
                match encode(bytes.as_slice()) {
                    Some(encoded) => {
                        self.registry.mark_and_check(raw);
                        self.rewriter.insert(directive.kind, raw, encoded.as_str());
                        Step::Embedded
                    },
                    None => {
                        self.fail(FaultKind::Oversized, directive, path);
                        Step::Aborted
                    },
                }
            },
            _ => {
                self.fail(FaultKind::Unreadable, directive, path);
                Step::Aborted
            },
        }
    }

    /// Ends the run: its report, or the fault that it failed with. A run that
    /// failed has no report.
    pub fn finish(self) -> (end: Result<Report, Fault>)
        ensures
            match end {
                Ok(report) => {
                    &&& self@.fault is None
                    &&& report.count == self@.seen.len()
                    &&& text_of(report.artifact) == artifact(self@)
                },
                Err(fault) => self@.fault == Some(fault@),
            },
    {
        match self.fault {
            Some(fault) => Err(fault),
            None => {
                let count = self.registry.len();
                let artifact = if self.dry_run {
                    None
                } else {
                    Some(self.rewriter.into_content())
                };
                Ok(Report { count, artifact })
            },
        }
    }

    /// Records that the run fails at `directive`.
    fn fail(&mut self, kind: FaultKind, directive: &Directive, path: &str)
        requires
            old(self)@.fault is None,
        ensures
            final(self)@ == failed(
                old(self)@,
                FaultView {
                    kind,
                    source_file: directive@.source_file,
                    line_number: directive@.line_number,
                    path: path@,
                },
            ),
    {
        self.fault = Some(
            Fault {
                kind,
                source_file: directive.source_file.clone(),
                line_number: directive.line_number,
                path: path.to_owned(),
            },
        );
    }
}

} // verus!
