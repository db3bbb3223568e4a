//! The report of an acceptance run: its lifecycle, and the digest of the sources.

use crate::metainfo::identity::{sha256_digest, sha256_of};
use crate::metainfo::paths::path_less;
use crate::order::{lemma_path_irreflexive, lemma_path_total, lemma_path_transitive, path_before};
use crate::text::{hex, hex_text, parts_view};
use vstd::prelude::*;
use vstd::utf8::encode_utf8;

verus! {

/// How a run ended.
#[derive(Clone, Copy, Debug, PartialEq, Eq, Structural)]
pub enum FinishOutcome {
    Passed,
    Failed,
    Aborted,
    EnvironmentBlocked,
}

impl FinishOutcome {
    /// The label of an outcome.
    pub open spec fn text(self) -> Seq<char> {
        match self {
            FinishOutcome::Passed => "passed"@,
            FinishOutcome::Failed => "failed"@,
            FinishOutcome::Aborted => "aborted"@,
            FinishOutcome::EnvironmentBlocked => "environment_blocked"@,
        }
    }

    /// The label of the outcome.
    pub fn label(self) -> (label: &'static str)
        ensures
            label@ == self.text(),
    {
        match self {
            FinishOutcome::Passed => "passed",
            FinishOutcome::Failed => "failed",
            FinishOutcome::Aborted => "aborted",
            FinishOutcome::EnvironmentBlocked => "environment_blocked",
        }
    }

    /// The outcome of a run that was or was not completed, and did or did not pass.
    pub fn of_run(completed: bool, passed: bool) -> (outcome: FinishOutcome)
        ensures
            outcome == if !completed {
                FinishOutcome::Aborted
            } else if passed {
                FinishOutcome::Passed
            } else {
                FinishOutcome::Failed
            },
    {
        if !completed {
            FinishOutcome::Aborted
        } else if passed {
            FinishOutcome::Passed
        } else {
            FinishOutcome::Failed
        }
    }
}

/// How far a report is.
#[derive(Clone, Copy, Debug, PartialEq, Eq, Structural)]
pub enum Phase {
    Preparing,
    Running,
    /// An attempt was made to save it, successful or not.
    Attempted,
}

/// A report: how far it is, what it says, and whether it was saved only because it was given up.
#[derive(Clone, Copy, Debug, PartialEq, Eq, Structural)]
pub struct Report {
    pub phase: Phase,
    pub status: FinishOutcome,
    pub fallback: bool,
}

/// The report was saved already, or an attempt was made.
#[derive(Clone, Copy, Debug, PartialEq, Eq, Structural)]
pub struct AlreadyAttempted;

/// What happens to a report.
pub enum ReportStep {
    Run,
    Finish(FinishOutcome),
    GiveUp,
}

impl Report {
    /// The report after a step.
    pub open spec fn after(self, step: ReportStep) -> Report {
        if self.phase is Attempted {
            self
        } else {
            match step {
                ReportStep::Run => Report {
                    phase: Phase::Running,
                    status: FinishOutcome::Failed,
                    ..self
                },
                ReportStep::Finish(outcome) => Report {
                    phase: Phase::Attempted,
                    status: outcome,
                    ..self
                },
                ReportStep::GiveUp => Report {
                    phase: Phase::Attempted,
                    status: if self.phase is Preparing {
                        FinishOutcome::EnvironmentBlocked
                    } else {
                        FinishOutcome::Failed
                    },
                    fallback: true,
                },
            }
        }
    }

    /// The report after some steps.
    pub open spec fn after_all(self, steps: Seq<ReportStep>) -> Report
        decreases steps.len(),
    {
        if steps.len() == 0 {
            self
        } else {
            self.after_all(steps.drop_last()).after(steps.last())
        }
    }

    /// The report of a run that is being prepared. It never claims a success.
    pub fn new() -> (report: Report)
        ensures
            report == (Report {
                phase: Phase::Preparing,
                status: FinishOutcome::EnvironmentBlocked,
                fallback: false,
            }),
    {
        Report {
            phase: Phase::Preparing,
            status: FinishOutcome::EnvironmentBlocked,
            fallback: false,
        }
    }

    /// Whether the report can still be changed.
    pub fn ensure_mutable(&self) -> (result: Result<(), AlreadyAttempted>)
        ensures
            result is Ok == !(self.phase is Attempted),
    {
        if self.phase == Phase::Attempted {
            Err(AlreadyAttempted)
        } else {
            Ok(())
        }
    }

    /// Begins the run: without an end it has failed.
    pub fn running(&mut self) -> (result: Result<(), AlreadyAttempted>)
        ensures
            result is Ok == !(old(self).phase is Attempted),
            *final(self) == old(self).after(ReportStep::Run),
    {
        if self.phase == Phase::Attempted {
            return Err(AlreadyAttempted);
        }
        self.phase = Phase::Running;
        self.status = FinishOutcome::Failed;
        Ok(())
    }

    /// Ends the run. The report is to be saved now, and never again.
    pub fn finish(&mut self, outcome: FinishOutcome) -> (result: Result<(), AlreadyAttempted>)
        ensures
            result is Ok == !(old(self).phase is Attempted),
            *final(self) == old(self).after(ReportStep::Finish(outcome)),
    {
        if self.phase == Phase::Attempted {
            return Err(AlreadyAttempted);
        }
        self.phase = Phase::Attempted;
        self.status = outcome;
        Ok(())
    }

    /// Gives the report up, and says whether it is to be saved as it is.
    pub fn give_up(&mut self) -> (saves: bool)
        ensures
            saves == !(old(self).phase is Attempted),
            *final(self) == old(self).after(ReportStep::GiveUp),
    {
        match self.phase {
            Phase::Attempted => {
                return false;
            },
            Phase::Preparing => {
                self.status = FinishOutcome::EnvironmentBlocked;
            },
            Phase::Running => {
                self.status = FinishOutcome::Failed;
            },
        }
        self.phase = Phase::Attempted;
        self.fallback = true;
        true
    }
}

/// Once a report was saved, nothing changes what it says.
pub proof fn lemma_saved_report(report: Report, steps: Seq<ReportStep>)
    requires
        report.phase is Attempted,
    ensures
        report.after_all(steps) == report,
    decreases steps.len(),
{
    if steps.len() > 0 {
        lemma_saved_report(report, steps.drop_last());
    }
}

/// A report says that a run passed only if its end said so.
pub proof fn lemma_passed_is_explicit(report: Report, steps: Seq<ReportStep>)
    requires
        !(report.status is Passed),
        forall|i: int|
            0 <= i < steps.len() ==> #[trigger] steps[i] != ReportStep::Finish(
                FinishOutcome::Passed,
            ),
    ensures
        !(report.after_all(steps).status is Passed),
    decreases steps.len(),
{
    if steps.len() > 0 {
        let rest = steps.drop_last();
        assert forall|i: int| 0 <= i < rest.len() implies #[trigger] rest[i] != ReportStep::Finish(
            FinishOutcome::Passed,
        ) by {
            assert(rest[i] == steps[i]);
        }
        lemma_passed_is_explicit(report, rest);
        assert(steps[steps.len() - 1] == steps.last());
    }
}

/// A source file: the parts of its path from the root, the path as it is written down, and the digest
/// of its content.
#[derive(Debug)]
pub struct SourceFile {
    pub parts: Vec<Vec<u8>>,
    pub path: String,
    pub digest: [u8; 32],
}

impl SourceFile {
    /// The parts of the path.
    pub open spec fn place(self) -> Seq<Seq<u8>> {
        parts_view(self.parts@)
    }
}

/// Whether files stand in the order of their paths: part by part, by bytes.
pub open spec fn in_path_order(files: Seq<SourceFile>) -> bool {
    forall|i: int, j: int|
        0 <= i < j < files.len() ==> !path_before(
            (#[trigger] files[j]).place(),
            (#[trigger] files[i]).place(),
        )
}

/// Where a file goes among files in order: behind all that do not come after it.
pub open spec fn file_place(files: Seq<SourceFile>, file: SourceFile) -> int
    decreases files.len(),
{
    if files.len() == 0 || !path_before(file.place(), files.last().place()) {
        files.len() as int
    } else {
        file_place(files.drop_last(), file)
    }
}

/// The files in the order of their paths; files with one path stay as they were.
pub open spec fn ordered(files: Seq<SourceFile>) -> Seq<SourceFile>
    decreases files.len(),
{
    if files.len() == 0 {
        files
    } else {
        let before = ordered(files.drop_last());
        before.insert(file_place(before, files.last()), files.last())
    }
}

/// Only files that come after a file stand behind its place, and none before it.
proof fn lemma_file_place(files: Seq<SourceFile>, file: SourceFile)
    requires
        in_path_order(files),
    ensures
        0 <= file_place(files, file) <= files.len(),
        forall|k: int|
            0 <= k < file_place(files, file) ==> !path_before(
                file.place(),
                (#[trigger] files[k]).place(),
            ),
        forall|k: int|
            file_place(files, file) <= k < files.len() ==> path_before(
                file.place(),
                (#[trigger] files[k]).place(),
            ),
    decreases files.len(),
{
    if files.len() > 0 {
        let last = files[files.len() - 1];
        if path_before(file.place(), last.place()) {
            let rest = files.drop_last();
            assert forall|i: int, j: int| 0 <= i < j < rest.len() implies !path_before(
                (#[trigger] rest[j]).place(),
                (#[trigger] rest[i]).place(),
            ) by {
                assert(rest[i] == files[i] && rest[j] == files[j]);
            }
            lemma_file_place(rest, file);
            let at = file_place(rest, file);
            assert forall|k: int| 0 <= k < at implies !path_before(
                file.place(),
                (#[trigger] files[k]).place(),
            ) by {
                assert(files[k] == rest[k]);
            }
            assert forall|k: int| at <= k < files.len() implies path_before(
                file.place(),
                (#[trigger] files[k]).place(),
            ) by {
                if k < rest.len() {
                    assert(files[k] == rest[k]);
                }
            }
        } else {
            assert forall|k: int| 0 <= k < files.len() implies !path_before(
                file.place(),
                (#[trigger] files[k]).place(),
            ) by {
                if k < files.len() - 1 && path_before(file.place(), files[k].place()) {
                    lemma_path_total(files[k].place(), last.place());
                    if path_before(files[k].place(), last.place()) {
                        lemma_path_transitive(file.place(), files[k].place(), last.place());
                    }
                }
            }
        }
    }
}

/// The manifest covers exactly the files that it is given, and lists them in ascending order of
/// their paths, whatever order they come in.
pub proof fn lemma_ordered(files: Seq<SourceFile>)
    ensures
        in_path_order(ordered(files)),
        ordered(files).to_multiset() == files.to_multiset(),
    decreases files.len(),
{
    if files.len() > 0 {
        let rest = files.drop_last();
        let file = files.last();
        lemma_ordered(rest);
        let before = ordered(rest);
        lemma_file_place(before, file);
        let at = file_place(before, file);
        let after = before.insert(at, file);
        assert forall|i: int, j: int| 0 <= i < j < after.len() implies !path_before(
            (#[trigger] after[j]).place(),
            (#[trigger] after[i]).place(),
        ) by {
            if i != at && j != at {
                let x = if i < at {
                    i
                } else {
                    i - 1
                };
                let y = if j < at {
                    j
                } else {
                    j - 1
                };
                assert(after[i] == before[x] && after[j] == before[y]);
            } else if j == at {
                assert(after[i] == before[i]);
            } else {
                assert(after[j] == before[j - 1]);
                if path_before(after[j].place(), file.place()) {
                    lemma_path_transitive(file.place(), after[j].place(), file.place());
                    lemma_path_irreflexive(file.place());
                }
            }
        }
        vstd::seq_lib::to_multiset_insert(before, at, file);
        vstd::seq_lib::to_multiset_build(rest, file);
        assert(rest.push(file) =~= files);
    }
}

/// The files in the order of their paths.
fn put_in_order(files: Vec<SourceFile>) -> (sorted: Vec<SourceFile>)
    ensures
        sorted@ == ordered(files@),
{
    let ghost all = files@;
    let count: usize = files.len();
    let mut left = files;
    let mut sorted: Vec<SourceFile> = Vec::new();
    assert(all.skip(0) =~= all);
    assert(sorted@ =~= ordered(all.take(0)));
    for i in 0..count
        invariant
            count == all.len(),
            left@ == all.skip(i as int),
            sorted@ == ordered(all.take(i as int)),
    {
        let file = left.remove(0);
        let ghost before = sorted@;
        let ghost next = all.take(i + 1);
        proof {
            assert(left@ =~= all.skip(i + 1));
            assert(next.drop_last() =~= all.take(i as int));
            assert(next.last() == file);
            assert(before.take(before.len() as int) =~= before);
        }
        let mut at: usize = sorted.len();
        while at > 0 && path_less(&file.parts, &sorted[at - 1].parts)
            invariant
                at <= before.len(),
                sorted@ == before,
                file_place(before, file) == file_place(before.take(at as int), file),
            decreases at,
        {
            proof {
                let tested = before.take(at as int);
                assert(tested.last() == before[at - 1]);
                assert(tested.drop_last() =~= before.take(at - 1));
            }
            at = at - 1;
        }
        proof {
            if at > 0 {
                assert(before.take(at as int).last() == before[at - 1]);
            }
            assert(file_place(before, file) == at);
        }
        sorted.insert(at, file);
    }
    assert(all.take(count as int) =~= all);
    sorted
}

/// The line of a file: its digest, two spaces, and its path.
pub open spec fn manifest_line(file: SourceFile) -> Seq<char> {
    hex_text(file.digest@) + "  "@ + file.path@ + "\n"@
}

/// The lines of files.
pub open spec fn manifest_text(files: Seq<SourceFile>) -> Seq<char>
    decreases files.len(),
{
    if files.len() == 0 {
        Seq::empty()
    } else {
        manifest_text(files.drop_last()) + manifest_line(files.last())
    }
}

/// The lines of files.
pub fn manifest(files: &Vec<SourceFile>) -> (text: String)
    ensures
        text@ == manifest_text(files@),
{
    let mut text = String::new();
    for i in 0..files.len()
        invariant
            text@ == manifest_text(files@.take(i as int)),
    {
        let ghost before = text@;
        proof {
            assert(files@.take(i + 1).drop_last() =~= files@.take(i as int));
            assert(files@.take(i + 1).last() == files@[i as int]);
        }
        text.push_str(hex(vstd::array::array_as_slice(&files[i].digest)).as_str());
        text.push_str("  ");
        text.push_str(files[i].path.as_str());
        text.push_str("\n");
        assert(text@ =~= before + manifest_line(files@[i as int]));
    }
    assert(files@.take(files@.len() as int) =~= files@);
    text
}

/// The digest of the sources, and their manifest: the digest of the manifest stands for all. The
/// files are listed in the order of their paths.
pub fn source_digest(files: Vec<SourceFile>) -> (digest: (String, String))
    ensures
        digest.1@ == manifest_text(ordered(files@)),
        digest.0@ == hex_text(sha256_digest(encode_utf8(manifest_text(ordered(files@))))),
        in_path_order(ordered(files@)),
        ordered(files@).to_multiset() == files@.to_multiset(),
{
    let ghost all = files@;
    let sorted = put_in_order(files);
    proof {
        lemma_ordered(all);
    }
    let text = manifest(&sorted);
    let digest: [u8; 32] = sha256_of(text.as_str().as_bytes());
    (hex(vstd::array::array_as_slice(&digest)), text)
}

/// The digest of the content of a file.
pub fn file_digest(content: &[u8]) -> (digest: [u8; 32])
    ensures
        digest@ == sha256_digest(content@),
{
    sha256_of(content)
}

/// A report that runs has failed until it is finished. It is finished with the outcome that is given,
/// or given up as blocked while it was prepared and as failed while it ran; after that nothing
/// changes it.
pub proof fn lemma_report_steps(report: Report, outcome: FinishOutcome)
    ensures
        ({
            let running = report.after(ReportStep::Run);
            let finished = report.after(ReportStep::Finish(outcome));
            let given_up = report.after(ReportStep::GiveUp);
            &&& report.phase is Attempted ==> running == report && finished == report && given_up
                == report
            &&& !(report.phase is Attempted) ==> {
                &&& running.phase is Running && running.status is Failed && running.fallback
                    == report.fallback
                &&& finished.phase is Attempted && finished.status == outcome && finished.fallback
                    == report.fallback
                &&& given_up.phase is Attempted && given_up.fallback
                &&& report.phase is Preparing ==> given_up.status is EnvironmentBlocked
                &&& report.phase is Running ==> given_up.status is Failed
            }
        }),
        FinishOutcome::Passed.text() == "passed"@,
        FinishOutcome::Failed.text() == "failed"@,
        FinishOutcome::Aborted.text() == "aborted"@,
        FinishOutcome::EnvironmentBlocked.text() == "environment_blocked"@,
{
}

/// The manifest has a line for each file: its digest in hexadecimal, two spaces, its path.
pub proof fn lemma_manifest(files: Seq<SourceFile>, file: SourceFile)
    ensures
        manifest_text(Seq::empty()).len() == 0,
        manifest_text(files.push(file)) == manifest_text(files) + hex_text(file.digest@) + seq![
            ' ',
            ' ',
        ] + file.path@ + seq!['\n'],
        file.place().len() == file.parts@.len(),
        forall|i: int| 0 <= i < file.parts@.len() ==> file.place()[i] == (#[trigger] file.parts@[i])@,
{
    reveal_strlit("  ");
    reveal_strlit("\n");
    assert(files.push(file).drop_last() =~= files);
    assert("  "@ =~= seq![' ', ' ']);
    assert("\n"@ =~= seq!['\n']);
    assert(manifest_text(files.push(file)) =~= manifest_text(files) + hex_text(file.digest@) + seq![
        ' ',
        ' ',
    ] + file.path@ + seq!['\n']);
}

/// Files with the same path keep the order that they came in.
pub proof fn lemma_order_is_stable(files: Seq<SourceFile>, file: SourceFile)
    ensures
        ordered(Seq::empty()).len() == 0,
        ({
            let before = ordered(files);
            exists|at: int|
                {
                    &&& 0 <= at <= before.len()
                    &&& ordered(files.push(file)) == #[trigger] before.insert(at, file)
                    &&& forall|i: int|
                        at <= i < before.len() ==> path_before(
                            file.place(),
                            (#[trigger] before[i]).place(),
                        )
                    &&& forall|i: int|
                        0 <= i < at ==> !path_before(file.place(), (#[trigger] before[i]).place())
                }
        }),
{
    assert(files.push(file).drop_last() =~= files);
    lemma_ordered(files);
    let before = ordered(files);
    lemma_file_place(before, file);
    assert(ordered(files.push(file)) == before.insert(file_place(before, file), file));
}

} // verus!
