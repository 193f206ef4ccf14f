//! Running one job and reporting on it.
//!
//! A job is given up when its document has moved on, before the work or after it: a newer
//! commit can arrive while the job is in flight. A panic of the work is reported as such.
//! Whatever happens, a job that is run is answered by one event.
//!
//! The work itself is done through [`Tools`], by a function that contains its own panics and
//! returns the report of one as an error. Where jobs are to panic on purpose, the work is not
//! done, and another function brings the report.
use crate::cancel::token_says;
use crate::channel::{handed_to, Outbox};
use crate::keys::AnalysisBucket;
use crate::protocol::{
    package_cancelled, package_cancelled_event, view_cancelled, view_cancelled_event, Artifacts,
    DocumentSnapshot, DocumentViewSnapshot, JobKind, PackageAnalysis, WorkerEvent,
};
use crate::tools::{same_functions, Step, Tools};
use std::collections::HashSet;
use std::sync::Arc;
use vstd::prelude::*;

verus! {

/// The check of a package snapshot's token, and how it came out.
pub open spec fn package_check<C: Artifacts>(
    snapshot: DocumentSnapshot<C>,
    cancelled: bool,
) -> Step<C> {
    Step::Checked {
        cancel_token: *snapshot.cancel_token,
        generation: snapshot.generation,
        cancelled,
    }
}

/// The check of a view snapshot's token, and how it came out.
pub open spec fn view_check<C: Artifacts>(
    snapshot: DocumentViewSnapshot<C>,
    cancelled: bool,
) -> Step<C> {
    Step::Checked {
        cancel_token: *snapshot.cancel_token,
        generation: snapshot.key.document_generation,
        cancelled,
    }
}

/// A panic on purpose in place of the analysis of a package snapshot.
pub open spec fn package_injection<C: Artifacts>(
    snapshot: DocumentSnapshot<C>,
    report: C::Report,
) -> Step<C> {
    Step::Injected {
        kind: JobKind::Package,
        uri: snapshot.uri,
        generation: snapshot.generation,
        report,
    }
}

/// A panic on purpose in place of the building of a document view.
pub open spec fn view_injection<C: Artifacts>(
    snapshot: DocumentViewSnapshot<C>,
    report: C::Report,
) -> Step<C> {
    Step::Injected {
        kind: JobKind::DocumentView,
        uri: snapshot.uri,
        generation: snapshot.key.document_generation,
        report,
    }
}

/// The answer to a package job that was analyzed.
pub open spec fn package_finished_event<C: Artifacts>(
    snapshot: DocumentSnapshot<C>,
    result: C::Analysis,
    cancelled: bool,
) -> WorkerEvent<C> {
    if cancelled {
        package_cancelled_event(snapshot)
    } else {
        WorkerEvent::PackageAnalyzed(
            PackageAnalysis {
                uri: snapshot.uri,
                generation: snapshot.generation,
                key: snapshot.package_key,
                result,
            },
        )
    }
}

/// The answer to a package job that panicked.
pub open spec fn package_panicked_event<C: Artifacts>(
    snapshot: DocumentSnapshot<C>,
    report: C::Report,
) -> WorkerEvent<C> {
    WorkerEvent::PackagePanicked {
        key: snapshot.package_key,
        uri: snapshot.uri,
        generation: snapshot.generation,
        report,
    }
}

/// The answer to a document view job that was built.
pub open spec fn view_finished_event<C: Artifacts>(
    snapshot: DocumentViewSnapshot<C>,
    view: C::View,
    cancelled: bool,
) -> WorkerEvent<C> {
    if cancelled {
        view_cancelled_event(snapshot)
    } else {
        WorkerEvent::DocumentViewBuilt(view)
    }
}

/// The answer to a document view job that panicked.
pub open spec fn view_panicked_event<C: Artifacts>(
    snapshot: DocumentViewSnapshot<C>,
    report: C::Report,
) -> WorkerEvent<C> {
    WorkerEvent::DocumentViewPanicked { key: snapshot.key, report }
}

/// The steps of a package job and the event that answers it. The first check decides whether
/// the snapshot is worked on. Then either a panic is injected or the snapshot is analyzed; a
/// panic ends the job; and after a success a second check decides whether the result still
/// counts.
pub open spec fn package_job_done<
    C: Artifacts,
    A: FnOnce(&DocumentSnapshot<C>) -> Result<C::Analysis, C::Report>,
    I: FnOnce(JobKind, &String, u64) -> C::Report,
>(
    snapshot: DocumentSnapshot<C>,
    panic_on_worker_job: bool,
    analyze: A,
    inject: I,
    steps: Seq<Step<C>>,
    event: WorkerEvent<C>,
) -> bool {
    let token = *snapshot.cancel_token;
    let generation = snapshot.generation;
    ||| {
        &&& token_says(token, generation, true)
        &&& steps == seq![package_check(snapshot, true)]
        &&& event == package_cancelled_event(snapshot)
    }
    ||| panic_on_worker_job && token_says(token, generation, false) && exists|report: C::Report|
        #[trigger] call_ensures(inject, (JobKind::Package, &snapshot.uri, generation), report)
            && steps == seq![
            package_check(snapshot, false),
            package_injection(snapshot, report),
        ] && event == package_panicked_event(snapshot, report)
    ||| !panic_on_worker_job && token_says(token, generation, false) && exists|report: C::Report|
        #[trigger] call_ensures(analyze, (&snapshot,), Err(report)) && steps == seq![
            package_check(snapshot, false),
            Step::Analyzed { snapshot, outcome: Err(report) },
        ] && event == package_panicked_event(snapshot, report)
    ||| !panic_on_worker_job && token_says(token, generation, false) && exists|
        result: C::Analysis,
        cancelled: bool,
    | #[trigger]
        call_ensures(analyze, (&snapshot,), Ok(result)) && #[trigger] token_says(
            token,
            generation,
            cancelled,
        ) && steps == seq![
            package_check(snapshot, false),
            Step::Analyzed { snapshot, outcome: Ok(result) },
            package_check(snapshot, cancelled),
        ] && event == package_finished_event(snapshot, result, cancelled)
}

/// The steps of a document view job and the event that answers it, as for a package job.
pub open spec fn view_job_done<
    C: Artifacts,
    B: FnOnce(&DocumentViewSnapshot<C>, Arc<C::Package>) -> Result<C::View, C::Report>,
    I: FnOnce(JobKind, &String, u64) -> C::Report,
>(
    snapshot: DocumentViewSnapshot<C>,
    package: Arc<C::Package>,
    panic_on_worker_job: bool,
    build: B,
    inject: I,
    steps: Seq<Step<C>>,
    event: WorkerEvent<C>,
) -> bool {
    let token = *snapshot.cancel_token;
    let generation = snapshot.key.document_generation;
    ||| {
        &&& token_says(token, generation, true)
        &&& steps == seq![view_check(snapshot, true)]
        &&& event == view_cancelled_event(snapshot)
    }
    ||| panic_on_worker_job && token_says(token, generation, false) && exists|report: C::Report|
        #[trigger] call_ensures(inject, (JobKind::DocumentView, &snapshot.uri, generation), report)
            && steps == seq![
            view_check(snapshot, false),
            view_injection(snapshot, report),
        ] && event == view_panicked_event(snapshot, report)
    ||| !panic_on_worker_job && token_says(token, generation, false) && exists|report: C::Report|
        #[trigger] call_ensures(build, (&snapshot, package), Err(report)) && steps == seq![
            view_check(snapshot, false),
            Step::Built { snapshot, package, outcome: Err(report) },
        ] && event == view_panicked_event(snapshot, report)
    ||| !panic_on_worker_job && token_says(token, generation, false) && exists|
        view: C::View,
        cancelled: bool,
    | #[trigger]
        call_ensures(build, (&snapshot, package), Ok(view)) && #[trigger] token_says(
            token,
            generation,
            cancelled,
        ) && steps == seq![
            view_check(snapshot, false),
            Step::Built { snapshot, package, outcome: Ok(view) },
            view_check(snapshot, cancelled),
        ] && event == view_finished_event(snapshot, view, cancelled)
}

/// Reports on an analysis that succeeded, given whether the document has moved on since.
pub fn package_finished<C: Artifacts>(
    snapshot: DocumentSnapshot<C>,
    result: C::Analysis,
    cancelled: bool,
) -> (event: WorkerEvent<C>)
    ensures
        event == package_finished_event(snapshot, result, cancelled),
{
    if cancelled {
        package_cancelled(snapshot)
    } else {
        WorkerEvent::PackageAnalyzed(
            PackageAnalysis {
                uri: snapshot.uri,
                generation: snapshot.generation,
                key: snapshot.package_key,
                result,
            },
        )
    }
}

/// Reports on an analysis that panicked.
pub fn package_panicked<C: Artifacts>(
    snapshot: DocumentSnapshot<C>,
    report: C::Report,
) -> (event: WorkerEvent<C>)
    ensures
        event == package_panicked_event(snapshot, report),
{
    WorkerEvent::PackagePanicked {
        key: snapshot.package_key,
        uri: snapshot.uri,
        generation: snapshot.generation,
        report,
    }
}

/// Reports on a document view that was built, given whether the document has moved on since.
pub fn view_finished<C: Artifacts>(
    snapshot: DocumentViewSnapshot<C>,
    view: C::View,
    cancelled: bool,
) -> (event: WorkerEvent<C>)
    ensures
        event == view_finished_event(snapshot, view, cancelled),
{
    if cancelled {
        view_cancelled(snapshot)
    } else {
        WorkerEvent::DocumentViewBuilt(view)
    }
}

/// Reports on a document view whose building panicked.
pub fn view_panicked<C: Artifacts>(
    snapshot: DocumentViewSnapshot<C>,
    report: C::Report,
) -> (event: WorkerEvent<C>)
    ensures
        event == view_panicked_event(snapshot, report),
{
    WorkerEvent::DocumentViewPanicked { key: snapshot.key, report }
}

/// Runs one package job and sends its answer.
///
/// Once a check has found the snapshot current, it is analyzed or, with `panic_on_worker_job`, a
/// panic injected in place of that.
pub fn run_package_job<
    C: Artifacts,
    R: Fn(Vec<HashSet<AnalysisBucket>>),
    A: Fn(&DocumentSnapshot<C>) -> Result<C::Analysis, C::Report>,
    B: Fn(&DocumentViewSnapshot<C>, Arc<C::Package>) -> Result<C::View, C::Report>,
    I: Fn(JobKind, &String, u64) -> C::Report,
>(
    snapshot: DocumentSnapshot<C>,
    event_tx: &mut Outbox<WorkerEvent<C>>,
    panic_on_worker_job: bool,
    tools: &mut Tools<C, R, A, B, I>,
)
    requires
        !panic_on_worker_job && token_says(*snapshot.cancel_token, snapshot.generation, false)
            ==> call_requires(old(tools).analyze_fn(), (&snapshot,)),
        panic_on_worker_job && token_says(*snapshot.cancel_token, snapshot.generation, false)
            ==> call_requires(
            old(tools).inject_fn(),
            (JobKind::Package, &snapshot.uri, snapshot.generation),
        ),
    ensures
        final(event_tx).sender() == old(event_tx).sender(),
        handed_to(old(event_tx).sender(), final(event_tx).sent().last()),
        final(event_tx).sent().len() == old(event_tx).sent().len() + 1,
        final(event_tx).sent().drop_last() == old(event_tx).sent(),
        same_functions(*old(tools), *final(tools)),
        old(tools).steps().is_prefix_of(final(tools).steps()),
        package_job_done(
            snapshot,
            panic_on_worker_job,
            old(tools).analyze_fn(),
            old(tools).inject_fn(),
            final(tools).steps().skip(old(tools).steps().len() as int),
            final(event_tx).sent().last(),
        ),
{
    let generation = snapshot.generation;
    let ghost before = tools.steps();
    if tools.check(&*snapshot.cancel_token, generation) {
        event_tx.send(package_cancelled(snapshot));
        proof {
            assert(event_tx.sent().drop_last() =~= old(event_tx).sent());
            assert(tools.steps().skip(before.len() as int) =~= seq![package_check(snapshot, true)]);
        }
        return;
    }
    let event = if panic_on_worker_job {
        let report = tools.inject(JobKind::Package, &snapshot.uri, generation);
        assert(tools.steps().skip(before.len() as int) =~= seq![
            package_check(snapshot, false),
            package_injection(snapshot, report),
        ]);
        package_panicked(snapshot, report)
    } else {
        match tools.analyze(&snapshot) {
            Ok(result) => {
                let cancelled = tools.check(&*snapshot.cancel_token, generation);
                assert(tools.steps().skip(before.len() as int) =~= seq![
                    package_check(snapshot, false),
                    Step::Analyzed { snapshot, outcome: Ok(result) },
                    package_check(snapshot, cancelled),
                ]);
                package_finished(snapshot, result, cancelled)
            },
            Err(report) => {
                assert(tools.steps().skip(before.len() as int) =~= seq![
                    package_check(snapshot, false),
                    Step::Analyzed { snapshot, outcome: Err(report) },
                ]);
                package_panicked(snapshot, report)
            },
        }
    };
    event_tx.send(event);
    assert(event_tx.sent().drop_last() =~= old(event_tx).sent());
}

/// Runs one document view job and sends its answer.
///
/// Once a check has found the snapshot current, the view is built or, with
/// `panic_on_worker_job`, a panic injected in its place.
pub fn run_view_job<
    C: Artifacts,
    R: Fn(Vec<HashSet<AnalysisBucket>>),
    A: Fn(&DocumentSnapshot<C>) -> Result<C::Analysis, C::Report>,
    B: Fn(&DocumentViewSnapshot<C>, Arc<C::Package>) -> Result<C::View, C::Report>,
    I: Fn(JobKind, &String, u64) -> C::Report,
>(
    snapshot: DocumentViewSnapshot<C>,
    package: Arc<C::Package>,
    event_tx: &mut Outbox<WorkerEvent<C>>,
    panic_on_worker_job: bool,
    tools: &mut Tools<C, R, A, B, I>,
)
    requires
        !panic_on_worker_job && token_says(
            *snapshot.cancel_token,
            snapshot.key.document_generation,
            false,
        ) ==> call_requires(old(tools).build_fn(), (&snapshot, package)),
        panic_on_worker_job && token_says(
            *snapshot.cancel_token,
            snapshot.key.document_generation,
            false,
        ) ==> call_requires(
            old(tools).inject_fn(),
            (JobKind::DocumentView, &snapshot.uri, snapshot.key.document_generation),
        ),
    ensures
        final(event_tx).sender() == old(event_tx).sender(),
        handed_to(old(event_tx).sender(), final(event_tx).sent().last()),
        final(event_tx).sent().len() == old(event_tx).sent().len() + 1,
        final(event_tx).sent().drop_last() == old(event_tx).sent(),
        same_functions(*old(tools), *final(tools)),
        old(tools).steps().is_prefix_of(final(tools).steps()),
        view_job_done(
            snapshot,
            package,
            panic_on_worker_job,
            old(tools).build_fn(),
            old(tools).inject_fn(),
            final(tools).steps().skip(old(tools).steps().len() as int),
            final(event_tx).sent().last(),
        ),
{
    let generation = snapshot.key.document_generation;
    let ghost before = tools.steps();
    if tools.check(&*snapshot.cancel_token, generation) {
        event_tx.send(view_cancelled(snapshot));
        proof {
            assert(event_tx.sent().drop_last() =~= old(event_tx).sent());
            assert(tools.steps().skip(before.len() as int) =~= seq![view_check(snapshot, true)]);
        }
        return;
    }
    let event = if panic_on_worker_job {
        let report = tools.inject(JobKind::DocumentView, &snapshot.uri, generation);
        assert(tools.steps().skip(before.len() as int) =~= seq![
            view_check(snapshot, false),
            view_injection(snapshot, report),
        ]);
        view_panicked(snapshot, report)
    } else {
        match tools.build(&snapshot, package) {
            Ok(view) => {
                let cancelled = tools.check(&*snapshot.cancel_token, generation);
                assert(tools.steps().skip(before.len() as int) =~= seq![
                    view_check(snapshot, false),
                    Step::Built { snapshot, package, outcome: Ok(view) },
                    view_check(snapshot, cancelled),
                ]);
                view_finished(snapshot, view, cancelled)
            },
            Err(report) => {
                assert(tools.steps().skip(before.len() as int) =~= seq![
                    view_check(snapshot, false),
                    Step::Built { snapshot, package, outcome: Err(report) },
                ]);
                view_panicked(snapshot, report)
            },
        }
    };
    event_tx.send(event);
    assert(event_tx.sent().drop_last() =~= old(event_tx).sent());
}

} // verus!
