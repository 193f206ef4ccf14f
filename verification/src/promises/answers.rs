//! The answers to jobs.
use crate::cancel::{token_read, token_says};
use crate::channel::Outbox;
use crate::jobs::{
    package_finished, package_job_done, package_panicked, run_package_job, run_view_job,
    view_finished, view_job_done, view_panicked,
};
use crate::keys::AnalysisBucket;
use crate::protocol::{
    package_cancelled, view_cancelled, Artifacts, DocumentSnapshot, DocumentViewSnapshot, JobKind,
    PackageAnalysis, WorkerEvent,
};
use crate::tools::{Step, Tools};
use crossbeam_channel::{SendError, Sender};
use std::collections::HashSet;
use std::sync::atomic::{AtomicU64, Ordering};
use std::sync::Arc;
use vstd::prelude::*;

verus! {

/// The steps that came after others.
pub(crate) proof fn lemma_steps_since<C: Artifacts>(
    before: Seq<Step<C>>,
    after: Seq<Step<C>>,
) -> (steps: Seq<Step<C>>)
    requires
        before.is_prefix_of(after),
    ensures
        steps == after.skip(before.len() as int),
        after == before + steps,
{
    let steps = after.skip(before.len() as int);
    assert(after =~= before + steps);
    steps
}

/// The course of a package job, in terms of what its token was read as and what the work came
/// to.
pub(crate) proof fn lemma_package_answer<
    C: Artifacts,
    A: FnOnce(&DocumentSnapshot<C>) -> Result<C::Analysis, C::Report>,
    I: FnOnce(JobKind, &String, u64) -> C::Report,
>(
    snapshot: DocumentSnapshot<C>,
    panics: bool,
    analyze: A,
    inject: I,
    before: Seq<Step<C>>,
    after: Seq<Step<C>>,
    steps: Seq<Step<C>>,
    event: WorkerEvent<C>,
)
    requires
        package_job_done(snapshot, panics, analyze, inject, steps, event),
        after == before + steps,
    ensures
        ({
            let token = *snapshot.cancel_token;
            let generation = snapshot.generation;
            let current = Step::<C>::Checked { cancel_token: token, generation, cancelled: false };
            let stale = Step::<C>::Checked { cancel_token: token, generation, cancelled: true };
            let cancelled = WorkerEvent::<C>::PackageCancelled {
                key: snapshot.package_key,
                uri: snapshot.uri,
                generation,
            };
            let taken = after;
            exists|first: u64|
                {
                    &&& #[trigger] call_ensures(AtomicU64::load, (&token, Ordering::SeqCst), first)
                    &&& first != generation ==> {
                        &&& taken == before + seq![stale]
                        &&& event == cancelled
                    }
                    &&& first == generation && panics ==> exists|report: C::Report|
                        {
                            &&& #[trigger] call_ensures(
                                inject,
                                (JobKind::Package, &snapshot.uri, generation),
                                report,
                            )
                            &&& taken == before + seq![
                                current,
                                Step::Injected {
                                    kind: JobKind::Package,
                                    uri: snapshot.uri,
                                    generation,
                                    report,
                                },
                            ]
                            &&& event == WorkerEvent::<C>::PackagePanicked {
                                key: snapshot.package_key,
                                uri: snapshot.uri,
                                generation,
                                report,
                            }
                        }
                    &&& first == generation && !panics ==> exists|
                        outcome: Result<C::Analysis, C::Report>,
                    |
                        {
                            &&& #[trigger] call_ensures(
                                analyze,
                                (&snapshot,),
                                outcome,
                            )
                            &&& match outcome {
                                Err(report) => {
                                    &&& taken == before + seq![
                                        current,
                                        Step::Analyzed { snapshot, outcome },
                                    ]
                                    &&& event == WorkerEvent::<C>::PackagePanicked {
                                        key: snapshot.package_key,
                                        uri: snapshot.uri,
                                        generation,
                                        report,
                                    }
                                },
                                Ok(result) => exists|second: u64|
                                    {
                                        &&& #[trigger] call_ensures(
                                            AtomicU64::load,
                                            (&token, Ordering::SeqCst),
                                            second,
                                        )
                                        &&& second != generation ==> {
                                            &&& taken == before + seq![
                                                current,
                                                Step::Analyzed { snapshot, outcome },
                                                stale,
                                            ]
                                            &&& event == cancelled
                                        }
                                        &&& second == generation ==> {
                                            &&& taken == before + seq![
                                                current,
                                                Step::Analyzed { snapshot, outcome },
                                                current,
                                            ]
                                            &&& event == WorkerEvent::<C>::PackageAnalyzed(
                                                PackageAnalysis {
                                                    uri: snapshot.uri,
                                                    generation,
                                                    key: snapshot.package_key,
                                                    result,
                                                },
                                            )
                                        }
                                    },
                            }
                        }
                }
        }),
{
    let token = *snapshot.cancel_token;
    let generation = snapshot.generation;
    if steps.len() == 1 {
        let first = choose|first: u64| #[trigger]
            token_read(token, first) && true == (first != generation);
        assert(call_ensures(AtomicU64::load, (&token, Ordering::SeqCst), first));
    } else {
        assert(token_says(token, generation, false));
        assert(token_read(token, generation));
        assert(call_ensures(AtomicU64::load, (&token, Ordering::SeqCst), generation));
        if !panics && steps.len() == 3 {
            assert(steps[1]->Analyzed_outcome is Ok);
            let cancelled = steps[2]->cancelled;
            assert(token_says(token, generation, cancelled));
            let second = choose|second: u64| #[trigger]
                token_read(token, second) && cancelled == (second != generation);
            assert(call_ensures(AtomicU64::load, (&token, Ordering::SeqCst), second));
        }
    }
}

/// The course of a document view job, in the same terms.
pub(crate) proof fn lemma_view_answer<
    C: Artifacts,
    B: FnOnce(&DocumentViewSnapshot<C>, Arc<C::Package>) -> Result<C::View, C::Report>,
    I: FnOnce(JobKind, &String, u64) -> C::Report,
>(
    snapshot: DocumentViewSnapshot<C>,
    package: Arc<C::Package>,
    panics: bool,
    build: B,
    inject: I,
    before: Seq<Step<C>>,
    after: Seq<Step<C>>,
    steps: Seq<Step<C>>,
    event: WorkerEvent<C>,
)
    requires
        view_job_done(snapshot, package, panics, build, inject, steps, event),
        after == before + steps,
    ensures
        ({
            let token = *snapshot.cancel_token;
            let generation = snapshot.key.document_generation;
            let current = Step::<C>::Checked { cancel_token: token, generation, cancelled: false };
            let stale = Step::<C>::Checked { cancel_token: token, generation, cancelled: true };
            let taken = after;
            exists|first: u64|
                {
                    &&& #[trigger] call_ensures(AtomicU64::load, (&token, Ordering::SeqCst), first)
                    &&& first != generation ==> {
                        &&& taken == before + seq![stale]
                        &&& event == WorkerEvent::<C>::DocumentViewCancelled { key: snapshot.key }
                    }
                    &&& first == generation && panics ==> exists|report: C::Report|
                        {
                            &&& #[trigger] call_ensures(
                                inject,
                                (JobKind::DocumentView, &snapshot.uri, generation),
                                report,
                            )
                            &&& taken == before + seq![
                                current,
                                Step::Injected {
                                    kind: JobKind::DocumentView,
                                    uri: snapshot.uri,
                                    generation,
                                    report,
                                },
                            ]
                            &&& event == WorkerEvent::<C>::DocumentViewPanicked {
                                key: snapshot.key,
                                report,
                            }
                        }
                    &&& first == generation && !panics ==> exists|
                        outcome: Result<C::View, C::Report>,
                    |
                        {
                            &&& #[trigger] call_ensures(
                                build,
                                (&snapshot, package),
                                outcome,
                            )
                            &&& match outcome {
                                Err(report) => {
                                    &&& taken == before + seq![
                                        current,
                                        Step::Built { snapshot, package, outcome },
                                    ]
                                    &&& event == WorkerEvent::<C>::DocumentViewPanicked {
                                        key: snapshot.key,
                                        report,
                                    }
                                },
                                Ok(view) => exists|second: u64|
                                    {
                                        &&& #[trigger] call_ensures(
                                            AtomicU64::load,
                                            (&token, Ordering::SeqCst),
                                            second,
                                        )
                                        &&& second != generation ==> {
                                            &&& taken == before + seq![
                                                current,
                                                Step::Built { snapshot, package, outcome },
                                                stale,
                                            ]
                                            &&& event == WorkerEvent::<C>::DocumentViewCancelled {
                                                key: snapshot.key,
                                            }
                                        }
                                        &&& second == generation ==> {
                                            &&& taken == before + seq![
                                                current,
                                                Step::Built { snapshot, package, outcome },
                                                current,
                                            ]
                                            &&& event == WorkerEvent::<C>::DocumentViewBuilt(view)
                                        }
                                    },
                            }
                        }
                }
        }),
{
    let token = *snapshot.cancel_token;
    let generation = snapshot.key.document_generation;
    if steps.len() == 1 {
        let first = choose|first: u64| #[trigger]
            token_read(token, first) && true == (first != generation);
        assert(call_ensures(AtomicU64::load, (&token, Ordering::SeqCst), first));
    } else {
        assert(token_says(token, generation, false));
        assert(token_read(token, generation));
        assert(call_ensures(AtomicU64::load, (&token, Ordering::SeqCst), generation));
        if !panics && steps.len() == 3 {
            assert(steps[1]->Built_outcome is Ok);
            let cancelled = steps[2]->cancelled;
            assert(token_says(token, generation, cancelled));
            let second = choose|second: u64| #[trigger]
                token_read(token, second) && cancelled == (second != generation);
            assert(call_ensures(AtomicU64::load, (&token, Ordering::SeqCst), second));
        }
    }
}

/// A package job reads its token first. If that shows another generation, the job is cancelled
/// and nothing else is done. If it shows the job's own, a panic is injected where that is asked
/// for, and otherwise the snapshot is analyzed; a panic is reported; and after a success the
/// token is read once more, and its showing the job's own generation decides between the result
/// and a cancellation. There is one event, with the snapshot's key, URI and generation.
pub proof fn law_package_job_is_answered<
    C: Artifacts,
    R: Fn(Vec<HashSet<AnalysisBucket>>),
    A: Fn(&DocumentSnapshot<C>) -> Result<C::Analysis, C::Report>,
    B: Fn(&DocumentViewSnapshot<C>, Arc<C::Package>) -> Result<C::View, C::Report>,
    I: Fn(JobKind, &String, u64) -> C::Report,
>(
    snapshot: DocumentSnapshot<C>,
    event_tx: &mut Outbox<WorkerEvent<C>>,
    panics: bool,
    tools: &mut Tools<C, R, A, B, I>,
)
    requires
        call_ensures(
            run_package_job::<C, R, A, B, I>,
            (snapshot, event_tx, panics, tools),
            (),
        ),
    ensures
        final(event_tx).sent() == old(event_tx).sent().push(final(event_tx).sent().last()),
        final(event_tx).sender() == old(event_tx).sender(),
        exists|result: Result<(), SendError<WorkerEvent<C>>>| #[trigger]
            call_ensures(
                Sender::<WorkerEvent<C>>::send,
                (&old(event_tx).sender(), final(event_tx).sent().last()),
                result,
            ),
        final(tools).retain_fn() == old(tools).retain_fn(),
        final(tools).analyze_fn() == old(tools).analyze_fn(),
        final(tools).build_fn() == old(tools).build_fn(),
        final(tools).inject_fn() == old(tools).inject_fn(),
        ({
            let token = *snapshot.cancel_token;
            let generation = snapshot.generation;
            let current = Step::<C>::Checked { cancel_token: token, generation, cancelled: false };
            let stale = Step::<C>::Checked { cancel_token: token, generation, cancelled: true };
            let cancelled = WorkerEvent::<C>::PackageCancelled {
                key: snapshot.package_key,
                uri: snapshot.uri,
                generation,
            };
            let event = final(event_tx).sent().last();
            let taken = final(tools).steps();
            exists|first: u64|
                {
                    &&& #[trigger] call_ensures(AtomicU64::load, (&token, Ordering::SeqCst), first)
                    &&& first != generation ==> {
                        &&& taken == old(tools).steps() + seq![stale]
                        &&& event == cancelled
                    }
                    &&& first == generation && panics ==> exists|report: C::Report|
                        {
                            &&& #[trigger] call_ensures(
                                old(tools).inject_fn(),
                                (JobKind::Package, &snapshot.uri, generation),
                                report,
                            )
                            &&& taken == old(tools).steps() + seq![
                                current,
                                Step::Injected {
                                    kind: JobKind::Package,
                                    uri: snapshot.uri,
                                    generation,
                                    report,
                                },
                            ]
                            &&& event == WorkerEvent::<C>::PackagePanicked {
                                key: snapshot.package_key,
                                uri: snapshot.uri,
                                generation,
                                report,
                            }
                        }
                    &&& first == generation && !panics ==> exists|
                        outcome: Result<C::Analysis, C::Report>,
                    |
                        {
                            &&& #[trigger] call_ensures(
                                old(tools).analyze_fn(),
                                (&snapshot,),
                                outcome,
                            )
                            &&& match outcome {
                                Err(report) => {
                                    &&& taken == old(tools).steps() + seq![
                                        current,
                                        Step::Analyzed { snapshot, outcome },
                                    ]
                                    &&& event == WorkerEvent::<C>::PackagePanicked {
                                        key: snapshot.package_key,
                                        uri: snapshot.uri,
                                        generation,
                                        report,
                                    }
                                },
                                Ok(result) => exists|second: u64|
                                    {
                                        &&& #[trigger] call_ensures(
                                            AtomicU64::load,
                                            (&token, Ordering::SeqCst),
                                            second,
                                        )
                                        &&& second != generation ==> {
                                            &&& taken == old(tools).steps() + seq![
                                                current,
                                                Step::Analyzed { snapshot, outcome },
                                                stale,
                                            ]
                                            &&& event == cancelled
                                        }
                                        &&& second == generation ==> {
                                            &&& taken == old(tools).steps() + seq![
                                                current,
                                                Step::Analyzed { snapshot, outcome },
                                                current,
                                            ]
                                            &&& event == WorkerEvent::<C>::PackageAnalyzed(
                                                PackageAnalysis {
                                                    uri: snapshot.uri,
                                                    generation,
                                                    key: snapshot.package_key,
                                                    result,
                                                },
                                            )
                                        }
                                    },
                            }
                        }
                }
        }),
{
    let event = final(event_tx).sent().last();
    let steps = lemma_steps_since(old(tools).steps(), final(tools).steps());
    assert(final(event_tx).sent() =~= old(event_tx).sent().push(event));
    lemma_package_answer(
        snapshot,
        panics,
        old(tools).analyze_fn(),
        old(tools).inject_fn(),
        old(tools).steps(),
        final(tools).steps(),
        steps,
        event,
    );
}

/// The same of a document view job.
pub proof fn law_view_job_is_answered<
    C: Artifacts,
    R: Fn(Vec<HashSet<AnalysisBucket>>),
    A: Fn(&DocumentSnapshot<C>) -> Result<C::Analysis, C::Report>,
    B: Fn(&DocumentViewSnapshot<C>, Arc<C::Package>) -> Result<C::View, C::Report>,
    I: Fn(JobKind, &String, u64) -> C::Report,
>(
    snapshot: DocumentViewSnapshot<C>,
    package: Arc<C::Package>,
    event_tx: &mut Outbox<WorkerEvent<C>>,
    panics: bool,
    tools: &mut Tools<C, R, A, B, I>,
)
    requires
        call_ensures(
            run_view_job::<C, R, A, B, I>,
            (snapshot, package, event_tx, panics, tools),
            (),
        ),
    ensures
        final(event_tx).sent() == old(event_tx).sent().push(final(event_tx).sent().last()),
        final(event_tx).sender() == old(event_tx).sender(),
        exists|result: Result<(), SendError<WorkerEvent<C>>>| #[trigger]
            call_ensures(
                Sender::<WorkerEvent<C>>::send,
                (&old(event_tx).sender(), final(event_tx).sent().last()),
                result,
            ),
        final(tools).retain_fn() == old(tools).retain_fn(),
        final(tools).analyze_fn() == old(tools).analyze_fn(),
        final(tools).build_fn() == old(tools).build_fn(),
        final(tools).inject_fn() == old(tools).inject_fn(),
        ({
            let token = *snapshot.cancel_token;
            let generation = snapshot.key.document_generation;
            let current = Step::<C>::Checked { cancel_token: token, generation, cancelled: false };
            let stale = Step::<C>::Checked { cancel_token: token, generation, cancelled: true };
            let event = final(event_tx).sent().last();
            let taken = final(tools).steps();
            exists|first: u64|
                {
                    &&& #[trigger] call_ensures(AtomicU64::load, (&token, Ordering::SeqCst), first)
                    &&& first != generation ==> {
                        &&& taken == old(tools).steps() + seq![stale]
                        &&& event == WorkerEvent::<C>::DocumentViewCancelled { key: snapshot.key }
                    }
                    &&& first == generation && panics ==> exists|report: C::Report|
                        {
                            &&& #[trigger] call_ensures(
                                old(tools).inject_fn(),
                                (JobKind::DocumentView, &snapshot.uri, generation),
                                report,
                            )
                            &&& taken == old(tools).steps() + seq![
                                current,
                                Step::Injected {
                                    kind: JobKind::DocumentView,
                                    uri: snapshot.uri,
                                    generation,
                                    report,
                                },
                            ]
                            &&& event == WorkerEvent::<C>::DocumentViewPanicked {
                                key: snapshot.key,
                                report,
                            }
                        }
                    &&& first == generation && !panics ==> exists|
                        outcome: Result<C::View, C::Report>,
                    |
                        {
                            &&& #[trigger] call_ensures(
                                old(tools).build_fn(),
                                (&snapshot, package),
                                outcome,
                            )
                            &&& match outcome {
                                Err(report) => {
                                    &&& taken == old(tools).steps() + seq![
                                        current,
                                        Step::Built { snapshot, package, outcome },
                                    ]
                                    &&& event == WorkerEvent::<C>::DocumentViewPanicked {
                                        key: snapshot.key,
                                        report,
                                    }
                                },
                                Ok(view) => exists|second: u64|
                                    {
                                        &&& #[trigger] call_ensures(
                                            AtomicU64::load,
                                            (&token, Ordering::SeqCst),
                                            second,
                                        )
                                        &&& second != generation ==> {
                                            &&& taken == old(tools).steps() + seq![
                                                current,
                                                Step::Built { snapshot, package, outcome },
                                                stale,
                                            ]
                                            &&& event == WorkerEvent::<C>::DocumentViewCancelled {
                                                key: snapshot.key,
                                            }
                                        }
                                        &&& second == generation ==> {
                                            &&& taken == old(tools).steps() + seq![
                                                current,
                                                Step::Built { snapshot, package, outcome },
                                                current,
                                            ]
                                            &&& event == WorkerEvent::<C>::DocumentViewBuilt(view)
                                        }
                                    },
                            }
                        }
                }
        }),
{
    let event = final(event_tx).sent().last();
    let steps = lemma_steps_since(old(tools).steps(), final(tools).steps());
    assert(final(event_tx).sent() =~= old(event_tx).sent().push(event));
    lemma_view_answer(
        snapshot,
        package,
        panics,
        old(tools).build_fn(),
        old(tools).inject_fn(),
        old(tools).steps(),
        final(tools).steps(),
        steps,
        event,
    );
}

/// The events about a package job carry the key, the URI and the generation of its snapshot, and
/// the result of the analysis or the report of the panic as it was.
pub proof fn law_package_events_carry_their_snapshot<C: Artifacts>(
    snapshot: DocumentSnapshot<C>,
    result: C::Analysis,
    report: C::Report,
    stale: bool,
    cancelled: WorkerEvent<C>,
    finished: WorkerEvent<C>,
    panicked: WorkerEvent<C>,
)
    requires
        call_ensures(package_cancelled::<C>, (snapshot,), cancelled),
        call_ensures(package_finished::<C>, (snapshot, result, stale), finished),
        call_ensures(package_panicked::<C>, (snapshot, report), panicked),
    ensures
        cancelled == (WorkerEvent::<C>::PackageCancelled {
            key: snapshot.package_key,
            uri: snapshot.uri,
            generation: snapshot.generation,
        }),
        stale ==> finished == cancelled,
        !stale ==> finished == WorkerEvent::<C>::PackageAnalyzed(
            PackageAnalysis {
                uri: snapshot.uri,
                generation: snapshot.generation,
                key: snapshot.package_key,
                result,
            },
        ),
        panicked == (WorkerEvent::<C>::PackagePanicked {
            key: snapshot.package_key,
            uri: snapshot.uri,
            generation: snapshot.generation,
            report,
        }),
{
}

/// The events about a document view job carry its key, and the view or the report as it was.
pub proof fn law_view_events_carry_their_key<C: Artifacts>(
    snapshot: DocumentViewSnapshot<C>,
    view: C::View,
    report: C::Report,
    stale: bool,
    cancelled: WorkerEvent<C>,
    finished: WorkerEvent<C>,
    panicked: WorkerEvent<C>,
)
    requires
        call_ensures(view_cancelled::<C>, (snapshot,), cancelled),
        call_ensures(view_finished::<C>, (snapshot, view, stale), finished),
        call_ensures(view_panicked::<C>, (snapshot, report), panicked),
    ensures
        cancelled == (WorkerEvent::<C>::DocumentViewCancelled { key: snapshot.key }),
        stale ==> finished == cancelled,
        !stale ==> finished == WorkerEvent::<C>::DocumentViewBuilt(view),
        panicked == (WorkerEvent::<C>::DocumentViewPanicked { key: snapshot.key, report }),
{
}

} // verus!
