//! Turns of the worker, one at a time.
use super::answers::{lemma_package_answer, lemma_steps_since, lemma_view_answer};
use super::queues::{
    law_commands_are_taken_in_one_by_one, law_every_message_is_a_command,
    law_orders_are_the_sets_named,
};
use crate::channel::{Look, Polled};
use crate::intake::looks_since;
use crate::jobs::{package_job_done, view_job_done};
use crate::keys::{AnalysisBucket, PackageKeyView, ViewKeyView};
use crate::laws::{
    law_absorb_in_parts, law_all_commands_keep_order, law_commands_in_parts, law_newest_first,
    law_newest_package_runs_first, law_newest_view_runs_first, law_one_command_per_look,
    law_single_command, lemma_has_latest, lemma_not_empty,
};
use crate::model::{
    absorb, absorb_all, absorb_all_events, absorb_all_orders, absorb_events, commands_in, gathered,
    goes_on, no_jobs, stops, Queues,
};
use crate::pending::{
    is_latest, latest_key, lemma_latest_key, PendingPackageJob, PendingViewJob,
};
use crate::protocol::{
    Artifacts, DocumentSnapshot, DocumentViewSnapshot, JobKind, PackageAnalysis, WorkerCommand,
    WorkerEvent,
};
use crate::tools::{same_functions, Step, Tools};
use crate::worker::{gave_orders, next_job_done, reaches, round_done, took_in, RoundEnd, Worker};
use std::collections::HashSet;
use std::sync::atomic::{AtomicU64, Ordering};
use std::sync::Arc;
use vstd::prelude::*;

verus! {

/// Taking in commands, the worker waits only when no job does, and then for one look. It looks
/// until there is no message, one to stop, or no sender left, or until it has made the looks that
/// it may beside the one that it waited for; and it says which. Leave to work is given only by a
/// look that found the channel empty.
pub proof fn law_worker_looks_before_it_works<C: Artifacts>(
    worker: &mut Worker<C>,
    limit: u64,
    end: Option<bool>,
    looks: Seq<Look<WorkerCommand<C>>>,
)
    requires
        call_ensures(Worker::<C>::gather, (worker, limit), end),
        old(worker).wf(),
        looks == final(worker).commands().looks().skip(
            old(worker).commands().looks().len() as int,
        ),
    ensures
        final(worker).commands().receiver() == old(worker).commands().receiver(),
        final(worker).commands().looks() == old(worker).commands().looks() + looks,
        forall|i: int|
            0 <= i < looks.len() ==> ((#[trigger] looks[i]).waited <==> i == 0
                && (forall|k: PackageKeyView|
                !(#[trigger] old(worker).queues().packages.contains_key(k)))
                && (forall|k: ViewKeyView|
                !(#[trigger] old(worker).queues().views.contains_key(k)))),
        forall|i: int|
            0 <= i < looks.len() && (#[trigger] looks[i]).waited ==> !(looks[i].brought is Empty),
        limit > 0 ==> looks.len() > 0,
        forall|i: int|
            0 <= i < looks.len() - 1 ==> {
                &&& (#[trigger] looks[i]).brought is Message
                &&& !(looks[i].brought->Message_0 is Shutdown)
            },
        end is Some ==> looks.len() > 0,
        end == Some(false) <==> looks.len() > 0 && looks.last().brought is Empty,
        end == Some(true) <==> looks.len() > 0 && (looks.last().brought is Disconnected || (
        looks.last().brought is Message && looks.last().brought->Message_0 is Shutdown)),
        end is None ==> looks.len() == limit + if looks.len() > 0 && looks[0].waited {
            1int
        } else {
            0int
        },
{
    let before = old(worker).queues();
    assert(final(worker).commands().looks() =~= old(worker).commands().looks() + looks);
    lemma_looks(before, looks, limit, end);
}

/// What looks that went as they should show.
pub(crate) proof fn lemma_looks<C: Artifacts>(
    before: Queues<C>,
    looks: Seq<Look<WorkerCommand<C>>>,
    limit: u64,
    end: Option<bool>,
)
    requires
        before.wf(),
        gathered(before.idle(), looks, limit as int, end),
    ensures
        before.idle() <==> (forall|k: PackageKeyView| !(#[trigger] before.packages.contains_key(k)))
            && (forall|k: ViewKeyView| !(#[trigger] before.views.contains_key(k))),
        forall|i: int| 0 <= i < looks.len() ==> ((#[trigger] looks[i]).waited <==> i == 0
            && before.idle()),
        before.idle() ==> looks.len() > 0 && !(looks[0].brought is Empty),
        limit > 0 ==> looks.len() > 0,
        end is Some ==> looks.len() > 0,
        forall|i: int|
            0 <= i < looks.len() && (end is None || i < looks.len() - 1) ==> goes_on(
                #[trigger] looks[i],
            ),
        end == Some(false) <==> looks.len() > 0 && looks.last().brought is Empty,
        end == Some(true) <==> looks.len() > 0 && stops(looks.last()),
        end is None ==> looks.len() == limit + if before.idle() {
            1int
        } else {
            0int
        },
{
    assert(before.idle() <==> (forall|k: PackageKeyView|
        !(#[trigger] before.packages.contains_key(k))) && (forall|k: ViewKeyView|
        !(#[trigger] before.views.contains_key(k)))) by {
        if !before.idle() {
            if before.packages != Map::<PackageKeyView, PendingPackageJob<C>>::empty() {
                lemma_not_empty(before.packages);
                lemma_has_latest(before.packages);
                assert(before.packages.contains_key(latest_key(before.packages)));
            } else {
                lemma_not_empty(before.views);
                lemma_has_latest(before.views);
                assert(before.views.contains_key(latest_key(before.views)));
            }
        }
    }
    if before.idle() {
        let rest = looks.skip(1);
        assert forall|i: int| 1 <= i < looks.len() implies #[trigger] looks[i] == rest[i - 1] by {}
        if rest.len() > 0 {
            assert(rest.last() == looks.last());
        }
        assert forall|i: int|
            0 <= i < looks.len() && (end is None || i < looks.len() - 1) implies goes_on(
            #[trigger] looks[i],
        ) by {
            if i > 0 {
                assert(looks[i] == rest[i - 1]);
                if i == looks.len() - 1 {
                    assert(rest[i - 1] == rest.last());
                }
            }
        }
    }
}

/// What is taken in is what the messages leave, one after the other; the sets of open buckets
/// among them come behind the orders at hand, every one of them.
pub proof fn law_worker_takes_in_every_message<C: Artifacts>(
    worker: &mut Worker<C>,
    limit: u64,
    end: Option<bool>,
    looks: Seq<Look<WorkerCommand<C>>>,
)
    requires
        call_ensures(Worker::<C>::gather, (worker, limit), end),
        looks == final(worker).commands().looks().skip(
            old(worker).commands().looks().len() as int,
        ),
    ensures
        ({
            let done = looks.filter_map(
                |look: Look<WorkerCommand<C>>|
                    match look.brought {
                        Polled::Message(command) => Some(command),
                        _ => None,
                    },
            ).fold_left(
                (old(worker).queues(), Seq::<WorkerEvent<C>>::empty()),
                |done: (Queues<C>, Seq<WorkerEvent<C>>), command: WorkerCommand<C>|
                    (absorb(done.0, command), done.1 + absorb_events(done.0, command)),
            );
            &&& final(worker).queues() == done.0
            &&& final(worker).events().sent() == old(worker).events().sent() + done.1
        }),
        final(worker).orders() == old(worker).orders() + looks.filter_map(
            |look: Look<WorkerCommand<C>>|
                match look.brought {
                    Polled::Message(WorkerCommand::SetOpenBuckets(buckets)) => Some(buckets),
                    _ => None,
                },
        ),
        final(worker).events().sender() == old(worker).events().sender(),
        final(worker).panics() == old(worker).panics(),
{
    let commands = commands_in(looks);
    law_every_message_is_a_command(looks);
    lemma_sets_named(looks);
    law_commands_are_taken_in_one_by_one(old(worker).queues(), commands);
}

/// The sets of open buckets that looks bring are the orders that their commands give.
pub(crate) proof fn lemma_sets_named<C: Artifacts>(looks: Seq<Look<WorkerCommand<C>>>)
    ensures
        absorb_all_orders(commands_in(looks)) == looks.filter_map(
            |look: Look<WorkerCommand<C>>|
                match look.brought {
                    Polled::Message(WorkerCommand::SetOpenBuckets(buckets)) => Some(buckets),
                    _ => None,
                },
        ),
    decreases looks.len(),
{
    let named = |look: Look<WorkerCommand<C>>|
        match look.brought {
            Polled::Message(WorkerCommand::SetOpenBuckets(buckets)) => Some(buckets),
            _ => None,
        };
    if looks.len() > 0 {
        let before = looks.drop_last();
        lemma_sets_named(before);
        law_orders_are_the_sets_named(commands_in(looks));
        law_orders_are_the_sets_named(commands_in(before));
        if let Polled::Message(command) = looks.last().brought {
            assert(commands_in(looks).drop_last() =~= commands_in(before));
        }
    }
    assert(absorb_all_orders(commands_in(looks)) =~= looks.filter_map(named));
}

/// The package cache is given the orders at hand, all of them and as they are, in one call; none
/// is at hand afterwards, and nothing else changes.
pub proof fn law_worker_passes_its_orders_on<
    C: Artifacts,
    R: Fn(Vec<HashSet<AnalysisBucket>>),
    A: Fn(&DocumentSnapshot<C>) -> Result<C::Analysis, C::Report>,
    B: Fn(&DocumentViewSnapshot<C>, Arc<C::Package>) -> Result<C::View, C::Report>,
    I: Fn(JobKind, &String, u64) -> C::Report,
>(worker: &mut Worker<C>, tools: &mut Tools<C, R, A, B, I>)
    requires
        call_ensures(Worker::<C>::give_orders::<R, A, B, I>, (worker, tools), ()),
    ensures
        exists|orders: Vec<HashSet<AnalysisBucket>>|
            orders@ == old(worker).orders() && #[trigger] call_ensures(
                old(tools).retain_fn(),
                (orders,),
                (),
            ),
        final(worker).orders() == Seq::<HashSet<AnalysisBucket>>::empty(),
        final(tools).steps() == old(tools).steps().push(Step::Ordered(old(worker).orders())),
        final(worker).queues() == old(worker).queues(),
        final(worker).commands() == old(worker).commands(),
        final(worker).events() == old(worker).events(),
        final(worker).panics() == old(worker).panics(),
        final(tools).retain_fn() == old(tools).retain_fn(),
        final(tools).analyze_fn() == old(tools).analyze_fn(),
        final(tools).build_fn() == old(tools).build_fn(),
        final(tools).inject_fn() == old(tools).inject_fn(),
{
}

/// With no job at hand none is run, and nothing happens.
pub proof fn law_without_a_job_nothing_is_run<
    C: Artifacts,
    R: Fn(Vec<HashSet<AnalysisBucket>>),
    A: Fn(&DocumentSnapshot<C>) -> Result<C::Analysis, C::Report>,
    B: Fn(&DocumentViewSnapshot<C>, Arc<C::Package>) -> Result<C::View, C::Report>,
    I: Fn(JobKind, &String, u64) -> C::Report,
>(worker: &mut Worker<C>, tools: &mut Tools<C, R, A, B, I>, ran: bool)
    requires
        call_ensures(Worker::<C>::run_next_job::<R, A, B, I>, (worker, tools), ran),
        old(worker).wf(),
    ensures
        ran <==> (exists|k: PackageKeyView| #[trigger]
            old(worker).queues().packages.contains_key(k)) || (exists|k: ViewKeyView| #[trigger]
            old(worker).queues().views.contains_key(k)),
        !ran ==> {
            &&& final(worker).queues() == old(worker).queues()
            &&& final(worker).events() == old(worker).events()
            &&& final(tools).steps() == old(tools).steps()
        },
        final(worker).commands() == old(worker).commands(),
        final(worker).orders() == old(worker).orders(),
        final(worker).panics() == old(worker).panics(),
        final(worker).events().sender() == old(worker).events().sender(),
        final(tools).retain_fn() == old(tools).retain_fn(),
        final(tools).analyze_fn() == old(tools).analyze_fn(),
        final(tools).build_fn() == old(tools).build_fn(),
        final(tools).inject_fn() == old(tools).inject_fn(),
{
    let queues = old(worker).queues();
    if queues.packages != Map::<PackageKeyView, PendingPackageJob<C>>::empty() {
        lemma_not_empty(queues.packages);
        lemma_has_latest(queues.packages);
        assert(queues.packages.contains_key(latest_key(queues.packages)));
    } else if queues.views != Map::<ViewKeyView, PendingViewJob<C>>::empty() {
        lemma_not_empty(queues.views);
        lemma_has_latest(queues.views);
        assert(queues.views.contains_key(latest_key(queues.views)));
    }
    let steps = lemma_steps_since(old(tools).steps(), final(tools).steps());
    if !ran {
        assert(final(tools).steps() =~= old(tools).steps());
    }
}

/// Of the package jobs that wait, the one that arrived last is run: it alone leaves, and its own
/// snapshot is checked, worked on and answered. It is cancelled only if its token was read as
/// another generation, and its result is sent if the token was read as its own before the work
/// and after.
pub proof fn law_newest_package_job_is_run<
    C: Artifacts,
    R: Fn(Vec<HashSet<AnalysisBucket>>),
    A: Fn(&DocumentSnapshot<C>) -> Result<C::Analysis, C::Report>,
    B: Fn(&DocumentViewSnapshot<C>, Arc<C::Package>) -> Result<C::View, C::Report>,
    I: Fn(JobKind, &String, u64) -> C::Report,
>(worker: &mut Worker<C>, tools: &mut Tools<C, R, A, B, I>, ran: bool, k: PackageKeyView)
    requires
        call_ensures(Worker::<C>::run_next_job::<R, A, B, I>, (worker, tools), ran),
        old(worker).wf(),
        old(worker).queues().packages.contains_key(k),
        forall|other: PackageKeyView| #[trigger]
            old(worker).queues().packages.contains_key(other) ==> old(
                worker,
            ).queues().packages[other].sequence <= old(worker).queues().packages[k].sequence,
    ensures
        ran,
        final(worker).queues().packages == old(worker).queues().packages.remove(k),
        final(worker).queues().views == old(worker).queues().views,
        final(worker).queues().sequence == old(worker).queues().sequence,
        final(worker).events().sent() == old(worker).events().sent().push(
            final(worker).events().sent().last(),
        ),
        ({
            let snapshot = old(worker).queues().packages[k].snapshot;
            let token = *snapshot.cancel_token;
            let generation = snapshot.generation;
            let current = Step::<C>::Checked { cancel_token: token, generation, cancelled: false };
            let stale = Step::<C>::Checked { cancel_token: token, generation, cancelled: true };
            let cancelled = WorkerEvent::<C>::PackageCancelled {
                key: snapshot.package_key,
                uri: snapshot.uri,
                generation,
            };
            let event = final(worker).events().sent().last();
            let taken = final(tools).steps();
            exists|first: u64|
                {
                    &&& #[trigger] call_ensures(AtomicU64::load, (&token, Ordering::SeqCst), first)
                    &&& first != generation ==> {
                        &&& taken == old(tools).steps() + seq![stale]
                        &&& event == cancelled
                    }
                    &&& first == generation && old(worker).panics() ==> exists|report: C::Report|
                        {
                            &&& #[trigger] call_ensures(
                                old(tools).inject_fn(),
                                (JobKind::Package, &snapshot.uri, generation),
                                report,
                            )
                            &&& taken == old(tools).steps() + seq![
                                current,
                                Step::Injected {
                                    kind: JobKind::Package,
                                    uri: snapshot.uri,
                                    generation,
                                    report,
                                },
                            ]
                            &&& event == WorkerEvent::<C>::PackagePanicked {
                                key: snapshot.package_key,
                                uri: snapshot.uri,
                                generation,
                                report,
                            }
                        }
                    &&& first == generation && !old(worker).panics() ==> exists|
                        outcome: Result<C::Analysis, C::Report>,
                    |
                        {
                            &&& #[trigger] call_ensures(
                                old(tools).analyze_fn(),
                                (&snapshot,),
                                outcome,
                            )
                            &&& match outcome {
                                Err(report) => {
                                    &&& taken == old(tools).steps() + seq![
                                        current,
                                        Step::Analyzed { snapshot, outcome },
                                    ]
                                    &&& event == WorkerEvent::<C>::PackagePanicked {
                                        key: snapshot.package_key,
                                        uri: snapshot.uri,
                                        generation,
                                        report,
                                    }
                                },
                                Ok(result) => exists|second: u64|
                                    {
                                        &&& #[trigger] call_ensures(
                                            AtomicU64::load,
                                            (&token, Ordering::SeqCst),
                                            second,
                                        )
                                        &&& second != generation ==> {
                                            &&& taken == old(tools).steps() + seq![
                                                current,
                                                Step::Analyzed { snapshot, outcome },
                                                stale,
                                            ]
                                            &&& event == cancelled
                                        }
                                        &&& second == generation ==> {
                                            &&& taken == old(tools).steps() + seq![
                                                current,
                                                Step::Analyzed { snapshot, outcome },
                                                current,
                                            ]
                                            &&& event == WorkerEvent::<C>::PackageAnalyzed(
                                                PackageAnalysis {
                                                    uri: snapshot.uri,
                                                    generation,
                                                    key: snapshot.package_key,
                                                    result,
                                                },
                                            )
                                        }
                                    },
                            }
                        }
                }
        }),
{
    let queues = old(worker).queues();
    let snapshot = queues.packages[k].snapshot;
    assert(is_latest(queues.packages, k));
    lemma_latest_key(queues.packages, k);
    let event = final(worker).events().sent().last();
    let steps = lemma_steps_since(old(tools).steps(), final(tools).steps());
    assert(final(worker).events().sent() =~= old(worker).events().sent().push(event));
    lemma_package_answer(
        snapshot,
        old(worker).panics(),
        old(tools).analyze_fn(),
        old(tools).inject_fn(),
        old(tools).steps(),
        final(tools).steps(),
        steps,
        event,
    );
}

/// The same of document view jobs, where no package job waits.
pub proof fn law_newest_view_job_is_run<
    C: Artifacts,
    R: Fn(Vec<HashSet<AnalysisBucket>>),
    A: Fn(&DocumentSnapshot<C>) -> Result<C::Analysis, C::Report>,
    B: Fn(&DocumentViewSnapshot<C>, Arc<C::Package>) -> Result<C::View, C::Report>,
    I: Fn(JobKind, &String, u64) -> C::Report,
>(worker: &mut Worker<C>, tools: &mut Tools<C, R, A, B, I>, ran: bool, k: ViewKeyView)
    requires
        call_ensures(Worker::<C>::run_next_job::<R, A, B, I>, (worker, tools), ran),
        old(worker).wf(),
        forall|other: PackageKeyView| !(#[trigger] old(worker).queues().packages.contains_key(
            other,
        )),
        old(worker).queues().views.contains_key(k),
        forall|other: ViewKeyView| #[trigger]
            old(worker).queues().views.contains_key(other) ==> old(
                worker,
            ).queues().views[other].sequence <= old(worker).queues().views[k].sequence,
    ensures
        ran,
        final(worker).queues().views == old(worker).queues().views.remove(k),
        final(worker).queues().packages == old(worker).queues().packages,
        final(worker).queues().sequence == old(worker).queues().sequence,
        final(worker).events().sent() == old(worker).events().sent().push(
            final(worker).events().sent().last(),
        ),
        ({
            let snapshot = old(worker).queues().views[k].snapshot;
            let package = old(worker).queues().views[k].package;
            let token = *snapshot.cancel_token;
            let generation = snapshot.key.document_generation;
            let current = Step::<C>::Checked { cancel_token: token, generation, cancelled: false };
            let stale = Step::<C>::Checked { cancel_token: token, generation, cancelled: true };
            let event = final(worker).events().sent().last();
            let taken = final(tools).steps();
            exists|first: u64|
                {
                    &&& #[trigger] call_ensures(AtomicU64::load, (&token, Ordering::SeqCst), first)
                    &&& first != generation ==> {
                        &&& taken == old(tools).steps() + seq![stale]
                        &&& event == WorkerEvent::<C>::DocumentViewCancelled { key: snapshot.key }
                    }
                    &&& first == generation && old(worker).panics() ==> exists|report: C::Report|
                        {
                            &&& #[trigger] call_ensures(
                                old(tools).inject_fn(),
                                (JobKind::DocumentView, &snapshot.uri, generation),
                                report,
                            )
                            &&& taken == old(tools).steps() + seq![
                                current,
                                Step::Injected {
                                    kind: JobKind::DocumentView,
                                    uri: snapshot.uri,
                                    generation,
                                    report,
                                },
                            ]
                            &&& event == WorkerEvent::<C>::DocumentViewPanicked {
                                key: snapshot.key,
                                report,
                            }
                        }
                    &&& first == generation && !old(worker).panics() ==> exists|
                        outcome: Result<C::View, C::Report>,
                    |
                        {
                            &&& #[trigger] call_ensures(
                                old(tools).build_fn(),
                                (&snapshot, package),
                                outcome,
                            )
                            &&& match outcome {
                                Err(report) => {
                                    &&& taken == old(tools).steps() + seq![
                                        current,
                                        Step::Built { snapshot, package, outcome },
                                    ]
                                    &&& event == WorkerEvent::<C>::DocumentViewPanicked {
                                        key: snapshot.key,
                                        report,
                                    }
                                },
                                Ok(view) => exists|second: u64|
                                    {
                                        &&& #[trigger] call_ensures(
                                            AtomicU64::load,
                                            (&token, Ordering::SeqCst),
                                            second,
                                        )
                                        &&& second != generation ==> {
                                            &&& taken == old(tools).steps() + seq![
                                                current,
                                                Step::Built { snapshot, package, outcome },
                                                stale,
                                            ]
                                            &&& event == WorkerEvent::<C>::DocumentViewCancelled {
                                                key: snapshot.key,
                                            }
                                        }
                                        &&& second == generation ==> {
                                            &&& taken == old(tools).steps() + seq![
                                                current,
                                                Step::Built { snapshot, package, outcome },
                                                current,
                                            ]
                                            &&& event == WorkerEvent::<C>::DocumentViewBuilt(view)
                                        }
                                    },
                            }
                        }
                }
        }),
{
    let queues = old(worker).queues();
    let snapshot = queues.views[k].snapshot;
    let package = queues.views[k].package;
    assert(queues.packages =~= Map::<PackageKeyView, PendingPackageJob<C>>::empty());
    assert(is_latest(queues.views, k));
    lemma_latest_key(queues.views, k);
    let event = final(worker).events().sent().last();
    let steps = lemma_steps_since(old(tools).steps(), final(tools).steps());
    assert(final(worker).events().sent() =~= old(worker).events().sent().push(event));
    lemma_view_answer(
        snapshot,
        package,
        old(worker).panics(),
        old(tools).build_fn(),
        old(tools).inject_fn(),
        old(tools).steps(),
        final(tools).steps(),
        steps,
        event,
    );
}

/// The parts of a turn.
pub(crate) proof fn lemma_turn_parts<
    C: Artifacts,
    R: Fn(Vec<HashSet<AnalysisBucket>>),
    A: Fn(&DocumentSnapshot<C>) -> Result<C::Analysis, C::Report>,
    B: Fn(&DocumentViewSnapshot<C>, Arc<C::Package>) -> Result<C::View, C::Report>,
    I: Fn(JobKind, &String, u64) -> C::Report,
>(
    before: Worker<C>,
    after: Worker<C>,
    tools: Tools<C, R, A, B, I>,
    used: Tools<C, R, A, B, I>,
    limit: u64,
    end: RoundEnd,
    looks: Seq<Look<WorkerCommand<C>>>,
) -> (parts: (Worker<C>, Tools<C, R, A, B, I>, Option<bool>))
    requires
        round_done(before, after, tools, used, limit, end),
        looks == after.commands().looks().skip(before.commands().looks().len() as int),
    ensures
        after.commands().looks() == before.commands().looks() + looks,
        gathered(before.queues().idle(), looks, limit as int, parts.2),
        parts.0.queues() == absorb_all(before.queues(), commands_in(looks)),
        parts.0.events().sent() == before.events().sent() + absorb_all_events(
            before.queues(),
            commands_in(looks),
        ),
        parts.0.panics() == before.panics(),
        parts.0.orders() == Seq::<HashSet<AnalysisBucket>>::empty(),
        parts.0.commands().receiver() == before.commands().receiver(),
        parts.0.events().sender() == before.events().sender(),
        same_functions(tools, parts.1),
        parts.1.steps() == tools.steps().push(
            Step::Ordered(before.orders() + looks.filter_map(
                |look: Look<WorkerCommand<C>>|
                    match look.brought {
                        Polled::Message(WorkerCommand::SetOpenBuckets(buckets)) => Some(buckets),
                        _ => None,
                    },
            )),
        ),
        exists|orders: Vec<HashSet<AnalysisBucket>>|
            orders@ == before.orders() + looks.filter_map(
                |look: Look<WorkerCommand<C>>|
                    match look.brought {
                        Polled::Message(WorkerCommand::SetOpenBuckets(buckets)) => Some(buckets),
                        _ => None,
                    },
            ) && #[trigger] call_ensures(tools.retain_fn(), (orders,), ()),
        match parts.2 {
            Some(true) => end is Stopped && after == parts.0 && used == parts.1,
            Some(false) => end is Worked && next_job_done(
                parts.0,
                after,
                parts.1,
                used,
                end->ran,
            ),
            None => end is MoreCommands && after == parts.0 && used == parts.1,
        },
{
    let (taken_in, ordered, told, gathering) = choose|
        taken_in: Worker<C>,
        ordered: Worker<C>,
        told: Tools<C, R, A, B, I>,
        gathering: Option<bool>,
    |
        {
            &&& #[trigger] took_in(before, taken_in, limit, gathering)
            &&& #[trigger] gave_orders(taken_in, ordered, tools, told)
            &&& match gathering {
                Some(true) => end is Stopped && after == ordered && used == told,
                Some(false) => end is Worked && next_job_done(ordered, after, told, used, end->ran),
                None => end is MoreCommands && after == ordered && used == told,
            }
        };
    assert(looks == looks_since(before.commands(), taken_in.commands()));
    assert(after.commands().looks() =~= before.commands().looks() + looks);
    lemma_sets_named(looks);
    (ordered, told, gathering)
}

/// The looks of a turn decide how it ends. It stops exactly if the last one brought the command
/// to stop or found no sender left. It works exactly if the last one found the channel empty,
/// and it has made one before that. Otherwise every look brought a command and more may be there.
pub proof fn law_turn_ends_as_its_looks_say<
    C: Artifacts,
    R: Fn(Vec<HashSet<AnalysisBucket>>),
    A: Fn(&DocumentSnapshot<C>) -> Result<C::Analysis, C::Report>,
    B: Fn(&DocumentViewSnapshot<C>, Arc<C::Package>) -> Result<C::View, C::Report>,
    I: Fn(JobKind, &String, u64) -> C::Report,
>(
    worker: &mut Worker<C>,
    limit: u64,
    tools: &mut Tools<C, R, A, B, I>,
    end: RoundEnd,
    looks: Seq<Look<WorkerCommand<C>>>,
)
    requires
        call_ensures(Worker::<C>::round::<R, A, B, I>, (worker, limit, tools), end),
        old(worker).wf(),
        looks == final(worker).commands().looks().skip(
            old(worker).commands().looks().len() as int,
        ),
    ensures
        final(worker).commands().receiver() == old(worker).commands().receiver(),
        final(worker).commands().looks() == old(worker).commands().looks() + looks,
        forall|i: int|
            0 <= i < looks.len() ==> ((#[trigger] looks[i]).waited <==> i == 0
                && (forall|k: PackageKeyView|
                !(#[trigger] old(worker).queues().packages.contains_key(k)))
                && (forall|k: ViewKeyView|
                !(#[trigger] old(worker).queues().views.contains_key(k)))),
        forall|i: int|
            0 <= i < looks.len() && (#[trigger] looks[i]).waited ==> !(looks[i].brought is Empty),
        limit > 0 ==> looks.len() > 0,
        forall|i: int|
            0 <= i < looks.len() - 1 ==> {
                &&& (#[trigger] looks[i]).brought is Message
                &&& !(looks[i].brought->Message_0 is Shutdown)
            },
        end is Worked <==> looks.len() > 0 && looks.last().brought is Empty,
        end is Stopped <==> looks.len() > 0 && (looks.last().brought is Disconnected || (
        looks.last().brought is Message && looks.last().brought->Message_0 is Shutdown)),
        end is MoreCommands ==> looks.len() == limit + if looks.len() > 0 && looks[0].waited {
            1int
        } else {
            0int
        },
{
    let parts = lemma_turn_parts(
        *old(worker),
        *final(worker),
        *old(tools),
        *final(tools),
        limit,
        end,
        looks,
    );
    lemma_looks(old(worker).queues(), looks, limit, parts.2);
}

/// The first thing that a turn does with its tools is to give the package cache the orders at
/// hand and behind them the sets of open buckets that its looks brought, every one of them, in
/// order. A turn that does not work does nothing else with them. No order is left over.
pub proof fn law_turn_passes_every_set_of_open_buckets_on<
    C: Artifacts,
    R: Fn(Vec<HashSet<AnalysisBucket>>),
    A: Fn(&DocumentSnapshot<C>) -> Result<C::Analysis, C::Report>,
    B: Fn(&DocumentViewSnapshot<C>, Arc<C::Package>) -> Result<C::View, C::Report>,
    I: Fn(JobKind, &String, u64) -> C::Report,
>(
    worker: &mut Worker<C>,
    limit: u64,
    tools: &mut Tools<C, R, A, B, I>,
    end: RoundEnd,
    looks: Seq<Look<WorkerCommand<C>>>,
)
    requires
        call_ensures(Worker::<C>::round::<R, A, B, I>, (worker, limit, tools), end),
        looks == final(worker).commands().looks().skip(
            old(worker).commands().looks().len() as int,
        ),
    ensures
        ({
            let orders = old(worker).orders() + looks.filter_map(
                |look: Look<WorkerCommand<C>>|
                    match look.brought {
                        Polled::Message(WorkerCommand::SetOpenBuckets(buckets)) => Some(buckets),
                        _ => None,
                    },
            );
            &&& exists|given: Vec<HashSet<AnalysisBucket>>|
                given@ == orders && #[trigger] call_ensures(old(tools).retain_fn(), (given,), ())
            &&& final(tools).steps().len() > old(tools).steps().len()
            &&& final(tools).steps().take(old(tools).steps().len() as int + 1) == old(
                tools,
            ).steps().push(Step::Ordered(orders))
            &&& end is Worked ==> forall|i: int|
                old(tools).steps().len() < i < final(tools).steps().len() ==> !(
                #[trigger] final(tools).steps()[i] is Ordered)
            &&& !(end is Worked) ==> final(tools).steps().len() == old(tools).steps().len() + 1
        }),
        final(worker).orders() == Seq::<HashSet<AnalysisBucket>>::empty(),
        final(tools).retain_fn() == old(tools).retain_fn(),
        final(tools).analyze_fn() == old(tools).analyze_fn(),
        final(tools).build_fn() == old(tools).build_fn(),
        final(tools).inject_fn() == old(tools).inject_fn(),
        final(worker).panics() == old(worker).panics(),
        final(worker).events().sender() == old(worker).events().sender(),
{
    let parts = lemma_turn_parts(
        *old(worker),
        *final(worker),
        *old(tools),
        *final(tools),
        limit,
        end,
        looks,
    );
    lemma_no_more_orders(
        *old(worker),
        *final(worker),
        *old(tools),
        *final(tools),
        limit,
        end,
        looks,
    );
    assert(final(tools).steps().take(old(tools).steps().len() as int + 1) =~= parts.1.steps());
}

/// Orders are given once in a turn, before anything else is done with the tools.
pub(crate) proof fn lemma_no_more_orders<
    C: Artifacts,
    R: Fn(Vec<HashSet<AnalysisBucket>>),
    A: Fn(&DocumentSnapshot<C>) -> Result<C::Analysis, C::Report>,
    B: Fn(&DocumentViewSnapshot<C>, Arc<C::Package>) -> Result<C::View, C::Report>,
    I: Fn(JobKind, &String, u64) -> C::Report,
>(
    before: Worker<C>,
    after: Worker<C>,
    tools: Tools<C, R, A, B, I>,
    used: Tools<C, R, A, B, I>,
    limit: u64,
    end: RoundEnd,
    looks: Seq<Look<WorkerCommand<C>>>,
) -> (rest: Seq<Step<C>>)
    requires
        round_done(before, after, tools, used, limit, end),
        looks == after.commands().looks().skip(before.commands().looks().len() as int),
    ensures
        used.steps() == tools.steps().push(
            Step::Ordered(before.orders() + looks.filter_map(
                |look: Look<WorkerCommand<C>>|
                    match look.brought {
                        Polled::Message(WorkerCommand::SetOpenBuckets(buckets)) => Some(buckets),
                        _ => None,
                    },
            )),
        ) + rest,
        rest.len() <= 3,
        !(end is Worked) ==> rest.len() == 0,
        forall|i: int| 0 <= i < rest.len() ==> !(#[trigger] rest[i] is Ordered),
{
    let parts = lemma_turn_parts(before, after, tools, used, limit, end, looks);
    if parts.2 == Some(false) {
        let rest = lemma_steps_since(parts.1.steps(), used.steps());
        rest
    } else {
        assert(used.steps() =~= parts.1.steps() + Seq::<Step<C>>::empty());
        Seq::empty()
    }
}

/// What waits after a turn is what its messages leave, taken in one after the other, less the job
/// that it ran; and what it sent are the announcements that they cause and behind them, if it ran
/// a job, one answer. It runs one if it works and any waits.
#[verifier::spinoff_prover]
pub proof fn law_turn_leaves_what_its_messages_leave<
    C: Artifacts,
    R: Fn(Vec<HashSet<AnalysisBucket>>),
    A: Fn(&DocumentSnapshot<C>) -> Result<C::Analysis, C::Report>,
    B: Fn(&DocumentViewSnapshot<C>, Arc<C::Package>) -> Result<C::View, C::Report>,
    I: Fn(JobKind, &String, u64) -> C::Report,
>(
    worker: &mut Worker<C>,
    limit: u64,
    tools: &mut Tools<C, R, A, B, I>,
    end: RoundEnd,
    looks: Seq<Look<WorkerCommand<C>>>,
)
    requires
        call_ensures(Worker::<C>::round::<R, A, B, I>, (worker, limit, tools), end),
        old(worker).wf(),
        old(worker).queues().sequence + limit < u64::MAX,
        looks == final(worker).commands().looks().skip(
            old(worker).commands().looks().len() as int,
        ),
    ensures
        ({
            let done = looks.filter_map(
                |look: Look<WorkerCommand<C>>|
                    match look.brought {
                        Polled::Message(command) => Some(command),
                        _ => None,
                    },
            ).fold_left(
                (old(worker).queues(), Seq::<WorkerEvent<C>>::empty()),
                |done: (Queues<C>, Seq<WorkerEvent<C>>), command: WorkerCommand<C>|
                    (absorb(done.0, command), done.1 + absorb_events(done.0, command)),
            );
            let sent = old(worker).events().sent() + done.1;
            let packages = done.0.packages;
            let views = done.0.views;
            &&& !(end is Worked) ==> {
                &&& final(worker).queues() == done.0
                &&& final(worker).events().sent() == sent
            }
            &&& end == (RoundEnd::Worked { ran: false }) ==> {
                &&& forall|k: PackageKeyView| !(#[trigger] packages.contains_key(k))
                &&& forall|k: ViewKeyView| !(#[trigger] views.contains_key(k))
                &&& final(worker).queues() == done.0
                &&& final(worker).events().sent() == sent
            }
            &&& end == (RoundEnd::Worked { ran: true }) ==> {
                &&& final(worker).events().sent() == sent.push(final(worker).events().sent().last())
                &&& final(worker).queues().sequence == done.0.sequence
                &&& {
                    ||| exists|k: PackageKeyView|
                        {
                            &&& #[trigger] packages.contains_key(k)
                            &&& forall|other: PackageKeyView| #[trigger]
                                packages.contains_key(other) && other != k
                                    ==> packages[other].sequence < packages[k].sequence
                            &&& final(worker).queues().packages == packages.remove(k)
                            &&& final(worker).queues().views == views
                        }
                    ||| exists|k: ViewKeyView|
                        {
                            &&& forall|other: PackageKeyView|
                                !(#[trigger] packages.contains_key(other))
                            &&& #[trigger] views.contains_key(k)
                            &&& forall|other: ViewKeyView| #[trigger]
                                views.contains_key(other) && other != k ==> views[other].sequence
                                    < views[k].sequence
                            &&& final(worker).queues().views == views.remove(k)
                            &&& final(worker).queues().packages == packages
                        }
                }
            }
        }),
{
    let before = old(worker).queues();
    let commands = commands_in(looks);
    let parts = lemma_turn_parts(
        *old(worker),
        *final(worker),
        *old(tools),
        *final(tools),
        limit,
        end,
        looks,
    );
    law_every_message_is_a_command(looks);
    law_commands_are_taken_in_one_by_one(before, commands);
    lemma_queues_after(before, looks, limit, parts.2);
    let queues = absorb_all(before, commands);
    let sent = old(worker).events().sent() + absorb_all_events(before, commands);
    let done = looks.filter_map(
        |look: Look<WorkerCommand<C>>|
            match look.brought {
                Polled::Message(command) => Some(command),
                _ => None,
            },
    ).fold_left(
        (before, Seq::<WorkerEvent<C>>::empty()),
        |done: (Queues<C>, Seq<WorkerEvent<C>>), command: WorkerCommand<C>|
            (absorb(done.0, command), done.1 + absorb_events(done.0, command)),
    );
    assert(done == (queues, absorb_all_events(before, commands)));
    let packages = queues.packages;
    let views = queues.views;
    if packages != Map::<PackageKeyView, PendingPackageJob<C>>::empty() {
        lemma_not_empty(packages);
        law_newest_first(packages);
        let k = latest_key(packages);
        assert(packages.contains_key(k));
        assert forall|other: PackageKeyView| #[trigger]
            packages.contains_key(other) && other != k implies packages[other].sequence
            < packages[k].sequence by {
            assert(packages.remove(k).contains_key(other));
        }
        if end is Worked {
            assert(end->ran);
            assert(final(worker).queues().packages == packages.remove(k));
        }
    } else if views != Map::<ViewKeyView, PendingViewJob<C>>::empty() {
        lemma_not_empty(views);
        law_newest_first(views);
        let k = latest_key(views);
        assert(views.contains_key(k));
        assert forall|other: ViewKeyView| #[trigger]
            views.contains_key(other) && other != k implies views[other].sequence
            < views[k].sequence by {
            assert(views.remove(k).contains_key(other));
        }
        if end is Worked {
            assert(end->ran);
            assert(final(worker).queues().views == views.remove(k));
        }
    }
    if end == (RoundEnd::Worked { ran: true }) {
        assert(final(worker).events().sent() =~= sent.push(final(worker).events().sent().last()));
    }
}

/// The looks of a turn leave the jobs in order.
pub(crate) proof fn lemma_queues_after<C: Artifacts>(
    before: Queues<C>,
    looks: Seq<Look<WorkerCommand<C>>>,
    limit: u64,
    gathering: Option<bool>,
)
    requires
        before.wf(),
        0 <= before.sequence,
        before.sequence + limit < u64::MAX,
        gathered(before.idle(), looks, limit as int, gathering),
    ensures
        absorb_all(before, commands_in(looks)).wf(),
        commands_in(looks).len() <= looks.len() <= limit + 1,
{
    law_one_command_per_look(looks);
    law_all_commands_keep_order(before, commands_in(looks));
}

/// Commands that are of no interest among the looks are of none among their commands.
proof fn lemma_none_among_commands<C: Artifacts>(looks: Seq<Look<WorkerCommand<C>>>)
    ensures
        (forall|j: int|
            0 <= j < looks.len() && (#[trigger] looks[j]).brought is Message ==> !(
            looks[j].brought->Message_0 is AnalyzePackage)) ==> forall|j: int|
            0 <= j < commands_in(looks).len() ==> !(#[trigger] commands_in(looks)[j]
                is AnalyzePackage),
        (forall|j: int|
            0 <= j < looks.len() && (#[trigger] looks[j]).brought is Message ==> !(
            looks[j].brought->Message_0 is BuildDocumentView)) ==> forall|j: int|
            0 <= j < commands_in(looks).len() ==> !(#[trigger] commands_in(looks)[j]
                is BuildDocumentView),
    decreases looks.len(),
{
    if looks.len() > 0 {
        let before = looks.drop_last();
        lemma_none_among_commands(before);
        assert(forall|j: int| 0 <= j < before.len() ==> before[j] == #[trigger] looks[j]);
        assert(forall|j: int| 0 <= j < before.len() ==> #[trigger] before[j] == looks[j]);
        assert(looks.last() == looks[looks.len() - 1]);
    }
}

/// The commands of some looks fall into those before one look, its own, and those after it.
proof fn lemma_commands_around<C: Artifacts>(
    looks: Seq<Look<WorkerCommand<C>>>,
    i: int,
    command: WorkerCommand<C>,
)
    requires
        0 <= i < looks.len(),
        looks[i].brought == Polled::Message(command),
    ensures
        commands_in(looks) == commands_in(looks.take(i)) + seq![command] + commands_in(
            looks.skip(i + 1),
        ),
{
    let first = looks.take(i);
    let rest = looks.skip(i + 1);
    assert(looks =~= first + seq![looks[i]] + rest);
    law_commands_in_parts(first + seq![looks[i]], rest);
    law_commands_in_parts(first, seq![looks[i]]);
    law_single_command(no_jobs::<C>(), looks[i], command);
}

/// After some looks the newest package job is that of the last snapshot among them.
proof fn lemma_last_snapshot_is_newest<C: Artifacts>(
    before: Queues<C>,
    looks: Seq<Look<WorkerCommand<C>>>,
    i: int,
    snapshot: DocumentSnapshot<C>,
)
    requires
        before.wf(),
        0 <= before.sequence,
        before.sequence + looks.len() <= u64::MAX,
        0 <= i < looks.len(),
        looks[i].brought == Polled::Message(WorkerCommand::AnalyzePackage(snapshot)),
        forall|j: int|
            i < j < looks.len() && (#[trigger] looks[j]).brought is Message ==> !(
            looks[j].brought->Message_0 is AnalyzePackage),
    ensures
        ({
            let packages = absorb_all(before, commands_in(looks)).packages;
            &&& is_latest(packages, latest_key(packages))
            &&& packages[latest_key(packages)].snapshot == snapshot
        }),
{
    let command = WorkerCommand::AnalyzePackage(snapshot);
    let first = looks.take(i);
    let rest = looks.skip(i + 1);
    lemma_commands_around(looks, i, command);
    assert forall|j: int| 0 <= j < rest.len() && (#[trigger] rest[j]).brought is Message implies !(
    rest[j].brought->Message_0 is AnalyzePackage) by {
        assert(rest[j] == looks[i + 1 + j]);
    }
    lemma_none_among_commands(rest);
    law_one_command_per_look(first);
    law_one_command_per_look(rest);
    law_all_commands_keep_order(before, commands_in(first));
    let middle = absorb_all(before, commands_in(first));
    law_absorb_in_parts(before, commands_in(first) + seq![command], commands_in(rest));
    law_absorb_in_parts(before, commands_in(first), seq![command]);
    law_single_command(middle, looks[i], command);
    law_newest_package_runs_first(middle, snapshot, commands_in(rest));
}

/// After some looks the newest document view job is that of the last one among them.
proof fn lemma_last_view_is_newest<C: Artifacts>(
    before: Queues<C>,
    looks: Seq<Look<WorkerCommand<C>>>,
    i: int,
    snapshot: DocumentViewSnapshot<C>,
    package: Arc<C::Package>,
)
    requires
        before.wf(),
        0 <= before.sequence,
        before.sequence + looks.len() <= u64::MAX,
        0 <= i < looks.len(),
        looks[i].brought == Polled::Message(WorkerCommand::BuildDocumentView { snapshot, package }),
        forall|j: int|
            i < j < looks.len() && (#[trigger] looks[j]).brought is Message ==> !(
            looks[j].brought->Message_0 is BuildDocumentView),
    ensures
        ({
            let views = absorb_all(before, commands_in(looks)).views;
            &&& is_latest(views, latest_key(views))
            &&& views[latest_key(views)].snapshot == snapshot
            &&& views[latest_key(views)].package == package
        }),
{
    let command = WorkerCommand::BuildDocumentView { snapshot, package };
    let first = looks.take(i);
    let rest = looks.skip(i + 1);
    lemma_commands_around(looks, i, command);
    assert forall|j: int| 0 <= j < rest.len() && (#[trigger] rest[j]).brought is Message implies !(
    rest[j].brought->Message_0 is BuildDocumentView) by {
        assert(rest[j] == looks[i + 1 + j]);
    }
    lemma_none_among_commands(rest);
    law_one_command_per_look(first);
    law_one_command_per_look(rest);
    law_all_commands_keep_order(before, commands_in(first));
    let middle = absorb_all(before, commands_in(first));
    law_absorb_in_parts(before, commands_in(first) + seq![command], commands_in(rest));
    law_absorb_in_parts(before, commands_in(first), seq![command]);
    law_single_command(middle, looks[i], command);
    law_newest_view_runs_first(middle, snapshot, package, commands_in(rest));
}

/// Commands of one kind leave the jobs of the other alone.
proof fn lemma_untouched<C: Artifacts>(before: Queues<C>, commands: Seq<WorkerCommand<C>>)
    ensures
        (forall|j: int| 0 <= j < commands.len() ==> !(#[trigger] commands[j] is AnalyzePackage))
            ==> absorb_all(before, commands).packages == before.packages,
        (forall|j: int| 0 <= j < commands.len() ==> !(#[trigger] commands[j] is BuildDocumentView))
            ==> absorb_all(before, commands).views == before.views,
    decreases commands.len(),
{
    if commands.len() > 0 {
        let earlier = commands.drop_last();
        lemma_untouched(before, earlier);
        assert(forall|j: int| 0 <= j < earlier.len() ==> earlier[j] == #[trigger] commands[j]);
        assert(forall|j: int| 0 <= j < earlier.len() ==> #[trigger] earlier[j] == commands[j]);
        assert(commands.last() == commands[commands.len() - 1]);
    }
}

/// The package job that a turn runs, found in what it took in.
proof fn lemma_turn_runs_package<
    C: Artifacts,
    R: Fn(Vec<HashSet<AnalysisBucket>>),
    A: Fn(&DocumentSnapshot<C>) -> Result<C::Analysis, C::Report>,
    B: Fn(&DocumentViewSnapshot<C>, Arc<C::Package>) -> Result<C::View, C::Report>,
    I: Fn(JobKind, &String, u64) -> C::Report,
>(
    before: Worker<C>,
    after: Worker<C>,
    tools: Tools<C, R, A, B, I>,
    used: Tools<C, R, A, B, I>,
    limit: u64,
    end: RoundEnd,
    looks: Seq<Look<WorkerCommand<C>>>,
    k: PackageKeyView,
) -> (steps: Seq<Step<C>>)
    requires
        before.wf(),
        reaches(before, limit),
        round_done(before, after, tools, used, limit, end),
        looks == after.commands().looks().skip(before.commands().looks().len() as int),
        end is Worked,
        is_latest(absorb_all(before.queues(), commands_in(looks)).packages, k),
    ensures
        end->ran,
        after.events().sent().len() > 0,
        used.steps() == tools.steps().push(
            Step::Ordered(before.orders() + looks.filter_map(
                |look: Look<WorkerCommand<C>>|
                    match look.brought {
                        Polled::Message(WorkerCommand::SetOpenBuckets(buckets)) => Some(buckets),
                        _ => None,
                    },
            )),
        ) + steps,
        package_job_done(
            absorb_all(before.queues(), commands_in(looks)).packages[k].snapshot,
            before.panics(),
            tools.analyze_fn(),
            tools.inject_fn(),
            steps,
            after.events().sent().last(),
        ),
{
    let parts = lemma_turn_parts(before, after, tools, used, limit, end, looks);
    lemma_queues_after(before.queues(), looks, limit, parts.2);
    let packages = absorb_all(before.queues(), commands_in(looks)).packages;
    assert(packages.contains_key(k));
    lemma_latest_key(packages, k);
    lemma_steps_since(parts.1.steps(), used.steps())
}

/// The document view job that a turn runs, found in what it took in.
proof fn lemma_turn_runs_view<
    C: Artifacts,
    R: Fn(Vec<HashSet<AnalysisBucket>>),
    A: Fn(&DocumentSnapshot<C>) -> Result<C::Analysis, C::Report>,
    B: Fn(&DocumentViewSnapshot<C>, Arc<C::Package>) -> Result<C::View, C::Report>,
    I: Fn(JobKind, &String, u64) -> C::Report,
>(
    before: Worker<C>,
    after: Worker<C>,
    tools: Tools<C, R, A, B, I>,
    used: Tools<C, R, A, B, I>,
    limit: u64,
    end: RoundEnd,
    looks: Seq<Look<WorkerCommand<C>>>,
    k: ViewKeyView,
) -> (steps: Seq<Step<C>>)
    requires
        before.wf(),
        reaches(before, limit),
        round_done(before, after, tools, used, limit, end),
        looks == after.commands().looks().skip(before.commands().looks().len() as int),
        end is Worked,
        forall|other: PackageKeyView| !(#[trigger] absorb_all(
            before.queues(),
            commands_in(looks),
        ).packages.contains_key(other)),
        is_latest(absorb_all(before.queues(), commands_in(looks)).views, k),
    ensures
        end->ran,
        after.events().sent().len() > 0,
        used.steps() == tools.steps().push(
            Step::Ordered(before.orders() + looks.filter_map(
                |look: Look<WorkerCommand<C>>|
                    match look.brought {
                        Polled::Message(WorkerCommand::SetOpenBuckets(buckets)) => Some(buckets),
                        _ => None,
                    },
            )),
        ) + steps,
        view_job_done(
            absorb_all(before.queues(), commands_in(looks)).views[k].snapshot,
            absorb_all(before.queues(), commands_in(looks)).views[k].package,
            before.panics(),
            tools.build_fn(),
            tools.inject_fn(),
            steps,
            after.events().sent().last(),
        ),
{
    let parts = lemma_turn_parts(before, after, tools, used, limit, end, looks);
    lemma_queues_after(before.queues(), looks, limit, parts.2);
    let queues = absorb_all(before.queues(), commands_in(looks));
    assert(queues.packages =~= Map::<PackageKeyView, PendingPackageJob<C>>::empty());
    assert(queues.views.contains_key(k));
    lemma_latest_key(queues.views, k);
    lemma_steps_since(parts.1.steps(), used.steps())
}

/// The looks of a turn, when they are known to come behind those before.
pub(crate) proof fn lemma_looks_since<C: Artifacts>(
    before: Seq<Look<WorkerCommand<C>>>,
    after: Seq<Look<WorkerCommand<C>>>,
    looks: Seq<Look<WorkerCommand<C>>>,
)
    requires
        after == before + looks,
    ensures
        looks == after.skip(before.len() as int),
{
    assert(looks =~= after.skip(before.len() as int));
}

/// A turn makes no more looks than there are arrival numbers left for.
proof fn lemma_turn_bounds<
    C: Artifacts,
    R: Fn(Vec<HashSet<AnalysisBucket>>),
    A: Fn(&DocumentSnapshot<C>) -> Result<C::Analysis, C::Report>,
    B: Fn(&DocumentViewSnapshot<C>, Arc<C::Package>) -> Result<C::View, C::Report>,
    I: Fn(JobKind, &String, u64) -> C::Report,
>(
    before: Worker<C>,
    after: Worker<C>,
    tools: Tools<C, R, A, B, I>,
    used: Tools<C, R, A, B, I>,
    limit: u64,
    end: RoundEnd,
    looks: Seq<Look<WorkerCommand<C>>>,
)
    requires
        before.wf(),
        reaches(before, limit),
        round_done(before, after, tools, used, limit, end),
        looks == after.commands().looks().skip(before.commands().looks().len() as int),
    ensures
        before.queues().sequence + looks.len() <= u64::MAX,
        absorb_all(before.queues(), commands_in(looks)).wf(),
{
    let parts = lemma_turn_parts(before, after, tools, used, limit, end, looks);
    lemma_queues_after(before.queues(), looks, limit, parts.2);
}

/// A turn that works and has been sent snapshots runs the job of the last one, whatever waited
/// and whatever else came. That snapshot's token is read first; it is answered as cancelled only
/// if the token was read as another generation, before the work or after it; as panicked only if
/// a panic was asked for or the work panicked; and with its result if the work succeeded and the
/// token was read as its own generation both times.
pub proof fn law_turn_answers_the_last_snapshot_sent<
    C: Artifacts,
    R: Fn(Vec<HashSet<AnalysisBucket>>),
    A: Fn(&DocumentSnapshot<C>) -> Result<C::Analysis, C::Report>,
    B: Fn(&DocumentViewSnapshot<C>, Arc<C::Package>) -> Result<C::View, C::Report>,
    I: Fn(JobKind, &String, u64) -> C::Report,
>(
    worker: &mut Worker<C>,
    limit: u64,
    tools: &mut Tools<C, R, A, B, I>,
    end: RoundEnd,
    looks: Seq<Look<WorkerCommand<C>>>,
    i: int,
    snapshot: DocumentSnapshot<C>,
)
    requires
        call_ensures(Worker::<C>::round::<R, A, B, I>, (worker, limit, tools), end),
        old(worker).wf(),
        old(worker).queues().sequence + limit < u64::MAX,
        final(worker).commands().looks() == old(worker).commands().looks() + looks,
        end is Worked,
        0 <= i < looks.len(),
        looks[i].brought == Polled::Message(WorkerCommand::AnalyzePackage(snapshot)),
        forall|j: int|
            i < j < looks.len() && (#[trigger] looks[j]).brought is Message ==> !(
            looks[j].brought->Message_0 is AnalyzePackage),
    ensures
        end->ran,
        final(worker).events().sent().len() > 0,
        ({
            let steps = old(tools).steps().push(
                Step::Ordered(old(worker).orders() + looks.filter_map(
                    |look: Look<WorkerCommand<C>>|
                        match look.brought {
                            Polled::Message(WorkerCommand::SetOpenBuckets(buckets)) => Some(
                                buckets,
                            ),
                            _ => None,
                        },
                )),
            );
            let token = *snapshot.cancel_token;
            let generation = snapshot.generation;
            let current = Step::<C>::Checked { cancel_token: token, generation, cancelled: false };
            let stale = Step::<C>::Checked { cancel_token: token, generation, cancelled: true };
            let cancelled = WorkerEvent::<C>::PackageCancelled {
                key: snapshot.package_key,
                uri: snapshot.uri,
                generation,
            };
            let event = final(worker).events().sent().last();
            let taken = final(tools).steps();
            exists|first: u64|
                {
                    &&& #[trigger] call_ensures(AtomicU64::load, (&token, Ordering::SeqCst), first)
                    &&& first != generation ==> {
                        &&& taken == steps + seq![stale]
                        &&& event == cancelled
                    }
                    &&& first == generation && old(worker).panics() ==> exists|report: C::Report|
                        {
                            &&& #[trigger] call_ensures(
                                old(tools).inject_fn(),
                                (JobKind::Package, &snapshot.uri, generation),
                                report,
                            )
                            &&& taken == steps + seq![
                                current,
                                Step::Injected {
                                    kind: JobKind::Package,
                                    uri: snapshot.uri,
                                    generation,
                                    report,
                                },
                            ]
                            &&& event == WorkerEvent::<C>::PackagePanicked {
                                key: snapshot.package_key,
                                uri: snapshot.uri,
                                generation,
                                report,
                            }
                        }
                    &&& first == generation && !old(worker).panics() ==> exists|
                        outcome: Result<C::Analysis, C::Report>,
                    |
                        {
                            &&& #[trigger] call_ensures(
                                old(tools).analyze_fn(),
                                (&snapshot,),
                                outcome,
                            )
                            &&& match outcome {
                                Err(report) => {
                                    &&& taken == steps + seq![
                                        current,
                                        Step::Analyzed { snapshot, outcome },
                                    ]
                                    &&& event == WorkerEvent::<C>::PackagePanicked {
                                        key: snapshot.package_key,
                                        uri: snapshot.uri,
                                        generation,
                                        report,
                                    }
                                },
                                Ok(result) => exists|second: u64|
                                    {
                                        &&& #[trigger] call_ensures(
                                            AtomicU64::load,
                                            (&token, Ordering::SeqCst),
                                            second,
                                        )
                                        &&& second != generation ==> {
                                            &&& taken == steps + seq![
                                                current,
                                                Step::Analyzed { snapshot, outcome },
                                                stale,
                                            ]
                                            &&& event == cancelled
                                        }
                                        &&& second == generation ==> {
                                            &&& taken == steps + seq![
                                                current,
                                                Step::Analyzed { snapshot, outcome },
                                                current,
                                            ]
                                            &&& event == WorkerEvent::<C>::PackageAnalyzed(
                                                PackageAnalysis {
                                                    uri: snapshot.uri,
                                                    generation,
                                                    key: snapshot.package_key,
                                                    result,
                                                },
                                            )
                                        }
                                    },
                            }
                        }
                }
        }),
{
    lemma_looks_since(old(worker).commands().looks(), final(worker).commands().looks(), looks);
    lemma_turn_bounds(
        *old(worker),
        *final(worker),
        *old(tools),
        *final(tools),
        limit,
        end,
        looks,
    );
    lemma_last_snapshot_is_newest(old(worker).queues(), looks, i, snapshot);
    let k = latest_key(absorb_all(old(worker).queues(), commands_in(looks)).packages);
    let rest = lemma_turn_runs_package(
        *old(worker),
        *final(worker),
        *old(tools),
        *final(tools),
        limit,
        end,
        looks,
        k,
    );
    lemma_package_answer(
        snapshot,
        old(worker).panics(),
        old(tools).analyze_fn(),
        old(tools).inject_fn(),
        old(tools).steps().push(
            Step::Ordered(old(worker).orders() + looks.filter_map(
                |look: Look<WorkerCommand<C>>|
                    match look.brought {
                        Polled::Message(WorkerCommand::SetOpenBuckets(buckets)) => Some(buckets),
                        _ => None,
                    },
            )),
        ),
        final(tools).steps(),
        rest,
        final(worker).events().sent().last(),
    );
}

/// A turn that works and has been sent no snapshot runs the package job that arrived last of
/// those that wait, in the same way.
pub proof fn law_turn_answers_the_newest_snapshot_waiting<
    C: Artifacts,
    R: Fn(Vec<HashSet<AnalysisBucket>>),
    A: Fn(&DocumentSnapshot<C>) -> Result<C::Analysis, C::Report>,
    B: Fn(&DocumentViewSnapshot<C>, Arc<C::Package>) -> Result<C::View, C::Report>,
    I: Fn(JobKind, &String, u64) -> C::Report,
>(
    worker: &mut Worker<C>,
    limit: u64,
    tools: &mut Tools<C, R, A, B, I>,
    end: RoundEnd,
    looks: Seq<Look<WorkerCommand<C>>>,
    k: PackageKeyView,
)
    requires
        call_ensures(Worker::<C>::round::<R, A, B, I>, (worker, limit, tools), end),
        old(worker).wf(),
        old(worker).queues().sequence + limit < u64::MAX,
        final(worker).commands().looks() == old(worker).commands().looks() + looks,
        end is Worked,
        forall|j: int|
            0 <= j < looks.len() && (#[trigger] looks[j]).brought is Message ==> !(
            looks[j].brought->Message_0 is AnalyzePackage),
        old(worker).queues().packages.contains_key(k),
        forall|other: PackageKeyView| #[trigger]
            old(worker).queues().packages.contains_key(other) ==> old(
                worker,
            ).queues().packages[other].sequence <= old(worker).queues().packages[k].sequence,
    ensures
        end->ran,
        final(worker).events().sent().len() > 0,
        ({
            let snapshot = old(worker).queues().packages[k].snapshot;
            let steps = old(tools).steps().push(
                Step::Ordered(old(worker).orders() + looks.filter_map(
                    |look: Look<WorkerCommand<C>>|
                        match look.brought {
                            Polled::Message(WorkerCommand::SetOpenBuckets(buckets)) => Some(
                                buckets,
                            ),
                            _ => None,
                        },
                )),
            );
            let token = *snapshot.cancel_token;
            let generation = snapshot.generation;
            let current = Step::<C>::Checked { cancel_token: token, generation, cancelled: false };
            let stale = Step::<C>::Checked { cancel_token: token, generation, cancelled: true };
            let cancelled = WorkerEvent::<C>::PackageCancelled {
                key: snapshot.package_key,
                uri: snapshot.uri,
                generation,
            };
            let event = final(worker).events().sent().last();
            let taken = final(tools).steps();
            exists|first: u64|
                {
                    &&& #[trigger] call_ensures(AtomicU64::load, (&token, Ordering::SeqCst), first)
                    &&& first != generation ==> {
                        &&& taken == steps + seq![stale]
                        &&& event == cancelled
                    }
                    &&& first == generation && old(worker).panics() ==> exists|report: C::Report|
                        {
                            &&& #[trigger] call_ensures(
                                old(tools).inject_fn(),
                                (JobKind::Package, &snapshot.uri, generation),
                                report,
                            )
                            &&& taken == steps + seq![
                                current,
                                Step::Injected {
                                    kind: JobKind::Package,
                                    uri: snapshot.uri,
                                    generation,
                                    report,
                                },
                            ]
                            &&& event == WorkerEvent::<C>::PackagePanicked {
                                key: snapshot.package_key,
                                uri: snapshot.uri,
                                generation,
                                report,
                            }
                        }
                    &&& first == generation && !old(worker).panics() ==> exists|
                        outcome: Result<C::Analysis, C::Report>,
                    |
                        {
                            &&& #[trigger] call_ensures(
                                old(tools).analyze_fn(),
                                (&snapshot,),
                                outcome,
                            )
                            &&& match outcome {
                                Err(report) => {
                                    &&& taken == steps + seq![
                                        current,
                                        Step::Analyzed { snapshot, outcome },
                                    ]
                                    &&& event == WorkerEvent::<C>::PackagePanicked {
                                        key: snapshot.package_key,
                                        uri: snapshot.uri,
                                        generation,
                                        report,
                                    }
                                },
                                Ok(result) => exists|second: u64|
                                    {
                                        &&& #[trigger] call_ensures(
                                            AtomicU64::load,
                                            (&token, Ordering::SeqCst),
                                            second,
                                        )
                                        &&& second != generation ==> {
                                            &&& taken == steps + seq![
                                                current,
                                                Step::Analyzed { snapshot, outcome },
                                                stale,
                                            ]
                                            &&& event == cancelled
                                        }
                                        &&& second == generation ==> {
                                            &&& taken == steps + seq![
                                                current,
                                                Step::Analyzed { snapshot, outcome },
                                                current,
                                            ]
                                            &&& event == WorkerEvent::<C>::PackageAnalyzed(
                                                PackageAnalysis {
                                                    uri: snapshot.uri,
                                                    generation,
                                                    key: snapshot.package_key,
                                                    result,
                                                },
                                            )
                                        }
                                    },
                            }
                        }
                }
        }),
{
    lemma_looks_since(old(worker).commands().looks(), final(worker).commands().looks(), looks);
    lemma_turn_bounds(
        *old(worker),
        *final(worker),
        *old(tools),
        *final(tools),
        limit,
        end,
        looks,
    );
    lemma_none_among_commands(looks);
    lemma_untouched(old(worker).queues(), commands_in(looks));
    assert(is_latest(old(worker).queues().packages, k));
    let rest = lemma_turn_runs_package(
        *old(worker),
        *final(worker),
        *old(tools),
        *final(tools),
        limit,
        end,
        looks,
        k,
    );
    lemma_package_answer(
        old(worker).queues().packages[k].snapshot,
        old(worker).panics(),
        old(tools).analyze_fn(),
        old(tools).inject_fn(),
        old(tools).steps().push(
            Step::Ordered(old(worker).orders() + looks.filter_map(
                |look: Look<WorkerCommand<C>>|
                    match look.brought {
                        Polled::Message(WorkerCommand::SetOpenBuckets(buckets)) => Some(buckets),
                        _ => None,
                    },
            )),
        ),
        final(tools).steps(),
        rest,
        final(worker).events().sent().last(),
    );
}

/// A turn that works, with no snapshot sent and none waiting, runs the job of the last document
/// view that it has been sent, against the package analysis that came with it. It is answered as
/// a package job is.
pub proof fn law_turn_answers_the_last_view_sent<
    C: Artifacts,
    R: Fn(Vec<HashSet<AnalysisBucket>>),
    A: Fn(&DocumentSnapshot<C>) -> Result<C::Analysis, C::Report>,
    B: Fn(&DocumentViewSnapshot<C>, Arc<C::Package>) -> Result<C::View, C::Report>,
    I: Fn(JobKind, &String, u64) -> C::Report,
>(
    worker: &mut Worker<C>,
    limit: u64,
    tools: &mut Tools<C, R, A, B, I>,
    end: RoundEnd,
    looks: Seq<Look<WorkerCommand<C>>>,
    i: int,
    snapshot: DocumentViewSnapshot<C>,
    package: Arc<C::Package>,
)
    requires
        call_ensures(Worker::<C>::round::<R, A, B, I>, (worker, limit, tools), end),
        old(worker).wf(),
        old(worker).queues().sequence + limit < u64::MAX,
        final(worker).commands().looks() == old(worker).commands().looks() + looks,
        end is Worked,
        forall|j: int|
            0 <= j < looks.len() && (#[trigger] looks[j]).brought is Message ==> !(
            looks[j].brought->Message_0 is AnalyzePackage),
        forall|k: PackageKeyView| !(#[trigger] old(worker).queues().packages.contains_key(k)),
        0 <= i < looks.len(),
        looks[i].brought == Polled::Message(WorkerCommand::BuildDocumentView { snapshot, package }),
        forall|j: int|
            i < j < looks.len() && (#[trigger] looks[j]).brought is Message ==> !(
            looks[j].brought->Message_0 is BuildDocumentView),
    ensures
        end->ran,
        final(worker).events().sent().len() > 0,
        ({
            let steps = old(tools).steps().push(
                Step::Ordered(old(worker).orders() + looks.filter_map(
                    |look: Look<WorkerCommand<C>>|
                        match look.brought {
                            Polled::Message(WorkerCommand::SetOpenBuckets(buckets)) => Some(
                                buckets,
                            ),
                            _ => None,
                        },
                )),
            );
            let token = *snapshot.cancel_token;
            let generation = snapshot.key.document_generation;
            let current = Step::<C>::Checked { cancel_token: token, generation, cancelled: false };
            let stale = Step::<C>::Checked { cancel_token: token, generation, cancelled: true };
            let event = final(worker).events().sent().last();
            let taken = final(tools).steps();
            exists|first: u64|
                {
                    &&& #[trigger] call_ensures(AtomicU64::load, (&token, Ordering::SeqCst), first)
                    &&& first != generation ==> {
                        &&& taken == steps + seq![stale]
                        &&& event == WorkerEvent::<C>::DocumentViewCancelled { key: snapshot.key }
                    }
                    &&& first == generation && old(worker).panics() ==> exists|report: C::Report|
                        {
                            &&& #[trigger] call_ensures(
                                old(tools).inject_fn(),
                                (JobKind::DocumentView, &snapshot.uri, generation),
                                report,
                            )
                            &&& taken == steps + seq![
                                current,
                                Step::Injected {
                                    kind: JobKind::DocumentView,
                                    uri: snapshot.uri,
                                    generation,
                                    report,
                                },
                            ]
                            &&& event == WorkerEvent::<C>::DocumentViewPanicked {
                                key: snapshot.key,
                                report,
                            }
                        }
                    &&& first == generation && !old(worker).panics() ==> exists|
                        outcome: Result<C::View, C::Report>,
                    |
                        {
                            &&& #[trigger] call_ensures(
                                old(tools).build_fn(),
                                (&snapshot, package),
                                outcome,
                            )
                            &&& match outcome {
                                Err(report) => {
                                    &&& taken == steps + seq![
                                        current,
                                        Step::Built { snapshot, package, outcome },
                                    ]
                                    &&& event == WorkerEvent::<C>::DocumentViewPanicked {
                                        key: snapshot.key,
                                        report,
                                    }
                                },
                                Ok(view) => exists|second: u64|
                                    {
                                        &&& #[trigger] call_ensures(
                                            AtomicU64::load,
                                            (&token, Ordering::SeqCst),
                                            second,
                                        )
                                        &&& second != generation ==> {
                                            &&& taken == steps + seq![
                                                current,
                                                Step::Built { snapshot, package, outcome },
                                                stale,
                                            ]
                                            &&& event == WorkerEvent::<C>::DocumentViewCancelled {
                                                key: snapshot.key,
                                            }
                                        }
                                        &&& second == generation ==> {
                                            &&& taken == steps + seq![
                                                current,
                                                Step::Built { snapshot, package, outcome },
                                                current,
                                            ]
                                            &&& event == WorkerEvent::<C>::DocumentViewBuilt(view)
                                        }
                                    },
                            }
                        }
                }
        }),
{
    lemma_looks_since(old(worker).commands().looks(), final(worker).commands().looks(), looks);
    lemma_turn_bounds(
        *old(worker),
        *final(worker),
        *old(tools),
        *final(tools),
        limit,
        end,
        looks,
    );
    lemma_none_among_commands(looks);
    lemma_untouched(old(worker).queues(), commands_in(looks));
    lemma_last_view_is_newest(old(worker).queues(), looks, i, snapshot, package);
    let k = latest_key(absorb_all(old(worker).queues(), commands_in(looks)).views);
    let rest = lemma_turn_runs_view(
        *old(worker),
        *final(worker),
        *old(tools),
        *final(tools),
        limit,
        end,
        looks,
        k,
    );
    lemma_view_answer(
        snapshot,
        package,
        old(worker).panics(),
        old(tools).build_fn(),
        old(tools).inject_fn(),
        old(tools).steps().push(
            Step::Ordered(old(worker).orders() + looks.filter_map(
                |look: Look<WorkerCommand<C>>|
                    match look.brought {
                        Polled::Message(WorkerCommand::SetOpenBuckets(buckets)) => Some(buckets),
                        _ => None,
                    },
            )),
        ),
        final(tools).steps(),
        rest,
        final(worker).events().sent().last(),
    );
}

/// A turn that works, with no job sent and no package job waiting, runs the document view job
/// that arrived last of those that wait.
pub proof fn law_turn_answers_the_newest_view_waiting<
    C: Artifacts,
    R: Fn(Vec<HashSet<AnalysisBucket>>),
    A: Fn(&DocumentSnapshot<C>) -> Result<C::Analysis, C::Report>,
    B: Fn(&DocumentViewSnapshot<C>, Arc<C::Package>) -> Result<C::View, C::Report>,
    I: Fn(JobKind, &String, u64) -> C::Report,
>(
    worker: &mut Worker<C>,
    limit: u64,
    tools: &mut Tools<C, R, A, B, I>,
    end: RoundEnd,
    looks: Seq<Look<WorkerCommand<C>>>,
    k: ViewKeyView,
)
    requires
        call_ensures(Worker::<C>::round::<R, A, B, I>, (worker, limit, tools), end),
        old(worker).wf(),
        old(worker).queues().sequence + limit < u64::MAX,
        final(worker).commands().looks() == old(worker).commands().looks() + looks,
        end is Worked,
        forall|j: int|
            0 <= j < looks.len() && (#[trigger] looks[j]).brought is Message ==> !(
            looks[j].brought->Message_0 is AnalyzePackage),
        forall|j: int|
            0 <= j < looks.len() && (#[trigger] looks[j]).brought is Message ==> !(
            looks[j].brought->Message_0 is BuildDocumentView),
        forall|other: PackageKeyView| !(#[trigger] old(worker).queues().packages.contains_key(
            other,
        )),
        old(worker).queues().views.contains_key(k),
        forall|other: ViewKeyView| #[trigger]
            old(worker).queues().views.contains_key(other) ==> old(
                worker,
            ).queues().views[other].sequence <= old(worker).queues().views[k].sequence,
    ensures
        end->ran,
        final(worker).events().sent().len() > 0,
        ({
            let snapshot = old(worker).queues().views[k].snapshot;
            let package = old(worker).queues().views[k].package;
            let steps = old(tools).steps().push(
                Step::Ordered(old(worker).orders() + looks.filter_map(
                    |look: Look<WorkerCommand<C>>|
                        match look.brought {
                            Polled::Message(WorkerCommand::SetOpenBuckets(buckets)) => Some(
                                buckets,
                            ),
                            _ => None,
                        },
                )),
            );
            let token = *snapshot.cancel_token;
            let generation = snapshot.key.document_generation;
            let current = Step::<C>::Checked { cancel_token: token, generation, cancelled: false };
            let stale = Step::<C>::Checked { cancel_token: token, generation, cancelled: true };
            let event = final(worker).events().sent().last();
            let taken = final(tools).steps();
            exists|first: u64|
                {
                    &&& #[trigger] call_ensures(AtomicU64::load, (&token, Ordering::SeqCst), first)
                    &&& first != generation ==> {
                        &&& taken == steps + seq![stale]
                        &&& event == WorkerEvent::<C>::DocumentViewCancelled { key: snapshot.key }
                    }
                    &&& first == generation && old(worker).panics() ==> exists|report: C::Report|
                        {
                            &&& #[trigger] call_ensures(
                                old(tools).inject_fn(),
                                (JobKind::DocumentView, &snapshot.uri, generation),
                                report,
                            )
                            &&& taken == steps + seq![
                                current,
                                Step::Injected {
                                    kind: JobKind::DocumentView,
                                    uri: snapshot.uri,
                                    generation,
                                    report,
                                },
                            ]
                            &&& event == WorkerEvent::<C>::DocumentViewPanicked {
                                key: snapshot.key,
                                report,
                            }
                        }
                    &&& first == generation && !old(worker).panics() ==> exists|
                        outcome: Result<C::View, C::Report>,
                    |
                        {
                            &&& #[trigger] call_ensures(
                                old(tools).build_fn(),
                                (&snapshot, package),
                                outcome,
                            )
                            &&& match outcome {
                                Err(report) => {
                                    &&& taken == steps + seq![
                                        current,
                                        Step::Built { snapshot, package, outcome },
                                    ]
                                    &&& event == WorkerEvent::<C>::DocumentViewPanicked {
                                        key: snapshot.key,
                                        report,
                                    }
                                },
                                Ok(view) => exists|second: u64|
                                    {
                                        &&& #[trigger] call_ensures(
                                            AtomicU64::load,
                                            (&token, Ordering::SeqCst),
                                            second,
                                        )
                                        &&& second != generation ==> {
                                            &&& taken == steps + seq![
                                                current,
                                                Step::Built { snapshot, package, outcome },
                                                stale,
                                            ]
                                            &&& event == WorkerEvent::<C>::DocumentViewCancelled {
                                                key: snapshot.key,
                                            }
                                        }
                                        &&& second == generation ==> {
                                            &&& taken == steps + seq![
                                                current,
                                                Step::Built { snapshot, package, outcome },
                                                current,
                                            ]
                                            &&& event == WorkerEvent::<C>::DocumentViewBuilt(view)
                                        }
                                    },
                            }
                        }
                }
        }),
{
    lemma_looks_since(old(worker).commands().looks(), final(worker).commands().looks(), looks);
    lemma_turn_bounds(
        *old(worker),
        *final(worker),
        *old(tools),
        *final(tools),
        limit,
        end,
        looks,
    );
    lemma_none_among_commands(looks);
    lemma_untouched(old(worker).queues(), commands_in(looks));
    assert(is_latest(old(worker).queues().views, k));
    let rest = lemma_turn_runs_view(
        *old(worker),
        *final(worker),
        *old(tools),
        *final(tools),
        limit,
        end,
        looks,
        k,
    );
    lemma_view_answer(
        old(worker).queues().views[k].snapshot,
        old(worker).queues().views[k].package,
        old(worker).panics(),
        old(tools).build_fn(),
        old(tools).inject_fn(),
        old(tools).steps().push(
            Step::Ordered(old(worker).orders() + looks.filter_map(
                |look: Look<WorkerCommand<C>>|
                    match look.brought {
                        Polled::Message(WorkerCommand::SetOpenBuckets(buckets)) => Some(buckets),
                        _ => None,
                    },
            )),
        ),
        final(tools).steps(),
        rest,
        final(worker).events().sent().last(),
    );
}

} // verus!
