//! The two ends of the scheduler, and what passes between them.
use crate::channel::{Inbox, Outbox};
use crate::intake::CacheOrders;
use crate::keys::{AnalysisBucket, PackageKeyView, ViewKeyView};
use crate::protocol::{
    Artifacts, DocumentSnapshot, DocumentViewSnapshot, PackageAnalysis, WorkerCommand, WorkerEvent,
};
use crate::scheduler::Scheduler;
use crate::worker::Worker;
use crossbeam_channel::{Receiver, SendError, Sender};
use std::collections::HashSet;
use std::sync::Arc;
use vstd::prelude::*;

verus! {

/// A new scheduler is joined to its worker by a channel for one command and one for any number of
/// events. Nothing has passed yet, no job waits, and the worker has jobs panic exactly if that
/// was asked for.
pub proof fn law_new_ends_are_joined<C: Artifacts>(
    panic_on_worker_job: bool,
    ends: (Scheduler<C>, Worker<C>),
)
    requires
        call_ensures(Scheduler::<C>::new, (panic_on_worker_job,), ends),
    ensures
        call_ensures(
            crossbeam_channel::bounded::<WorkerCommand<C>>,
            (1usize,),
            (ends.0.commands().sender(), ends.1.commands().receiver()),
        ),
        call_ensures(
            crossbeam_channel::unbounded::<WorkerEvent<C>>,
            (),
            (ends.1.events().sender(), ends.0.event_receiver()),
        ),
        ends.0.commands().sent().len() == 0,
        ends.1.commands().looks().len() == 0,
        ends.1.events().sent().len() == 0,
        ends.1.orders().len() == 0,
        forall|k: PackageKeyView| !(#[trigger] ends.1.queues().packages.contains_key(k)),
        forall|k: ViewKeyView| !(#[trigger] ends.1.queues().views.contains_key(k)),
        ends.1.queues().sequence == 0,
        ends.1.panics() == panic_on_worker_job,
        ends.1.wf(),
{
}

/// A new worker stands at the channel ends that it was given, with nothing done and nothing to
/// do.
pub proof fn law_new_worker_has_nothing_to_do<C: Artifacts>(
    command_rx: Receiver<WorkerCommand<C>>,
    event_tx: Sender<WorkerEvent<C>>,
    panic_on_worker_job: bool,
    worker: Worker<C>,
)
    requires
        call_ensures(Worker::<C>::new, (command_rx, event_tx, panic_on_worker_job), worker),
    ensures
        worker.commands().receiver() == command_rx,
        worker.events().sender() == event_tx,
        worker.panics() == panic_on_worker_job,
        worker.commands().looks().len() == 0,
        worker.events().sent().len() == 0,
        worker.orders().len() == 0,
        forall|k: PackageKeyView| !(#[trigger] worker.queues().packages.contains_key(k)),
        forall|k: ViewKeyView| !(#[trigger] worker.queues().views.contains_key(k)),
        worker.queues().sequence == 0,
        worker.wf(),
{
}

/// A snapshot that is enqueued is handed to the worker's channel, as a command to analyze it,
/// whatever it holds; and nothing else is.
pub proof fn law_enqueued_snapshot_is_sent<C: Artifacts>(
    scheduler: &mut Scheduler<C>,
    snapshot: DocumentSnapshot<C>,
)
    requires
        call_ensures(Scheduler::<C>::enqueue_package, (scheduler, snapshot), ()),
    ensures
        exists|result: Result<(), SendError<WorkerCommand<C>>>| #[trigger]
            call_ensures(
                Sender::<WorkerCommand<C>>::send,
                (&old(scheduler).commands().sender(), WorkerCommand::AnalyzePackage(snapshot)),
                result,
            ),
        final(scheduler).commands().sent() == old(scheduler).commands().sent().push(
            WorkerCommand::AnalyzePackage(snapshot),
        ),
        final(scheduler).commands().sender() == old(scheduler).commands().sender(),
        final(scheduler).event_receiver() == old(scheduler).event_receiver(),
{
}

/// So is a document view, with its package analysis, as a command to build it.
pub proof fn law_enqueued_view_is_sent<C: Artifacts>(
    scheduler: &mut Scheduler<C>,
    snapshot: DocumentViewSnapshot<C>,
    package: Arc<C::Package>,
)
    requires
        call_ensures(
            Scheduler::<C>::enqueue_document_view,
            (scheduler, snapshot, package),
            (),
        ),
    ensures
        exists|result: Result<(), SendError<WorkerCommand<C>>>| #[trigger]
            call_ensures(
                Sender::<WorkerCommand<C>>::send,
                (
                    &old(scheduler).commands().sender(),
                    WorkerCommand::BuildDocumentView { snapshot, package },
                ),
                result,
            ),
        final(scheduler).commands().sent() == old(scheduler).commands().sent().push(
            WorkerCommand::BuildDocumentView { snapshot, package },
        ),
        final(scheduler).commands().sender() == old(scheduler).commands().sender(),
        final(scheduler).event_receiver() == old(scheduler).event_receiver(),
{
}

/// So are the open buckets, whichever and however many they are.
pub proof fn law_open_buckets_are_sent<C: Artifacts>(
    scheduler: &mut Scheduler<C>,
    buckets: HashSet<AnalysisBucket>,
)
    requires
        call_ensures(Scheduler::<C>::set_open_buckets, (scheduler, buckets), ()),
    ensures
        exists|result: Result<(), SendError<WorkerCommand<C>>>| #[trigger]
            call_ensures(
                Sender::<WorkerCommand<C>>::send,
                (&old(scheduler).commands().sender(), WorkerCommand::SetOpenBuckets(buckets)),
                result,
            ),
        final(scheduler).commands().sent() == old(scheduler).commands().sent().push(
            WorkerCommand::SetOpenBuckets(buckets),
        ),
        final(scheduler).commands().sender() == old(scheduler).commands().sender(),
        final(scheduler).event_receiver() == old(scheduler).event_receiver(),
{
}

/// Shutting down sends the command to stop.
pub proof fn law_shutdown_is_sent<C: Artifacts>(scheduler: &mut Scheduler<C>)
    requires
        call_ensures(Scheduler::<C>::shutdown, (scheduler,), ()),
    ensures
        exists|result: Result<(), SendError<WorkerCommand<C>>>| #[trigger]
            call_ensures(
                Sender::<WorkerCommand<C>>::send,
                (&old(scheduler).commands().sender(), WorkerCommand::<C>::Shutdown),
                result,
            ),
        final(scheduler).commands().sent() == old(scheduler).commands().sent().push(
            WorkerCommand::Shutdown,
        ),
        final(scheduler).commands().sender() == old(scheduler).commands().sender(),
        final(scheduler).event_receiver() == old(scheduler).event_receiver(),
{
}

/// Events are observed at the scheduler's end of the event channel.
pub proof fn law_events_come_from_the_event_channel<C: Artifacts>(
    scheduler: Scheduler<C>,
    receiver: &Receiver<WorkerEvent<C>>,
)
    requires
        call_ensures(Scheduler::<C>::events, (&scheduler,), receiver),
    ensures
        *receiver == scheduler.event_receiver(),
{
}

/// A message that is sent is passed to the channel behind the outbox and comes last in its
/// record.
pub proof fn law_message_is_handed_over<T>(outbox: &mut Outbox<T>, message: T)
    requires
        call_ensures(Outbox::<T>::send, (outbox, message), ()),
    ensures
        exists|result: Result<(), SendError<T>>| #[trigger]
            call_ensures(Sender::<T>::send, (&old(outbox).sender(), message), result),
        final(outbox).sent() == old(outbox).sent().push(message),
        final(outbox).sender() == old(outbox).sender(),
{
}

/// Records start empty, on the channel end that they are about.
pub proof fn law_records_start_empty<T>(
    sender: Sender<T>,
    outbox: Outbox<T>,
    receiver: Receiver<T>,
    inbox: Inbox<T>,
)
    requires
        call_ensures(Outbox::<T>::new, (sender,), outbox),
        call_ensures(Inbox::<T>::new, (receiver,), inbox),
    ensures
        outbox.sender() == sender,
        outbox.sent().len() == 0,
        inbox.receiver() == receiver,
        inbox.looks().len() == 0,
{
}

/// Orders are handed out as they were put in: all of them, in order, once.
pub proof fn law_orders_are_handed_out_as_they_came(
    added: &mut CacheOrders,
    open_buckets: HashSet<AnalysisBucket>,
    emptied: &mut CacheOrders,
    taken: Vec<HashSet<AnalysisBucket>>,
)
    requires
        call_ensures(CacheOrders::push, (added, open_buckets), ()),
        call_ensures(CacheOrders::take, (emptied,), taken),
    ensures
        final(added)@ == old(added)@.push(open_buckets),
        taken@ == old(emptied)@,
        final(emptied)@.len() == 0,
{
}

/// A copy of an analysis is about the same document, generation and package, with a copy of the
/// result.
pub proof fn law_copied_analysis_is_about_the_same<C: Artifacts>(
    analysis: PackageAnalysis<C>,
    copy: PackageAnalysis<C>,
)
    requires
        call_ensures(<PackageAnalysis<C> as Clone>::clone, (&analysis,), copy),
    ensures
        copy.uri@ == analysis.uri@,
        copy.generation == analysis.generation,
        copy.key@ == analysis.key@,
        call_ensures(<C::Analysis as Clone>::clone, (&analysis.result,), copy.result)
            || copy.result == analysis.result,
{
}

/// The worker tells the number of the last arrival.
pub proof fn law_worker_tells_its_number<C: Artifacts>(worker: Worker<C>, sequence: u64)
    requires
        call_ensures(Worker::<C>::sequence, (&worker,), sequence),
    ensures
        sequence == worker.queues().sequence,
{
}

} // verus!
