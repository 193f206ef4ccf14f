//! The main thread's end of the scheduler.
use crate::channel::{handed_to, Look, Outbox};
use crate::keys::AnalysisBucket;
use crate::model::no_jobs;
use crate::protocol::{
    Artifacts, DocumentSnapshot, DocumentViewSnapshot, WorkerCommand, WorkerEvent,
};
use crate::worker::Worker;
use crossbeam_channel::Receiver;
use std::collections::HashSet;
use std::sync::Arc;
use vstd::prelude::*;

verus! {

/// How many commands may be on their way to the worker.
pub const WORKER_CHANNEL_BOUND: usize = 1;

/// The communication channels to the background worker.
#[verifier::reject_recursive_types(C)]
pub struct Scheduler<C: Artifacts> {
    command_tx: Outbox<WorkerCommand<C>>,
    event_rx: Receiver<WorkerEvent<C>>,
}

impl<C: Artifacts> Scheduler<C> {
    /// The outbox that commands go to.
    pub closed spec fn commands(&self) -> Outbox<WorkerCommand<C>> {
        self.command_tx
    }

    /// The channel end that events come from.
    pub closed spec fn event_receiver(&self) -> Receiver<WorkerEvent<C>> {
        self.event_rx
    }

    /// The two ends of a new scheduler: commands pass one at a time, and events without limit.
    /// The worker's end is meant for a thread of its own.
    pub fn new(panic_on_worker_job: bool) -> (ends: (Self, Worker<C>))
        ensures
            call_ensures(
                crossbeam_channel::bounded::<WorkerCommand<C>>,
                (WORKER_CHANNEL_BOUND,),
                (ends.0.commands().sender(), ends.1.commands().receiver()),
            ),
            call_ensures(
                crossbeam_channel::unbounded::<WorkerEvent<C>>,
                (),
                (ends.1.events().sender(), ends.0.event_receiver()),
            ),
            ends.0.commands().sent() == Seq::<WorkerCommand<C>>::empty(),
            ends.1.wf(),
            ends.1.queues() == no_jobs::<C>(),
            ends.1.commands().looks() == Seq::<Look<WorkerCommand<C>>>::empty(),
            ends.1.events().sent() == Seq::<WorkerEvent<C>>::empty(),
            ends.1.orders() == Seq::<HashSet<AnalysisBucket>>::empty(),
            ends.1.panics() == panic_on_worker_job,
    {
        let (command_tx, command_rx) = crossbeam_channel::bounded::<WorkerCommand<C>>(
            WORKER_CHANNEL_BOUND,
        );
        let (event_tx, event_rx) = crossbeam_channel::unbounded::<WorkerEvent<C>>();
        let worker = Worker::new(command_rx, event_tx, panic_on_worker_job);
        (Scheduler { command_tx: Outbox::new(command_tx), event_rx }, worker)
    }

    /// Enqueue a document snapshot for background analysis.
    pub fn enqueue_package(&mut self, snapshot: DocumentSnapshot<C>)
        ensures
            only_sent(*old(self), *final(self), WorkerCommand::AnalyzePackage(snapshot)),
    {
        self.command_tx.send(WorkerCommand::AnalyzePackage(snapshot));
    }

    /// Enqueue one document-view rebuild against an already cached package analysis.
    pub fn enqueue_document_view(
        &mut self,
        snapshot: DocumentViewSnapshot<C>,
        package: Arc<C::Package>,
    )
        ensures
            only_sent(
                *old(self),
                *final(self),
                WorkerCommand::BuildDocumentView { snapshot, package },
            ),
    {
        self.command_tx.send(WorkerCommand::BuildDocumentView { snapshot, package });
    }

    /// Inform the worker which package buckets still have open documents.
    pub fn set_open_buckets(&mut self, buckets: HashSet<AnalysisBucket>)
        ensures
            only_sent(*old(self), *final(self), WorkerCommand::SetOpenBuckets(buckets)),
    {
        self.command_tx.send(WorkerCommand::SetOpenBuckets(buckets));
    }

    /// Return the receiver used to observe worker events.
    pub fn events(&self) -> (receiver: &Receiver<WorkerEvent<C>>)
        ensures
            *receiver == self.event_receiver(),
    {
        &self.event_rx
    }

    /// Tell the worker to stop.
    pub fn shutdown(&mut self)
        ensures
            only_sent(*old(self), *final(self), WorkerCommand::Shutdown),
    {
        self.command_tx.send(WorkerCommand::Shutdown);
    }
}

/// This one command was handed to the worker's channel, and nothing else changed.
pub open spec fn only_sent<C: Artifacts>(
    before: Scheduler<C>,
    after: Scheduler<C>,
    command: WorkerCommand<C>,
) -> bool {
    &&& handed_to(before.commands().sender(), command)
    &&& after.commands().sent() == before.commands().sent().push(command)
    &&& after.commands().sender() == before.commands().sender()
    &&& after.event_receiver() == before.event_receiver()
}

} // verus!
