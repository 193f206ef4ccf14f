//! Taking in commands.
use crate::channel::{Inbox, Look, Outbox, Polled};
use crate::keys::AnalysisBucket;
use crate::laws::law_commands_keep_order;
use crate::model::{
    absorb, absorb_all, absorb_all_events, absorb_all_orders, absorb_events, absorb_orders,
    brings_job, commands_in, drained, goes_on, Queues, MAX_PENDING_PACKAGE_JOBS,
    MAX_PENDING_VIEW_JOBS,
};
use crate::pending::{
    drop_oldest_package, drop_oldest_view, PendingPackageJob, PendingPackageJobs, PendingViewJob,
    PendingViewJobs,
};
use crate::protocol::{package_cancelled, view_cancelled, Artifacts, WorkerCommand, WorkerEvent};
use std::collections::HashSet;
use vstd::prelude::*;

verus! {

/// Orders for the package cache, in the order in which they were given. Each names the buckets
/// that still have open documents; the cache keeps what belongs to them.
pub struct CacheOrders {
    orders: Vec<HashSet<AnalysisBucket>>,
}

impl View for CacheOrders {
    type V = Seq<HashSet<AnalysisBucket>>;

    closed spec fn view(&self) -> Seq<HashSet<AnalysisBucket>> {
        self.orders@
    }
}

impl CacheOrders {
    /// No orders.
    pub fn new() -> (orders: Self)
        ensures
            orders@ == Seq::<HashSet<AnalysisBucket>>::empty(),
    {
        CacheOrders { orders: Vec::new() }
    }

    /// Adds an order.
    pub fn push(&mut self, open_buckets: HashSet<AnalysisBucket>)
        ensures
            final(self)@ == old(self)@.push(open_buckets),
    {
        self.orders.push(open_buckets);
    }

    /// Hands out the orders given so far.
    pub fn take(&mut self) -> (orders: Vec<HashSet<AnalysisBucket>>)
        ensures
            orders@ == old(self)@,
            final(self)@ == Seq::<HashSet<AnalysisBucket>>::empty(),
    {
        let mut orders: Vec<HashSet<AnalysisBucket>> = Vec::new();
        std::mem::swap(&mut orders, &mut self.orders);
        orders
    }
}

/// The waiting jobs of the worker.
pub open spec fn queues_of<C: Artifacts>(
    pending_packages: PendingPackageJobs<C>,
    pending_views: PendingViewJobs<C>,
    sequence: u64,
) -> Queues<C> {
    Queues { packages: pending_packages@, views: pending_views@, sequence: sequence as int }
}

/// Takes in one command and says whether it ends the worker.
///
/// A job replaces one that waits under the same key, which coalesces edit storms down to the
/// latest snapshot. A package job displaces one that waits for the same URI under another key,
/// and where too many jobs wait, the oldest goes; the cancellation of each of these is
/// announced.
pub fn absorb_command<C: Artifacts>(
    command: WorkerCommand<C>,
    pending_packages: &mut PendingPackageJobs<C>,
    pending_views: &mut PendingViewJobs<C>,
    sequence: &mut u64,
    cache_orders: &mut CacheOrders,
    event_tx: &mut Outbox<WorkerEvent<C>>,
) -> (stop: bool)
    requires
        old(pending_packages).wf(),
        old(pending_views).wf(),
        queues_of(*old(pending_packages), *old(pending_views), *old(sequence)).wf(),
        brings_job(command) ==> *old(sequence) < u64::MAX,
    ensures
        final(pending_packages).wf(),
        final(pending_views).wf(),
        queues_of(*final(pending_packages), *final(pending_views), *final(sequence)).wf(),
        queues_of(*final(pending_packages), *final(pending_views), *final(sequence)) == absorb(
            queues_of(*old(pending_packages), *old(pending_views), *old(sequence)),
            command,
        ),
        final(cache_orders)@ == old(cache_orders)@ + absorb_orders(command),
        final(event_tx).sent() == old(event_tx).sent() + absorb_events(
            queues_of(*old(pending_packages), *old(pending_views), *old(sequence)),
            command,
        ),
        final(event_tx).sender() == old(event_tx).sender(),
        stop == (command is Shutdown),
{
    proof {
        law_commands_keep_order(
            queues_of(*pending_packages, *pending_views, *sequence),
            command,
        );
    }
    match command {
        WorkerCommand::AnalyzePackage(snapshot) => {
            *sequence = *sequence + 1;
            if let Some(displaced) = pending_packages.displace(&snapshot) {
                event_tx.send(package_cancelled(displaced.snapshot));
            }
            if pending_packages.len() >= MAX_PENDING_PACKAGE_JOBS && !pending_packages.contains_key(
                &snapshot.package_key,
            ) {
                if let Some(dropped) = drop_oldest_package(pending_packages) {
                    event_tx.send(package_cancelled(dropped.snapshot));
                }
            }
            let job = PendingPackageJob { sequence: *sequence, snapshot };
            pending_packages.insert(job);
            false
        },
        WorkerCommand::BuildDocumentView { snapshot, package } => {
            *sequence = *sequence + 1;
            if pending_views.len() >= MAX_PENDING_VIEW_JOBS && !pending_views.contains_key(
                &snapshot.key,
            ) {
                if let Some(dropped) = drop_oldest_view(pending_views) {
                    event_tx.send(view_cancelled(dropped.snapshot));
                }
            }
            let job = PendingViewJob { sequence: *sequence, snapshot, package };
            pending_views.insert(job);
            false
        },
        WorkerCommand::SetOpenBuckets(open_buckets) => {
            cache_orders.push(open_buckets);
            false
        },
        WorkerCommand::Shutdown => true,
    }
}

/// The looks at a channel since `earlier`.
pub open spec fn looks_since<T>(earlier: Inbox<T>, now: Inbox<T>) -> Seq<Look<T>> {
    now.looks().skip(earlier.looks().len() as int)
}

/// Takes in the commands that are there, up to `limit` of them, before work starts, so that the
/// worker spends its time on the freshest snapshots rather than on intermediate states.
///
/// The result says whether the worker is to stop. It is `None` when `limit` commands came and
/// more may be there.
pub fn drain_commands<C: Artifacts>(
    command_rx: &mut Inbox<WorkerCommand<C>>,
    limit: u64,
    pending_packages: &mut PendingPackageJobs<C>,
    pending_views: &mut PendingViewJobs<C>,
    sequence: &mut u64,
    cache_orders: &mut CacheOrders,
    event_tx: &mut Outbox<WorkerEvent<C>>,
) -> (end: Option<bool>)
    requires
        old(pending_packages).wf(),
        old(pending_views).wf(),
        queues_of(*old(pending_packages), *old(pending_views), *old(sequence)).wf(),
        *old(sequence) + limit <= u64::MAX,
    ensures
        final(pending_packages).wf(),
        final(pending_views).wf(),
        queues_of(*final(pending_packages), *final(pending_views), *final(sequence)).wf(),
        old(command_rx).looks().is_prefix_of(final(command_rx).looks()),
        final(command_rx).receiver() == old(command_rx).receiver(),
        drained(looks_since(*old(command_rx), *final(command_rx)), limit as int, end),
        queues_of(*final(pending_packages), *final(pending_views), *final(sequence)) == absorb_all(
            queues_of(*old(pending_packages), *old(pending_views), *old(sequence)),
            commands_in(looks_since(*old(command_rx), *final(command_rx))),
        ),
        final(cache_orders)@ == old(cache_orders)@ + absorb_all_orders(
            commands_in(looks_since(*old(command_rx), *final(command_rx))),
        ),
        final(event_tx).sent() == old(event_tx).sent() + absorb_all_events(
            queues_of(*old(pending_packages), *old(pending_views), *old(sequence)),
            commands_in(looks_since(*old(command_rx), *final(command_rx))),
        ),
        final(event_tx).sender() == old(event_tx).sender(),
{
    let ghost start = queues_of(*pending_packages, *pending_views, *sequence);
    let ghost first = command_rx.looks();
    let ghost mut looks: Seq<Look<WorkerCommand<C>>> = Seq::empty();
    let mut left: u64 = limit;
    while left > 0
        invariant
            left <= limit,
            pending_packages.wf(),
            pending_views.wf(),
            queues_of(*pending_packages, *pending_views, *sequence).wf(),
            *sequence + left <= u64::MAX,
            first == old(command_rx).looks(),
            start == queues_of(*old(pending_packages), *old(pending_views), *old(sequence)),
            command_rx.looks() == first + looks,
            command_rx.receiver() == old(command_rx).receiver(),
            looks.len() == limit - left,
            forall|i: int|
                0 <= i < looks.len() ==> goes_on(#[trigger] looks[i]) && !looks[i].waited,
            queues_of(*pending_packages, *pending_views, *sequence) == absorb_all(
                start,
                commands_in(looks),
            ),
            cache_orders@ == old(cache_orders)@ + absorb_all_orders(commands_in(looks)),
            event_tx.sent() == old(event_tx).sent() + absorb_all_events(start, commands_in(looks)),
            event_tx.sender() == old(event_tx).sender(),
        decreases left,
    {
        let polled = command_rx.poll();
        let ghost before = looks;
        proof {
            looks = looks.push(Look { waited: false, brought: polled });
            assert(looks.drop_last() =~= before);
            assert(command_rx.looks() =~= first + looks);
            assert(command_rx.looks().skip(first.len() as int) =~= looks);
            assert(looks.last().brought == polled);
            assert(forall|i: int| 0 <= i < before.len() ==> looks[i] == before[i]);
        }
        match polled {
            Polled::Message(command) => {
                proof {
                    let commands = commands_in(looks);
                    assert(commands == commands_in(before).push(command));
                    assert(commands.drop_last() =~= commands_in(before));
                }
                if absorb_command(
                    command,
                    pending_packages,
                    pending_views,
                    sequence,
                    cache_orders,
                    event_tx,
                ) {
                    return Some(true);
                }
            },
            Polled::Empty => {
                return Some(false);
            },
            Polled::Disconnected => {
                return Some(true);
            },
        }
        left = left - 1;
    }
    proof {
        assert(command_rx.looks().skip(first.len() as int) =~= looks);
    }
    None
}

} // verus!
