//! What commands do to the jobs that wait.
use crate::channel::{Inbox, Look, Outbox, Polled};
use crate::intake::{absorb_command, drain_commands, queues_of, CacheOrders};
use crate::keys::{AnalysisBucket, PackageKeyView, ViewKeyView};
use crate::laws::{
    law_no_view_job_is_lost, law_package_keys_add_up, lemma_has_latest, lemma_has_oldest,
    lemma_not_empty, lemma_undisplaced,
};
use crate::model::{
    absorb, absorb_all, absorb_all_events, absorb_all_orders, absorb_events, commands_in,
    crowded_events, displaced_events, Queues,
};
use crate::pending::{
    displaced, displaced_key, drop_oldest_package, drop_oldest_view, latest_key, oldest_key,
    one_per_uri, take_latest_package, take_latest_view, undisplaced, KeyOf, PendingJob,
    PendingJobs, PendingPackageJob, PendingPackageJobs, PendingViewJob, PendingViewJobs,
};
use crate::protocol::{
    Artifacts, DocumentSnapshot, DocumentViewSnapshot, WorkerCommand, WorkerEvent,
};
use std::collections::HashSet;
use std::sync::Arc;
use vstd::prelude::*;

verus! {

/// Jobs that wait are counted and found by their keys.
pub proof fn law_waiting_jobs_are_counted_and_found<J: PendingJob>(
    pending: PendingJobs<J>,
    key: J::Key,
    n: usize,
    empty: bool,
    found: bool,
)
    requires
        pending.wf(),
        call_ensures(PendingJobs::<J>::len, (&pending,), n),
        call_ensures(PendingJobs::<J>::is_empty, (&pending,), empty),
        call_ensures(PendingJobs::<J>::contains_key, (&pending, &key), found),
    ensures
        n == pending@.dom().len(),
        empty <==> forall|k: KeyOf<J>| !(#[trigger] pending@.contains_key(k)),
        empty <==> n == 0,
        found <==> pending@.contains_key(key@),
{
    if pending@ != Map::<KeyOf<J>, J>::empty() {
        lemma_not_empty(pending@);
        lemma_has_latest(pending@);
        assert(pending@.contains_key(latest_key(pending@)));
    }
}

/// A job waits under the key of its snapshot from then on, in place of the one there, and the
/// others stay.
pub proof fn law_job_waits_under_its_key<C: Artifacts>(
    packages: &mut PendingPackageJobs<C>,
    package_job: PendingPackageJob<C>,
    views: &mut PendingViewJobs<C>,
    view_job: PendingViewJob<C>,
)
    requires
        call_ensures(
            PendingJobs::<PendingPackageJob<C>>::insert,
            (packages, package_job),
            (),
        ),
        call_ensures(PendingJobs::<PendingViewJob<C>>::insert, (views, view_job), ()),
    ensures
        final(packages)@ == old(packages)@.insert(
            package_job.snapshot.package_key@,
            package_job,
        ),
        final(views)@ == old(views)@.insert(view_job.snapshot.key@, view_job),
{
}

/// A snapshot takes the job out that waits for its document under another key, if one does, and
/// leaves the others.
pub proof fn law_other_job_for_the_document_leaves<C: Artifacts>(
    pending: &mut PendingPackageJobs<C>,
    snapshot: DocumentSnapshot<C>,
    taken: Option<PendingPackageJob<C>>,
)
    requires
        call_ensures(
            PendingJobs::<PendingPackageJob<C>>::displace,
            (pending, &snapshot),
            taken,
        ),
        one_per_uri(old(pending)@),
    ensures
        forall|k: PackageKeyView| #[trigger]
            old(pending)@.contains_key(k) && k != snapshot.package_key@ && old(
                pending,
            )@[k].snapshot.uri@ == snapshot.uri@ ==> {
                &&& taken == Some(old(pending)@[k])
                &&& final(pending)@ == old(pending)@.remove(k)
            },
        (forall|k: PackageKeyView| #[trigger]
            old(pending)@.contains_key(k) && k != snapshot.package_key@ ==> old(
                pending,
            )@[k].snapshot.uri@ != snapshot.uri@) ==> {
            &&& taken is None
            &&& final(pending)@ == old(pending)@
        },
{
    assert forall|k: PackageKeyView| #[trigger]
        old(pending)@.contains_key(k) && k != snapshot.package_key@ && old(
            pending,
        )@[k].snapshot.uri@ == snapshot.uri@ implies displaced(old(pending)@, snapshot, k) by {}
}

/// The package job that is taken arrived after all others that wait, and it alone leaves. There
/// is one as long as any waits.
pub proof fn law_newest_package_is_taken<C: Artifacts>(
    pending: &mut PendingPackageJobs<C>,
    taken: Option<DocumentSnapshot<C>>,
)
    requires
        call_ensures(take_latest_package::<C>, (pending,), taken),
        old(pending).wf(),
    ensures
        taken is None <==> forall|k: PackageKeyView| !(#[trigger] old(pending)@.contains_key(k)),
        taken is None ==> final(pending)@ == old(pending)@,
        taken matches Some(snapshot) ==> exists|k: PackageKeyView|
            {
                &&& #[trigger] old(pending)@.contains_key(k)
                &&& snapshot == old(pending)@[k].snapshot
                &&& final(pending)@ == old(pending)@.remove(k)
                &&& forall|other: PackageKeyView| #[trigger]
                    old(pending)@.contains_key(other) && other != k
                        ==> old(pending)@[other].sequence < old(pending)@[k].sequence
            },
{
    let jobs = old(pending)@;
    if jobs != Map::<PackageKeyView, PendingPackageJob<C>>::empty() {
        lemma_not_empty(jobs);
        lemma_has_latest(jobs);
    }
}

/// The same of document view jobs; the package analysis that a view is built against comes with
/// it.
pub proof fn law_newest_view_is_taken<C: Artifacts>(
    pending: &mut PendingViewJobs<C>,
    taken: Option<(DocumentViewSnapshot<C>, Arc<C::Package>)>,
)
    requires
        call_ensures(take_latest_view::<C>, (pending,), taken),
        old(pending).wf(),
    ensures
        taken is None <==> forall|k: ViewKeyView| !(#[trigger] old(pending)@.contains_key(k)),
        taken is None ==> final(pending)@ == old(pending)@,
        taken matches Some((snapshot, package)) ==> exists|k: ViewKeyView|
            {
                &&& #[trigger] old(pending)@.contains_key(k)
                &&& snapshot == old(pending)@[k].snapshot
                &&& package == old(pending)@[k].package
                &&& final(pending)@ == old(pending)@.remove(k)
                &&& forall|other: ViewKeyView| #[trigger]
                    old(pending)@.contains_key(other) && other != k
                        ==> old(pending)@[other].sequence < old(pending)@[k].sequence
            },
{
    let jobs = old(pending)@;
    if jobs != Map::<ViewKeyView, PendingViewJob<C>>::empty() {
        lemma_not_empty(jobs);
        lemma_has_latest(jobs);
    }
}

/// The package job that is given up arrived before all others that wait, and it alone leaves.
pub proof fn law_oldest_package_is_dropped<C: Artifacts>(
    pending: &mut PendingPackageJobs<C>,
    dropped: Option<PendingPackageJob<C>>,
)
    requires
        call_ensures(drop_oldest_package::<C>, (pending,), dropped),
        old(pending).wf(),
    ensures
        dropped is None <==> forall|k: PackageKeyView| !(#[trigger] old(pending)@.contains_key(k)),
        dropped is None ==> final(pending)@ == old(pending)@,
        dropped matches Some(job) ==> exists|k: PackageKeyView|
            {
                &&& #[trigger] old(pending)@.contains_key(k)
                &&& job == old(pending)@[k]
                &&& final(pending)@ == old(pending)@.remove(k)
                &&& forall|other: PackageKeyView| #[trigger]
                    old(pending)@.contains_key(other) && other != k ==> job.sequence < old(
                        pending,
                    )@[other].sequence
            },
{
    let jobs = old(pending)@;
    if jobs != Map::<PackageKeyView, PendingPackageJob<C>>::empty() {
        lemma_not_empty(jobs);
        lemma_has_oldest(jobs);
    }
}

/// The same of document view jobs.
pub proof fn law_oldest_view_is_dropped<C: Artifacts>(
    pending: &mut PendingViewJobs<C>,
    dropped: Option<PendingViewJob<C>>,
)
    requires
        call_ensures(drop_oldest_view::<C>, (pending,), dropped),
        old(pending).wf(),
    ensures
        dropped is None <==> forall|k: ViewKeyView| !(#[trigger] old(pending)@.contains_key(k)),
        dropped is None ==> final(pending)@ == old(pending)@,
        dropped matches Some(job) ==> exists|k: ViewKeyView|
            {
                &&& #[trigger] old(pending)@.contains_key(k)
                &&& job == old(pending)@[k]
                &&& final(pending)@ == old(pending)@.remove(k)
                &&& forall|other: ViewKeyView| #[trigger]
                    old(pending)@.contains_key(other) && other != k ==> job.sequence < old(
                        pending,
                    )@[other].sequence
            },
{
    let jobs = old(pending)@;
    if jobs != Map::<ViewKeyView, PendingViewJob<C>>::empty() {
        lemma_not_empty(jobs);
        lemma_has_oldest(jobs);
    }
}

/// A command to analyze a snapshot has it wait, as the newest job, under its key. Of the other
/// jobs those for its document go; and if sixteen or more are left and none waited under its key,
/// the one that arrived first goes as well. The rest stays as it was. Nothing goes unannounced:
/// there is one cancellation for each job that goes, that of its document's job first.
pub proof fn law_package_command_makes_its_snapshot_wait<C: Artifacts>(
    snapshot: DocumentSnapshot<C>,
    packages: &mut PendingPackageJobs<C>,
    views: &mut PendingViewJobs<C>,
    sequence: &mut u64,
    orders: &mut CacheOrders,
    event_tx: &mut Outbox<WorkerEvent<C>>,
    stop: bool,
)
    requires
        call_ensures(
            absorb_command::<C>,
            (
                WorkerCommand::AnalyzePackage(snapshot),
                packages,
                views,
                sequence,
                orders,
                event_tx,
            ),
            stop,
        ),
        old(packages).wf(),
        old(views).wf(),
        queues_of(*old(packages), *old(views), *old(sequence)).wf(),
        *old(sequence) < u64::MAX,
    ensures
        !stop,
        *final(sequence) == *old(sequence) + 1,
        final(views)@ == old(views)@,
        final(orders)@ == old(orders)@,
        final(event_tx).sender() == old(event_tx).sender(),
        final(packages)@.contains_key(snapshot.package_key@),
        final(packages)@[snapshot.package_key@].snapshot == snapshot,
        final(packages)@[snapshot.package_key@].sequence == *final(sequence),
        forall|k: PackageKeyView| #[trigger]
            final(packages)@.contains_key(k) && k != snapshot.package_key@ ==> {
                &&& old(packages)@.contains_key(k)
                &&& final(packages)@[k] == old(packages)@[k]
                &&& final(packages)@[k].snapshot.uri@ != snapshot.uri@
            },
        forall|k: PackageKeyView| #[trigger]
            old(packages)@.contains_key(k) && k != snapshot.package_key@ && old(
                packages,
            )@[k].snapshot.uri@ != snapshot.uri@ ==> (!final(packages)@.contains_key(k) <==> {
                &&& !old(packages)@.contains_key(snapshot.package_key@)
                &&& old(packages)@.dom().filter(
                    |other: PackageKeyView| old(packages)@[other].snapshot.uri@ != snapshot.uri@,
                ).len() >= 16
                &&& forall|other: PackageKeyView| #[trigger]
                    old(packages)@.contains_key(other) && old(packages)@[other].snapshot.uri@
                        != snapshot.uri@ ==> old(packages)@[k].sequence <= old(
                        packages,
                    )@[other].sequence
            }),
        old(event_tx).sent().is_prefix_of(final(event_tx).sent()),
        ({
            let announced = final(event_tx).sent().skip(old(event_tx).sent().len() as int);
            &&& announced.len() + final(packages)@.len() == old(packages)@.len() + if old(
                packages,
            )@.contains_key(snapshot.package_key@) {
                0int
            } else {
                1int
            }
            &&& forall|k: PackageKeyView| #[trigger]
                old(packages)@.contains_key(k) && !final(packages)@.contains_key(k)
                    ==> announced.contains(
                    WorkerEvent::<C>::PackageCancelled {
                        key: old(packages)@[k].snapshot.package_key,
                        uri: old(packages)@[k].snapshot.uri,
                        generation: old(packages)@[k].snapshot.generation,
                    },
                )
            &&& forall|i: int|
                0 <= i < announced.len() ==> exists|k: PackageKeyView|
                    old(packages)@.contains_key(k) && !final(packages)@.contains_key(k)
                        && #[trigger] announced[i] == WorkerEvent::<C>::PackageCancelled {
                        key: #[trigger] old(packages)@[k].snapshot.package_key,
                        uri: old(packages)@[k].snapshot.uri,
                        generation: old(packages)@[k].snapshot.generation,
                    }
            &&& forall|k: PackageKeyView| #[trigger]
                old(packages)@.contains_key(k) && k != snapshot.package_key@ && old(
                    packages,
                )@[k].snapshot.uri@ == snapshot.uri@ ==> announced[0] == (WorkerEvent::<
                    C,
                >::PackageCancelled {
                    key: old(packages)@[k].snapshot.package_key,
                    uri: old(packages)@[k].snapshot.uri,
                    generation: old(packages)@[k].snapshot.generation,
                })
        }),
{
    let jobs = old(packages)@;
    let after = final(packages)@;
    let key = snapshot.package_key@;
    let command = WorkerCommand::AnalyzePackage(snapshot);
    let queues = queues_of(*old(packages), *old(views), *old(sequence));
    let others = undisplaced(jobs, snapshot);
    lemma_undisplaced(jobs, snapshot, queues.sequence);
    law_package_keys_add_up(queues, snapshot);
    if others.len() > 0 {
        lemma_has_oldest(others);
    }
    let differs = |other: PackageKeyView| jobs[other].snapshot.uri@ != snapshot.uri@;
    if !jobs.contains_key(key) {
        assert(others.dom() =~= jobs.dom().filter(differs));
    }
    assert forall|k: PackageKeyView| #[trigger]
        jobs.contains_key(k) && k != key && jobs[k].snapshot.uri@ != snapshot.uri@ implies (
    !after.contains_key(k) <==> {
        &&& !jobs.contains_key(key)
        &&& jobs.dom().filter(differs).len() >= 16
        &&& forall|other: PackageKeyView| #[trigger]
            jobs.contains_key(other) && jobs[other].snapshot.uri@ != snapshot.uri@
                ==> jobs[k].sequence <= jobs[other].sequence
    }) by {
        assert(others.contains_key(k));
        if !jobs.contains_key(key) && others.len() >= 16 {
            let oldest = oldest_key(others);
            assert(others.contains_key(oldest));
            assert(jobs.contains_key(oldest));
            if k == oldest {
                assert forall|other: PackageKeyView| #[trigger]
                    jobs.contains_key(other) && jobs[other].snapshot.uri@
                        != snapshot.uri@ implies jobs[k].sequence <= jobs[other].sequence by {
                    assert(others.contains_key(other));
                }
            }
        }
    }
    let went = displaced_events(jobs, snapshot);
    let dropped = crowded_events(others, snapshot);
    let announced = final(event_tx).sent().skip(old(event_tx).sent().len() as int);
    assert(announced =~= went + dropped);
    if went.len() == 1 {
        assert(announced[0] == went[0]);
    }
    if dropped.len() == 1 {
        assert(announced[went.len() as int] == dropped[0]);
    }
    assert forall|k: PackageKeyView| #[trigger]
        jobs.contains_key(k) && !after.contains_key(k) implies announced.contains(
        WorkerEvent::<C>::PackageCancelled {
            key: jobs[k].snapshot.package_key,
            uri: jobs[k].snapshot.uri,
            generation: jobs[k].snapshot.generation,
        },
    ) by {
        if !displaced(jobs, snapshot, k) {
            assert(k == oldest_key(others));
        }
    }
    assert forall|i: int| 0 <= i < announced.len() implies exists|k: PackageKeyView|
        jobs.contains_key(k) && !after.contains_key(k) && #[trigger] announced[i]
            == WorkerEvent::<C>::PackageCancelled {
            key: #[trigger] jobs[k].snapshot.package_key,
            uri: jobs[k].snapshot.uri,
            generation: jobs[k].snapshot.generation,
        } by {
        let k = if i < went.len() {
            displaced_key(jobs, snapshot)
        } else {
            oldest_key(others)
        };
        assert(jobs.contains_key(k) && !after.contains_key(k));
        assert(announced[i] == WorkerEvent::<C>::PackageCancelled {
            key: jobs[k].snapshot.package_key,
            uri: jobs[k].snapshot.uri,
            generation: jobs[k].snapshot.generation,
        });
    }
}

/// A command to build a document view has it wait, as the newest view job, under its key, with
/// the package analysis that came along. If sixty-four or more others wait and none of them under
/// its key, the one that arrived first goes, and its cancellation is announced. The rest stays
/// as it was.
pub proof fn law_view_command_makes_its_view_wait<C: Artifacts>(
    snapshot: DocumentViewSnapshot<C>,
    package: Arc<C::Package>,
    packages: &mut PendingPackageJobs<C>,
    views: &mut PendingViewJobs<C>,
    sequence: &mut u64,
    orders: &mut CacheOrders,
    event_tx: &mut Outbox<WorkerEvent<C>>,
    stop: bool,
)
    requires
        call_ensures(
            absorb_command::<C>,
            (
                WorkerCommand::BuildDocumentView { snapshot, package },
                packages,
                views,
                sequence,
                orders,
                event_tx,
            ),
            stop,
        ),
        old(packages).wf(),
        old(views).wf(),
        queues_of(*old(packages), *old(views), *old(sequence)).wf(),
        *old(sequence) < u64::MAX,
    ensures
        !stop,
        *final(sequence) == *old(sequence) + 1,
        final(packages)@ == old(packages)@,
        final(orders)@ == old(orders)@,
        final(event_tx).sender() == old(event_tx).sender(),
        final(views)@.contains_key(snapshot.key@),
        final(views)@[snapshot.key@].snapshot == snapshot,
        final(views)@[snapshot.key@].package == package,
        final(views)@[snapshot.key@].sequence == *final(sequence),
        forall|k: ViewKeyView| #[trigger]
            final(views)@.contains_key(k) && k != snapshot.key@ ==> {
                &&& old(views)@.contains_key(k)
                &&& final(views)@[k] == old(views)@[k]
            },
        forall|k: ViewKeyView| #[trigger]
            old(views)@.contains_key(k) && k != snapshot.key@ ==> (!final(views)@.contains_key(k)
                <==> {
                &&& !old(views)@.contains_key(snapshot.key@)
                &&& old(views)@.len() >= 64
                &&& forall|other: ViewKeyView| #[trigger]
                    old(views)@.contains_key(other) ==> old(views)@[k].sequence <= old(
                        views,
                    )@[other].sequence
            }),
        final(event_tx).sent() == old(event_tx).sent() || exists|k: ViewKeyView|
            {
                &&& #[trigger] old(views)@.contains_key(k)
                &&& !final(views)@.contains_key(k)
                &&& final(event_tx).sent() == old(event_tx).sent().push(
                    WorkerEvent::<C>::DocumentViewCancelled { key: old(views)@[k].snapshot.key },
                )
            },
        final(event_tx).sent() == old(event_tx).sent() ==> forall|k: ViewKeyView| #[trigger]
            old(views)@.contains_key(k) ==> final(views)@.contains_key(k),
{
    let jobs = old(views)@;
    let command = WorkerCommand::BuildDocumentView { snapshot, package };
    let queues = queues_of(*old(packages), *old(views), *old(sequence));
    law_no_view_job_is_lost(queues, command, snapshot.key@);
    let events = absorb_events(queues, command);
    if jobs.len() > 0 {
        lemma_has_oldest(jobs);
    }
    if events.len() == 1 {
        let oldest = oldest_key(jobs);
        assert(jobs.contains_key(oldest));
        assert(final(event_tx).sent() =~= old(event_tx).sent().push(
            WorkerEvent::<C>::DocumentViewCancelled { key: jobs[oldest].snapshot.key },
        ));
    } else {
        assert(final(event_tx).sent() =~= old(event_tx).sent());
    }
}

/// A command that names the open buckets leaves an order to keep these very buckets, behind
/// those that are there, however many buckets there are. It does nothing else.
pub proof fn law_every_set_of_open_buckets_is_an_order<C: Artifacts>(
    open_buckets: HashSet<AnalysisBucket>,
    packages: &mut PendingPackageJobs<C>,
    views: &mut PendingViewJobs<C>,
    sequence: &mut u64,
    orders: &mut CacheOrders,
    event_tx: &mut Outbox<WorkerEvent<C>>,
    stop: bool,
)
    requires
        call_ensures(
            absorb_command::<C>,
            (
                WorkerCommand::SetOpenBuckets(open_buckets),
                packages,
                views,
                sequence,
                orders,
                event_tx,
            ),
            stop,
        ),
    ensures
        !stop,
        final(orders)@ == old(orders)@.push(open_buckets),
        final(packages)@ == old(packages)@,
        final(views)@ == old(views)@,
        *final(sequence) == *old(sequence),
        final(event_tx).sent() == old(event_tx).sent(),
        final(event_tx).sender() == old(event_tx).sender(),
{
    assert(final(orders)@ =~= old(orders)@.push(open_buckets));
    assert(final(event_tx).sent() =~= old(event_tx).sent());
}

/// The command to stop does nothing but stop, and it is the only one that does.
pub proof fn law_shutdown_alone_stops<C: Artifacts>(
    command: WorkerCommand<C>,
    packages: &mut PendingPackageJobs<C>,
    views: &mut PendingViewJobs<C>,
    sequence: &mut u64,
    orders: &mut CacheOrders,
    event_tx: &mut Outbox<WorkerEvent<C>>,
    stop: bool,
)
    requires
        call_ensures(
            absorb_command::<C>,
            (command, packages, views, sequence, orders, event_tx),
            stop,
        ),
    ensures
        stop <==> command is Shutdown,
        stop ==> {
            &&& final(orders)@ == old(orders)@
            &&& final(packages)@ == old(packages)@
            &&& final(views)@ == old(views)@
            &&& *final(sequence) == *old(sequence)
            &&& final(event_tx).sent() == old(event_tx).sent()
            &&& final(event_tx).sender() == old(event_tx).sender()
        },
{
    if stop {
        assert(final(orders)@ =~= old(orders)@);
        assert(final(event_tx).sent() =~= old(event_tx).sent());
    }
}

/// The commands that looks brought are the messages among what they brought.
pub proof fn law_every_message_is_a_command<C: Artifacts>(looks: Seq<Look<WorkerCommand<C>>>)
    ensures
        commands_in(looks) == looks.filter_map(
            |look: Look<WorkerCommand<C>>|
                match look.brought {
                    Polled::Message(command) => Some(command),
                    _ => None,
                },
        ),
    decreases looks.len(),
{
    let brought = |look: Look<WorkerCommand<C>>|
        match look.brought {
            Polled::Message(command) => Some(command),
            _ => None,
        };
    if looks.len() > 0 {
        law_every_message_is_a_command(looks.drop_last());
    }
    assert(commands_in(looks) =~= looks.filter_map(brought));
}

/// The orders that commands give are the sets of open buckets that they name: every one of them,
/// as it is, in order, and nothing else.
pub proof fn law_orders_are_the_sets_named<C: Artifacts>(commands: Seq<WorkerCommand<C>>)
    ensures
        absorb_all_orders(commands) == commands.filter_map(
            |command: WorkerCommand<C>|
                match command {
                    WorkerCommand::SetOpenBuckets(open_buckets) => Some(open_buckets),
                    _ => None,
                },
        ),
    decreases commands.len(),
{
    let named = |command: WorkerCommand<C>|
        match command {
            WorkerCommand::SetOpenBuckets(open_buckets) => Some(open_buckets),
            _ => None,
        };
    if commands.len() > 0 {
        law_orders_are_the_sets_named(commands.drop_last());
    }
    assert(absorb_all_orders(commands) =~= commands.filter_map(named));
}

/// Taking in commands is taking in one after the other: each finds the jobs that those before it
/// left, and its announcements come behind theirs.
pub proof fn law_commands_are_taken_in_one_by_one<C: Artifacts>(
    queues: Queues<C>,
    commands: Seq<WorkerCommand<C>>,
)
    ensures
        commands.fold_left(
            (queues, Seq::<WorkerEvent<C>>::empty()),
            |done: (Queues<C>, Seq<WorkerEvent<C>>), command: WorkerCommand<C>|
                (absorb(done.0, command), done.1 + absorb_events(done.0, command)),
        ) == (absorb_all(queues, commands), absorb_all_events(queues, commands)),
    decreases commands.len(),
{
    if commands.len() > 0 {
        law_commands_are_taken_in_one_by_one(queues, commands.drop_last());
    }
}

/// Each command that brings a job uses up one arrival number.
proof fn lemma_numbers_used<C: Artifacts>(queues: Queues<C>, commands: Seq<WorkerCommand<C>>)
    ensures
        absorb_all(queues, commands).sequence == queues.sequence + commands.filter_map(
            |command: WorkerCommand<C>|
                match command {
                    WorkerCommand::AnalyzePackage(_) => Some(command),
                    WorkerCommand::BuildDocumentView { .. } => Some(command),
                    _ => None,
                },
        ).len(),
    decreases commands.len(),
{
    if commands.len() > 0 {
        lemma_numbers_used(queues, commands.drop_last());
    }
}

/// A drain looks at the channel, without waiting, until it finds no message, one to stop, or no
/// sender left, or until it has made as many looks as it may. Its result says which: whether to
/// stop, or nothing when there may be more.
pub proof fn law_drain_looks_until_done<C: Artifacts>(
    command_rx: &mut Inbox<WorkerCommand<C>>,
    limit: u64,
    packages: &mut PendingPackageJobs<C>,
    views: &mut PendingViewJobs<C>,
    sequence: &mut u64,
    orders: &mut CacheOrders,
    event_tx: &mut Outbox<WorkerEvent<C>>,
    end: Option<bool>,
    looks: Seq<Look<WorkerCommand<C>>>,
)
    requires
        call_ensures(
            drain_commands::<C>,
            (command_rx, limit, packages, views, sequence, orders, event_tx),
            end,
        ),
        looks == final(command_rx).looks().skip(old(command_rx).looks().len() as int),
    ensures
        final(command_rx).receiver() == old(command_rx).receiver(),
        final(command_rx).looks() == old(command_rx).looks() + looks,
        looks.len() <= limit,
        limit > 0 ==> looks.len() > 0,
        forall|i: int| 0 <= i < looks.len() ==> !(#[trigger] looks[i]).waited,
        forall|i: int|
            0 <= i < looks.len() && (end is None || i < looks.len() - 1) ==> {
                &&& (#[trigger] looks[i]).brought is Message
                &&& !(looks[i].brought->Message_0 is Shutdown)
            },
        end is None ==> looks.len() == limit,
        end is Some ==> looks.len() > 0,
        end == Some(false) <==> looks.len() > 0 && looks.last().brought is Empty,
        end == Some(true) <==> looks.len() > 0 && (looks.last().brought is Disconnected || (
        looks.last().brought is Message && looks.last().brought->Message_0 is Shutdown)),
{
    assert(final(command_rx).looks() =~= old(command_rx).looks() + looks);
}

/// What a drain leaves is what its messages leave, taken in one after the other; the orders that
/// they give come behind those at hand; and each job uses up one arrival number.
pub proof fn law_drain_takes_in_every_message<C: Artifacts>(
    command_rx: &mut Inbox<WorkerCommand<C>>,
    limit: u64,
    packages: &mut PendingPackageJobs<C>,
    views: &mut PendingViewJobs<C>,
    sequence: &mut u64,
    orders: &mut CacheOrders,
    event_tx: &mut Outbox<WorkerEvent<C>>,
    end: Option<bool>,
    messages: Seq<WorkerCommand<C>>,
)
    requires
        call_ensures(
            drain_commands::<C>,
            (command_rx, limit, packages, views, sequence, orders, event_tx),
            end,
        ),
        messages == final(command_rx).looks().skip(
            old(command_rx).looks().len() as int,
        ).filter_map(
            |look: Look<WorkerCommand<C>>|
                match look.brought {
                    Polled::Message(command) => Some(command),
                    _ => None,
                },
        ),
    ensures
        ({
            let done = messages.fold_left(
                (
                    queues_of(*old(packages), *old(views), *old(sequence)),
                    Seq::<WorkerEvent<C>>::empty(),
                ),
                |done: (Queues<C>, Seq<WorkerEvent<C>>), command: WorkerCommand<C>|
                    (absorb(done.0, command), done.1 + absorb_events(done.0, command)),
            );
            &&& queues_of(*final(packages), *final(views), *final(sequence)) == done.0
            &&& final(event_tx).sent() == old(event_tx).sent() + done.1
        }),
        final(event_tx).sender() == old(event_tx).sender(),
        final(orders)@ == old(orders)@ + messages.filter_map(
            |command: WorkerCommand<C>|
                match command {
                    WorkerCommand::SetOpenBuckets(open_buckets) => Some(open_buckets),
                    _ => None,
                },
        ),
        *final(sequence) == *old(sequence) + messages.filter_map(
            |command: WorkerCommand<C>|
                match command {
                    WorkerCommand::AnalyzePackage(_) => Some(command),
                    WorkerCommand::BuildDocumentView { .. } => Some(command),
                    _ => None,
                },
        ).len(),
{
    let looks = final(command_rx).looks().skip(old(command_rx).looks().len() as int);
    let queues = queues_of(*old(packages), *old(views), *old(sequence));
    law_every_message_is_a_command(looks);
    law_orders_are_the_sets_named(messages);
    law_commands_are_taken_in_one_by_one(queues, messages);
    lemma_numbers_used(queues, messages);
}

} // verus!
