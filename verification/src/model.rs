//! What commands do to the waiting jobs, as mathematical functions.
use crate::channel::{Look, Polled};
use crate::keys::{AnalysisBucket, PackageKeyView, ViewKeyView};
use crate::pending::{
    arrived_by, displaced_key, displaces, filed, oldest_key, one_per_uri, undisplaced, KeyOf,
    PendingJob, PendingPackageJob, PendingViewJob,
};
use crate::protocol::{
    package_cancelled_event, view_cancelled_event, Artifacts, DocumentSnapshot, WorkerCommand,
    WorkerEvent,
};
use std::collections::HashSet;
use vstd::prelude::*;

verus! {

/// How many package jobs may wait.
pub const MAX_PENDING_PACKAGE_JOBS: usize = 16;

/// How many document view jobs may wait.
pub const MAX_PENDING_VIEW_JOBS: usize = 64;

/// The waiting jobs and the number of the last arrival.
pub struct Queues<C: Artifacts> {
    pub packages: Map<PackageKeyView, PendingPackageJob<C>>,
    pub views: Map<ViewKeyView, PendingViewJob<C>>,
    pub sequence: int,
}

impl<C: Artifacts> Queues<C> {
    /// The jobs are filed under their keys and numbered by their arrival so far, and at most one
    /// package job waits per URI.
    pub open spec fn wf(self) -> bool {
        &&& filed(self.packages)
        &&& filed(self.views)
        &&& arrived_by(self.packages, self.sequence)
        &&& arrived_by(self.views, self.sequence)
        &&& one_per_uri(self.packages)
    }

    /// No more jobs wait than may.
    pub open spec fn within_bounds(self) -> bool {
        &&& self.packages.len() <= MAX_PENDING_PACKAGE_JOBS
        &&& self.views.len() <= MAX_PENDING_VIEW_JOBS
    }

    /// No job waits.
    pub open spec fn idle(self) -> bool {
        &&& self.packages == Map::<PackageKeyView, PendingPackageJob<C>>::empty()
        &&& self.views == Map::<ViewKeyView, PendingViewJob<C>>::empty()
    }
}

/// No jobs, and nothing has arrived.
pub open spec fn no_jobs<C: Artifacts>() -> Queues<C> {
    Queues { packages: Map::empty(), views: Map::empty(), sequence: 0 }
}

/// Whether the oldest job has to go to make room for one under `k`: not for a job that takes
/// the place of another.
pub open spec fn crowded<J: PendingJob>(
    jobs: Map<KeyOf<J>, J>,
    limit: usize,
    k: KeyOf<J>,
) -> bool {
    jobs.len() >= limit && !jobs.contains_key(k)
}

/// The jobs after one more has arrived.
pub open spec fn with_job<J: PendingJob>(
    jobs: Map<KeyOf<J>, J>,
    limit: usize,
    job: J,
) -> Map<KeyOf<J>, J> {
    let kept = if crowded(jobs, limit, job.key()) {
        jobs.remove(oldest_key(jobs))
    } else {
        jobs
    };
    kept.insert(job.key(), job)
}

/// Whether a command brings a job.
pub open spec fn brings_job<C: Artifacts>(command: WorkerCommand<C>) -> bool {
    command is AnalyzePackage || command is BuildDocumentView
}

/// The waiting jobs after one command. A package job displaces one that waits for its document
/// under another key.
pub open spec fn absorb<C: Artifacts>(queues: Queues<C>, command: WorkerCommand<C>) -> Queues<C> {
    let sequence = (queues.sequence + 1) as u64;
    match command {
        WorkerCommand::AnalyzePackage(snapshot) => Queues {
            packages: with_job(
                undisplaced(queues.packages, snapshot),
                MAX_PENDING_PACKAGE_JOBS,
                PendingPackageJob { sequence, snapshot },
            ),
            views: queues.views,
            sequence: queues.sequence + 1,
        },
        WorkerCommand::BuildDocumentView { snapshot, package } => Queues {
            packages: queues.packages,
            views: with_job(
                queues.views,
                MAX_PENDING_VIEW_JOBS,
                PendingViewJob { sequence, snapshot, package },
            ),
            sequence: queues.sequence + 1,
        },
        WorkerCommand::SetOpenBuckets(_) => queues,
        WorkerCommand::Shutdown => queues,
    }
}

/// The announcement of the package job that has to go because a snapshot of its document comes
/// under another key, if there is one.
pub open spec fn displaced_events<C: Artifacts>(
    packages: Map<PackageKeyView, PendingPackageJob<C>>,
    snapshot: DocumentSnapshot<C>,
) -> Seq<WorkerEvent<C>> {
    if displaces(packages, snapshot) {
        seq![package_cancelled_event(packages[displaced_key(packages, snapshot)].snapshot)]
    } else {
        seq![]
    }
}

/// The announcement of the package job that has to go to make room, if there is one.
pub open spec fn crowded_events<C: Artifacts>(
    packages: Map<PackageKeyView, PendingPackageJob<C>>,
    snapshot: DocumentSnapshot<C>,
) -> Seq<WorkerEvent<C>> {
    if crowded(packages, MAX_PENDING_PACKAGE_JOBS, snapshot.package_key@) {
        seq![package_cancelled_event(packages[oldest_key(packages)].snapshot)]
    } else {
        seq![]
    }
}

/// The announcements that one command causes: those of the jobs that have to go.
pub open spec fn absorb_events<C: Artifacts>(
    queues: Queues<C>,
    command: WorkerCommand<C>,
) -> Seq<WorkerEvent<C>> {
    match command {
        WorkerCommand::AnalyzePackage(snapshot) => displaced_events(queues.packages, snapshot)
            + crowded_events(undisplaced(queues.packages, snapshot), snapshot),
        WorkerCommand::BuildDocumentView { snapshot, .. } => if crowded(
            queues.views,
            MAX_PENDING_VIEW_JOBS,
            snapshot.key@,
        ) {
            seq![view_cancelled_event(queues.views[oldest_key(queues.views)].snapshot)]
        } else {
            seq![]
        },
        WorkerCommand::SetOpenBuckets(_) => seq![],
        WorkerCommand::Shutdown => seq![],
    }
}

/// The orders for the package cache that one command gives.
pub open spec fn absorb_orders<C: Artifacts>(command: WorkerCommand<C>) -> Seq<
    HashSet<AnalysisBucket>,
> {
    match command {
        WorkerCommand::SetOpenBuckets(open_buckets) => seq![open_buckets],
        _ => seq![],
    }
}

/// The waiting jobs after several commands.
pub open spec fn absorb_all<C: Artifacts>(
    queues: Queues<C>,
    commands: Seq<WorkerCommand<C>>,
) -> Queues<C>
    decreases commands.len(),
{
    if commands.len() == 0 {
        queues
    } else {
        absorb(absorb_all(queues, commands.drop_last()), commands.last())
    }
}

/// The announcements that several commands cause, in order.
pub open spec fn absorb_all_events<C: Artifacts>(
    queues: Queues<C>,
    commands: Seq<WorkerCommand<C>>,
) -> Seq<WorkerEvent<C>>
    decreases commands.len(),
{
    if commands.len() == 0 {
        seq![]
    } else {
        let before = commands.drop_last();
        absorb_all_events(queues, before) + absorb_events(
            absorb_all(queues, before),
            commands.last(),
        )
    }
}

/// The orders for the package cache that several commands give, in order.
pub open spec fn absorb_all_orders<C: Artifacts>(commands: Seq<WorkerCommand<C>>) -> Seq<
    HashSet<AnalysisBucket>,
>
    decreases commands.len(),
{
    if commands.len() == 0 {
        seq![]
    } else {
        absorb_all_orders(commands.drop_last()) + absorb_orders(commands.last())
    }
}

/// The commands that some looks at the command channel brought, in order.
pub open spec fn commands_in<C: Artifacts>(looks: Seq<Look<WorkerCommand<C>>>) -> Seq<
    WorkerCommand<C>,
>
    decreases looks.len(),
{
    if looks.len() == 0 {
        seq![]
    } else {
        let before = commands_in(looks.drop_last());
        match looks.last().brought {
            Polled::Message(command) => before.push(command),
            _ => before,
        }
    }
}

/// Whether the worker looks for another command right after this look.
pub open spec fn goes_on<C: Artifacts>(look: Look<WorkerCommand<C>>) -> bool {
    look.brought matches Polled::Message(command) && command !is Shutdown
}

/// Whether this look ends the worker.
pub open spec fn stops<C: Artifacts>(look: Look<WorkerCommand<C>>) -> bool {
    match look.brought {
        Polled::Message(command) => command is Shutdown,
        Polled::Empty => false,
        Polled::Disconnected => true,
    }
}

/// How a series of at most `limit` looks at the command channel went that waited for nothing.
/// Each brought a command to go on from, but for the last one where `end` is there; `end` then
/// says whether the worker stops.
pub open spec fn drained<C: Artifacts>(
    looks: Seq<Look<WorkerCommand<C>>>,
    limit: int,
    end: Option<bool>,
) -> bool {
    &&& looks.len() <= limit
    &&& forall|i: int| 0 <= i < looks.len() ==> !(#[trigger] looks[i]).waited
    &&& forall|i: int| 0 <= i < looks.len() - 1 ==> goes_on(#[trigger] looks[i])
    &&& match end {
        Some(stop) => {
            &&& looks.len() > 0
            &&& !goes_on(looks.last())
            &&& stop == stops(looks.last())
        },
        None => {
            &&& looks.len() == limit
            &&& looks.len() > 0 ==> goes_on(looks.last())
        },
    }
}

/// How the looks of one round went. With no job at hand the first one waited for a command; if
/// it brought one to go on from, or if there was a job, looks followed that waited for nothing.
pub open spec fn gathered<C: Artifacts>(
    idle: bool,
    looks: Seq<Look<WorkerCommand<C>>>,
    limit: int,
    end: Option<bool>,
) -> bool {
    if idle {
        &&& looks.len() > 0
        &&& looks[0].waited
        &&& looks[0].brought !is Empty
        &&& if goes_on(looks[0]) {
            drained(looks.skip(1), limit, end)
        } else {
            looks.len() == 1 && end == Some(true)
        }
    } else {
        drained(looks, limit, end)
    }
}

} // verus!
