//! What holds of the scheduler as a whole.
use crate::cancel::token_says;
use crate::channel::{Look, Polled};
use crate::intake::looks_since;
use crate::jobs::{
    package_check, package_finished_event, package_injection, package_job_done,
    package_panicked_event, view_check, view_injection, view_job_done, view_panicked_event,
};
use crate::keys::{AnalysisBucket, PackageKeyView, ViewKeyView};
use crate::model::{
    absorb, absorb_all, absorb_all_events, absorb_all_orders, absorb_events, absorb_orders,
    brings_job, commands_in, crowded, crowded_events, displaced_events, drained, goes_on, no_jobs,
    stops, with_job, Queues, MAX_PENDING_PACKAGE_JOBS, MAX_PENDING_VIEW_JOBS,
};
use crate::pending::{
    arrived_by, displaced, displaced_key, displaces, filed, is_latest, is_oldest, latest_key,
    lemma_latest_key, oldest_key, one_per_uri, undisplaced, KeyOf, PendingJob, PendingPackageJob,
    PendingViewJob,
};
use crate::protocol::{
    package_cancelled_event, view_cancelled_event, Artifacts, DocumentSnapshot,
    DocumentViewSnapshot, JobKind, WorkerCommand, WorkerEvent,
};
use crate::tools::{Step, Tools};
use crate::worker::{
    gave_orders, loop_done, next_job_done, reaches, round_done, rounds_done, took_in, LoopEnd,
    RoundEnd, Worker,
};
use std::collections::HashSet;
use std::sync::Arc;
use vstd::prelude::*;

verus! {

/// Looks at the command channel in two series bring the commands of the one, then those of the
/// other.
pub proof fn law_commands_in_parts<C: Artifacts>(
    first: Seq<Look<WorkerCommand<C>>>,
    second: Seq<Look<WorkerCommand<C>>>,
)
    ensures
        commands_in(first + second) == commands_in(first) + commands_in(second),
    decreases second.len(),
{
    if second.len() == 0 {
        assert(first + second =~= first);
        assert(commands_in(first) + commands_in(second) =~= commands_in(first));
    } else {
        law_commands_in_parts(first, second.drop_last());
        assert((first + second).drop_last() =~= first + second.drop_last());
        assert(commands_in(first + second) =~= commands_in(first) + commands_in(second));
    }
}

/// Taking in a series of one command is taking in that command.
pub proof fn law_single_command<C: Artifacts>(
    queues: Queues<C>,
    look: Look<WorkerCommand<C>>,
    command: WorkerCommand<C>,
)
    requires
        look.brought == Polled::Message(command),
    ensures
        commands_in(seq![look]) == seq![command],
        absorb_all(queues, seq![command]) == absorb(queues, command),
        absorb_all_events(queues, seq![command]) == absorb_events(queues, command),
        absorb_all_orders(seq![command]) == absorb_orders(command),
{
    reveal_with_fuel(commands_in, 2);
    reveal_with_fuel(absorb_all, 2);
    reveal_with_fuel(absorb_all_events, 2);
    reveal_with_fuel(absorb_all_orders, 2);
    assert(seq![look].drop_last() =~= Seq::empty());
    assert(seq![command].drop_last() =~= Seq::empty());
    assert(commands_in(seq![look]) =~= seq![command]);
    assert(absorb_all_events(queues, seq![command]) =~= absorb_events(queues, command));
    assert(absorb_all_orders(seq![command]) =~= absorb_orders(command));
}

/// It makes no difference whether commands are taken in at one go or in two parts, as the worker
/// does that blocks for one and then drains the rest: the same jobs wait, the same cancellations
/// are announced, and the cache gets the same orders.
pub proof fn law_absorb_in_parts<C: Artifacts>(
    queues: Queues<C>,
    first: Seq<WorkerCommand<C>>,
    second: Seq<WorkerCommand<C>>,
)
    ensures
        absorb_all(queues, first + second) == absorb_all(absorb_all(queues, first), second),
        absorb_all_events(queues, first + second) == absorb_all_events(queues, first)
            + absorb_all_events(absorb_all(queues, first), second),
        absorb_all_orders(first + second) == absorb_all_orders(first) + absorb_all_orders(second),
    decreases second.len(),
{
    if second.len() == 0 {
        assert(first + second =~= first);
        assert(absorb_all_events(queues, first) + absorb_all_events(
            absorb_all(queues, first),
            second,
        ) =~= absorb_all_events(queues, first));
        assert(absorb_all_orders(first) + absorb_all_orders(second) =~= absorb_all_orders(first));
    } else {
        law_absorb_in_parts(queues, first, second.drop_last());
        assert((first + second).drop_last() =~= first + second.drop_last());
        assert(absorb_all_events(queues, first + second) =~= absorb_all_events(queues, first)
            + absorb_all_events(absorb_all(queues, first), second));
        assert(absorb_all_orders(first + second) =~= absorb_all_orders(first) + absorb_all_orders(
            second,
        ));
    }
}

/// A finite nonempty collection of jobs has an oldest one.
pub proof fn lemma_has_oldest<J: PendingJob>(jobs: Map<KeyOf<J>, J>)
    requires
        filed(jobs),
        jobs.len() > 0,
    ensures
        is_oldest(jobs, oldest_key(jobs)),
    decreases jobs.len(),
{
    let k = jobs.dom().choose();
    assert(jobs.contains_key(k));
    let rest = jobs.remove(k);
    if rest.len() == 0 {
        assert forall|other: KeyOf<J>| #[trigger] jobs.contains_key(other) implies jobs[k].arrival()
            <= jobs[other].arrival() by {
            if other != k {
                assert(rest.dom().contains(other));
                assert(rest.dom() =~= Set::<KeyOf<J>>::empty());
            }
        }
        assert(is_oldest(jobs, k));
    } else {
        lemma_has_oldest(rest);
        let r = oldest_key(rest);
        let best = if jobs[k].arrival() < jobs[r].arrival() { k } else { r };
        assert forall|other: KeyOf<J>| #[trigger]
            jobs.contains_key(other) implies jobs[best].arrival() <= jobs[other].arrival() by {
            if other != k {
                assert(rest.contains_key(other));
            }
        }
        assert(is_oldest(jobs, best));
    }
}

/// A finite nonempty collection of jobs has a latest one.
pub proof fn lemma_has_latest<J: PendingJob>(jobs: Map<KeyOf<J>, J>)
    requires
        filed(jobs),
        jobs.len() > 0,
    ensures
        is_latest(jobs, latest_key(jobs)),
    decreases jobs.len(),
{
    let k = jobs.dom().choose();
    assert(jobs.contains_key(k));
    let rest = jobs.remove(k);
    if rest.len() == 0 {
        assert forall|other: KeyOf<J>| #[trigger]
            jobs.contains_key(other) implies jobs[other].arrival() <= jobs[k].arrival() by {
            if other != k {
                assert(rest.dom().contains(other));
                assert(rest.dom() =~= Set::<KeyOf<J>>::empty());
            }
        }
        assert(is_latest(jobs, k));
    } else {
        lemma_has_latest(rest);
        let r = latest_key(rest);
        let best = if jobs[k].arrival() > jobs[r].arrival() { k } else { r };
        assert forall|other: KeyOf<J>| #[trigger]
            jobs.contains_key(other) implies jobs[other].arrival() <= jobs[best].arrival() by {
            if other != k {
                assert(rest.contains_key(other));
            }
        }
        assert(is_latest(jobs, best));
    }
}

/// One more job leaves the jobs filed, numbered and within their limit.
proof fn lemma_with_job<J: PendingJob>(jobs: Map<KeyOf<J>, J>, limit: usize, job: J, sequence: int)
    requires
        filed(jobs),
        arrived_by(jobs, sequence),
        job.arrival() == sequence + 1,
        limit > 0,
    ensures
        filed(with_job(jobs, limit, job)),
        arrived_by(with_job(jobs, limit, job), sequence + 1),
        jobs.len() <= limit ==> with_job(jobs, limit, job).len() <= limit,
        is_latest(with_job(jobs, limit, job), job.key()),
        latest_key(with_job(jobs, limit, job)) == job.key(),
{
    if crowded(jobs, limit, job.key()) {
        lemma_has_oldest(jobs);
    }
    lemma_latest_key(with_job(jobs, limit, job), job.key());
}

/// Displacing the job for a snapshot's document under another key leaves the others as they are.
pub proof fn lemma_undisplaced<C: Artifacts>(
    jobs: Map<PackageKeyView, PendingPackageJob<C>>,
    snapshot: DocumentSnapshot<C>,
    sequence: int,
)
    requires
        filed(jobs),
        arrived_by(jobs, sequence),
        one_per_uri(jobs),
    ensures
        filed(undisplaced(jobs, snapshot)),
        arrived_by(undisplaced(jobs, snapshot), sequence),
        one_per_uri(undisplaced(jobs, snapshot)),
        undisplaced(jobs, snapshot).len() == jobs.len() - if displaces(jobs, snapshot) {
            1int
        } else {
            0int
        },
        displaces(jobs, snapshot) ==> displaced(jobs, snapshot, displaced_key(jobs, snapshot)),
        forall|k: PackageKeyView| #[trigger]
            undisplaced(jobs, snapshot).contains_key(k) <==> jobs.contains_key(k) && !displaced(
                jobs,
                snapshot,
                k,
            ),
        forall|k: PackageKeyView| #[trigger]
            displaced(jobs, snapshot, k) ==> displaces(jobs, snapshot) && k == displaced_key(
                jobs,
                snapshot,
            ),
{
}

/// Every command keeps the waiting jobs filed under their own keys, at most one per key and, of
/// package jobs, one per URI, and numbered by arrival; and it keeps them within their limits.
pub proof fn law_commands_keep_order<C: Artifacts>(queues: Queues<C>, command: WorkerCommand<C>)
    requires
        queues.wf(),
        0 <= queues.sequence,
        brings_job(command) ==> queues.sequence < u64::MAX,
    ensures
        absorb(queues, command).wf(),
        queues.within_bounds() ==> absorb(queues, command).within_bounds(),
{
    let sequence = (queues.sequence + 1) as u64;
    match command {
        WorkerCommand::AnalyzePackage(snapshot) => {
            lemma_undisplaced(queues.packages, snapshot, queues.sequence);
            lemma_with_job(
                undisplaced(queues.packages, snapshot),
                MAX_PENDING_PACKAGE_JOBS,
                PendingPackageJob { sequence, snapshot },
                queues.sequence,
            );
        },
        WorkerCommand::BuildDocumentView { snapshot, package } => {
            lemma_with_job(
                queues.views,
                MAX_PENDING_VIEW_JOBS,
                PendingViewJob { sequence, snapshot, package },
                queues.sequence,
            );
        },
        _ => {},
    }
}

/// So does every series of commands, as far as arrival numbers reach; and each command uses up
/// one number at most.
pub proof fn law_all_commands_keep_order<C: Artifacts>(
    queues: Queues<C>,
    commands: Seq<WorkerCommand<C>>,
)
    requires
        queues.wf(),
        0 <= queues.sequence,
        queues.sequence + commands.len() <= u64::MAX,
    ensures
        absorb_all(queues, commands).wf(),
        queues.within_bounds() ==> absorb_all(queues, commands).within_bounds(),
        queues.sequence <= absorb_all(queues, commands).sequence <= queues.sequence
            + commands.len(),
    decreases commands.len(),
{
    if commands.len() > 0 {
        let before = commands.drop_last();
        law_all_commands_keep_order(queues, before);
        law_commands_keep_order(absorb_all(queues, before), commands.last());
    }
}

/// Looks bring at most one command each.
pub proof fn law_one_command_per_look<C: Artifacts>(looks: Seq<Look<WorkerCommand<C>>>)
    ensures
        commands_in(looks).len() <= looks.len(),
    decreases looks.len(),
{
    if looks.len() > 0 {
        law_one_command_per_look(looks.drop_last());
    }
}

/// A worker starts in order and within its limits.
pub proof fn law_start_is_in_order<C: Artifacts>()
    ensures
        no_jobs::<C>().wf(),
        no_jobs::<C>().within_bounds(),
        no_jobs::<C>().idle(),
{
}

/// A package command touches no document view job, a view command touches no package job, and
/// the other commands touch no job at all. An arrival number is used up for each job, and for
/// nothing else.
pub proof fn law_commands_keep_to_their_jobs<C: Artifacts>(
    queues: Queues<C>,
    command: WorkerCommand<C>,
)
    ensures
        command !is BuildDocumentView ==> absorb(queues, command).views == queues.views,
        command !is AnalyzePackage ==> absorb(queues, command).packages == queues.packages,
        absorb(queues, command).sequence == queues.sequence + if brings_job(command) {
            1int
        } else {
            0int
        },
{
}

/// Whether a command is a package command for this key.
pub open spec fn is_package_command<C: Artifacts>(
    command: WorkerCommand<C>,
    k: PackageKeyView,
) -> bool {
    command matches WorkerCommand::AnalyzePackage(snapshot) && snapshot.package_key@ == k
}

/// Whether a command is a package command for this URI.
pub open spec fn is_command_for<C: Artifacts>(command: WorkerCommand<C>, uri: Seq<char>) -> bool {
    command matches WorkerCommand::AnalyzePackage(snapshot) && snapshot.uri@ == uri
}

/// Whether a command is a document view command for this key.
pub open spec fn is_view_command<C: Artifacts>(command: WorkerCommand<C>, k: ViewKeyView) -> bool {
    command matches WorkerCommand::BuildDocumentView { snapshot, .. } && snapshot.key@ == k
}

/// The most recently updated document runs first: after a package command, whatever commands of
/// other kinds follow, the newest package job is the one for that snapshot.
pub proof fn law_newest_package_runs_first<C: Artifacts>(
    queues: Queues<C>,
    snapshot: DocumentSnapshot<C>,
    rest: Seq<WorkerCommand<C>>,
)
    requires
        queues.wf(),
        0 <= queues.sequence,
        queues.sequence + 1 + rest.len() <= u64::MAX,
        forall|i: int| 0 <= i < rest.len() ==> !(#[trigger] rest[i] is AnalyzePackage),
    ensures
        ({
            let packages = absorb_all(
                absorb(queues, WorkerCommand::AnalyzePackage(snapshot)),
                rest,
            ).packages;
            &&& is_latest(packages, latest_key(packages))
            &&& latest_key(packages) == snapshot.package_key@
            &&& packages[latest_key(packages)].snapshot == snapshot
        }),
    decreases rest.len(),
{
    if rest.len() == 0 {
        lemma_undisplaced(queues.packages, snapshot, queues.sequence);
        lemma_with_job(
            undisplaced(queues.packages, snapshot),
            MAX_PENDING_PACKAGE_JOBS,
            PendingPackageJob { sequence: (queues.sequence + 1) as u64, snapshot },
            queues.sequence,
        );
    } else {
        let before = rest.drop_last();
        assert forall|i: int| 0 <= i < before.len() implies !(#[trigger] before[i]
            is AnalyzePackage) by {
            assert(before[i] == rest[i]);
        }
        law_newest_package_runs_first(queues, snapshot, before);
        assert(!(rest[rest.len() - 1] is AnalyzePackage));
    }
}

/// The same for document views.
pub proof fn law_newest_view_runs_first<C: Artifacts>(
    queues: Queues<C>,
    snapshot: DocumentViewSnapshot<C>,
    package: Arc<C::Package>,
    rest: Seq<WorkerCommand<C>>,
)
    requires
        queues.wf(),
        0 <= queues.sequence,
        queues.sequence + 1 + rest.len() <= u64::MAX,
        forall|i: int| 0 <= i < rest.len() ==> !(#[trigger] rest[i] is BuildDocumentView),
    ensures
        ({
            let views = absorb_all(
                absorb(queues, WorkerCommand::BuildDocumentView { snapshot, package }),
                rest,
            ).views;
            &&& is_latest(views, latest_key(views))
            &&& latest_key(views) == snapshot.key@
            &&& views[latest_key(views)].snapshot == snapshot
            &&& views[latest_key(views)].package == package
        }),
    decreases rest.len(),
{
    if rest.len() == 0 {
        lemma_with_job(
            queues.views,
            MAX_PENDING_VIEW_JOBS,
            PendingViewJob { sequence: (queues.sequence + 1) as u64, snapshot, package },
            queues.sequence,
        );
    } else {
        let before = rest.drop_last();
        assert forall|i: int| 0 <= i < before.len() implies !(#[trigger] before[i]
            is BuildDocumentView) by {
            assert(before[i] == rest[i]);
        }
        law_newest_view_runs_first(queues, snapshot, package, before);
        assert(!(rest[rest.len() - 1] is BuildDocumentView));
    }
}

/// Jobs are taken newest first: what is left after the newest is older than it.
pub proof fn law_newest_first<J: PendingJob>(jobs: Map<KeyOf<J>, J>)
    requires
        filed(jobs),
        jobs.len() > 0,
    ensures
        ({
            let k = latest_key(jobs);
            let rest = jobs.remove(k);
            &&& is_latest(jobs, k)
            &&& filed(rest)
            &&& rest.len() == jobs.len() - 1
            &&& forall|other: KeyOf<J>| #[trigger]
                rest.contains_key(other) ==> rest[other].arrival() < jobs[k].arrival()
        }),
{
    lemma_has_latest(jobs);
    let k = latest_key(jobs);
    let rest = jobs.remove(k);
    assert forall|other: KeyOf<J>| #[trigger] rest.contains_key(other) implies rest[other].arrival()
        < jobs[k].arrival() by {
        assert(jobs.contains_key(other) && jobs.contains_key(k));
    }
}

/// An edit storm on one document and package generation leaves one job, that of its last
/// snapshot, however many came before; and it displaces what that snapshot alone would have
/// displaced.
#[verifier::spinoff_prover]
pub proof fn law_edit_storm_leaves_its_last<C: Artifacts>(
    queues: Queues<C>,
    storm: Seq<DocumentSnapshot<C>>,
)
    requires
        queues.wf(),
        0 <= queues.sequence,
        queues.sequence + storm.len() <= u64::MAX,
        storm.len() > 0,
        forall|i: int|
            0 <= i < storm.len() ==> (#[trigger] storm[i]).package_key@
                == storm.last().package_key@ && storm[i].uri@ == storm.last().uri@,
    ensures
        ({
            let commands = storm.map_values(
                |s: DocumentSnapshot<C>| WorkerCommand::AnalyzePackage(s),
            );
            &&& absorb_all(queues, commands).packages == with_job(
                undisplaced(queues.packages, storm.last()),
                MAX_PENDING_PACKAGE_JOBS,
                PendingPackageJob {
                    sequence: (queues.sequence + storm.len()) as u64,
                    snapshot: storm.last(),
                },
            )
            &&& absorb_all(queues, commands).views == queues.views
            &&& absorb_all(queues, commands).sequence == queues.sequence + storm.len()
            &&& absorb_all_events(queues, commands) == absorb_events(
                queues,
                WorkerCommand::AnalyzePackage(storm.last()),
            )
        }),
    decreases storm.len(),
{
    let wrap = |s: DocumentSnapshot<C>| WorkerCommand::<C>::AnalyzePackage(s);
    let commands = storm.map_values(wrap);
    let before = storm.drop_last();
    let earlier = before.map_values(wrap);
    assert(commands.drop_last() =~= earlier);
    assert(commands.last() == wrap(storm.last()));
    if before.len() == 0 {
        assert(earlier =~= Seq::empty());
        reveal_with_fuel(absorb_all, 2);
        reveal_with_fuel(absorb_all_events, 2);
        assert(absorb_all_events(queues, commands) =~= absorb_events(queues, commands.last()));
    } else {
        assert(storm[storm.len() - 2].package_key@ == storm.last().package_key@);
        assert forall|i: int| 0 <= i < before.len() implies (#[trigger] before[i]).package_key@
            == before.last().package_key@ && before[i].uri@ == before.last().uri@ by {
            assert(before[i] == storm[i]);
        }
        law_edit_storm_leaves_its_last(queues, before);
        law_all_commands_keep_order(queues, earlier);
        let middle = absorb_all(queues, earlier);
        let k = storm.last().package_key@;
        let others = undisplaced(queues.packages, storm.last());
        lemma_undisplaced(queues.packages, storm.last(), queues.sequence);
        lemma_undisplaced(queues.packages, before.last(), queues.sequence);
        lemma_undisplaced(middle.packages, storm.last(), middle.sequence);
        assert(forall|key: PackageKeyView|
            displaced(queues.packages, before.last(), key) <==> displaced(
                queues.packages,
                storm.last(),
                key,
            ));
        assert(undisplaced(queues.packages, before.last()) =~= others);
        assert(middle.packages.contains_key(k));
        assert(middle.packages[k].snapshot.uri@ == storm.last().uri@);
        assert(!displaces(middle.packages, storm.last())) by {
            if displaces(middle.packages, storm.last()) {
                assert(displaced(
                    middle.packages,
                    storm.last(),
                    displaced_key(middle.packages, storm.last()),
                ));
            }
        }
        assert(absorb_all(queues, commands).packages =~= with_job(
            others,
            MAX_PENDING_PACKAGE_JOBS,
            PendingPackageJob {
                sequence: (queues.sequence + storm.len()) as u64,
                snapshot: storm.last(),
            },
        ));
        assert(absorb_all_events(queues, commands) =~= absorb_all_events(queues, earlier));
        assert(displaced_events(queues.packages, before.last()) =~= displaced_events(
            queues.packages,
            storm.last(),
        ));
        assert(absorb_all_events(queues, commands) =~= absorb_events(
            queues,
            WorkerCommand::AnalyzePackage(storm.last()),
        ));
    }
}

/// The same for rebuilds of one document view.
pub proof fn law_rebuild_storm_leaves_its_last<C: Artifacts>(
    queues: Queues<C>,
    storm: Seq<(DocumentViewSnapshot<C>, Arc<C::Package>)>,
)
    requires
        queues.wf(),
        0 <= queues.sequence,
        queues.sequence + storm.len() <= u64::MAX,
        storm.len() > 0,
        forall|i: int|
            0 <= i < storm.len() ==> (#[trigger] storm[i]).0.key@ == storm.last().0.key@,
    ensures
        ({
            let commands = storm.map_values(
                |s: (DocumentViewSnapshot<C>, Arc<C::Package>)|
                    WorkerCommand::BuildDocumentView { snapshot: s.0, package: s.1 },
            );
            &&& absorb_all(queues, commands).views == with_job(
                queues.views,
                MAX_PENDING_VIEW_JOBS,
                PendingViewJob {
                    sequence: (queues.sequence + storm.len()) as u64,
                    snapshot: storm.last().0,
                    package: storm.last().1,
                },
            )
            &&& absorb_all(queues, commands).packages == queues.packages
            &&& absorb_all(queues, commands).sequence == queues.sequence + storm.len()
            &&& absorb_all_events(queues, commands) == absorb_events(
                queues,
                WorkerCommand::BuildDocumentView {
                    snapshot: storm.last().0,
                    package: storm.last().1,
                },
            )
        }),
    decreases storm.len(),
{
    let wrap = |s: (DocumentViewSnapshot<C>, Arc<C::Package>)|
        WorkerCommand::<C>::BuildDocumentView { snapshot: s.0, package: s.1 };
    let commands = storm.map_values(wrap);
    let before = storm.drop_last();
    let earlier = before.map_values(wrap);
    assert(commands.drop_last() =~= earlier);
    assert(commands.last() == wrap(storm.last()));
    if before.len() == 0 {
        assert(earlier =~= Seq::empty());
        reveal_with_fuel(absorb_all, 2);
        reveal_with_fuel(absorb_all_events, 2);
        assert(absorb_all_events(queues, commands) =~= absorb_events(queues, commands.last()));
    } else {
        assert(storm[storm.len() - 2].0.key@ == storm.last().0.key@);
        assert forall|i: int| 0 <= i < before.len() implies (#[trigger] before[i]).0.key@
            == before.last().0.key@ by {
            assert(before[i] == storm[i]);
        }
        law_rebuild_storm_leaves_its_last(queues, before);
        let middle = absorb_all(queues, earlier);
        assert(middle.views.contains_key(storm.last().0.key@));
        assert(absorb_all(queues, commands).views =~= with_job(
            queues.views,
            MAX_PENDING_VIEW_JOBS,
            PendingViewJob {
                sequence: (queues.sequence + storm.len()) as u64,
                snapshot: storm.last().0,
                package: storm.last().1,
            },
        ));
        assert(absorb_all_events(queues, commands) =~= absorb_all_events(queues, earlier));
    }
}

/// The looks are at a channel that held these commands, with nothing sent meanwhile: they bring
/// the commands in order, and once these are used up, no more.
pub open spec fn served<C: Artifacts>(
    held: Seq<WorkerCommand<C>>,
    looks: Seq<Look<WorkerCommand<C>>>,
) -> bool {
    forall|i: int|
        0 <= i < looks.len() ==> if i < held.len() {
            (#[trigger] looks[i]).brought == Polled::Message(held[i])
        } else {
            looks[i].brought !is Message
        }
}

/// The commands up to the first that ends the worker, that one too; all of them if none does.
pub open spec fn up_to_shutdown<C: Artifacts>(commands: Seq<WorkerCommand<C>>) -> Seq<
    WorkerCommand<C>,
>
    decreases commands.len(),
{
    if commands.len() == 0 {
        seq![]
    } else if commands[0] is Shutdown {
        seq![commands[0]]
    } else {
        seq![commands[0]] + up_to_shutdown(commands.skip(1))
    }
}

/// Commands that do not end the worker stand before what comes up to the one that does.
proof fn lemma_up_to_shutdown<C: Artifacts>(commands: Seq<WorkerCommand<C>>, n: int)
    requires
        0 <= n <= commands.len(),
        forall|i: int| 0 <= i < n ==> !(#[trigger] commands[i] is Shutdown),
    ensures
        up_to_shutdown(commands) == commands.take(n) + up_to_shutdown(commands.skip(n)),
    decreases n,
{
    if n == 0 {
        assert(commands.skip(0) =~= commands);
        assert(commands.take(0) + up_to_shutdown(commands) =~= up_to_shutdown(commands));
    } else {
        let rest = commands.skip(1);
        assert forall|i: int| 0 <= i < n - 1 implies !(#[trigger] rest[i] is Shutdown) by {
            assert(rest[i] == commands[i + 1]);
        }
        lemma_up_to_shutdown(rest, n - 1);
        assert(!(commands[0] is Shutdown));
        assert(rest.skip(n - 1) =~= commands.skip(n));
        assert(commands.take(n) =~= seq![commands[0]] + rest.take(n - 1));
        assert(up_to_shutdown(commands) =~= commands.take(n) + up_to_shutdown(commands.skip(n)));
    }
}

/// Looks bring the commands that the channel held, as many as there are looks for.
proof fn lemma_served<C: Artifacts>(
    held: Seq<WorkerCommand<C>>,
    looks: Seq<Look<WorkerCommand<C>>>,
)
    requires
        served(held, looks),
    ensures
        looks.len() <= held.len() ==> commands_in(looks) == held.take(looks.len() as int),
        looks.len() >= held.len() ==> commands_in(looks) == held,
    decreases looks.len(),
{
    if looks.len() == 0 {
        assert(commands_in(looks) =~= held.take(0));
    } else {
        let before = looks.drop_last();
        assert forall|i: int| 0 <= i < before.len() implies if i < held.len() {
            (#[trigger] before[i]).brought == Polled::Message(held[i])
        } else {
            before[i].brought !is Message
        } by {
            assert(before[i] == looks[i]);
        }
        lemma_served(held, before);
        let last = looks[looks.len() - 1];
        if looks.len() <= held.len() {
            assert(last.brought == Polled::Message(held[looks.len() - 1]));
            assert(commands_in(looks) =~= held.take(looks.len() as int));
        } else {
            assert(last.brought !is Message);
        }
    }
    if looks.len() == held.len() {
        assert(held.take(looks.len() as int) =~= held);
    }
}

/// A drain takes in what its channel holds, in order, up to the first command that ends the
/// worker, and leaves the rest where it is. A drain that stops at its limit leaves the rest for
/// the next one.
pub proof fn law_drain_takes_what_is_held<C: Artifacts>(
    held: Seq<WorkerCommand<C>>,
    looks: Seq<Look<WorkerCommand<C>>>,
    limit: int,
    end: Option<bool>,
)
    requires
        served(held, looks),
        drained(looks, limit, end),
    ensures
        ({
            let taken = commands_in(looks);
            let rest = held.skip(taken.len() as int);
            &&& held == taken + rest
            &&& end is Some ==> taken == up_to_shutdown(held)
            &&& end == Some(false) ==> rest.len() == 0
            &&& end is None ==> {
                &&& taken.len() == limit
                &&& up_to_shutdown(held) == taken + up_to_shutdown(rest)
            }
            &&& forall|i: int|
                0 <= i < taken.len() && #[trigger] taken[i] is Shutdown ==> end == Some(true) && i
                    == taken.len() - 1
        }),
{
    lemma_served(held, looks);
    let taken = commands_in(looks);
    let n = looks.len() as int;
    if n > held.len() + 1 {
        assert(goes_on(looks[held.len() as int]));
        assert(looks[held.len() as int].brought !is Message);
    }
    let rest = held.skip(taken.len() as int);
    assert(held =~= taken + rest);
    let going = if end is Some { n - 1 } else { n };
    assert forall|i: int| 0 <= i < going implies !(#[trigger] held[i] is Shutdown) by {
        assert(goes_on(looks[i]));
    }
    lemma_up_to_shutdown(held, going);
    if end is Some {
        let left = held.skip(going);
        if n <= held.len() {
            assert(looks[n - 1].brought == Polled::Message(held[n - 1]));
            assert(left[0] == held[n - 1]);
            assert(up_to_shutdown(left) =~= seq![held[n - 1]]);
            assert(taken =~= held.take(going) + seq![held[n - 1]]);
        } else {
            assert(looks[n - 1].brought !is Message);
            assert(left =~= Seq::empty());
            assert(held.take(going) + up_to_shutdown(left) =~= held);
        }
    }
    assert forall|i: int| 0 <= i < taken.len() && #[trigger] taken[i] is Shutdown implies end
        == Some(true) && i == taken.len() - 1 by {
        assert(taken[i] == held[i]);
        assert(looks[i].brought == Polled::Message(held[i]));
    }
}

/// Series of looks, one after the other.
pub open spec fn joined<C: Artifacts>(series: Seq<Seq<Look<WorkerCommand<C>>>>) -> Seq<
    Look<WorkerCommand<C>>,
>
    decreases series.len(),
{
    if series.len() == 0 {
        seq![]
    } else {
        joined(series.drop_last()) + series.last()
    }
}

/// Drains that stop at their limit, and one more, are one drain with a larger limit.
pub proof fn law_drains_join<C: Artifacts>(
    series: Seq<Seq<Look<WorkerCommand<C>>>>,
    limit: int,
    end: Option<bool>,
)
    requires
        series.len() > 0,
        forall|i: int| 0 <= i < series.len() - 1 ==> drained(#[trigger] series[i], limit, None),
        drained(series.last(), limit, end),
    ensures
        drained(joined(series), series.len() * limit, end),
    decreases series.len(),
{
    let before = series.drop_last();
    let last = series.last();
    let count = before.len() as int;
    assert(series.len() * limit == count * limit + limit) by (nonlinear_arith)
        requires
            series.len() == count + 1,
    ;
    if count == 0 {
        assert(0 * limit == 0);
        assert(joined(before) =~= Seq::empty());
        assert(joined(series) =~= last);
    } else {
        assert(before.last() == series[count - 1]);
        assert forall|i: int| 0 <= i < before.len() - 1 implies drained(
            #[trigger] before[i],
            limit,
            None,
        ) by {
            assert(before[i] == series[i]);
        }
        law_drains_join(before, limit, None);
        let first = joined(before);
        let all = joined(series);
        assert(all == first + last);
        assert forall|i: int| 0 <= i < all.len() implies !(#[trigger] all[i]).waited by {
            if i < first.len() {
                assert(all[i] == first[i]);
            } else {
                assert(all[i] == last[i - first.len()]);
            }
        }
        assert forall|i: int| 0 <= i < all.len() - 1 implies goes_on(#[trigger] all[i]) by {
            if i < first.len() {
                assert(all[i] == first[i]);
                if i == first.len() - 1 {
                    assert(first.last() == first[i]);
                }
            } else {
                assert(all[i] == last[i - first.len()]);
            }
        }
        if last.len() > 0 {
            assert(all.last() == last.last());
        } else {
            assert(all =~= first);
        }
    }
}

/// Drains in a row take in what they take in together.
proof fn lemma_absorb_series<C: Artifacts>(
    series: Seq<Seq<Look<WorkerCommand<C>>>>,
    queues: Seq<Queues<C>>,
    sent: Seq<Seq<WorkerEvent<C>>>,
    orders: Seq<Seq<HashSet<AnalysisBucket>>>,
)
    requires
        absorbed_in_turn(series, queues, sent, orders),
    ensures
        ({
            let commands = commands_in(joined(series));
            &&& queues.last() == absorb_all(queues[0], commands)
            &&& sent.last() == sent[0] + absorb_all_events(queues[0], commands)
            &&& orders.last() == orders[0] + absorb_all_orders(commands)
        }),
    decreases series.len(),
{
    let commands = commands_in(joined(series));
    let n = series.len() as int;
    if n == 0 {
        assert(sent.last() =~= sent[0] + absorb_all_events(queues[0], commands));
        assert(orders.last() =~= orders[0] + absorb_all_orders(commands));
    } else {
        let before = series.drop_last();
        let earlier = commands_in(joined(before));
        let latest = commands_in(series.last());
        assert forall|i: int| 0 <= i < before.len() implies {
            let now = commands_in(#[trigger] before[i]);
            &&& queues.drop_last()[i + 1] == absorb_all(queues.drop_last()[i], now)
            &&& sent.drop_last()[i + 1] == sent.drop_last()[i] + absorb_all_events(
                queues.drop_last()[i],
                now,
            )
            &&& orders.drop_last()[i + 1] == orders.drop_last()[i] + absorb_all_orders(now)
        } by {
            assert(before[i] == series[i]);
        }
        lemma_absorb_series(before, queues.drop_last(), sent.drop_last(), orders.drop_last());
        law_commands_in_parts(joined(before), series.last());
        law_absorb_in_parts(queues[0], earlier, latest);
        assert(commands_in(series[n - 1]) == latest);
        assert(sent.last() =~= sent[0] + absorb_all_events(queues[0], commands));
        assert(orders.last() =~= orders[0] + absorb_all_orders(commands));
    }
}

/// Each drain took in the commands that its looks brought: the jobs that waited, the events sent
/// and the orders at hand went on from where the drain before left them.
pub open spec fn absorbed_in_turn<C: Artifacts>(
    series: Seq<Seq<Look<WorkerCommand<C>>>>,
    queues: Seq<Queues<C>>,
    sent: Seq<Seq<WorkerEvent<C>>>,
    orders: Seq<Seq<HashSet<AnalysisBucket>>>,
) -> bool {
    &&& queues.len() == series.len() + 1
    &&& sent.len() == series.len() + 1
    &&& orders.len() == series.len() + 1
    &&& forall|i: int|
        0 <= i < series.len() ==> {
            let commands = commands_in(#[trigger] series[i]);
            &&& queues[i + 1] == absorb_all(queues[i], commands)
            &&& sent[i + 1] == sent[i] + absorb_all_events(queues[i], commands)
            &&& orders[i + 1] == orders[i] + absorb_all_orders(commands)
        }
}

/// Draining is taking in the commands that are there one by one. If the channel holds some
/// commands and nothing is sent meanwhile, then after drains in a row, the last of which found no
/// more or a command to stop, what waits, what was announced and what was ordered is what the
/// commands up to the first that ends the worker leave, taken in one after the other. Those
/// behind it are still in the channel.
pub proof fn law_drains_absorb_what_is_held<C: Artifacts>(
    held: Seq<WorkerCommand<C>>,
    series: Seq<Seq<Look<WorkerCommand<C>>>>,
    limit: int,
    stop: bool,
    queues: Seq<Queues<C>>,
    sent: Seq<Seq<WorkerEvent<C>>>,
    orders: Seq<Seq<HashSet<AnalysisBucket>>>,
)
    requires
        series.len() > 0,
        forall|i: int| 0 <= i < series.len() - 1 ==> drained(#[trigger] series[i], limit, None),
        drained(series.last(), limit, Some(stop)),
        absorbed_in_turn(series, queues, sent, orders),
        served(held, joined(series)),
    ensures
        queues.last() == absorb_all(queues[0], up_to_shutdown(held)),
        sent.last() == sent[0] + absorb_all_events(queues[0], up_to_shutdown(held)),
        orders.last() == orders[0] + absorb_all_orders(up_to_shutdown(held)),
        commands_in(joined(series)) == up_to_shutdown(held),
        held == up_to_shutdown(held) + held.skip(up_to_shutdown(held).len() as int),
        !stop ==> up_to_shutdown(held) == held,
{
    law_drains_join(series, limit, Some(stop));
    law_drain_takes_what_is_held(held, joined(series), series.len() * limit, Some(stop));
    lemma_absorb_series(series, queues, sent, orders);
    if !stop {
        let taken = up_to_shutdown(held);
        assert(taken + held.skip(taken.len() as int) =~= taken);
    }
}

/// No package job is lost without a word. After a command, a job that waited still waits, or
/// the command brought a newer snapshot under its key, or its cancellation was announced. The job
/// that the command brings waits.
pub proof fn law_no_package_job_is_lost<C: Artifacts>(
    queues: Queues<C>,
    command: WorkerCommand<C>,
    k: PackageKeyView,
)
    requires
        queues.wf(),
        0 <= queues.sequence,
        brings_job(command) ==> queues.sequence < u64::MAX,
    ensures
        ({
            let after = absorb(queues, command).packages;
            &&& queues.packages.contains_key(k) ==> {
                ||| after.contains_key(k) && after[k] == queues.packages[k]
                ||| is_package_command(command, k)
                ||| !after.contains_key(k) && absorb_events(queues, command).contains(
                    package_cancelled_event(queues.packages[k].snapshot),
                )
            }
            &&& is_package_command(command, k) ==> {
                &&& after.contains_key(k)
                &&& command == WorkerCommand::AnalyzePackage(after[k].snapshot)
            }
        }),
{
    if let WorkerCommand::AnalyzePackage(snapshot) = command {
        let others = undisplaced(queues.packages, snapshot);
        lemma_undisplaced(queues.packages, snapshot, queues.sequence);
        if others.len() > 0 {
            lemma_has_oldest(others);
        }
        let went = displaced_events(queues.packages, snapshot);
        let dropped = crowded_events(others, snapshot);
        if displaced(queues.packages, snapshot, k) {
            assert((went + dropped)[0] == package_cancelled_event(queues.packages[k].snapshot));
        } else if dropped.len() == 1 && k == oldest_key(others) {
            assert((went + dropped)[went.len() as int] == package_cancelled_event(
                queues.packages[k].snapshot,
            ));
        }
    }
}

/// Whether an event announces that the package job under this key is cancelled.
pub open spec fn is_cancelled_package<C: Artifacts>(
    event: WorkerEvent<C>,
    k: PackageKeyView,
) -> bool {
    event matches WorkerEvent::PackageCancelled { key, .. } && key@ == k
}

/// Whether some event announces that the package job under this key is cancelled.
pub open spec fn package_cancelled_among<C: Artifacts>(
    events: Seq<WorkerEvent<C>>,
    k: PackageKeyView,
) -> bool {
    exists|i: int| 0 <= i < events.len() && is_cancelled_package(#[trigger] events[i], k)
}

/// Whether an event announces that the document view job under this key is cancelled.
pub open spec fn is_cancelled_view<C: Artifacts>(event: WorkerEvent<C>, k: ViewKeyView) -> bool {
    event matches WorkerEvent::DocumentViewCancelled { key } && key@ == k
}

/// Whether some event announces that the document view job under this key is cancelled.
pub open spec fn view_cancelled_among<C: Artifacts>(
    events: Seq<WorkerEvent<C>>,
    k: ViewKeyView,
) -> bool {
    exists|i: int| 0 <= i < events.len() && is_cancelled_view(#[trigger] events[i], k)
}

/// Package keys add up. Whatever key a job waited under before a package command, or comes under
/// with it, there is a job under that key afterwards or its cancellation was announced, and not
/// both; nothing else waits or is announced; and no key is announced twice.
pub proof fn law_package_keys_add_up<C: Artifacts>(
    queues: Queues<C>,
    snapshot: DocumentSnapshot<C>,
)
    requires
        queues.wf(),
        0 <= queues.sequence < u64::MAX,
    ensures
        ({
            let command = WorkerCommand::AnalyzePackage(snapshot);
            let after = absorb(queues, command).packages;
            let events = absorb_events(queues, command);
            &&& forall|k: PackageKeyView| #[trigger]
                after.contains_key(k) || package_cancelled_among(events, k)
                    <==> queues.packages.contains_key(k) || k == snapshot.package_key@
            &&& forall|k: PackageKeyView|
                !(#[trigger] after.contains_key(k) && package_cancelled_among(events, k))
            &&& forall|i: int| 0 <= i < events.len() ==> #[trigger] events[i] is PackageCancelled
            &&& forall|i: int, j: int, k: PackageKeyView|
                0 <= i < events.len() && 0 <= j < events.len()
                    && #[trigger] is_cancelled_package(events[i], k)
                    && #[trigger] is_cancelled_package(events[j], k) ==> i == j
            &&& after.len() + events.len() == queues.packages.len()
                + if queues.packages.contains_key(snapshot.package_key@) {
                0int
            } else {
                1int
            }
        }),
{
    let command = WorkerCommand::AnalyzePackage(snapshot);
    let others = undisplaced(queues.packages, snapshot);
    let after = absorb(queues, command).packages;
    let events = absorb_events(queues, command);
    lemma_undisplaced(queues.packages, snapshot, queues.sequence);
    if others.len() > 0 {
        lemma_has_oldest(others);
    }
    let went = displaced_events(queues.packages, snapshot);
    let dropped = crowded_events(others, snapshot);
    assert(events == went + dropped);
    if went.len() == 1 {
        assert(events[0] == went[0]);
    }
    if dropped.len() == 1 {
        assert(events[went.len() as int] == dropped[0]);
    }
    assert forall|k: PackageKeyView|
        package_cancelled_among(events, k) <==> queues.packages.contains_key(k)
            && !after.contains_key(k) by {
        if displaced(queues.packages, snapshot, k) {
            assert(is_cancelled_package(events[0], k));
        }
        if dropped.len() == 1 && k == oldest_key(others) {
            assert(is_cancelled_package(events[went.len() as int], k));
        }
    }
}

/// Document view keys add up just so.
pub proof fn law_view_keys_add_up<C: Artifacts>(
    queues: Queues<C>,
    snapshot: DocumentViewSnapshot<C>,
    package: Arc<C::Package>,
)
    requires
        queues.wf(),
        0 <= queues.sequence < u64::MAX,
    ensures
        ({
            let command = WorkerCommand::BuildDocumentView { snapshot, package };
            let after = absorb(queues, command).views;
            let events = absorb_events(queues, command);
            &&& forall|k: ViewKeyView| #[trigger]
                after.contains_key(k) || view_cancelled_among(events, k)
                    <==> queues.views.contains_key(k) || k == snapshot.key@
            &&& forall|k: ViewKeyView|
                !(#[trigger] after.contains_key(k) && view_cancelled_among(events, k))
            &&& events.len() <= 1
            &&& forall|i: int|
                0 <= i < events.len() ==> #[trigger] events[i] is DocumentViewCancelled
            &&& after.len() + events.len() == queues.views.len()
                + if queues.views.contains_key(snapshot.key@) {
                0int
            } else {
                1int
            }
        }),
{
    let command = WorkerCommand::BuildDocumentView { snapshot, package };
    let after = absorb(queues, command).views;
    let events = absorb_events(queues, command);
    if queues.views.len() > 0 {
        lemma_has_oldest(queues.views);
    }
    assert forall|k: ViewKeyView|
        view_cancelled_among(events, k) <==> queues.views.contains_key(k)
            && !after.contains_key(k) by {
        if events.len() == 1 && k == oldest_key(queues.views) {
            assert(is_cancelled_view(events[0], k));
        }
    }
}

/// No document view job is lost without a word either.
pub proof fn law_no_view_job_is_lost<C: Artifacts>(
    queues: Queues<C>,
    command: WorkerCommand<C>,
    k: ViewKeyView,
)
    requires
        queues.wf(),
        0 <= queues.sequence,
        brings_job(command) ==> queues.sequence < u64::MAX,
    ensures
        ({
            let after = absorb(queues, command).views;
            &&& queues.views.contains_key(k) ==> {
                ||| after.contains_key(k) && after[k] == queues.views[k]
                ||| is_view_command(command, k)
                ||| !after.contains_key(k) && absorb_events(queues, command) == seq![
                    view_cancelled_event(queues.views[k].snapshot),
                ]
            }
            &&& is_view_command(command, k) ==> {
                &&& after.contains_key(k)
                &&& command == WorkerCommand::BuildDocumentView {
                    snapshot: after[k].snapshot,
                    package: after[k].package,
                }
            }
        }),
{
    if queues.views.len() > 0 {
        lemma_has_oldest(queues.views);
    }
}

/// A command has cancellations announced for two reasons: its snapshot displaces a job for the
/// same document, and its job needs room that is not there. In the latter case it is the oldest
/// job that goes. There is room for a job that takes the place of another.
pub proof fn law_oldest_job_makes_room<C: Artifacts>(queues: Queues<C>, command: WorkerCommand<C>)
    requires
        queues.wf(),
        0 <= queues.sequence,
        brings_job(command) ==> queues.sequence < u64::MAX,
    ensures
        command matches WorkerCommand::AnalyzePackage(snapshot) ==> {
            let others = undisplaced(queues.packages, snapshot);
            let full = others.len() >= MAX_PENDING_PACKAGE_JOBS && !queues.packages.contains_key(
                snapshot.package_key@,
            );
            let oldest = oldest_key(others);
            let events = absorb_events(queues, command);
            &&& displaces(queues.packages, snapshot) ==> {
                let k = displaced_key(queues.packages, snapshot);
                &&& displaced(queues.packages, snapshot, k)
                &&& events.len() == if full { 2int } else { 1int }
                &&& events[0] == package_cancelled_event(queues.packages[k].snapshot)
                &&& !absorb(queues, command).packages.contains_key(k)
                &&& others.len() == queues.packages.len() - 1
            }
            &&& !displaces(queues.packages, snapshot) ==> {
                &&& events.len() == if full { 1int } else { 0int }
                &&& others == queues.packages
            }
            &&& full ==> {
                &&& is_oldest(others, oldest)
                &&& events.last() == package_cancelled_event(queues.packages[oldest].snapshot)
                &&& !absorb(queues, command).packages.contains_key(oldest)
                &&& absorb(queues, command).packages.len() == others.len()
            }
        },
        command matches WorkerCommand::BuildDocumentView { snapshot, .. } ==> {
            let full = queues.views.len() >= MAX_PENDING_VIEW_JOBS && !queues.views.contains_key(
                snapshot.key@,
            );
            let oldest = oldest_key(queues.views);
            &&& absorb_events(queues, command).len() == if full { 1int } else { 0int }
            &&& full ==> {
                &&& is_oldest(queues.views, oldest)
                &&& absorb_events(queues, command)[0] == view_cancelled_event(
                    queues.views[oldest].snapshot,
                )
                &&& !absorb(queues, command).views.contains_key(oldest)
                &&& absorb(queues, command).views.len() == queues.views.len()
            }
        },
        !brings_job(command) ==> absorb_events(queues, command).len() == 0,
{
    if let WorkerCommand::AnalyzePackage(snapshot) = command {
        let others = undisplaced(queues.packages, snapshot);
        lemma_undisplaced(queues.packages, snapshot, queues.sequence);
        if others.len() > 0 {
            lemma_has_oldest(others);
        }
    }
    if queues.views.len() > 0 {
        lemma_has_oldest(queues.views);
    }
}

/// A package job that waits is for the latest snapshot that was sent under its key, and for the
/// latest that was sent of its URI.
pub proof fn law_waiting_snapshot_is_the_latest<C: Artifacts>(
    commands: Seq<WorkerCommand<C>>,
    k: PackageKeyView,
) -> (i: int)
    requires
        commands.len() <= u64::MAX,
        absorb_all(no_jobs::<C>(), commands).packages.contains_key(k),
    ensures
        0 <= i < commands.len(),
        is_package_command(commands[i], k),
        commands[i] == WorkerCommand::AnalyzePackage(
            absorb_all(no_jobs::<C>(), commands).packages[k].snapshot,
        ),
        forall|j: int|
            i < j < commands.len() ==> !is_package_command(#[trigger] commands[j], k)
                && !is_command_for(
                commands[j],
                absorb_all(no_jobs::<C>(), commands).packages[k].snapshot.uri@,
            ),
    decreases commands.len(),
{
    if commands.len() == 0 {
        0
    } else {
        let before = commands.drop_last();
        let last = commands.len() - 1;
        let uri = absorb_all(no_jobs::<C>(), commands).packages[k].snapshot.uri@;
        law_all_commands_keep_order(no_jobs::<C>(), before);
        if is_package_command(commands[last], k) {
            law_no_package_job_is_lost(absorb_all(no_jobs::<C>(), before), commands.last(), k);
            last
        } else {
            if let WorkerCommand::AnalyzePackage(snapshot) = commands[last] {
                let queues = absorb_all(no_jobs::<C>(), before);
                lemma_undisplaced(queues.packages, snapshot, queues.sequence);
            }
            let i = law_waiting_snapshot_is_the_latest(before, k);
            assert(before[i] == commands[i]);
            assert forall|j: int| i < j < commands.len() implies !is_package_command(
                #[trigger] commands[j],
                k,
            ) && !is_command_for(commands[j], uri) by {
                if j < last {
                    assert(before[j] == commands[j]);
                }
            }
            i
        }
    }
}

/// A document view job that waits is for the latest snapshot and package that were sent under
/// its key.
pub proof fn law_waiting_view_is_the_latest<C: Artifacts>(
    commands: Seq<WorkerCommand<C>>,
    k: ViewKeyView,
) -> (i: int)
    requires
        commands.len() <= u64::MAX,
        absorb_all(no_jobs::<C>(), commands).views.contains_key(k),
    ensures
        0 <= i < commands.len(),
        is_view_command(commands[i], k),
        ({
            let job = absorb_all(no_jobs::<C>(), commands).views[k];
            commands[i] == WorkerCommand::BuildDocumentView {
                snapshot: job.snapshot,
                package: job.package,
            }
        }),
        forall|j: int| i < j < commands.len() ==> !is_view_command(#[trigger] commands[j], k),
    decreases commands.len(),
{
    if commands.len() == 0 {
        0
    } else {
        let before = commands.drop_last();
        let last = commands.len() - 1;
        law_all_commands_keep_order(no_jobs::<C>(), before);
        if is_view_command(commands[last], k) {
            law_no_view_job_is_lost(absorb_all(no_jobs::<C>(), before), commands.last(), k);
            last
        } else {
            let i = law_waiting_view_is_the_latest(before, k);
            assert(before[i] == commands[i]);
            assert forall|j: int| i < j < commands.len() implies !is_view_command(
                #[trigger] commands[j],
                k,
            ) by {
                if j < last {
                    assert(before[j] == commands[j]);
                }
            }
            i
        }
    }
}

/// The worker keeps at most one pending package snapshot per URI, whatever commands came.
pub proof fn law_one_waiting_snapshot_per_uri<C: Artifacts>(
    commands: Seq<WorkerCommand<C>>,
    a: PackageKeyView,
    b: PackageKeyView,
)
    requires
        commands.len() <= u64::MAX,
        absorb_all(no_jobs::<C>(), commands).packages.contains_key(a),
        absorb_all(no_jobs::<C>(), commands).packages.contains_key(b),
        absorb_all(no_jobs::<C>(), commands).packages[a].snapshot.uri@ == absorb_all(
            no_jobs::<C>(),
            commands,
        ).packages[b].snapshot.uri@,
    ensures
        a == b,
{
    law_all_commands_keep_order(no_jobs::<C>(), commands);
}

/// After a package command the one job that waits for its URI is the one for its snapshot,
/// whatever generation of the document waited before; and one that waited under another key is
/// announced as cancelled.
pub proof fn law_newer_snapshot_displaces_older<C: Artifacts>(
    queues: Queues<C>,
    snapshot: DocumentSnapshot<C>,
    k: PackageKeyView,
)
    requires
        queues.wf(),
        0 <= queues.sequence < u64::MAX,
    ensures
        ({
            let after = absorb(queues, WorkerCommand::AnalyzePackage(snapshot)).packages;
            &&& after.contains_key(snapshot.package_key@)
            &&& after[snapshot.package_key@].snapshot == snapshot
            &&& after.contains_key(k) && after[k].snapshot.uri@ == snapshot.uri@ ==> k
                == snapshot.package_key@
            &&& displaced(queues.packages, snapshot, k) ==> absorb_events(
                queues,
                WorkerCommand::AnalyzePackage(snapshot),
            ).first() == package_cancelled_event(queues.packages[k].snapshot)
        }),
{
    lemma_undisplaced(queues.packages, snapshot, queues.sequence);
}

/// What the answer to a package job tells, for every course that the job can take. It is
/// cancelled if the first check found it stale, or if the analysis succeeded and the second
/// check found it stale. It has panicked if the first check found it current and a panic was
/// asked for or the analysis panicked. It was analyzed if both checks found it current, no
/// panic was asked for and the analysis succeeded. A panic that is asked for takes the place of
/// the analysis, and so does a first check that finds the job stale. Every check is a reading
/// of the snapshot's token.
pub proof fn law_package_answer<
    C: Artifacts,
    A: FnOnce(&DocumentSnapshot<C>) -> Result<C::Analysis, C::Report>,
    I: FnOnce(JobKind, &String, u64) -> C::Report,
>(
    snapshot: DocumentSnapshot<C>,
    panics: bool,
    analyze: A,
    inject: I,
    steps: Seq<Step<C>>,
    event: WorkerEvent<C>,
)
    requires
        package_job_done(snapshot, panics, analyze, inject, steps, event),
    ensures
        1 <= steps.len() <= 3,
        ({
            let stale = steps[0] == package_check(snapshot, true);
            let analyzed = steps.len() > 1 && steps[1] is Analyzed;
            let failed = analyzed && steps[1]->Analyzed_outcome is Err;
            let overtaken = steps.len() == 3 && steps[2] == package_check(snapshot, true);
            &&& steps[0] == package_check(snapshot, stale)
            &&& token_says(*snapshot.cancel_token, snapshot.generation, stale)
            &&& analyzed <==> !stale && !panics
            &&& steps.len() == 3 <==> analyzed && !failed
            &&& steps.len() == 3 ==> {
                &&& steps[2] == package_check(snapshot, overtaken)
                &&& token_says(*snapshot.cancel_token, snapshot.generation, overtaken)
            }
            &&& event is PackageCancelled <==> stale || overtaken
            &&& event is PackagePanicked <==> !stale && (panics || failed)
            &&& event is PackageAnalyzed <==> analyzed && !failed && !overtaken
            &&& event is PackageCancelled ==> event == package_cancelled_event(snapshot)
            &&& event matches WorkerEvent::PackagePanicked { report, .. } ==> {
                &&& event == package_panicked_event(snapshot, report)
                &&& panics ==> steps[1] == package_injection(snapshot, report)
                &&& !panics ==> steps[1] == (Step::Analyzed { snapshot, outcome: Err(report) })
            }
            &&& event matches WorkerEvent::PackageAnalyzed(analysis) ==> {
                &&& event == package_finished_event(snapshot, analysis.result, false)
                &&& steps[1] == (Step::Analyzed { snapshot, outcome: Ok(analysis.result) })
            }
        }),
{
}

/// The same for the answer to a document view job.
pub proof fn law_view_answer<
    C: Artifacts,
    B: FnOnce(&DocumentViewSnapshot<C>, Arc<C::Package>) -> Result<C::View, C::Report>,
    I: FnOnce(JobKind, &String, u64) -> C::Report,
>(
    snapshot: DocumentViewSnapshot<C>,
    package: Arc<C::Package>,
    panics: bool,
    build: B,
    inject: I,
    steps: Seq<Step<C>>,
    event: WorkerEvent<C>,
)
    requires
        view_job_done(snapshot, package, panics, build, inject, steps, event),
    ensures
        1 <= steps.len() <= 3,
        ({
            let stale = steps[0] == view_check(snapshot, true);
            let built = steps.len() > 1 && steps[1] is Built;
            let failed = built && steps[1]->Built_outcome is Err;
            let overtaken = steps.len() == 3 && steps[2] == view_check(snapshot, true);
            let generation = snapshot.key.document_generation;
            &&& steps[0] == view_check(snapshot, stale)
            &&& token_says(*snapshot.cancel_token, generation, stale)
            &&& built <==> !stale && !panics
            &&& steps.len() == 3 <==> built && !failed
            &&& steps.len() == 3 ==> {
                &&& steps[2] == view_check(snapshot, overtaken)
                &&& token_says(*snapshot.cancel_token, generation, overtaken)
            }
            &&& event is DocumentViewCancelled <==> stale || overtaken
            &&& event is DocumentViewPanicked <==> !stale && (panics || failed)
            &&& event is DocumentViewBuilt <==> built && !failed && !overtaken
            &&& event is DocumentViewCancelled ==> event == view_cancelled_event(snapshot)
            &&& event matches WorkerEvent::DocumentViewPanicked { report, .. } ==> {
                &&& event == view_panicked_event(snapshot, report)
                &&& panics ==> steps[1] == view_injection(snapshot, report)
                &&& !panics ==> steps[1] == (
                Step::Built { snapshot, package, outcome: Err(report) })
            }
            &&& event matches WorkerEvent::DocumentViewBuilt(view) ==> steps[1] == (
            Step::Built { snapshot, package, outcome: Ok(view) })
        }),
{
}

/// The worker blocks only when no job waits, and then for one command.
pub proof fn law_blocks_only_when_idle<C: Artifacts>(
    before: Worker<C>,
    after: Worker<C>,
    limit: u64,
    end: Option<bool>,
    i: int,
)
    requires
        took_in(before, after, limit, end),
        0 <= i < looks_since(before.commands(), after.commands()).len(),
    ensures
        looks_since(before.commands(), after.commands())[i].waited <==> before.queues().idle() && i
            == 0,
{
    let looks = looks_since(before.commands(), after.commands());
    if before.queues().idle() && i > 0 {
        assert(looks.skip(1)[i - 1] == looks[i]);
    }
}

/// The worker stops exactly when it is told to or nobody is left to tell it anything, and it
/// looks for no command after that. A job is run only after a look that found no more commands.
pub proof fn law_stops_when_told<C: Artifacts>(
    before: Worker<C>,
    after: Worker<C>,
    limit: u64,
    end: Option<bool>,
    i: int,
)
    requires
        took_in(before, after, limit, end),
        0 <= i < looks_since(before.commands(), after.commands()).len(),
    ensures
        ({
            let looks = looks_since(before.commands(), after.commands());
            &&& stops(looks[i]) <==> end == Some(true) && i == looks.len() - 1
            &&& looks[i].brought is Empty <==> end == Some(false) && i == looks.len() - 1
        }),
{
    let looks = looks_since(before.commands(), after.commands());
    if before.queues().idle() && i > 0 {
        let rest = looks.skip(1);
        assert(rest[i - 1] == looks[i]);
        assert(rest.last() == looks.last());
    }
    if before.queues().idle() && looks.len() > 1 {
        assert(looks.skip(1).last() == looks.last());
    }
}

/// No document view is built while a package job waits.
pub proof fn law_packages_before_views<
    C: Artifacts,
    R: Fn(Vec<HashSet<AnalysisBucket>>),
    A: Fn(&DocumentSnapshot<C>) -> Result<C::Analysis, C::Report>,
    B: Fn(&DocumentViewSnapshot<C>, Arc<C::Package>) -> Result<C::View, C::Report>,
    I: Fn(JobKind, &String, u64) -> C::Report,
>(
    before: Worker<C>,
    after: Worker<C>,
    tools: Tools<C, R, A, B, I>,
    used: Tools<C, R, A, B, I>,
    ran: bool,
)
    requires
        next_job_done(before, after, tools, used, ran),
        before.queues().packages != Map::<PackageKeyView, PendingPackageJob<C>>::empty(),
    ensures
        ran,
        after.queues().views == before.queues().views,
        after.queues().packages == before.queues().packages.remove(
            latest_key(before.queues().packages),
        ),
        forall|i: int|
            tools.steps().len() <= i < used.steps().len() ==> !(#[trigger] used.steps()[i]
                is Built),
{
    let steps = used.steps().skip(tools.steps().len() as int);
    let snapshot = before.queues().packages[latest_key(before.queues().packages)].snapshot;
    let event = after.events().sent().last();
    assert(package_job_done(
        snapshot,
        before.panics(),
        tools.analyze_fn(),
        tools.inject_fn(),
        steps,
        event,
    ));
    assert(steps.len() <= 3);
    assert forall|i: int| tools.steps().len() <= i < used.steps().len() implies !(
    #[trigger] used.steps()[i] is Built) by {
        let j = i - tools.steps().len();
        assert(used.steps()[i] == steps[j]);
        assert(j == 0 || j == 1 || j == 2);
    }
}

/// Each job that is run is answered by one event, and a turn without a job sends none.
pub proof fn law_one_answer_per_job<
    C: Artifacts,
    R: Fn(Vec<HashSet<AnalysisBucket>>),
    A: Fn(&DocumentSnapshot<C>) -> Result<C::Analysis, C::Report>,
    B: Fn(&DocumentViewSnapshot<C>, Arc<C::Package>) -> Result<C::View, C::Report>,
    I: Fn(JobKind, &String, u64) -> C::Report,
>(
    before: Worker<C>,
    after: Worker<C>,
    tools: Tools<C, R, A, B, I>,
    used: Tools<C, R, A, B, I>,
    ran: bool,
)
    requires
        before.wf(),
        next_job_done(before, after, tools, used, ran),
    ensures
        after.events().sent().len() - before.events().sent().len() == (
        before.queues().packages.len() + before.queues().views.len()) - (
        after.queues().packages.len() + after.queues().views.len()),
        ran ==> after.events().sent().len() == before.events().sent().len() + 1,
        !ran ==> after.events().sent() == before.events().sent(),
{
    let queues = before.queues();
    if queues.packages != Map::<PackageKeyView, PendingPackageJob<C>>::empty() {
        lemma_not_empty(queues.packages);
        lemma_has_latest(queues.packages);
    } else if queues.views != Map::<ViewKeyView, PendingViewJob<C>>::empty() {
        lemma_not_empty(queues.views);
        lemma_has_latest(queues.views);
    }
}

/// A turn of the worker, seen as a whole. The jobs that wait after it are those that its
/// commands leave, less the one that it ran; the events that it sent are the cancellations that
/// its commands cause, and the answer to that one; and before any job was touched the cache got
/// its orders, in the order in which they came.
pub proof fn law_turn<
    C: Artifacts,
    R: Fn(Vec<HashSet<AnalysisBucket>>),
    A: Fn(&DocumentSnapshot<C>) -> Result<C::Analysis, C::Report>,
    B: Fn(&DocumentViewSnapshot<C>, Arc<C::Package>) -> Result<C::View, C::Report>,
    I: Fn(JobKind, &String, u64) -> C::Report,
>(
    before: Worker<C>,
    after: Worker<C>,
    tools: Tools<C, R, A, B, I>,
    used: Tools<C, R, A, B, I>,
    limit: u64,
    end: RoundEnd,
)
    requires
        round_done(before, after, tools, used, limit, end),
    ensures
        ({
            let commands = commands_in(looks_since(before.commands(), after.commands()));
            let queues = absorb_all(before.queues(), commands);
            let sent = before.events().sent() + absorb_all_events(before.queues(), commands);
            let packages = queues.packages;
            let views = queues.views;
            &&& end is Worked && !queues.idle() ==> {
                &&& after.events().sent().len() == sent.len() + 1
                &&& after.events().sent().drop_last() == sent
                &&& after.queues() == if packages != Map::<
                    PackageKeyView,
                    PendingPackageJob<C>,
                >::empty() {
                    Queues { packages: packages.remove(latest_key(packages)), ..queues }
                } else {
                    Queues { views: views.remove(latest_key(views)), ..queues }
                }
            }
            &&& !(end is Worked) || queues.idle() ==> {
                &&& after.events().sent() == sent
                &&& after.queues() == queues
            }
            &&& after.orders() == Seq::<HashSet<AnalysisBucket>>::empty()
            &&& used.steps().len() > tools.steps().len()
            &&& used.steps().take(tools.steps().len() as int + 1) == tools.steps().push(
                Step::Ordered(before.orders() + absorb_all_orders(commands)),
            )
        }),
{
    let (taken_in, ordered, told, gathering) = choose|
        taken_in: Worker<C>,
        ordered: Worker<C>,
        told: Tools<C, R, A, B, I>,
        gathering: Option<bool>,
    |
        {
            &&& #[trigger] took_in(before, taken_in, limit, gathering)
            &&& #[trigger] gave_orders(taken_in, ordered, tools, told)
            &&& match gathering {
                Some(true) => end is Stopped && after == ordered && used == told,
                Some(false) => end is Worked && next_job_done(ordered, after, told, used, end->ran),
                None => end is MoreCommands && after == ordered && used == told,
            }
        };
    assert(used.steps().take(tools.steps().len() as int + 1) =~= told.steps());
}

/// Jobs that are not none are at least one.
pub proof fn lemma_not_empty<J: PendingJob>(jobs: Map<KeyOf<J>, J>)
    requires
        filed(jobs),
        jobs != Map::<KeyOf<J>, J>::empty(),
    ensures
        jobs.len() > 0,
{
    if jobs.len() == 0 {
        assert(jobs.dom() =~= Set::<KeyOf<J>>::empty());
        assert(jobs =~= Map::<KeyOf<J>, J>::empty());
    }
}

/// The event answers the command: it is of the command's kind and carries the key, URI and
/// generation of its snapshot, as far as events of its kind carry them.
pub open spec fn answers<C: Artifacts>(event: WorkerEvent<C>, command: WorkerCommand<C>) -> bool {
    match command {
        WorkerCommand::AnalyzePackage(snapshot) => match event {
            WorkerEvent::PackageAnalyzed(analysis) => {
                &&& analysis.key == snapshot.package_key
                &&& analysis.uri == snapshot.uri
                &&& analysis.generation == snapshot.generation
            },
            WorkerEvent::PackageCancelled { key, uri, generation } => {
                &&& key == snapshot.package_key
                &&& uri == snapshot.uri
                &&& generation == snapshot.generation
            },
            WorkerEvent::PackagePanicked { key, uri, generation, .. } => {
                &&& key == snapshot.package_key
                &&& uri == snapshot.uri
                &&& generation == snapshot.generation
            },
            _ => false,
        },
        WorkerCommand::BuildDocumentView { snapshot, .. } => match event {
            WorkerEvent::DocumentViewBuilt(_) => true,
            WorkerEvent::DocumentViewCancelled { key } => key == snapshot.key,
            WorkerEvent::DocumentViewPanicked { key, .. } => key == snapshot.key,
            _ => false,
        },
        WorkerCommand::SetOpenBuckets(_) => false,
        WorkerCommand::Shutdown => false,
    }
}

/// Each event answers the command that was read at its source, and no two have one source.
pub open spec fn sourced<C: Artifacts>(
    read: Seq<WorkerCommand<C>>,
    sent: Seq<WorkerEvent<C>>,
    sources: Seq<int>,
) -> bool {
    &&& sources.len() == sent.len()
    &&& sources.no_duplicates()
    &&& forall|i: int|
        0 <= i < sources.len() ==> 0 <= #[trigger] sources[i] < read.len() && answers(
            sent[i],
            read[sources[i]],
        )
}

/// Where the events sent and the jobs that wait come from, among the commands read.
pub struct Account {
    pub sources: Seq<int>,
    pub packages: Map<PackageKeyView, int>,
    pub views: Map<ViewKeyView, int>,
}

/// A later command brought a job under the key of the one that was read at `i`.
pub open spec fn replaced<C: Artifacts>(read: Seq<WorkerCommand<C>>, i: int) -> bool {
    match read[i] {
        WorkerCommand::AnalyzePackage(snapshot) => exists|j: int|
            i < j < read.len() && is_package_command(#[trigger] read[j], snapshot.package_key@),
        WorkerCommand::BuildDocumentView { snapshot, .. } => exists|j: int|
            i < j < read.len() && is_view_command(#[trigger] read[j], snapshot.key@),
        _ => false,
    }
}

/// The job of the command that was read at `i` waits.
pub open spec fn waits<C: Artifacts>(
    queues: Queues<C>,
    read: Seq<WorkerCommand<C>>,
    account: Account,
    i: int,
) -> bool {
    match read[i] {
        WorkerCommand::AnalyzePackage(snapshot) => {
            &&& queues.packages.contains_key(snapshot.package_key@)
            &&& account.packages[snapshot.package_key@] == i
        },
        WorkerCommand::BuildDocumentView { snapshot, .. } => {
            &&& queues.views.contains_key(snapshot.key@)
            &&& account.views[snapshot.key@] == i
        },
        _ => false,
    }
}

/// No job is forgotten: each that was brought was answered, or waits, or was replaced by a later
/// one under its key.
pub open spec fn settled<C: Artifacts>(
    queues: Queues<C>,
    read: Seq<WorkerCommand<C>>,
    account: Account,
) -> bool {
    forall|i: int|
        0 <= i < read.len() && brings_job(#[trigger] read[i]) ==> {
            ||| account.sources.contains(i)
            ||| waits(queues, read, account, i)
            ||| replaced(read, i)
        }
}

/// The events are sourced, each job that waits comes from a command that no event answers, and no
/// job is forgotten.
pub open spec fn accounted<C: Artifacts>(
    queues: Queues<C>,
    read: Seq<WorkerCommand<C>>,
    sent: Seq<WorkerEvent<C>>,
    account: Account,
) -> bool {
    &&& sourced(read, sent, account.sources)
    &&& settled(queues, read, account)
    &&& forall|k: PackageKeyView| #[trigger]
        queues.packages.contains_key(k) ==> {
            let i = account.packages[k];
            &&& 0 <= i < read.len()
            &&& !account.sources.contains(i)
            &&& read[i] == WorkerCommand::AnalyzePackage(queues.packages[k].snapshot)
        }
    &&& forall|k: ViewKeyView| #[trigger]
        queues.views.contains_key(k) ==> {
            let i = account.views[k];
            &&& 0 <= i < read.len()
            &&& !account.sources.contains(i)
            &&& read[i] == WorkerCommand::BuildDocumentView {
                snapshot: queues.views[k].snapshot,
                package: queues.views[k].package,
            }
        }
}

/// The events that a worker has sent and the jobs that wait with it are accounted for by the
/// commands that it has read.
pub open spec fn worker_accounted<C: Artifacts>(worker: Worker<C>, account: Account) -> bool {
    accounted(
        worker.queues(),
        commands_in(worker.commands().looks()),
        worker.events().sent(),
        account,
    )
}

/// One more event with a source of its own.
proof fn lemma_one_more_source<C: Artifacts>(
    read: Seq<WorkerCommand<C>>,
    sent: Seq<WorkerEvent<C>>,
    sources: Seq<int>,
    event: WorkerEvent<C>,
    source: int,
)
    requires
        sourced(read, sent, sources),
        0 <= source < read.len(),
        !sources.contains(source),
        answers(event, read[source]),
    ensures
        sourced(read, sent.push(event), sources.push(source)),
        forall|i: int|
            sources.push(source).contains(i) <==> #[trigger] sources.contains(i) || i == source,
{
    let more = sources.push(source);
    assert forall|i: int| more.contains(i) <==> #[trigger] sources.contains(i) || i == source by {
        if more.contains(i) {
            let at = choose|at: int| 0 <= at < more.len() && more[at] == i;
            if at < sources.len() {
                assert(sources[at] == i);
            }
        }
        if sources.contains(i) {
            let at = choose|at: int| 0 <= at < sources.len() && sources[at] == i;
            assert(more[at] == i);
        }
        if i == source {
            assert(more[sources.len() as int] == i);
        }
    }
    assert forall|a: int, b: int| 0 <= a < more.len() && 0 <= b < more.len() && a != b implies more[a]
        != more[b] by {
        if a == sources.len() {
            assert(more[b] == sources[b]);
        } else if b == sources.len() {
            assert(more[a] == sources[a]);
        }
    }
    assert forall|i: int| 0 <= i < more.len() implies 0 <= #[trigger] more[i] < read.len()
        && answers(sent.push(event)[i], read[more[i]]) by {
        if i < sources.len() {
            assert(more[i] == sources[i]);
        }
    }
}

/// One more command read leaves the sources as they are.
proof fn lemma_one_more_read<C: Artifacts>(
    read: Seq<WorkerCommand<C>>,
    sent: Seq<WorkerEvent<C>>,
    sources: Seq<int>,
    command: WorkerCommand<C>,
)
    requires
        sourced(read, sent, sources),
    ensures
        sourced(read.push(command), sent, sources),
        !sources.contains(read.len() as int),
{
}

/// A job that was replaced stays so when one more command is read.
proof fn lemma_still_replaced<C: Artifacts>(
    read: Seq<WorkerCommand<C>>,
    command: WorkerCommand<C>,
    i: int,
)
    requires
        0 <= i < read.len(),
        replaced(read, i),
    ensures
        replaced(read.push(command), i),
{
    let now = read.push(command);
    assert(now[i] == read[i]);
    match read[i] {
        WorkerCommand::AnalyzePackage(snapshot) => {
            let j = choose|j: int|
                i < j < read.len() && is_package_command(
                    #[trigger] read[j],
                    snapshot.package_key@,
                );
            assert(now[j] == read[j]);
        },
        WorkerCommand::BuildDocumentView { snapshot, .. } => {
            let j = choose|j: int|
                i < j < read.len() && is_view_command(#[trigger] read[j], snapshot.key@);
            assert(now[j] == read[j]);
        },
        _ => {},
    }
}

/// Taking in a command keeps the accounts.
#[verifier::spinoff_prover]
pub proof fn law_command_keeps_accounts<C: Artifacts>(
    queues: Queues<C>,
    read: Seq<WorkerCommand<C>>,
    sent: Seq<WorkerEvent<C>>,
    account: Account,
    command: WorkerCommand<C>,
) -> (next: Account)
    requires
        queues.wf(),
        0 <= queues.sequence,
        brings_job(command) ==> queues.sequence < u64::MAX,
        accounted(queues, read, sent, account),
    ensures
        accounted(
            absorb(queues, command),
            read.push(command),
            sent + absorb_events(queues, command),
            next,
        ),
        account.sources.is_prefix_of(next.sources),
{
    lemma_one_more_read(read, sent, account.sources, command);
    let now = read.push(command);
    match command {
        WorkerCommand::AnalyzePackage(snapshot) => {
            let others = undisplaced(queues.packages, snapshot);
            lemma_undisplaced(queues.packages, snapshot, queues.sequence);
            let packages = account.packages.insert(snapshot.package_key@, read.len() as int);
            let (gone, sources) = if displaces(queues.packages, snapshot) {
                let k = displaced_key(queues.packages, snapshot);
                let event = package_cancelled_event(queues.packages[k].snapshot);
                lemma_one_more_source(now, sent, account.sources, event, account.packages[k]);
                (sent.push(event), account.sources.push(account.packages[k]))
            } else {
                (sent, account.sources)
            };
            let next = if crowded(others, MAX_PENDING_PACKAGE_JOBS, snapshot.package_key@) {
                lemma_has_oldest(others);
                let oldest = oldest_key(others);
                let event = package_cancelled_event(others[oldest].snapshot);
                assert(queues.packages.contains_key(oldest));
                lemma_one_more_source(now, gone, sources, event, account.packages[oldest]);
                assert(sent + absorb_events(queues, command) =~= gone.push(event));
                Account { sources: sources.push(account.packages[oldest]), packages, ..account }
            } else {
                assert(sent + absorb_events(queues, command) =~= gone);
                Account { sources, packages, ..account }
            };
            let after = absorb(queues, command);
            assert forall|i: int| 0 <= i < now.len() && brings_job(#[trigger] now[i]) implies {
                ||| next.sources.contains(i)
                ||| waits(after, now, next, i)
                ||| replaced(now, i)
            } by {
                if i < read.len() {
                    assert(now[i] == read[i]);
                    if replaced(read, i) {
                        lemma_still_replaced(read, command, i);
                    } else if account.sources.contains(i) {
                        assert(sources.contains(i));
                    } else if let WorkerCommand::AnalyzePackage(waiting) = now[i] {
                        let k = waiting.package_key@;
                        assert(waits(queues, read, account, i));
                        if k == snapshot.package_key@ {
                            assert(is_package_command(now[read.len() as int], k));
                        } else if displaced(queues.packages, snapshot, k) {
                            assert(sources.contains(i));
                        }
                    }
                }
            }
            next
        },
        WorkerCommand::BuildDocumentView { snapshot, package } => {
            let views = account.views.insert(snapshot.key@, read.len() as int);
            let next = if crowded(queues.views, MAX_PENDING_VIEW_JOBS, snapshot.key@) {
                lemma_has_oldest(queues.views);
                let oldest = oldest_key(queues.views);
                let event = view_cancelled_event(queues.views[oldest].snapshot);
                lemma_one_more_source(now, sent, account.sources, event, account.views[oldest]);
                assert(sent + absorb_events(queues, command) =~= sent.push(event));
                let sources = account.sources.push(account.views[oldest]);
                Account { sources, views, ..account }
            } else {
                assert(sent + absorb_events(queues, command) =~= sent);
                Account { views, ..account }
            };
            let after = absorb(queues, command);
            assert forall|i: int| 0 <= i < now.len() && brings_job(#[trigger] now[i]) implies {
                ||| next.sources.contains(i)
                ||| waits(after, now, next, i)
                ||| replaced(now, i)
            } by {
                if i < read.len() {
                    assert(now[i] == read[i]);
                    if replaced(read, i) {
                        lemma_still_replaced(read, command, i);
                    } else if account.sources.contains(i) {
                        assert(next.sources.contains(i));
                    } else if let WorkerCommand::BuildDocumentView { snapshot: waiting, .. } =
                        now[i] {
                        assert(waits(queues, read, account, i));
                        if waiting.key@ == snapshot.key@ {
                            assert(is_view_command(now[read.len() as int], waiting.key@));
                        }
                    }
                }
            }
            next
        },
        _ => {
            assert(sent + absorb_events(queues, command) =~= sent);
            assert forall|i: int| 0 <= i < now.len() && brings_job(#[trigger] now[i]) implies {
                ||| account.sources.contains(i)
                ||| waits(queues, now, account, i)
                ||| replaced(now, i)
            } by {
                assert(now[i] == read[i]);
                if replaced(read, i) {
                    lemma_still_replaced(read, command, i);
                }
            }
            account
        },
    }
}

/// Taking in a series of commands keeps the accounts.
pub proof fn law_commands_keep_accounts<C: Artifacts>(
    queues: Queues<C>,
    read: Seq<WorkerCommand<C>>,
    sent: Seq<WorkerEvent<C>>,
    account: Account,
    commands: Seq<WorkerCommand<C>>,
) -> (next: Account)
    requires
        queues.wf(),
        0 <= queues.sequence,
        queues.sequence + commands.len() <= u64::MAX,
        accounted(queues, read, sent, account),
    ensures
        accounted(
            absorb_all(queues, commands),
            read + commands,
            sent + absorb_all_events(queues, commands),
            next,
        ),
        account.sources.is_prefix_of(next.sources),
    decreases commands.len(),
{
    if commands.len() == 0 {
        assert(read + commands =~= read);
        assert(sent + absorb_all_events(queues, commands) =~= sent);
        account
    } else {
        let before = commands.drop_last();
        let command = commands.last();
        let middle = law_commands_keep_accounts(queues, read, sent, account, before);
        law_all_commands_keep_order(queues, before);
        let next = law_command_keeps_accounts(
            absorb_all(queues, before),
            read + before,
            sent + absorb_all_events(queues, before),
            middle,
            command,
        );
        assert((read + before).push(command) =~= read + commands);
        assert(sent + absorb_all_events(queues, before) + absorb_events(
            absorb_all(queues, before),
            command,
        ) =~= sent + absorb_all_events(queues, commands));
        next
    }
}

/// Running a job keeps the accounts.
pub proof fn law_job_keeps_accounts<
    C: Artifacts,
    R: Fn(Vec<HashSet<AnalysisBucket>>),
    A: Fn(&DocumentSnapshot<C>) -> Result<C::Analysis, C::Report>,
    B: Fn(&DocumentViewSnapshot<C>, Arc<C::Package>) -> Result<C::View, C::Report>,
    I: Fn(JobKind, &String, u64) -> C::Report,
>(
    before: Worker<C>,
    after: Worker<C>,
    tools: Tools<C, R, A, B, I>,
    used: Tools<C, R, A, B, I>,
    ran: bool,
    account: Account,
) -> (next: Account)
    requires
        before.queues().wf(),
        next_job_done(before, after, tools, used, ran),
        worker_accounted(before, account),
    ensures
        worker_accounted(after, next),
        account.sources.is_prefix_of(next.sources),
{
    let queues = before.queues();
    let read = commands_in(before.commands().looks());
    let sent = before.events().sent();
    let steps = used.steps().skip(tools.steps().len() as int);
    if !ran {
        account
    } else {
        let event = after.events().sent().last();
        assert(after.events().sent() =~= sent.push(event));
        if queues.packages != Map::<PackageKeyView, PendingPackageJob<C>>::empty() {
            lemma_not_empty(queues.packages);
            lemma_has_latest(queues.packages);
            let k = latest_key(queues.packages);
            let snapshot = queues.packages[k].snapshot;
            assert(package_job_done(
                snapshot,
                before.panics(),
                tools.analyze_fn(),
                tools.inject_fn(),
                steps,
                event,
            ));
            assert(answers(event, WorkerCommand::AnalyzePackage(snapshot)));
            lemma_one_more_source(read, sent, account.sources, event, account.packages[k]);
            Account { sources: account.sources.push(account.packages[k]), ..account }
        } else {
            lemma_not_empty(queues.views);
            lemma_has_latest(queues.views);
            let k = latest_key(queues.views);
            let snapshot = queues.views[k].snapshot;
            let package = queues.views[k].package;
            assert(view_job_done(
                snapshot,
                package,
                before.panics(),
                tools.build_fn(),
                tools.inject_fn(),
                steps,
                event,
            ));
            assert(answers(event, WorkerCommand::BuildDocumentView { snapshot, package }));
            lemma_one_more_source(read, sent, account.sources, event, account.views[k]);
            Account { sources: account.sources.push(account.views[k]), ..account }
        }
    }
}

/// A turn of the worker keeps the accounts.
pub proof fn law_turn_keeps_accounts<
    C: Artifacts,
    R: Fn(Vec<HashSet<AnalysisBucket>>),
    A: Fn(&DocumentSnapshot<C>) -> Result<C::Analysis, C::Report>,
    B: Fn(&DocumentViewSnapshot<C>, Arc<C::Package>) -> Result<C::View, C::Report>,
    I: Fn(JobKind, &String, u64) -> C::Report,
>(
    before: Worker<C>,
    after: Worker<C>,
    tools: Tools<C, R, A, B, I>,
    used: Tools<C, R, A, B, I>,
    limit: u64,
    end: RoundEnd,
    account: Account,
) -> (next: Account)
    requires
        before.wf(),
        reaches(before, limit),
        round_done(before, after, tools, used, limit, end),
        worker_accounted(before, account),
    ensures
        worker_accounted(after, next),
        account.sources.is_prefix_of(next.sources),
{
    let (taken_in, ordered, told, gathering) = choose|
        taken_in: Worker<C>,
        ordered: Worker<C>,
        told: Tools<C, R, A, B, I>,
        gathering: Option<bool>,
    |
        {
            &&& #[trigger] took_in(before, taken_in, limit, gathering)
            &&& #[trigger] gave_orders(taken_in, ordered, tools, told)
            &&& match gathering {
                Some(true) => end is Stopped && after == ordered && used == told,
                Some(false) => end is Worked && next_job_done(ordered, after, told, used, end->ran),
                None => end is MoreCommands && after == ordered && used == told,
            }
        };
    let looks = looks_since(before.commands(), taken_in.commands());
    let commands = commands_in(looks);
    assert(taken_in.commands().looks() =~= before.commands().looks() + looks);
    law_commands_in_parts(before.commands().looks(), looks);
    law_one_command_per_look(looks);
    law_all_commands_keep_order(before.queues(), commands);
    let middle = law_commands_keep_accounts(
        before.queues(),
        commands_in(before.commands().looks()),
        before.events().sent(),
        account,
        commands,
    );
    assert(worker_accounted(ordered, middle));
    match gathering {
        Some(false) => law_job_keeps_accounts(ordered, after, told, used, end->ran, middle),
        _ => middle,
    }
}

/// A worker that has read nothing and sent nothing is accounted for.
pub proof fn law_fresh_worker_is_accounted_for<C: Artifacts>(worker: Worker<C>) -> (account:
    Account)
    requires
        worker.queues() == no_jobs::<C>(),
        worker.commands().looks() == Seq::<Look<WorkerCommand<C>>>::empty(),
        worker.events().sent() == Seq::<WorkerEvent<C>>::empty(),
    ensures
        worker_accounted(worker, account),
{
    Account { sources: Seq::empty(), packages: Map::empty(), views: Map::empty() }
}

/// A run of the worker keeps the accounts, turn by turn.
pub proof fn law_turns_keep_accounts<
    C: Artifacts,
    R: Fn(Vec<HashSet<AnalysisBucket>>),
    A: Fn(&DocumentSnapshot<C>) -> Result<C::Analysis, C::Report>,
    B: Fn(&DocumentViewSnapshot<C>, Arc<C::Package>) -> Result<C::View, C::Report>,
    I: Fn(JobKind, &String, u64) -> C::Report,
>(
    states: Seq<Worker<C>>,
    uses: Seq<Tools<C, R, A, B, I>>,
    ends: Seq<RoundEnd>,
    limit: u64,
    account: Account,
    n: int,
) -> (next: Account)
    requires
        rounds_done(states, uses, ends, limit),
        worker_accounted(states[0], account),
        0 <= n < states.len(),
    ensures
        worker_accounted(states[n], next),
        account.sources.is_prefix_of(next.sources),
    decreases n,
{
    if n == 0 {
        account
    } else {
        let middle = law_turns_keep_accounts(
            states,
            uses,
            ends,
            limit,
            account,
            n - 1,
        );
        assert(states[n - 1].wf() && reaches(states[n - 1], limit));
        law_turn_keeps_accounts(
            states[n - 1],
            states[n - 1 + 1],
            uses[n - 1],
            uses[n - 1 + 1],
            limit,
            ends[n - 1],
            middle,
        )
    }
}

/// Over a whole run of a worker, each command that brings a job is answered by at most one
/// event, and every event carries the data of a snapshot that was read.
pub proof fn law_commands_are_answered_at_most_once<
    C: Artifacts,
    R: Fn(Vec<HashSet<AnalysisBucket>>),
    A: Fn(&DocumentSnapshot<C>) -> Result<C::Analysis, C::Report>,
    B: Fn(&DocumentViewSnapshot<C>, Arc<C::Package>) -> Result<C::View, C::Report>,
    I: Fn(JobKind, &String, u64) -> C::Report,
>(
    before: Worker<C>,
    after: Worker<C>,
    tools: Tools<C, R, A, B, I>,
    used: Tools<C, R, A, B, I>,
    rounds: u64,
    limit: u64,
    end: LoopEnd,
) -> (sources: Seq<int>)
    requires
        before.queues() == no_jobs::<C>(),
        before.commands().looks() == Seq::<Look<WorkerCommand<C>>>::empty(),
        before.events().sent() == Seq::<WorkerEvent<C>>::empty(),
        loop_done(before, after, tools, used, rounds, limit, end),
    ensures
        sourced(commands_in(after.commands().looks()), after.events().sent(), sources),
{
    let (states, uses, ends) = choose|
        states: Seq<Worker<C>>,
        uses: Seq<Tools<C, R, A, B, I>>,
        ends: Seq<RoundEnd>,
    |
        {
            &&& #[trigger] rounds_done(states, uses, ends, limit)
            &&& states.first() == before
            &&& states.last() == after
        };
    let account = law_fresh_worker_is_accounted_for(before);
    let next = law_turns_keep_accounts(
        states,
        uses,
        ends,
        limit,
        account,
        states.len() - 1,
    );
    next.sources
}

} // verus!
