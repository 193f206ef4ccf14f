//! Runs of the worker.
use super::queues::law_every_message_is_a_command;
use super::turns::{lemma_looks, lemma_no_more_orders, lemma_turn_parts};
use crate::channel::{handed_to, law_look_that_waited_is_a_receive, Look, Polled};
use crate::keys::{AnalysisBucket, PackageKeyView, ViewKeyView};
use crate::laws::{
    is_package_command, is_view_command, law_turns_keep_accounts, replaced, worker_accounted,
    Account,
};
use crate::model::{brings_job, stops};
use crate::protocol::{
    Artifacts, DocumentSnapshot, DocumentViewSnapshot, JobKind, WorkerCommand, WorkerEvent,
};
use crate::tools::{Step, Tools};
use crate::worker::{round_done, rounds_done, worker_loop, LoopEnd, RoundEnd, Worker};
use crossbeam_channel::{Receiver, RecvError, SendError, Sender};
use std::collections::HashSet;
use std::sync::Arc;
use vstd::prelude::*;

verus! {

/// What is picked out of two series is what is picked out of the one, and then of the other.
proof fn lemma_filter_map_parts<X, Y>(first: Seq<X>, second: Seq<X>, f: spec_fn(X) -> Option<Y>)
    ensures
        (first + second).filter_map(f) == first.filter_map(f) + second.filter_map(f),
    decreases second.len(),
{
    if second.len() == 0 {
        assert(first + second =~= first);
        assert(first.filter_map(f) + second.filter_map(f) =~= first.filter_map(f));
    } else {
        lemma_filter_map_parts(first, second.drop_last(), f);
        assert((first + second).drop_last() =~= first + second.drop_last());
        assert((first + second).filter_map(f) =~= first.filter_map(f) + second.filter_map(f));
    }
}

/// Steps that give no orders bring none.
proof fn lemma_no_orders<C: Artifacts>(steps: Seq<Step<C>>)
    requires
        forall|i: int| 0 <= i < steps.len() ==> !(#[trigger] steps[i] is Ordered),
    ensures
        steps.filter_map(
            |step: Step<C>|
                match step {
                    Step::Ordered(orders) => Some(orders),
                    _ => None,
                },
        ).len() == 0,
    decreases steps.len(),
{
    if steps.len() > 0 {
        let before = steps.drop_last();
        assert forall|i: int| 0 <= i < before.len() implies !(#[trigger] before[i] is Ordered) by {
            assert(before[i] == steps[i]);
        }
        lemma_no_orders(before);
        assert(steps.last() == steps[steps.len() - 1]);
    }
}

/// The looks, the steps and the orders of the first turns of a run.
proof fn lemma_first_turns<
    C: Artifacts,
    R: Fn(Vec<HashSet<AnalysisBucket>>),
    A: Fn(&DocumentSnapshot<C>) -> Result<C::Analysis, C::Report>,
    B: Fn(&DocumentViewSnapshot<C>, Arc<C::Package>) -> Result<C::View, C::Report>,
    I: Fn(JobKind, &String, u64) -> C::Report,
>(
    states: Seq<Worker<C>>,
    uses: Seq<Tools<C, R, A, B, I>>,
    ends: Seq<RoundEnd>,
    limit: u64,
    n: int,
    looks: Seq<Look<WorkerCommand<C>>>,
    steps: Seq<Step<C>>,
)
    requires
        rounds_done(states, uses, ends, limit),
        0 <= n <= ends.len(),
        forall|i: int| 0 <= i < n - 1 ==> !(#[trigger] ends[i] is Stopped),
        looks == states[n].commands().looks().skip(states[0].commands().looks().len() as int),
        steps == uses[n].steps().skip(uses[0].steps().len() as int),
    ensures
        states[n].commands().looks() == states[0].commands().looks() + looks,
        uses[n].steps() == uses[0].steps() + steps,
        states[n].commands().receiver() == states[0].commands().receiver(),
        states[n].events().sender() == states[0].events().sender(),
        states[0].events().sent().is_prefix_of(states[n].events().sent()),
        states[n].panics() == states[0].panics(),
        uses[n].retain_fn() == uses[0].retain_fn(),
        uses[n].analyze_fn() == uses[0].analyze_fn(),
        uses[n].build_fn() == uses[0].build_fn(),
        uses[n].inject_fn() == uses[0].inject_fn(),
        steps.filter_map(
            |step: Step<C>|
                match step {
                    Step::Ordered(orders) => Some(orders),
                    _ => None,
                },
        ).len() == n,
        steps.filter_map(
            |step: Step<C>|
                match step {
                    Step::Ordered(orders) => Some(orders),
                    _ => None,
                },
        ).flatten() + states[n].orders() == states[0].orders() + looks.filter_map(
            |look: Look<WorkerCommand<C>>|
                match look.brought {
                    Polled::Message(WorkerCommand::SetOpenBuckets(buckets)) => Some(buckets),
                    _ => None,
                },
        ),
        forall|i: int|
            0 <= i < looks.len() && stops(#[trigger] looks[i]) ==> n > 0 && ends[n - 1] is Stopped
                && i == looks.len() - 1,
        n > 0 && ends[n - 1] is Stopped ==> looks.len() > 0 && stops(looks.last()),
    decreases n,
{
    let given = |step: Step<C>|
        match step {
            Step::Ordered(orders) => Some(orders),
            _ => None,
        };
    let named = |look: Look<WorkerCommand<C>>|
        match look.brought {
            Polled::Message(WorkerCommand::SetOpenBuckets(buckets)) => Some(buckets),
            _ => None,
        };
    if n == 0 {
        assert(looks =~= Seq::empty());
        assert(steps =~= Seq::empty());
        assert(uses[n].steps() =~= uses[0].steps() + steps);
        assert(states[n].commands().looks() =~= states[0].commands().looks() + looks);
        assert(steps.filter_map(given).flatten() + states[n].orders() =~= states[0].orders()
            + looks.filter_map(named));
    } else {
        let m = n - 1;
        let looks0 = states[m].commands().looks().skip(
            states[0].commands().looks().len() as int,
        );
        let steps0 = uses[m].steps().skip(uses[0].steps().len() as int);
        lemma_first_turns(states, uses, ends, limit, m, looks0, steps0);
        let turn = states[n].commands().looks().skip(states[m].commands().looks().len() as int);
        assert(round_done(states[m], states[m + 1], uses[m], uses[m + 1], limit, ends[m]));
        assert(states[m].wf());
        let parts = lemma_turn_parts(
            states[m],
            states[n],
            uses[m],
            uses[n],
            limit,
            ends[m],
            turn,
        );
        let rest = lemma_no_more_orders(
            states[m],
            states[n],
            uses[m],
            uses[n],
            limit,
            ends[m],
            turn,
        );
        lemma_looks(states[m].queues(), turn, limit, parts.2);
        let orders = states[m].orders() + turn.filter_map(named);
        let ordered = seq![Step::<C>::Ordered(orders)];
        assert(looks =~= looks0 + turn);
        assert(steps =~= steps0 + (ordered + rest));
        assert(states[n].commands().looks() =~= states[0].commands().looks() + looks);
        assert(uses[n].steps() =~= uses[0].steps() + steps);
        lemma_filter_map_parts(looks0, turn, named);
        lemma_filter_map_parts(steps0, ordered + rest, given);
        lemma_filter_map_parts(ordered, rest, given);
        Seq::lemma_filter_map_singleton(Step::<C>::Ordered(orders), given);
        lemma_no_orders(rest);
        let before = steps0.filter_map(given);
        assert(rest.filter_map(given) =~= Seq::empty());
        assert(steps.filter_map(given) =~= before.push(orders));
        before.lemma_flatten_push(orders);
        assert(states[n].orders() =~= Seq::<HashSet<AnalysisBucket>>::empty());
        assert(steps.filter_map(given).flatten() + states[n].orders() =~= states[0].orders()
            + looks.filter_map(named));
        assert(!(m > 0 && ends[m - 1] is Stopped));
        assert forall|i: int| 0 <= i < looks.len() && stops(#[trigger] looks[i]) implies ends[n - 1]
            is Stopped && i == looks.len() - 1 by {
            if i < looks0.len() {
                assert(looks[i] == looks0[i]);
            } else {
                let j = i - looks0.len();
                assert(looks[i] == turn[j]);
            }
        }
        if ends[m] is Stopped {
            assert(looks.last() == turn.last());
        }
    }
}

/// A run stops exactly if its last look brought the command to stop or found no sender left, and
/// no look before that did. Otherwise it goes on until all its turns are taken or the arrival
/// numbers do not reach for another. Each turn gives the package cache its orders once, so the
/// orders given count the turns.
pub proof fn law_run_stops_only_when_told<
    C: Artifacts,
    R: Fn(Vec<HashSet<AnalysisBucket>>),
    A: Fn(&DocumentSnapshot<C>) -> Result<C::Analysis, C::Report>,
    B: Fn(&DocumentViewSnapshot<C>, Arc<C::Package>) -> Result<C::View, C::Report>,
    I: Fn(JobKind, &String, u64) -> C::Report,
>(
    worker: &mut Worker<C>,
    rounds: u64,
    limit: u64,
    tools: &mut Tools<C, R, A, B, I>,
    end: LoopEnd,
    looks: Seq<Look<WorkerCommand<C>>>,
    steps: Seq<Step<C>>,
)
    requires
        call_ensures(
            worker_loop::<C, R, A, B, I>,
            (worker, rounds, limit, tools),
            end,
        ),
        old(worker).wf(),
        looks == final(worker).commands().looks().skip(
            old(worker).commands().looks().len() as int,
        ),
        steps == final(tools).steps().skip(old(tools).steps().len() as int),
    ensures
        final(worker).commands().looks() == old(worker).commands().looks() + looks,
        final(tools).steps() == old(tools).steps() + steps,
        end is Stopped <==> looks.len() > 0 && (looks.last().brought is Disconnected || (
        looks.last().brought is Message && looks.last().brought->Message_0 is Shutdown)),
        forall|i: int|
            0 <= i < looks.len() && ((#[trigger] looks[i]).brought is Disconnected || (
            looks[i].brought is Message && looks[i].brought->Message_0 is Shutdown)) ==> end
                is Stopped && i == looks.len() - 1,
        ({
            let turns = steps.filter_map(
                |step: Step<C>|
                    match step {
                        Step::Ordered(orders) => Some(orders),
                        _ => None,
                    },
            ).len();
            &&& turns <= rounds
            &&& end is Stopped ==> turns > 0
            &&& end is RoundsSpent ==> turns == rounds
            &&& end is NumbersSpent ==> turns < rounds && final(worker).queues().sequence + limit
                >= u64::MAX
        }),
{
    let (states, uses, ends) = choose|
        states: Seq<Worker<C>>,
        uses: Seq<Tools<C, R, A, B, I>>,
        ends: Seq<RoundEnd>,
    |
        {
            &&& #[trigger] rounds_done(states, uses, ends, limit)
            &&& states.first() == *old(worker)
            &&& states.last() == *final(worker)
            &&& uses.first() == *old(tools)
            &&& uses.last() == *final(tools)
            &&& ends.len() <= rounds
            &&& forall|i: int| 0 <= i < ends.len() - 1 ==> !(#[trigger] ends[i] is Stopped)
            &&& match end {
                LoopEnd::Stopped => ends.len() > 0 && ends.last() is Stopped,
                LoopEnd::RoundsSpent => {
                    &&& ends.len() == rounds
                    &&& ends.len() > 0 ==> !(ends.last() is Stopped)
                },
                LoopEnd::NumbersSpent => {
                    &&& ends.len() < rounds
                    &&& ends.len() > 0 ==> !(ends.last() is Stopped)
                    &&& final(worker).queues().sequence + limit >= u64::MAX
                },
            }
        };
    lemma_first_turns(states, uses, ends, limit, ends.len() as int, looks, steps);
    if looks.len() > 0 {
        assert(looks.last() == looks[looks.len() - 1]);
        assert(stops(looks[looks.len() - 1]) ==> end is Stopped);
    }
}

/// Over a run, the package cache is given the orders at hand and then the sets of open buckets
/// that were sent, every one of them as it is, in the order in which they came; what is left over
/// is still at hand.
pub proof fn law_run_passes_every_set_of_open_buckets_on<
    C: Artifacts,
    R: Fn(Vec<HashSet<AnalysisBucket>>),
    A: Fn(&DocumentSnapshot<C>) -> Result<C::Analysis, C::Report>,
    B: Fn(&DocumentViewSnapshot<C>, Arc<C::Package>) -> Result<C::View, C::Report>,
    I: Fn(JobKind, &String, u64) -> C::Report,
>(
    worker: &mut Worker<C>,
    rounds: u64,
    limit: u64,
    tools: &mut Tools<C, R, A, B, I>,
    end: LoopEnd,
    looks: Seq<Look<WorkerCommand<C>>>,
    steps: Seq<Step<C>>,
)
    requires
        call_ensures(
            worker_loop::<C, R, A, B, I>,
            (worker, rounds, limit, tools),
            end,
        ),
        old(worker).wf(),
        looks == final(worker).commands().looks().skip(
            old(worker).commands().looks().len() as int,
        ),
        steps == final(tools).steps().skip(old(tools).steps().len() as int),
    ensures
        steps.filter_map(
            |step: Step<C>|
                match step {
                    Step::Ordered(orders) => Some(orders),
                    _ => None,
                },
        ).flatten() + final(worker).orders() == old(worker).orders() + looks.filter_map(
            |look: Look<WorkerCommand<C>>|
                match look.brought {
                    Polled::Message(WorkerCommand::SetOpenBuckets(buckets)) => Some(buckets),
                    _ => None,
                },
        ),
        rounds > 0 && !(end is NumbersSpent) ==> final(worker).orders() == Seq::<
            HashSet<AnalysisBucket>,
        >::empty(),
        final(worker).commands().receiver() == old(worker).commands().receiver(),
        final(worker).events().sender() == old(worker).events().sender(),
        old(worker).events().sent().is_prefix_of(final(worker).events().sent()),
        final(worker).panics() == old(worker).panics(),
        final(tools).retain_fn() == old(tools).retain_fn(),
        final(tools).analyze_fn() == old(tools).analyze_fn(),
        final(tools).build_fn() == old(tools).build_fn(),
        final(tools).inject_fn() == old(tools).inject_fn(),
{
    let (states, uses, ends) = choose|
        states: Seq<Worker<C>>,
        uses: Seq<Tools<C, R, A, B, I>>,
        ends: Seq<RoundEnd>,
    |
        {
            &&& #[trigger] rounds_done(states, uses, ends, limit)
            &&& states.first() == *old(worker)
            &&& states.last() == *final(worker)
            &&& uses.first() == *old(tools)
            &&& uses.last() == *final(tools)
            &&& ends.len() <= rounds
            &&& forall|i: int| 0 <= i < ends.len() - 1 ==> !(#[trigger] ends[i] is Stopped)
            &&& match end {
                LoopEnd::Stopped => ends.len() > 0,
                LoopEnd::RoundsSpent => ends.len() == rounds,
                LoopEnd::NumbersSpent => true,
            }
        };
    let n = ends.len() as int;
    lemma_first_turns(states, uses, ends, limit, n, looks, steps);
    if n > 0 {
        assert(round_done(
            states[n - 1],
            states[n - 1 + 1],
            uses[n - 1],
            uses[n - 1 + 1],
            limit,
            ends[n - 1],
        ));
        let turn = states[n].commands().looks().skip(
            states[n - 1].commands().looks().len() as int,
        );
        let parts = lemma_turn_parts(
            states[n - 1],
            states[n],
            uses[n - 1],
            uses[n],
            limit,
            ends[n - 1],
            turn,
        );
    }
}

/// A run is a chain of turns and nothing else: each begins where the one before ended, the first
/// where the run did.
pub proof fn law_run_is_a_chain_of_turns<
    C: Artifacts,
    R: Fn(Vec<HashSet<AnalysisBucket>>),
    A: Fn(&DocumentSnapshot<C>) -> Result<C::Analysis, C::Report>,
    B: Fn(&DocumentViewSnapshot<C>, Arc<C::Package>) -> Result<C::View, C::Report>,
    I: Fn(JobKind, &String, u64) -> C::Report,
>(
    worker: &mut Worker<C>,
    rounds: u64,
    limit: u64,
    tools: &mut Tools<C, R, A, B, I>,
    end: LoopEnd,
)
    requires
        call_ensures(
            worker_loop::<C, R, A, B, I>,
            (worker, rounds, limit, tools),
            end,
        ),
    ensures
        exists|states: Seq<Worker<C>>, uses: Seq<Tools<C, R, A, B, I>>, ends: Seq<RoundEnd>|
            {
                &&& #[trigger] rounds_done(states, uses, ends, limit)
                &&& states.len() == ends.len() + 1
                &&& uses.len() == ends.len() + 1
                &&& states.first() == *old(worker)
                &&& states.last() == *final(worker)
                &&& uses.first() == *old(tools)
                &&& uses.last() == *final(tools)
                &&& forall|i: int|
                    0 <= i < ends.len() ==> round_done(
                        states[i],
                        states[i + 1],
                        uses[i],
                        uses[i + 1],
                        limit,
                        #[trigger] ends[i],
                    ) && exists|turned: &mut Worker<C>, handed: &mut Tools<C, R, A, B, I>|
                        {
                            &&& *turned == states[i]
                            &&& *final(turned) == states[i + 1]
                            &&& *handed == uses[i]
                            &&& *final(handed) == uses[i + 1]
                            &&& #[trigger] call_ensures(
                                Worker::<C>::round::<R, A, B, I>,
                                (turned, limit, handed),
                                ends[i],
                            )
                        }
            },
{
}

/// Every event on record after a run was really passed to the worker's event channel, and every
/// look on record that waited was one receive from its command channel.
pub proof fn law_run_really_sends_and_receives<
    C: Artifacts,
    R: Fn(Vec<HashSet<AnalysisBucket>>),
    A: Fn(&DocumentSnapshot<C>) -> Result<C::Analysis, C::Report>,
    B: Fn(&DocumentViewSnapshot<C>, Arc<C::Package>) -> Result<C::View, C::Report>,
    I: Fn(JobKind, &String, u64) -> C::Report,
>(
    worker: &mut Worker<C>,
    rounds: u64,
    limit: u64,
    tools: &mut Tools<C, R, A, B, I>,
    end: LoopEnd,
    e: int,
    l: int,
)
    requires
        call_ensures(
            worker_loop::<C, R, A, B, I>,
            (worker, rounds, limit, tools),
            end,
        ),
    ensures
        0 <= e < final(worker).events().sent().len() ==> exists|
            result: Result<(), SendError<WorkerEvent<C>>>,
        | #[trigger]
            call_ensures(
                Sender::<WorkerEvent<C>>::send,
                (&final(worker).events().sender(), final(worker).events().sent()[e]),
                result,
            ),
        0 <= l < final(worker).commands().looks().len()
            && final(worker).commands().looks()[l].waited ==> exists|
            result: Result<WorkerCommand<C>, RecvError>,
        | #[trigger]
            call_ensures(
                Receiver::<WorkerCommand<C>>::recv,
                (&final(worker).commands().receiver(),),
                result,
            ) && final(worker).commands().looks()[l].brought == (match result {
                Ok(message) => Polled::Message(message),
                Err(_) => Polled::Disconnected,
            }),
{
    if 0 <= e < final(worker).events().sent().len() {
        assert(handed_to(
            final(worker).events().sender(),
            final(worker).events().sent()[e],
        ));
    }
    if 0 <= l < final(worker).commands().looks().len()
        && final(worker).commands().looks()[l].waited {
        law_look_that_waited_is_a_receive(
            final(worker).commands().receiver(),
            final(worker).commands().looks()[l],
        );
    }
}

/// Over a run of a worker that starts afresh, events and commands answer to each other. Each
/// event answers one command to analyze or to build, with the data of its snapshot, and no two
/// answer the same. And no such command is forgotten: it was answered, or its job waits, or a
/// later command came under its key.
pub proof fn law_run_answers_or_keeps_every_job<
    C: Artifacts,
    R: Fn(Vec<HashSet<AnalysisBucket>>),
    A: Fn(&DocumentSnapshot<C>) -> Result<C::Analysis, C::Report>,
    B: Fn(&DocumentViewSnapshot<C>, Arc<C::Package>) -> Result<C::View, C::Report>,
    I: Fn(JobKind, &String, u64) -> C::Report,
>(
    worker: &mut Worker<C>,
    rounds: u64,
    limit: u64,
    tools: &mut Tools<C, R, A, B, I>,
    end: LoopEnd,
    messages: Seq<WorkerCommand<C>>,
)
    requires
        call_ensures(
            worker_loop::<C, R, A, B, I>,
            (worker, rounds, limit, tools),
            end,
        ),
        old(worker).wf(),
        forall|k: PackageKeyView| !(#[trigger] old(worker).queues().packages.contains_key(k)),
        forall|k: ViewKeyView| !(#[trigger] old(worker).queues().views.contains_key(k)),
        old(worker).commands().looks().len() == 0,
        old(worker).events().sent().len() == 0,
        messages == final(worker).commands().looks().filter_map(
            |look: Look<WorkerCommand<C>>|
                match look.brought {
                    Polled::Message(command) => Some(command),
                    _ => None,
                },
        ),
    ensures
        exists|sources: Seq<int>|
            {
                &&& #[trigger] sources.len() == final(worker).events().sent().len()
                &&& forall|a: int, b: int|
                    0 <= a < b < sources.len() ==> #[trigger] sources[a] != #[trigger] sources[b]
                &&& forall|e: int|
                    0 <= e < sources.len() ==> 0 <= #[trigger] sources[e] < messages.len()
                        && match (
                        messages[sources[e]],
                        final(worker).events().sent()[e],
                    ) {
                        (
                            WorkerCommand::AnalyzePackage(snapshot),
                            WorkerEvent::PackageAnalyzed(analysis),
                        ) => {
                            &&& analysis.key == snapshot.package_key
                            &&& analysis.uri == snapshot.uri
                            &&& analysis.generation == snapshot.generation
                        },
                        (
                            WorkerCommand::AnalyzePackage(snapshot),
                            WorkerEvent::PackageCancelled { key, uri, generation },
                        ) => {
                            &&& key == snapshot.package_key
                            &&& uri == snapshot.uri
                            &&& generation == snapshot.generation
                        },
                        (
                            WorkerCommand::AnalyzePackage(snapshot),
                            WorkerEvent::PackagePanicked { key, uri, generation, .. },
                        ) => {
                            &&& key == snapshot.package_key
                            &&& uri == snapshot.uri
                            &&& generation == snapshot.generation
                        },
                        (
                            WorkerCommand::BuildDocumentView { .. },
                            WorkerEvent::DocumentViewBuilt(_),
                        ) => true,
                        (
                            WorkerCommand::BuildDocumentView { snapshot, .. },
                            WorkerEvent::DocumentViewCancelled { key },
                        ) => key == snapshot.key,
                        (
                            WorkerCommand::BuildDocumentView { snapshot, .. },
                            WorkerEvent::DocumentViewPanicked { key, .. },
                        ) => key == snapshot.key,
                        _ => false,
                    }
                &&& forall|m: int|
                    0 <= m < messages.len() ==> (#[trigger] messages[m] matches
                        WorkerCommand::AnalyzePackage(snapshot) ==> {
                        ||| sources.contains(m)
                        ||| {
                            &&& final(worker).queues().packages.contains_key(snapshot.package_key@)
                            &&& final(worker).queues().packages[snapshot.package_key@].snapshot
                                == snapshot
                        }
                        ||| exists|later: int|
                            m < later < messages.len() && (#[trigger] messages[later] matches
                                WorkerCommand::AnalyzePackage(newer) && newer.package_key@
                                == snapshot.package_key@)
                    })
                &&& forall|m: int|
                    0 <= m < messages.len() ==> (#[trigger] messages[m] matches
                        WorkerCommand::BuildDocumentView { snapshot, package } ==> {
                        ||| sources.contains(m)
                        ||| {
                            &&& final(worker).queues().views.contains_key(snapshot.key@)
                            &&& final(worker).queues().views[snapshot.key@].snapshot == snapshot
                            &&& final(worker).queues().views[snapshot.key@].package == package
                        }
                        ||| exists|later: int|
                            m < later < messages.len() && (#[trigger] messages[later] matches
                                WorkerCommand::BuildDocumentView { snapshot: newer, .. } && newer.key@
                                == snapshot.key@)
                    })
            },
{
    let before = *old(worker);
    let after = *final(worker);
    let (states, uses, ends) = choose|
        states: Seq<Worker<C>>,
        uses: Seq<Tools<C, R, A, B, I>>,
        ends: Seq<RoundEnd>,
    |
        {
            &&& #[trigger] rounds_done(states, uses, ends, limit)
            &&& states.first() == before
            &&& states.last() == after
        };
    law_every_message_is_a_command(after.commands().looks());
    assert(before.commands().looks() =~= Seq::<Look<WorkerCommand<C>>>::empty());
    assert(before.events().sent() =~= Seq::<WorkerEvent<C>>::empty());
    let account = Account { sources: Seq::empty(), packages: Map::empty(), views: Map::empty() };
    assert(worker_accounted(before, account));
    let next = law_turns_keep_accounts(
        states,
        uses,
        ends,
        limit,
        account,
        states.len() - 1,
    );
    let sources = next.sources;
    assert forall|m: int| 0 <= m < messages.len() implies (#[trigger] messages[m] matches
        WorkerCommand::AnalyzePackage(snapshot) ==> {
        ||| sources.contains(m)
        ||| {
            &&& after.queues().packages.contains_key(snapshot.package_key@)
            &&& after.queues().packages[snapshot.package_key@].snapshot == snapshot
        }
        ||| exists|later: int|
            m < later < messages.len() && (#[trigger] messages[later] matches
                WorkerCommand::AnalyzePackage(newer) && newer.package_key@
                == snapshot.package_key@)
    }) by {
        if let WorkerCommand::AnalyzePackage(snapshot) = messages[m] {
            assert(brings_job(messages[m]));
            if replaced(messages, m) {
                let later = choose|later: int|
                    m < later < messages.len() && is_package_command(
                        #[trigger] messages[later],
                        snapshot.package_key@,
                    );
                assert(messages[later] is AnalyzePackage);
            }
        }
    }
    assert forall|m: int| 0 <= m < messages.len() implies (#[trigger] messages[m] matches
        WorkerCommand::BuildDocumentView { snapshot, package } ==> {
        ||| sources.contains(m)
        ||| {
            &&& after.queues().views.contains_key(snapshot.key@)
            &&& after.queues().views[snapshot.key@].snapshot == snapshot
            &&& after.queues().views[snapshot.key@].package == package
        }
        ||| exists|later: int|
            m < later < messages.len() && (#[trigger] messages[later] matches
                WorkerCommand::BuildDocumentView { snapshot: newer, .. } && newer.key@
                == snapshot.key@)
    }) by {
        if let WorkerCommand::BuildDocumentView { snapshot, package } = messages[m] {
            assert(brings_job(messages[m]));
            if replaced(messages, m) {
                let later = choose|later: int|
                    m < later < messages.len() && is_view_command(
                        #[trigger] messages[later],
                        snapshot.key@,
                    );
                assert(messages[later] is BuildDocumentView);
            }
        }
    }
    assert(sources.len() == after.events().sent().len());
}

} // verus!
