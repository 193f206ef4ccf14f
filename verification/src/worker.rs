//! The background worker: it takes in commands, picks the next job and runs it.
use crate::cancel::token_says;
use crate::channel::{Inbox, Look, Outbox, Polled};
use crate::intake::{absorb_command, drain_commands, looks_since, queues_of, CacheOrders};
use crate::jobs::{package_job_done, run_package_job, run_view_job, view_job_done};
use crate::keys::{AnalysisBucket, PackageKeyView};
use crate::laws::{
    law_absorb_in_parts, law_all_commands_keep_order, law_commands_in_parts,
    law_commands_keep_order, law_one_command_per_look, law_single_command,
};
use crate::model::{
    absorb_all, absorb_all_events, absorb_all_orders, commands_in, gathered, no_jobs, Queues,
};
use crate::pending::{
    latest_key, take_latest_package, take_latest_view, PendingPackageJob, PendingPackageJobs,
    PendingViewJobs,
};
use crate::protocol::{
    Artifacts, DocumentSnapshot, DocumentViewSnapshot, JobKind, WorkerCommand, WorkerEvent,
};
use crate::tools::{same_functions, Step, Tools};
use crossbeam_channel::{Receiver, Sender};
use std::collections::HashSet;
use std::sync::Arc;
use vstd::prelude::*;

verus! {

/// The worker's end of the scheduler: its channels and the jobs that wait.
#[verifier::reject_recursive_types(C)]
pub struct Worker<C: Artifacts> {
    command_rx: Inbox<WorkerCommand<C>>,
    event_tx: Outbox<WorkerEvent<C>>,
    pending_packages: PendingPackageJobs<C>,
    pending_views: PendingViewJobs<C>,
    sequence: u64,
    cache_orders: CacheOrders,
    panic_on_worker_job: bool,
}

/// How a turn of the worker ended.
pub enum RoundEnd {
    /// The worker is to stop.
    Stopped,
    /// More commands may be there; no job was run yet.
    MoreCommands,
    /// All commands were taken in, and a job was run if one waited.
    Worked { ran: bool },
}

/// The worker's channel ends and its way to run jobs are the same.
pub open spec fn same_setup<C: Artifacts>(before: Worker<C>, after: Worker<C>) -> bool {
    &&& after.commands().receiver() == before.commands().receiver()
    &&& after.events().sender() == before.events().sender()
    &&& after.panics() == before.panics()
}

/// The worker took in commands, and nothing else changed.
pub open spec fn took_in<C: Artifacts>(
    before: Worker<C>,
    after: Worker<C>,
    limit: u64,
    end: Option<bool>,
) -> bool {
    let looks = looks_since(before.commands(), after.commands());
    let commands = commands_in(looks);
    &&& same_setup(before, after)
    &&& before.commands().looks().is_prefix_of(after.commands().looks())
    &&& gathered(before.queues().idle(), looks, limit as int, end)
    &&& after.queues() == absorb_all(before.queues(), commands)
    &&& after.events().sent() == before.events().sent() + absorb_all_events(
        before.queues(),
        commands,
    )
    &&& after.orders() == before.orders() + absorb_all_orders(commands)
}

/// The package cache got its orders, and nothing else changed.
pub open spec fn gave_orders<
    C: Artifacts,
    R: Fn(Vec<HashSet<AnalysisBucket>>),
    A: Fn(&DocumentSnapshot<C>) -> Result<C::Analysis, C::Report>,
    B: Fn(&DocumentViewSnapshot<C>, Arc<C::Package>) -> Result<C::View, C::Report>,
    I: Fn(JobKind, &String, u64) -> C::Report,
>(
    before: Worker<C>,
    after: Worker<C>,
    tools: Tools<C, R, A, B, I>,
    used: Tools<C, R, A, B, I>,
) -> bool {
    &&& same_setup(before, after)
    &&& same_functions(tools, used)
    &&& after.commands() == before.commands()
    &&& after.events() == before.events()
    &&& after.queues() == before.queues()
    &&& after.orders() == Seq::<HashSet<AnalysisBucket>>::empty()
    &&& used.steps() == tools.steps().push(Step::Ordered(before.orders()))
    &&& exists|orders: Vec<HashSet<AnalysisBucket>>|
        orders@ == before.orders() && #[trigger] call_ensures(tools.retain_fn(), (orders,), ())
}

/// The next job was run, and nothing else changed: the newest package job if one waited, else
/// the newest document view job if one waited.
pub open spec fn next_job_done<
    C: Artifacts,
    R: Fn(Vec<HashSet<AnalysisBucket>>),
    A: Fn(&DocumentSnapshot<C>) -> Result<C::Analysis, C::Report>,
    B: Fn(&DocumentViewSnapshot<C>, Arc<C::Package>) -> Result<C::View, C::Report>,
    I: Fn(JobKind, &String, u64) -> C::Report,
>(
    before: Worker<C>,
    after: Worker<C>,
    tools: Tools<C, R, A, B, I>,
    used: Tools<C, R, A, B, I>,
    ran: bool,
) -> bool {
    let queues = before.queues();
    let steps = used.steps().skip(tools.steps().len() as int);
    let sent = after.events().sent();
    &&& same_setup(before, after)
    &&& same_functions(tools, used)
    &&& after.commands() == before.commands()
    &&& after.orders() == before.orders()
    &&& tools.steps().is_prefix_of(used.steps())
    &&& ran == !queues.idle()
    &&& if ran {
        &&& sent.len() == before.events().sent().len() + 1
        &&& sent.drop_last() == before.events().sent()
        &&& if queues.packages != Map::<PackageKeyView, PendingPackageJob<C>>::empty() {
            let k = latest_key(queues.packages);
            &&& after.queues() == Queues { packages: queues.packages.remove(k), ..queues }
            &&& package_job_done(
                queues.packages[k].snapshot,
                before.panics(),
                tools.analyze_fn(),
                tools.inject_fn(),
                steps,
                sent.last(),
            )
        } else {
            let k = latest_key(queues.views);
            &&& after.queues() == Queues { views: queues.views.remove(k), ..queues }
            &&& view_job_done(
                queues.views[k].snapshot,
                queues.views[k].package,
                before.panics(),
                tools.build_fn(),
                tools.inject_fn(),
                steps,
                sent.last(),
            )
        }
    } else {
        &&& after.queues() == queues
        &&& after.events() == before.events()
        &&& steps == Seq::<Step<C>>::empty()
    }
}

/// One turn of the worker: commands were taken in, the cache got its orders, and, unless the
/// worker is to stop or to look for more commands first, the next job was run.
pub open spec fn round_done<
    C: Artifacts,
    R: Fn(Vec<HashSet<AnalysisBucket>>),
    A: Fn(&DocumentSnapshot<C>) -> Result<C::Analysis, C::Report>,
    B: Fn(&DocumentViewSnapshot<C>, Arc<C::Package>) -> Result<C::View, C::Report>,
    I: Fn(JobKind, &String, u64) -> C::Report,
>(
    before: Worker<C>,
    after: Worker<C>,
    tools: Tools<C, R, A, B, I>,
    used: Tools<C, R, A, B, I>,
    limit: u64,
    end: RoundEnd,
) -> bool {
    exists|
        taken_in: Worker<C>,
        ordered: Worker<C>,
        told: Tools<C, R, A, B, I>,
        gathering: Option<bool>,
    |
        {
            &&& #[trigger] took_in(before, taken_in, limit, gathering)
            &&& #[trigger] gave_orders(taken_in, ordered, tools, told)
            &&& match gathering {
                Some(true) => end is Stopped && after == ordered && used == told,
                Some(false) => end is Worked && next_job_done(ordered, after, told, used, end->ran),
                None => end is MoreCommands && after == ordered && used == told,
            }
        }
}

impl<C: Artifacts> Worker<C> {
    /// The jobs that wait.
    pub closed spec fn queues(&self) -> Queues<C> {
        queues_of(self.pending_packages, self.pending_views, self.sequence)
    }

    /// The inbox that commands come from.
    pub closed spec fn commands(&self) -> Inbox<WorkerCommand<C>> {
        self.command_rx
    }

    /// The outbox that events go to.
    pub closed spec fn events(&self) -> Outbox<WorkerEvent<C>> {
        self.event_tx
    }

    /// The orders that the package cache has not been given yet.
    pub closed spec fn orders(&self) -> Seq<HashSet<AnalysisBucket>> {
        self.cache_orders@
    }

    /// Whether jobs are asked to panic on purpose.
    pub closed spec fn panics(&self) -> bool {
        self.panic_on_worker_job
    }

    /// The jobs are in order and within their limits.
    pub open spec fn wf(&self) -> bool {
        &&& self.stored()
        &&& self.queues().wf()
        &&& self.queues().within_bounds()
        &&& 0 <= self.queues().sequence <= u64::MAX
    }

    /// The stored jobs are well-formed.
    pub closed spec fn stored(&self) -> bool {
        &&& self.pending_packages.wf()
        &&& self.pending_views.wf()
    }

    /// A worker with nothing to do.
    pub fn new(
        command_rx: Receiver<WorkerCommand<C>>,
        event_tx: Sender<WorkerEvent<C>>,
        panic_on_worker_job: bool,
    ) -> (worker: Self)
        ensures
            worker.wf(),
            worker.queues() == no_jobs::<C>(),
            worker.commands().receiver() == command_rx,
            worker.commands().looks() == Seq::<Look<WorkerCommand<C>>>::empty(),
            worker.events().sender() == event_tx,
            worker.events().sent() == Seq::<WorkerEvent<C>>::empty(),
            worker.orders() == Seq::<HashSet<AnalysisBucket>>::empty(),
            worker.panics() == panic_on_worker_job,
    {
        Worker {
            command_rx: Inbox::new(command_rx),
            event_tx: Outbox::new(event_tx),
            pending_packages: PendingPackageJobs::new(),
            pending_views: PendingViewJobs::new(),
            sequence: 0,
            cache_orders: CacheOrders::new(),
            panic_on_worker_job,
        }
    }

    /// The number of the last arrival.
    pub fn sequence(&self) -> (sequence: u64)
        ensures
            sequence == self.queues().sequence,
    {
        self.sequence
    }

    /// Takes in commands: waits for one when no job waits, and then drains up to `limit` more.
    ///
    /// The result says whether the worker is to stop. It is `None` when more commands may be
    /// there.
    pub fn gather(&mut self, limit: u64) -> (end: Option<bool>)
        requires
            old(self).wf(),
            old(self).queues().sequence + limit < u64::MAX,
        ensures
            final(self).wf(),
            took_in(*old(self), *final(self), limit, end),
    {
        let ghost start = *self;
        let ghost mut first: Seq<Look<WorkerCommand<C>>> = Seq::empty();
        if self.pending_packages.is_empty() && self.pending_views.is_empty() {
            let polled = self.command_rx.wait();
            proof {
                let look = Look { waited: true, brought: polled };
                first = seq![look];
                assert(looks_since(start.commands(), self.commands()) =~= first);
                assert(first.drop_last() =~= Seq::<Look<WorkerCommand<C>>>::empty());
            }
            match polled {
                Polled::Message(command) => {
                    proof {
                        law_single_command(start.queues(), first[0], command);
                        law_commands_keep_order(start.queues(), command);
                    }
                    if absorb_command(
                        command,
                        &mut self.pending_packages,
                        &mut self.pending_views,
                        &mut self.sequence,
                        &mut self.cache_orders,
                        &mut self.event_tx,
                    ) {
                        return Some(true);
                    }
                },
                _ => {
                    proof {
                        reveal_with_fuel(commands_in, 2);
                        assert(commands_in(first) =~= Seq::empty());
                    }
                    return Some(true);
                },
            }
        }
        let ghost middle = *self;
        let end = drain_commands(
            &mut self.command_rx,
            limit,
            &mut self.pending_packages,
            &mut self.pending_views,
            &mut self.sequence,
            &mut self.cache_orders,
            &mut self.event_tx,
        );
        proof {
            let second = looks_since(middle.commands(), self.commands());
            let looks = looks_since(start.commands(), self.commands());
            assert(looks =~= first + second);
            law_commands_in_parts(first, second);
            law_absorb_in_parts(start.queues(), commands_in(first), commands_in(second));
            if start.queues().idle() {
                assert(looks.skip(1) =~= second);
            }
            let commands = commands_in(looks);
            law_one_command_per_look(looks);
            law_all_commands_keep_order(start.queues(), commands);
            assert(self.events().sent() =~= start.events().sent() + absorb_all_events(
                start.queues(),
                commands,
            ));
            assert(self.orders() =~= start.orders() + absorb_all_orders(commands));
        }
        end
    }

    /// Gives the package cache the orders that have come in.
    pub fn give_orders<
        R: Fn(Vec<HashSet<AnalysisBucket>>),
        A: Fn(&DocumentSnapshot<C>) -> Result<C::Analysis, C::Report>,
        B: Fn(&DocumentViewSnapshot<C>, Arc<C::Package>) -> Result<C::View, C::Report>,
        I: Fn(JobKind, &String, u64) -> C::Report,
    >(&mut self, tools: &mut Tools<C, R, A, B, I>)
        requires
            old(self).wf(),
            can_retain(*old(tools)),
        ensures
            final(self).wf(),
            gave_orders(*old(self), *final(self), *old(tools), *final(tools)),
    {
        let orders = self.cache_orders.take();
        tools.order(orders);
    }

    /// Runs the newest package job, or the newest document view job where no package job waits.
    /// The result says whether there was one.
    pub fn run_next_job<
        R: Fn(Vec<HashSet<AnalysisBucket>>),
        A: Fn(&DocumentSnapshot<C>) -> Result<C::Analysis, C::Report>,
        B: Fn(&DocumentViewSnapshot<C>, Arc<C::Package>) -> Result<C::View, C::Report>,
        I: Fn(JobKind, &String, u64) -> C::Report,
    >(&mut self, tools: &mut Tools<C, R, A, B, I>) -> (ran: bool)
        requires
            old(self).wf(),
            can_work(old(self).panics(), *old(tools)),
        ensures
            final(self).wf(),
            next_job_done(*old(self), *final(self), *old(tools), *final(tools), ran),
    {
        let panics = self.panic_on_worker_job;
        if let Some(snapshot) = take_latest_package(&mut self.pending_packages) {
            run_package_job(snapshot, &mut self.event_tx, panics, tools);
            true
        } else if let Some((snapshot, package)) = take_latest_view(&mut self.pending_views) {
            run_view_job(snapshot, package, &mut self.event_tx, panics, tools);
            true
        } else {
            assert(tools.steps().skip(old(tools).steps().len() as int) =~= Seq::empty());
            false
        }
    }

    /// One turn of the worker: takes in commands, passes the cache its orders, and runs one job.
    pub fn round<
        R: Fn(Vec<HashSet<AnalysisBucket>>),
        A: Fn(&DocumentSnapshot<C>) -> Result<C::Analysis, C::Report>,
        B: Fn(&DocumentViewSnapshot<C>, Arc<C::Package>) -> Result<C::View, C::Report>,
        I: Fn(JobKind, &String, u64) -> C::Report,
    >(&mut self, limit: u64, tools: &mut Tools<C, R, A, B, I>) -> (end: RoundEnd)
        requires
            old(self).wf(),
            0 < limit,
            old(self).queues().sequence + limit < u64::MAX,
            can_retain(*old(tools)),
            can_work(old(self).panics(), *old(tools)),
        ensures
            final(self).wf(),
            round_done(*old(self), *final(self), *old(tools), *final(tools), limit, end),
            final(self).events().record_is_true(),
            final(self).commands().record_is_true(),
    {
        let ghost start = *self;
        let gathering = self.gather(limit);
        let ghost taken_in = *self;
        self.give_orders(tools);
        let ghost ordered = *self;
        assert(took_in(start, taken_in, limit, gathering));
        assert(gave_orders(taken_in, ordered, *old(tools), *tools));
        let end = match gathering {
            Some(true) => RoundEnd::Stopped,
            Some(false) => {
                let ran = self.run_next_job(tools);
                RoundEnd::Worked { ran }
            },
            None => RoundEnd::MoreCommands,
        };
        proof {
            use_type_invariant(&self.event_tx);
            use_type_invariant(&self.command_rx);
        }
        end
    }
}

/// How a run of the worker ended.
pub enum LoopEnd {
    /// The worker is to stop.
    Stopped,
    /// All turns were taken.
    RoundsSpent,
    /// The arrival numbers do not reach for another turn.
    NumbersSpent,
}

/// The arrival numbers reach for a turn.
pub open spec fn reaches<C: Artifacts>(worker: Worker<C>, limit: u64) -> bool {
    worker.queues().sequence + limit < u64::MAX
}

/// Each state of the worker is in order, and came from the one before it by one turn that the
/// arrival numbers reached for.
pub open spec fn rounds_done<
    C: Artifacts,
    R: Fn(Vec<HashSet<AnalysisBucket>>),
    A: Fn(&DocumentSnapshot<C>) -> Result<C::Analysis, C::Report>,
    B: Fn(&DocumentViewSnapshot<C>, Arc<C::Package>) -> Result<C::View, C::Report>,
    I: Fn(JobKind, &String, u64) -> C::Report,
>(
    states: Seq<Worker<C>>,
    uses: Seq<Tools<C, R, A, B, I>>,
    ends: Seq<RoundEnd>,
    limit: u64,
) -> bool {
    &&& states.len() == ends.len() + 1
    &&& uses.len() == ends.len() + 1
    &&& forall|i: int| 0 <= i < states.len() ==> (#[trigger] states[i]).wf()
    &&& forall|i: int| 0 <= i < ends.len() ==> reaches(#[trigger] states[i], limit)
    &&& forall|i: int|
        0 <= i < ends.len() ==> round_done(
            states[i],
            states[i + 1],
            uses[i],
            uses[i + 1],
            limit,
            #[trigger] ends[i],
        )
}

/// The worker took turns, at most `rounds` of them, until one of them told it to stop or `end`
/// names another reason to pause.
pub open spec fn loop_done<
    C: Artifacts,
    R: Fn(Vec<HashSet<AnalysisBucket>>),
    A: Fn(&DocumentSnapshot<C>) -> Result<C::Analysis, C::Report>,
    B: Fn(&DocumentViewSnapshot<C>, Arc<C::Package>) -> Result<C::View, C::Report>,
    I: Fn(JobKind, &String, u64) -> C::Report,
>(
    before: Worker<C>,
    after: Worker<C>,
    tools: Tools<C, R, A, B, I>,
    used: Tools<C, R, A, B, I>,
    rounds: u64,
    limit: u64,
    end: LoopEnd,
) -> bool {
    exists|states: Seq<Worker<C>>, uses: Seq<Tools<C, R, A, B, I>>, ends: Seq<RoundEnd>|
        {
            &&& #[trigger] rounds_done(states, uses, ends, limit)
            &&& states.first() == before
            &&& states.last() == after
            &&& uses.first() == tools
            &&& uses.last() == used
            &&& ends.len() <= rounds
            &&& forall|i: int| 0 <= i < ends.len() - 1 ==> !(#[trigger] ends[i] is Stopped)
            &&& match end {
                LoopEnd::Stopped => ends.len() > 0 && ends.last() is Stopped,
                LoopEnd::RoundsSpent => {
                    &&& ends.len() == rounds
                    &&& ends.len() > 0 ==> !(ends.last() is Stopped)
                },
                LoopEnd::NumbersSpent => {
                    &&& ends.len() < rounds
                    &&& ends.len() > 0 ==> !(ends.last() is Stopped)
                    &&& after.queues().sequence + limit >= u64::MAX
                },
            }
        }
}

/// One more turn makes a chain of turns longer.
#[verifier::spinoff_prover]
proof fn lemma_one_more_turn<
    C: Artifacts,
    R: Fn(Vec<HashSet<AnalysisBucket>>),
    A: Fn(&DocumentSnapshot<C>) -> Result<C::Analysis, C::Report>,
    B: Fn(&DocumentViewSnapshot<C>, Arc<C::Package>) -> Result<C::View, C::Report>,
    I: Fn(JobKind, &String, u64) -> C::Report,
>(
    states: Seq<Worker<C>>,
    uses: Seq<Tools<C, R, A, B, I>>,
    ends: Seq<RoundEnd>,
    limit: u64,
    after: Worker<C>,
    used: Tools<C, R, A, B, I>,
    end: RoundEnd,
)
    requires
        rounds_done(states, uses, ends, limit),
        reaches(states.last(), limit),
        after.wf(),
        round_done(states.last(), after, uses.last(), used, limit, end),
        exists|turned: &mut Worker<C>, handed: &mut Tools<C, R, A, B, I>|
            {
                &&& *turned == states.last()
                &&& *final(turned) == after
                &&& *handed == uses.last()
                &&& *final(handed) == used
                &&& #[trigger] call_ensures(
                    Worker::<C>::round::<R, A, B, I>,
                    (turned, limit, handed),
                    end,
                )
            },
        forall|i: int|
            0 <= i < ends.len() ==> round_done(
                states[i],
                states[i + 1],
                uses[i],
                uses[i + 1],
                limit,
                #[trigger] ends[i],
            ) && exists|turned: &mut Worker<C>, handed: &mut Tools<C, R, A, B, I>|
                {
                    &&& *turned == states[i]
                    &&& *final(turned) == states[i + 1]
                    &&& *handed == uses[i]
                    &&& *final(handed) == uses[i + 1]
                    &&& #[trigger] call_ensures(
                        Worker::<C>::round::<R, A, B, I>,
                        (turned, limit, handed),
                        ends[i],
                    )
                },
    ensures
        rounds_done(states.push(after), uses.push(used), ends.push(end), limit),
        forall|i: int|
            0 <= i < ends.push(end).len() ==> round_done(
                states.push(after)[i],
                states.push(after)[i + 1],
                uses.push(used)[i],
                uses.push(used)[i + 1],
                limit,
                #[trigger] ends.push(end)[i],
            ) && exists|turned: &mut Worker<C>, handed: &mut Tools<C, R, A, B, I>|
                {
                    &&& *turned == states.push(after)[i]
                    &&& *final(turned) == states.push(after)[i + 1]
                    &&& *handed == uses.push(used)[i]
                    &&& *final(handed) == uses.push(used)[i + 1]
                    &&& #[trigger] call_ensures(
                        Worker::<C>::round::<R, A, B, I>,
                        (turned, limit, handed),
                        ends.push(end)[i],
                    )
                },
{
    let longer = states.push(after);
    let more = uses.push(used);
    let now = ends.push(end);
    assert forall|i: int|
        0 <= i < now.len() implies round_done(
            longer[i],
            longer[i + 1],
            more[i],
            more[i + 1],
            limit,
            #[trigger] now[i],
        ) && exists|turned: &mut Worker<C>, handed: &mut Tools<C, R, A, B, I>|
            {
                &&& *turned == longer[i]
                &&& *final(turned) == longer[i + 1]
                &&& *handed == more[i]
                &&& *final(handed) == more[i + 1]
                &&& #[trigger] call_ensures(
                    Worker::<C>::round::<R, A, B, I>,
                    (turned, limit, handed),
                    now[i],
                )
            } by {
        if i < ends.len() {
            assert(now[i] == ends[i]);
            assert(longer[i] == states[i] && longer[i + 1] == states[i + 1]);
            assert(more[i] == uses[i] && more[i + 1] == uses[i + 1]);
            let (turned, handed) = choose|
                turned: &mut Worker<C>,
                handed: &mut Tools<C, R, A, B, I>,
            |
                {
                    &&& *turned == states[i]
                    &&& *final(turned) == states[i + 1]
                    &&& *handed == uses[i]
                    &&& *final(handed) == uses[i + 1]
                    &&& #[trigger] call_ensures(
                        Worker::<C>::round::<R, A, B, I>,
                        (turned, limit, handed),
                        ends[i],
                    )
                };
            assert(*turned == longer[i] && *final(turned) == longer[i + 1]);
            assert(*handed == more[i] && *final(handed) == more[i + 1]);
            assert(call_ensures(
                Worker::<C>::round::<R, A, B, I>,
                (turned, limit, handed),
                now[i],
            ));
        } else {
            assert(i == ends.len() && now[i] == end);
            assert(longer[i] == states.last() && longer[i + 1] == after);
            assert(more[i] == uses.last() && more[i + 1] == used);
            let (turned, handed) = choose|
                turned: &mut Worker<C>,
                handed: &mut Tools<C, R, A, B, I>,
            |
                {
                    &&& *turned == states.last()
                    &&& *final(turned) == after
                    &&& *handed == uses.last()
                    &&& *final(handed) == used
                    &&& #[trigger] call_ensures(
                        Worker::<C>::round::<R, A, B, I>,
                        (turned, limit, handed),
                        end,
                    )
                };
            assert(*turned == longer[i] && *final(turned) == longer[i + 1]);
            assert(*handed == more[i] && *final(handed) == more[i + 1]);
            assert(call_ensures(
                Worker::<C>::round::<R, A, B, I>,
                (turned, limit, handed),
                now[i],
            ));
        }
    }
    assert forall|i: int| 0 <= i < longer.len() implies (#[trigger] longer[i]).wf() by {
        if i < states.len() {
            assert(longer[i] == states[i]);
        }
    }
    assert forall|i: int| 0 <= i < now.len() implies reaches(#[trigger] longer[i], limit) by {
        assert(longer[i] == states[i]);
    }
}

/// Runs the worker, for `rounds` turns at most.
///
/// A turn takes in up to `limit` commands beside the one that it waits for. When there are more,
/// the next turn goes on with them before any job is run. A caller that wants the worker to run
/// on calls this again.
#[verifier::spinoff_prover]
pub fn worker_loop<
    C: Artifacts,
    R: Fn(Vec<HashSet<AnalysisBucket>>),
    A: Fn(&DocumentSnapshot<C>) -> Result<C::Analysis, C::Report>,
    B: Fn(&DocumentViewSnapshot<C>, Arc<C::Package>) -> Result<C::View, C::Report>,
    I: Fn(JobKind, &String, u64) -> C::Report,
>(
    worker: &mut Worker<C>,
    rounds: u64,
    limit: u64,
    tools: &mut Tools<C, R, A, B, I>,
) -> (end: LoopEnd)
    requires
        old(worker).wf(),
        0 < limit,
        can_retain(*old(tools)),
        can_work(old(worker).panics(), *old(tools)),
    ensures
        final(worker).wf(),
        final(worker).events().record_is_true(),
        final(worker).commands().record_is_true(),
        loop_done(
            *old(worker),
            *final(worker),
            *old(tools),
            *final(tools),
            rounds,
            limit,
            end,
        ),
        exists|states: Seq<Worker<C>>, uses: Seq<Tools<C, R, A, B, I>>, ends: Seq<RoundEnd>|
            {
                &&& #[trigger] rounds_done(states, uses, ends, limit)
                &&& states.first() == *old(worker)
                &&& states.last() == *final(worker)
                &&& uses.first() == *old(tools)
                &&& uses.last() == *final(tools)
                &&& forall|i: int|
                    0 <= i < ends.len() ==> round_done(
                        states[i],
                        states[i + 1],
                        uses[i],
                        uses[i + 1],
                        limit,
                        #[trigger] ends[i],
                    ) && exists|
                        turned: &mut Worker<C>,
                        handed: &mut Tools<C, R, A, B, I>,
                    |
                        {
                            &&& *turned == states[i]
                            &&& *final(turned) == states[i + 1]
                            &&& *handed == uses[i]
                            &&& *final(handed) == uses[i + 1]
                            &&& #[trigger] call_ensures(
                                Worker::<C>::round::<R, A, B, I>,
                                (turned, limit, handed),
                                ends[i],
                            )
                        }
            },
{
    let ghost mut states: Seq<Worker<C>> = seq![*worker];
    let ghost mut uses: Seq<Tools<C, R, A, B, I>> = seq![*tools];
    let ghost mut ends: Seq<RoundEnd> = Seq::empty();
    let mut left: u64 = rounds;
    proof {
        use_type_invariant(&worker.event_tx);
        use_type_invariant(&worker.command_rx);
    }
    while left > 0
        invariant
            left <= rounds,
            0 < limit,
            worker.wf(),
            worker.events().record_is_true(),
            worker.commands().record_is_true(),
            can_retain(*tools),
            can_work(worker.panics(), *tools),
            rounds_done(states, uses, ends, limit),
            forall|i: int|
                0 <= i < ends.len() ==> round_done(
                    states[i],
                    states[i + 1],
                    uses[i],
                    uses[i + 1],
                    limit,
                    #[trigger] ends[i],
                ) && exists|
                    turned: &mut Worker<C>,
                    handed: &mut Tools<C, R, A, B, I>,
                |
                    {
                        &&& *turned == states[i]
                        &&& *final(turned) == states[i + 1]
                        &&& *handed == uses[i]
                        &&& *final(handed) == uses[i + 1]
                        &&& #[trigger] call_ensures(
                            Worker::<C>::round::<R, A, B, I>,
                            (turned, limit, handed),
                            ends[i],
                        )
                    },
            states.first() == *old(worker),
            states.last() == *worker,
            uses.first() == *old(tools),
            uses.last() == *tools,
            ends.len() == rounds - left,
            forall|i: int| 0 <= i < ends.len() ==> !(#[trigger] ends[i] is Stopped),
        decreases left,
    {
        if worker.sequence >= u64::MAX - limit {
            return LoopEnd::NumbersSpent;
        }
        assert(reaches(*worker, limit));
        let end = worker.round(limit, tools);
        assert(exists|turned: &mut Worker<C>, handed: &mut Tools<C, R, A, B, I>|
            {
                &&& *turned == states.last()
                &&& *final(turned) == *worker
                &&& *handed == uses.last()
                &&& *final(handed) == *tools
                &&& #[trigger] call_ensures(
                    Worker::<C>::round::<R, A, B, I>,
                    (turned, limit, handed),
                    end,
                )
            });
        proof {
            lemma_one_more_turn(states, uses, ends, limit, *worker, *tools, end);
            let earlier = ends;
            assert(states.push(*worker).first() == states.first());
            assert(uses.push(*tools).first() == uses.first());
            states = states.push(*worker);
            uses = uses.push(*tools);
            ends = ends.push(end);
            assert(forall|i: int| 0 <= i < earlier.len() ==> #[trigger] ends[i] == earlier[i]);
        }
        match end {
            RoundEnd::Stopped => {
                return LoopEnd::Stopped;
            },
            _ => {},
        }
        left = left - 1;
    }
    LoopEnd::RoundsSpent
}

/// The package cache can be given any orders.
pub open spec fn can_retain<
    C: Artifacts,
    R: Fn(Vec<HashSet<AnalysisBucket>>),
    A: Fn(&DocumentSnapshot<C>) -> Result<C::Analysis, C::Report>,
    B: Fn(&DocumentViewSnapshot<C>, Arc<C::Package>) -> Result<C::View, C::Report>,
    I: Fn(JobKind, &String, u64) -> C::Report,
>(tools: Tools<C, R, A, B, I>) -> bool {
    forall|orders: Vec<HashSet<AnalysisBucket>>| call_requires(tools.retain_fn(), (orders,))
}

/// The work can be done for every snapshot that a check has found current; or a panic can be
/// injected for it, where that is asked for.
pub open spec fn can_work<
    C: Artifacts,
    R: Fn(Vec<HashSet<AnalysisBucket>>),
    A: Fn(&DocumentSnapshot<C>) -> Result<C::Analysis, C::Report>,
    B: Fn(&DocumentViewSnapshot<C>, Arc<C::Package>) -> Result<C::View, C::Report>,
    I: Fn(JobKind, &String, u64) -> C::Report,
>(panics: bool, tools: Tools<C, R, A, B, I>) -> bool {
    if panics {
        forall|kind: JobKind, uri: String, generation: u64|
            #[trigger] call_requires(tools.inject_fn(), (kind, &uri, generation))
    } else {
        &&& forall|snapshot: DocumentSnapshot<C>|
            token_says(*snapshot.cancel_token, snapshot.generation, false) ==> #[trigger]
                call_requires(tools.analyze_fn(), (&snapshot,))
        &&& forall|snapshot: DocumentViewSnapshot<C>, package: Arc<C::Package>|
            token_says(*snapshot.cancel_token, snapshot.key.document_generation, false)
                ==> #[trigger] call_requires(tools.build_fn(), (&snapshot, package))
    }
}

} // verus!
