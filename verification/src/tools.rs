//! The functions that do the worker's outside work, and a record of their use.
//!
//! The functions stand in private fields, so that the rest of the library reaches them through
//! the methods of [`Tools`] alone, which put each call on record. What is on record was really
//! done.
use crate::cancel::{is_cancelled, token_says};
use crate::keys::AnalysisBucket;
use crate::protocol::{Artifacts, DocumentSnapshot, DocumentViewSnapshot, JobKind};
use std::collections::HashSet;
use std::sync::atomic::AtomicU64;
use std::sync::Arc;
use vstd::prelude::*;

verus! {

/// A step that the worker took outside its own data.
#[allow(inconsistent_fields)]
pub enum Step<C: Artifacts> {
    /// It gave the package cache these orders.
    Ordered(Seq<HashSet<AnalysisBucket>>),
    /// It read a cancellation token and compared it with a generation.
    Checked { cancel_token: AtomicU64, generation: u64, cancelled: bool },
    /// It had a job panic on purpose.
    Injected { kind: JobKind, uri: String, generation: u64, report: C::Report },
    /// It analyzed a package snapshot.
    Analyzed { snapshot: DocumentSnapshot<C>, outcome: Result<C::Analysis, C::Report> },
    /// It built a document view.
    Built {
        snapshot: DocumentViewSnapshot<C>,
        package: Arc<C::Package>,
        outcome: Result<C::View, C::Report>,
    },
}

/// The functions that the worker is given, with a ghost record of the steps taken with them.
#[verifier::reject_recursive_types(C)]
#[verifier::reject_recursive_types(R)]
#[verifier::reject_recursive_types(A)]
#[verifier::reject_recursive_types(B)]
#[verifier::reject_recursive_types(I)]
pub struct Tools<
    C: Artifacts,
    R: Fn(Vec<HashSet<AnalysisBucket>>),
    A: Fn(&DocumentSnapshot<C>) -> Result<C::Analysis, C::Report>,
    B: Fn(&DocumentViewSnapshot<C>, Arc<C::Package>) -> Result<C::View, C::Report>,
    I: Fn(JobKind, &String, u64) -> C::Report,
> {
    retain: R,
    analyze: A,
    build: B,
    inject: I,
    steps: Ghost<Seq<Step<C>>>,
}

/// The functions are the same.
pub open spec fn same_functions<
    C: Artifacts,
    R: Fn(Vec<HashSet<AnalysisBucket>>),
    A: Fn(&DocumentSnapshot<C>) -> Result<C::Analysis, C::Report>,
    B: Fn(&DocumentViewSnapshot<C>, Arc<C::Package>) -> Result<C::View, C::Report>,
    I: Fn(JobKind, &String, u64) -> C::Report,
>(before: Tools<C, R, A, B, I>, after: Tools<C, R, A, B, I>) -> bool {
    &&& after.retain_fn() == before.retain_fn()
    &&& after.analyze_fn() == before.analyze_fn()
    &&& after.build_fn() == before.build_fn()
    &&& after.inject_fn() == before.inject_fn()
}

/// The step was really taken, with these functions.
pub open spec fn really_taken<
    C: Artifacts,
    R: Fn(Vec<HashSet<AnalysisBucket>>),
    A: Fn(&DocumentSnapshot<C>) -> Result<C::Analysis, C::Report>,
    B: Fn(&DocumentViewSnapshot<C>, Arc<C::Package>) -> Result<C::View, C::Report>,
    I: Fn(JobKind, &String, u64) -> C::Report,
>(retain: R, analyze: A, build: B, inject: I, step: Step<C>) -> bool {
    match step {
        Step::Ordered(given) => exists|orders: Vec<HashSet<AnalysisBucket>>|
            orders@ == given && #[trigger] call_ensures(retain, (orders,), ()),
        Step::Checked { cancel_token, generation, cancelled } => token_says(
            cancel_token,
            generation,
            cancelled,
        ),
        Step::Injected { kind, uri, generation, report } => call_ensures(
            inject,
            (kind, &uri, generation),
            report,
        ),
        Step::Analyzed { snapshot, outcome } => call_ensures(analyze, (&snapshot,), outcome),
        Step::Built { snapshot, package, outcome } => call_ensures(
            build,
            (&snapshot, package),
            outcome,
        ),
    }
}

impl<
    C: Artifacts,
    R: Fn(Vec<HashSet<AnalysisBucket>>),
    A: Fn(&DocumentSnapshot<C>) -> Result<C::Analysis, C::Report>,
    B: Fn(&DocumentViewSnapshot<C>, Arc<C::Package>) -> Result<C::View, C::Report>,
    I: Fn(JobKind, &String, u64) -> C::Report,
> Tools<C, R, A, B, I> {
    /// The steps taken, in order.
    pub closed spec fn steps(&self) -> Seq<Step<C>> {
        self.steps@
    }

    /// The function that gives the package cache its orders.
    pub closed spec fn retain_fn(&self) -> R {
        self.retain
    }

    /// The function that analyzes a package snapshot.
    pub closed spec fn analyze_fn(&self) -> A {
        self.analyze
    }

    /// The function that builds a document view.
    pub closed spec fn build_fn(&self) -> B {
        self.build
    }

    /// The function that has a job panic on purpose.
    pub closed spec fn inject_fn(&self) -> I {
        self.inject
    }

    /// Every step on record was really taken.
    #[verifier::type_invariant]
    spec fn record_is_true(&self) -> bool {
        forall|i: int|
            0 <= i < self.steps@.len() ==> really_taken(
                self.retain,
                self.analyze,
                self.build,
                self.inject,
                #[trigger] self.steps@[i],
            )
    }

    /// Takes the functions over, with no steps on record.
    pub fn new(retain: R, analyze: A, build: B, inject: I) -> (tools: Self)
        ensures
            tools.retain_fn() == retain,
            tools.analyze_fn() == analyze,
            tools.build_fn() == build,
            tools.inject_fn() == inject,
            tools.steps() == Seq::<Step<C>>::empty(),
    {
        Tools { retain, analyze, build, inject, steps: Ghost(Seq::empty()) }
    }

    /// Reads a token and says whether work for `generation` is stale.
    pub fn check(&mut self, cancel_token: &AtomicU64, generation: u64) -> (cancelled: bool)
        ensures
            token_says(*cancel_token, generation, cancelled),
            same_functions(*old(self), *final(self)),
            final(self).steps() == old(self).steps().push(
                (Step::Checked { cancel_token: *cancel_token, generation, cancelled }),
            ),
    {
        proof {
            use_type_invariant(&*self);
        }
        let cancelled = is_cancelled(cancel_token, generation);
        self.steps = Ghost(
            self.steps@.push(Step::Checked { cancel_token: *cancel_token, generation, cancelled }),
        );
        cancelled
    }

    /// Gives the package cache its orders.
    pub fn order(&mut self, orders: Vec<HashSet<AnalysisBucket>>)
        requires
            call_requires(old(self).retain_fn(), (orders,)),
        ensures
            call_ensures(old(self).retain_fn(), (orders,), ()),
            same_functions(*old(self), *final(self)),
            final(self).steps() == old(self).steps().push(Step::Ordered(orders@)),
    {
        proof {
            use_type_invariant(&*self);
        }
        let ghost given = orders@;
        (self.retain)(orders);
        self.steps = Ghost(self.steps@.push(Step::Ordered(given)));
    }

    /// Has a job panic on purpose.
    pub fn inject(&mut self, kind: JobKind, uri: &String, generation: u64) -> (report: C::Report)
        requires
            call_requires(old(self).inject_fn(), (kind, uri, generation)),
        ensures
            call_ensures(old(self).inject_fn(), (kind, uri, generation), report),
            same_functions(*old(self), *final(self)),
            final(self).steps() == old(self).steps().push(
                (Step::Injected { kind, uri: *uri, generation, report }),
            ),
    {
        proof {
            use_type_invariant(&*self);
        }
        let report = (self.inject)(kind, uri, generation);
        self.steps = Ghost(
            self.steps@.push(Step::Injected { kind, uri: *uri, generation, report }),
        );
        report
    }

    /// Analyzes a package snapshot.
    pub fn analyze(&mut self, snapshot: &DocumentSnapshot<C>) -> (outcome: Result<
        C::Analysis,
        C::Report,
    >)
        requires
            call_requires(old(self).analyze_fn(), (snapshot,)),
        ensures
            call_ensures(old(self).analyze_fn(), (snapshot,), outcome),
            same_functions(*old(self), *final(self)),
            final(self).steps() == old(self).steps().push(
                (Step::Analyzed { snapshot: *snapshot, outcome }),
            ),
    {
        proof {
            use_type_invariant(&*self);
        }
        let outcome = (self.analyze)(snapshot);
        self.steps = Ghost(self.steps@.push(Step::Analyzed { snapshot: *snapshot, outcome }));
        outcome
    }

    /// Builds a document view.
    pub fn build(
        &mut self,
        snapshot: &DocumentViewSnapshot<C>,
        package: Arc<C::Package>,
    ) -> (outcome: Result<C::View, C::Report>)
        requires
            call_requires(old(self).build_fn(), (snapshot, package)),
        ensures
            call_ensures(old(self).build_fn(), (snapshot, package), outcome),
            same_functions(*old(self), *final(self)),
            final(self).steps() == old(self).steps().push(
                (Step::Built { snapshot: *snapshot, package, outcome }),
            ),
    {
        proof {
            use_type_invariant(&*self);
        }
        let ghost step_package = package;
        let outcome = (self.build)(snapshot, package);
        self.steps = Ghost(
            self.steps@.push(Step::Built { snapshot: *snapshot, package: step_package, outcome }),
        );
        outcome
    }
}

} // verus!
