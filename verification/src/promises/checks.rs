//! Comparing: keys with keys, and tokens with generations.
use crate::cancel::{is_cancelled, is_superseded};
use crate::keys::{AnalysisBucket, DocumentViewKey, JobKey, PackageAnalysisKey};
use crate::protocol::{Artifacts, DocumentSnapshot, DocumentViewSnapshot, JobKind};
use crate::tools::{Step, Tools};
use std::collections::HashSet;
use std::sync::atomic::{AtomicU64, Ordering};
use std::sync::Arc;
use vstd::prelude::*;

verus! {

/// Work is stale exactly when the token was read as another generation than its own, whichever
/// the two are: any mismatch cancels, and nothing else does.
pub proof fn law_any_mismatch_cancels(token: AtomicU64, generation: u64, cancelled: bool)
    requires
        call_ensures(is_cancelled, (&token, generation), cancelled),
    ensures
        exists|latest: u64| #[trigger]
            call_ensures(AtomicU64::load, (&token, Ordering::SeqCst), latest) && (cancelled
                <==> latest != generation),
{
}

/// A check that finds the work current has read the token as its generation, and one that finds
/// it stale has read something else.
pub proof fn law_check_tells_what_was_read(token: AtomicU64, generation: u64, cancelled: bool)
    requires
        call_ensures(is_cancelled, (&token, generation), cancelled),
    ensures
        !cancelled ==> call_ensures(AtomicU64::load, (&token, Ordering::SeqCst), generation),
        cancelled ==> exists|latest: u64| #[trigger]
            call_ensures(AtomicU64::load, (&token, Ordering::SeqCst), latest) && latest
                != generation,
{
    law_any_mismatch_cancels(token, generation, cancelled);
}

/// A reading supersedes every generation but the one that it shows.
pub proof fn law_one_generation_is_current(latest: u64, generation: u64, superseded: bool)
    requires
        call_ensures(is_superseded, (latest, generation), superseded),
    ensures
        superseded <==> latest != generation,
{
}

/// New tools hold the functions that they were given, and nothing has been done with them.
pub proof fn law_new_tools_are_unused<
    C: Artifacts,
    R: Fn(Vec<HashSet<AnalysisBucket>>),
    A: Fn(&DocumentSnapshot<C>) -> Result<C::Analysis, C::Report>,
    B: Fn(&DocumentViewSnapshot<C>, Arc<C::Package>) -> Result<C::View, C::Report>,
    I: Fn(JobKind, &String, u64) -> C::Report,
>(retain: R, analyze: A, build: B, inject: I, tools: Tools<C, R, A, B, I>)
    requires
        call_ensures(
            Tools::<C, R, A, B, I>::new,
            (retain, analyze, build, inject),
            tools,
        ),
    ensures
        tools.retain_fn() == retain,
        tools.analyze_fn() == analyze,
        tools.build_fn() == build,
        tools.inject_fn() == inject,
        tools.steps().len() == 0,
{
}

/// A check through the tools is one reading of the token, compared with the generation, and it
/// gets on record as it came out.
pub proof fn law_recorded_check_is_a_reading<
    C: Artifacts,
    R: Fn(Vec<HashSet<AnalysisBucket>>),
    A: Fn(&DocumentSnapshot<C>) -> Result<C::Analysis, C::Report>,
    B: Fn(&DocumentViewSnapshot<C>, Arc<C::Package>) -> Result<C::View, C::Report>,
    I: Fn(JobKind, &String, u64) -> C::Report,
>(tools: &mut Tools<C, R, A, B, I>, token: AtomicU64, generation: u64, cancelled: bool)
    requires
        call_ensures(
            Tools::<C, R, A, B, I>::check,
            (tools, &token, generation),
            cancelled,
        ),
    ensures
        exists|latest: u64| #[trigger]
            call_ensures(AtomicU64::load, (&token, Ordering::SeqCst), latest) && (cancelled
                <==> latest != generation),
        final(tools).steps() == old(tools).steps().push(
            (Step::Checked { cancel_token: token, generation, cancelled }),
        ),
        final(tools).retain_fn() == old(tools).retain_fn(),
        final(tools).analyze_fn() == old(tools).analyze_fn(),
        final(tools).build_fn() == old(tools).build_fn(),
        final(tools).inject_fn() == old(tools).inject_fn(),
{
}

/// Orders for the package cache go to the function that keeps it, all of them in one call.
pub proof fn law_orders_reach_the_cache<
    C: Artifacts,
    R: Fn(Vec<HashSet<AnalysisBucket>>),
    A: Fn(&DocumentSnapshot<C>) -> Result<C::Analysis, C::Report>,
    B: Fn(&DocumentViewSnapshot<C>, Arc<C::Package>) -> Result<C::View, C::Report>,
    I: Fn(JobKind, &String, u64) -> C::Report,
>(tools: &mut Tools<C, R, A, B, I>, orders: Vec<HashSet<AnalysisBucket>>)
    requires
        call_ensures(Tools::<C, R, A, B, I>::order, (tools, orders), ()),
    ensures
        call_ensures(old(tools).retain_fn(), (orders,), ()),
        final(tools).steps() == old(tools).steps().push(Step::Ordered(orders@)),
{
}

/// What the tools return of an analysis, a view or a panic on purpose is what the function
/// returned that they were given for it.
pub proof fn law_tools_return_what_their_functions_did<
    C: Artifacts,
    R: Fn(Vec<HashSet<AnalysisBucket>>),
    A: Fn(&DocumentSnapshot<C>) -> Result<C::Analysis, C::Report>,
    B: Fn(&DocumentViewSnapshot<C>, Arc<C::Package>) -> Result<C::View, C::Report>,
    I: Fn(JobKind, &String, u64) -> C::Report,
>(
    tools: &mut Tools<C, R, A, B, I>,
    snapshot: DocumentSnapshot<C>,
    analyzed: Result<C::Analysis, C::Report>,
    view_snapshot: DocumentViewSnapshot<C>,
    package: Arc<C::Package>,
    built: Result<C::View, C::Report>,
    kind: JobKind,
    uri: String,
    generation: u64,
    report: C::Report,
)
    ensures
        call_ensures(Tools::<C, R, A, B, I>::analyze, (tools, &snapshot), analyzed) ==> {
            &&& call_ensures(old(tools).analyze_fn(), (&snapshot,), analyzed)
            &&& final(tools).steps() == old(tools).steps().push(
                Step::Analyzed { snapshot, outcome: analyzed },
            )
        },
        call_ensures(Tools::<C, R, A, B, I>::build, (tools, &view_snapshot, package), built) ==> {
            &&& call_ensures(old(tools).build_fn(), (&view_snapshot, package), built)
            &&& final(tools).steps() == old(tools).steps().push(
                Step::Built { snapshot: view_snapshot, package, outcome: built },
            )
        },
        call_ensures(
            Tools::<C, R, A, B, I>::inject,
            (tools, kind, &uri, generation),
            report,
        ) ==> {
            &&& call_ensures(old(tools).inject_fn(), (kind, &uri, generation), report)
            &&& final(tools).steps() == old(tools).steps().push(
                Step::Injected { kind, uri, generation, report },
            )
        },
{
}

/// Two buckets are the same if they are of one kind and have one name.
pub proof fn law_buckets_are_told_apart(a: AnalysisBucket, b: AnalysisBucket, same: bool)
    requires
        call_ensures(AnalysisBucket::same, (&a, &b), same),
    ensures
        same <==> match (a, b) {
            (AnalysisBucket::Package { root: x }, AnalysisBucket::Package { root: y }) => x@ == y@,
            (
                AnalysisBucket::UnmanagedDocument { uri: x },
                AnalysisBucket::UnmanagedDocument { uri: y },
            ) => x@ == y@,
            _ => false,
        },
{
}

/// Two package keys are the same if they agree in bucket and in generation.
pub proof fn law_package_keys_are_told_apart(
    a: PackageAnalysisKey,
    b: PackageAnalysisKey,
    same: bool,
)
    requires
        call_ensures(<PackageAnalysisKey as JobKey>::same, (&a, &b), same),
    ensures
        same <==> a@ == b@,
        same <==> a.bucket_generation == b.bucket_generation && match (a.bucket, b.bucket) {
            (AnalysisBucket::Package { root: x }, AnalysisBucket::Package { root: y }) => x@ == y@,
            (
                AnalysisBucket::UnmanagedDocument { uri: x },
                AnalysisBucket::UnmanagedDocument { uri: y },
            ) => x@ == y@,
            _ => false,
        },
{
}

/// Two document view keys are the same if they agree in URI, in generation and in package key.
pub proof fn law_view_keys_are_told_apart(a: DocumentViewKey, b: DocumentViewKey, same: bool)
    requires
        call_ensures(<DocumentViewKey as JobKey>::same, (&a, &b), same),
    ensures
        same <==> a@ == b@,
        same <==> {
            &&& a.uri@ == b.uri@
            &&& a.document_generation == b.document_generation
            &&& a.package.bucket_generation == b.package.bucket_generation
            &&& match (a.package.bucket, b.package.bucket) {
                (AnalysisBucket::Package { root: x }, AnalysisBucket::Package { root: y }) => x@
                    == y@,
                (
                    AnalysisBucket::UnmanagedDocument { uri: x },
                    AnalysisBucket::UnmanagedDocument { uri: y },
                ) => x@ == y@,
                _ => false,
            }
        },
{
}

/// A copy of a key differs from it in nothing.
pub proof fn law_copied_keys_are_the_same(
    bucket: AnalysisBucket,
    bucket_copy: AnalysisBucket,
    package: PackageAnalysisKey,
    package_copy: PackageAnalysisKey,
    view: DocumentViewKey,
    view_copy: DocumentViewKey,
)
    requires
        call_ensures(<AnalysisBucket as Clone>::clone, (&bucket,), bucket_copy),
        call_ensures(<PackageAnalysisKey as Clone>::clone, (&package,), package_copy),
        call_ensures(<DocumentViewKey as Clone>::clone, (&view,), view_copy),
    ensures
        bucket_copy is Package <==> bucket is Package,
        bucket is Package ==> bucket_copy->root@ == bucket->root@,
        bucket is UnmanagedDocument ==> bucket_copy->uri@ == bucket->uri@,
        package_copy.bucket@ == package.bucket@,
        package_copy.bucket_generation == package.bucket_generation,
        view_copy.uri@ == view.uri@,
        view_copy.document_generation == view.document_generation,
        view_copy.package@ == view.package@,
{
}

} // verus!
