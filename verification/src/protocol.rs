//! What goes into the worker and what comes out of it.
use crate::keys::{AnalysisBucket, DocumentViewKey, PackageAnalysisKey};
use std::collections::HashSet;
use std::fmt::Debug;
use std::sync::atomic::AtomicU64;
use std::sync::Arc;
use vstd::prelude::*;

verus! {

/// The compiler's data that jobs carry. The scheduler passes it on and never looks inside.
pub trait Artifacts {
    /// The rest of a document snapshot: its text, its version, the open overlays.
    type Document: Debug;

    /// The rest of a snapshot for a document view.
    type ViewSource: Debug;

    /// A package analysis that document views are built against.
    type Package: Debug;

    /// What a finished package analysis brings.
    type Analysis: Clone + Debug;

    /// What a finished document view brings.
    type View: Debug;

    /// The report of a job that panicked.
    type Report: Debug;
}

/// A document at one generation, to be analyzed with its package.
#[derive(Debug)]
pub struct DocumentSnapshot<C: Artifacts> {
    pub uri: String,
    pub generation: u64,
    pub package_key: PackageAnalysisKey,
    pub view_key: DocumentViewKey,
    pub cancel_token: Arc<AtomicU64>,
    pub document: C::Document,
}

/// A document at one generation, to be viewed through a package analysis.
#[derive(Debug)]
pub struct DocumentViewSnapshot<C: Artifacts> {
    pub uri: String,
    pub key: DocumentViewKey,
    pub cancel_token: Arc<AtomicU64>,
    pub source: C::ViewSource,
}

/// What a job is for.
#[derive(Clone, Copy, Debug, PartialEq, Eq)]
pub enum JobKind {
    /// A package analysis.
    Package,
    /// A document view.
    DocumentView,
}

/// Commands sent from the main thread to the background worker.
#[derive(Debug)]
pub enum WorkerCommand<C: Artifacts> {
    AnalyzePackage(DocumentSnapshot<C>),
    BuildDocumentView { snapshot: DocumentViewSnapshot<C>, package: Arc<C::Package> },
    SetOpenBuckets(HashSet<AnalysisBucket>),
    Shutdown,
}

/// Events sent from the background worker back to the main thread.
#[derive(Debug)]
#[allow(inconsistent_fields)]
pub enum WorkerEvent<C: Artifacts> {
    PackageAnalyzed(PackageAnalysis<C>),
    DocumentViewBuilt(C::View),
    PackageCancelled { key: PackageAnalysisKey, uri: String, generation: u64 },
    DocumentViewCancelled { key: DocumentViewKey },
    PackagePanicked { key: PackageAnalysisKey, uri: String, generation: u64, report: C::Report },
    DocumentViewPanicked { key: DocumentViewKey, report: C::Report },
}

/// Worker-produced semantic state for one document generation.
#[derive(Debug)]
pub struct PackageAnalysis<C: Artifacts> {
    pub uri: String,
    pub generation: u64,
    pub key: PackageAnalysisKey,
    pub result: C::Analysis,
}

impl<C: Artifacts> Clone for PackageAnalysis<C> {
    fn clone(&self) -> (copy: Self)
        ensures
            copy.uri@ == self.uri@,
            copy.generation == self.generation,
            copy.key@ == self.key@,
            cloned(self.result, copy.result),
    {
        PackageAnalysis {
            uri: self.uri.clone(),
            generation: self.generation,
            key: self.key.clone(),
            result: self.result.clone(),
        }
    }
}

/// The announcement that a package job was given up.
pub open spec fn package_cancelled_event<C: Artifacts>(
    snapshot: DocumentSnapshot<C>,
) -> WorkerEvent<C> {
    WorkerEvent::PackageCancelled {
        key: snapshot.package_key,
        uri: snapshot.uri,
        generation: snapshot.generation,
    }
}

/// The announcement that a document view job was given up.
pub open spec fn view_cancelled_event<C: Artifacts>(
    snapshot: DocumentViewSnapshot<C>,
) -> WorkerEvent<C> {
    WorkerEvent::DocumentViewCancelled { key: snapshot.key }
}

/// Announces that a package job is given up.
pub fn package_cancelled<C: Artifacts>(snapshot: DocumentSnapshot<C>) -> (event: WorkerEvent<C>)
    ensures
        event == package_cancelled_event(snapshot),
{
    WorkerEvent::PackageCancelled {
        key: snapshot.package_key,
        uri: snapshot.uri,
        generation: snapshot.generation,
    }
}

/// Announces that a document view job is given up.
pub fn view_cancelled<C: Artifacts>(snapshot: DocumentViewSnapshot<C>) -> (event: WorkerEvent<C>)
    ensures
        event == view_cancelled_event(snapshot),
{
    WorkerEvent::DocumentViewCancelled { key: snapshot.key }
}

} // verus!
