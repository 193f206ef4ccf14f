//! Identities of packages and document views.
//!
//! A key is compared as a whole, and nothing else about it matters to the scheduler. Its view
//! is the mathematical value that takes part in the comparison.
use vstd::prelude::*;

verus! {

/// What a group of documents is analyzed as.
#[derive(Debug, PartialEq, Eq, Hash)]
pub enum AnalysisBucket {
    /// A package on disk, identified by its root directory.
    Package { root: String },
    /// A document that belongs to no package, identified by its URI.
    UnmanagedDocument { uri: String },
}

/// The value of an [`AnalysisBucket`].
pub enum BucketView {
    Package { root: Seq<char> },
    UnmanagedDocument { uri: Seq<char> },
}

/// One generation of one bucket.
#[derive(Debug, PartialEq, Eq, Hash)]
pub struct PackageAnalysisKey {
    pub bucket: AnalysisBucket,
    pub bucket_generation: u64,
}

/// The value of a [`PackageAnalysisKey`].
pub struct PackageKeyView {
    pub bucket: BucketView,
    pub bucket_generation: u64,
}

/// One generation of one document, seen through one package analysis.
#[derive(Debug, PartialEq, Eq, Hash)]
pub struct DocumentViewKey {
    pub uri: String,
    pub document_generation: u64,
    pub package: PackageAnalysisKey,
}

/// The value of a [`DocumentViewKey`].
pub struct ViewKeyView {
    pub uri: Seq<char>,
    pub document_generation: u64,
    pub package: PackageKeyView,
}

impl View for AnalysisBucket {
    type V = BucketView;

    open spec fn view(&self) -> BucketView {
        match self {
            AnalysisBucket::Package { root } => BucketView::Package { root: root@ },
            AnalysisBucket::UnmanagedDocument { uri } => BucketView::UnmanagedDocument {
                uri: uri@,
            },
        }
    }
}

impl View for PackageAnalysisKey {
    type V = PackageKeyView;

    open spec fn view(&self) -> PackageKeyView {
        PackageKeyView { bucket: self.bucket@, bucket_generation: self.bucket_generation }
    }
}

impl View for DocumentViewKey {
    type V = ViewKeyView;

    open spec fn view(&self) -> ViewKeyView {
        ViewKeyView {
            uri: self.uri@,
            document_generation: self.document_generation,
            package: self.package@,
        }
    }
}

impl AnalysisBucket {
    /// Whether two buckets are the same.
    pub fn same(&self, other: &Self) -> (same: bool)
        ensures
            same == (self@ == other@),
    {
        match (self, other) {
            (AnalysisBucket::Package { root: a }, AnalysisBucket::Package { root: b }) => *a == *b,
            (
                AnalysisBucket::UnmanagedDocument { uri: a },
                AnalysisBucket::UnmanagedDocument { uri: b },
            ) => *a == *b,
            _ => false,
        }
    }
}

impl Clone for AnalysisBucket {
    fn clone(&self) -> (copy: Self)
        ensures
            copy@ == self@,
    {
        match self {
            AnalysisBucket::Package { root } => AnalysisBucket::Package { root: root.clone() },
            AnalysisBucket::UnmanagedDocument { uri } => AnalysisBucket::UnmanagedDocument {
                uri: uri.clone(),
            },
        }
    }
}

impl Clone for PackageAnalysisKey {
    fn clone(&self) -> (copy: Self)
        ensures
            copy@ == self@,
    {
        PackageAnalysisKey {
            bucket: self.bucket.clone(),
            bucket_generation: self.bucket_generation,
        }
    }
}

impl Clone for DocumentViewKey {
    fn clone(&self) -> (copy: Self)
        ensures
            copy@ == self@,
    {
        DocumentViewKey {
            uri: self.uri.clone(),
            document_generation: self.document_generation,
            package: self.package.clone(),
        }
    }
}

/// A key that pending jobs are filed under.
pub trait JobKey: View + Sized {
    /// Whether two keys name the same job.
    fn same(&self, other: &Self) -> (same: bool)
        ensures
            same == (self@ == other@),
    ;
}

impl JobKey for PackageAnalysisKey {
    fn same(&self, other: &Self) -> (same: bool) {
        self.bucket_generation == other.bucket_generation && self.bucket.same(&other.bucket)
    }
}

impl JobKey for DocumentViewKey {
    fn same(&self, other: &Self) -> (same: bool) {
        self.document_generation == other.document_generation && self.uri == other.uri
            && self.package.same(&other.package)
    }
}

} // verus!
