//! Jobs that wait for the worker, at most one per key.
//!
//! Every job carries its arrival number. The newest job is the one to run next, and the oldest
//! is the one to give up when there are too many.
use crate::keys::{DocumentViewKey, JobKey, PackageAnalysisKey, PackageKeyView, ViewKeyView};
use crate::protocol::{Artifacts, DocumentSnapshot, DocumentViewSnapshot};
use std::sync::Arc;
use vstd::prelude::*;

verus! {

/// A job that can wait: it has a key and an arrival number.
pub trait PendingJob: Sized {
    type Key: JobKey;

    spec fn key(&self) -> <Self::Key as View>::V;

    spec fn arrival(&self) -> u64;

    fn job_key(&self) -> (key: &Self::Key)
        ensures
            key@ == self.key(),
    ;

    fn job_sequence(&self) -> (sequence: u64)
        ensures
            sequence == self.arrival(),
    ;
}

/// The value of the keys that jobs of type `J` are filed under.
pub type KeyOf<J> = <<J as PendingJob>::Key as View>::V;

/// A coalesced package job paired with its arrival order.
///
/// At most one waits per URI, and `sequence` preserves global recency so that the most recently
/// updated document runs first.
#[derive(Debug)]
pub struct PendingPackageJob<C: Artifacts> {
    pub sequence: u64,
    pub snapshot: DocumentSnapshot<C>,
}

/// A coalesced document view job paired with its arrival order.
#[derive(Debug)]
pub struct PendingViewJob<C: Artifacts> {
    pub sequence: u64,
    pub snapshot: DocumentViewSnapshot<C>,
    pub package: Arc<C::Package>,
}

impl<C: Artifacts> PendingJob for PendingPackageJob<C> {
    type Key = PackageAnalysisKey;

    open spec fn key(&self) -> <PackageAnalysisKey as View>::V {
        self.snapshot.package_key@
    }

    open spec fn arrival(&self) -> u64 {
        self.sequence
    }

    fn job_key(&self) -> (key: &PackageAnalysisKey) {
        &self.snapshot.package_key
    }

    fn job_sequence(&self) -> (sequence: u64) {
        self.sequence
    }
}

impl<C: Artifacts> PendingJob for PendingViewJob<C> {
    type Key = DocumentViewKey;

    open spec fn key(&self) -> <DocumentViewKey as View>::V {
        self.snapshot.key@
    }

    open spec fn arrival(&self) -> u64 {
        self.sequence
    }

    fn job_key(&self) -> (key: &DocumentViewKey) {
        &self.snapshot.key
    }

    fn job_sequence(&self) -> (sequence: u64) {
        self.sequence
    }
}

/// The job under `k` arrived after all others.
pub open spec fn is_latest<J: PendingJob>(jobs: Map<KeyOf<J>, J>, k: KeyOf<J>) -> bool {
    &&& jobs.contains_key(k)
    &&& forall|other: KeyOf<J>| #[trigger]
        jobs.contains_key(other) ==> jobs[other].arrival() <= jobs[k].arrival()
}

/// The job under `k` arrived before all others.
pub open spec fn is_oldest<J: PendingJob>(jobs: Map<KeyOf<J>, J>, k: KeyOf<J>) -> bool {
    &&& jobs.contains_key(k)
    &&& forall|other: KeyOf<J>| #[trigger]
        jobs.contains_key(other) ==> jobs[k].arrival() <= jobs[other].arrival()
}

/// The key of the job that arrived last.
pub open spec fn latest_key<J: PendingJob>(jobs: Map<KeyOf<J>, J>) -> KeyOf<J> {
    choose|k: KeyOf<J>| is_latest(jobs, k)
}

/// The key of the job that arrived first.
pub open spec fn oldest_key<J: PendingJob>(jobs: Map<KeyOf<J>, J>) -> KeyOf<J> {
    choose|k: KeyOf<J>| is_oldest(jobs, k)
}

/// Each job stands under its own key, and no two arrived together.
pub open spec fn filed<J: PendingJob>(jobs: Map<KeyOf<J>, J>) -> bool {
    &&& jobs.dom().finite()
    &&& forall|k: KeyOf<J>| #[trigger] jobs.contains_key(k) ==> jobs[k].key() == k
    &&& forall|a: KeyOf<J>, b: KeyOf<J>|
        #[trigger] jobs.contains_key(a) && #[trigger] jobs.contains_key(b) && jobs[a].arrival()
            == jobs[b].arrival() ==> a == b
}

/// No job arrived after number `sequence`.
pub open spec fn arrived_by<J: PendingJob>(jobs: Map<KeyOf<J>, J>, sequence: int) -> bool {
    forall|k: KeyOf<J>| #[trigger] jobs.contains_key(k) ==> jobs[k].arrival() <= sequence
}

/// The package job under `k` has to go for this snapshot: it is for the same document, under
/// another key.
pub open spec fn displaced<C: Artifacts>(
    jobs: Map<PackageKeyView, PendingPackageJob<C>>,
    snapshot: DocumentSnapshot<C>,
    k: PackageKeyView,
) -> bool {
    &&& jobs.contains_key(k)
    &&& jobs[k].snapshot.uri@ == snapshot.uri@
    &&& k != snapshot.package_key@
}

/// Whether some package job has to go for this snapshot.
pub open spec fn displaces<C: Artifacts>(
    jobs: Map<PackageKeyView, PendingPackageJob<C>>,
    snapshot: DocumentSnapshot<C>,
) -> bool {
    exists|k: PackageKeyView| displaced(jobs, snapshot, k)
}

/// The key of the package job that has to go for this snapshot.
pub open spec fn displaced_key<C: Artifacts>(
    jobs: Map<PackageKeyView, PendingPackageJob<C>>,
    snapshot: DocumentSnapshot<C>,
) -> PackageKeyView {
    choose|k: PackageKeyView| displaced(jobs, snapshot, k)
}

/// The package jobs that may stay when this snapshot comes.
pub open spec fn undisplaced<C: Artifacts>(
    jobs: Map<PackageKeyView, PendingPackageJob<C>>,
    snapshot: DocumentSnapshot<C>,
) -> Map<PackageKeyView, PendingPackageJob<C>> {
    if displaces(jobs, snapshot) {
        jobs.remove(displaced_key(jobs, snapshot))
    } else {
        jobs
    }
}

/// At most one package job waits per URI.
pub open spec fn one_per_uri<C: Artifacts>(
    jobs: Map<PackageKeyView, PendingPackageJob<C>>,
) -> bool {
    forall|a: PackageKeyView, b: PackageKeyView|
        #[trigger] jobs.contains_key(a) && #[trigger] jobs.contains_key(b)
            && jobs[a].snapshot.uri@ == jobs[b].snapshot.uri@ ==> a == b
}

/// Some job of the list stands under `k`.
spec fn listed<J: PendingJob>(list: Seq<J>, k: KeyOf<J>) -> bool {
    exists|i: int| 0 <= i < list.len() && (#[trigger] list[i]).key() == k
}

/// A job of the list that stands under `k`.
spec fn entry<J: PendingJob>(list: Seq<J>, k: KeyOf<J>) -> J {
    list[choose|i: int| 0 <= i < list.len() && (#[trigger] list[i]).key() == k]
}

/// The list as a map from keys to jobs.
spec fn by_key<J: PendingJob>(list: Seq<J>) -> Map<KeyOf<J>, J> {
    Map::new(|k: KeyOf<J>| listed(list, k), |k: KeyOf<J>| entry(list, k))
}

/// No two jobs of the list share a key.
spec fn one_per_key<J: PendingJob>(list: Seq<J>) -> bool {
    forall|i: int, j: int|
        0 <= i < list.len() && 0 <= j < list.len() && (#[trigger] list[i]).key() == (
        #[trigger] list[j]).key() ==> i == j
}

proof fn lemma_by_key<J: PendingJob>(list: Seq<J>)
    requires
        one_per_key(list),
    ensures
        forall|i: int|
            #![trigger list[i]]
            0 <= i < list.len() ==> by_key(list).contains_key(list[i].key())
                && by_key(list)[list[i].key()] == list[i],
        forall|k: KeyOf<J>| #[trigger]
            by_key(list).contains_key(k) ==> listed(list, k) && by_key(list)[k].key() == k,
        by_key(list).dom().finite(),
        by_key(list).len() == list.len(),
{
    let keys = list.map_values(|job: J| job.key());
    assert(by_key(list).dom() =~= keys.to_set()) by {
        assert forall|k: KeyOf<J>| listed(list, k) implies keys.to_set().contains(k) by {
            let i = choose|i: int| 0 <= i < list.len() && (#[trigger] list[i]).key() == k;
            assert(keys[i] == k);
        }
        assert forall|k: KeyOf<J>| keys.to_set().contains(k) implies listed(list, k) by {
            let i = choose|i: int| 0 <= i < keys.len() && keys[i] == k;
            assert(list[i].key() == k);
        }
    }
    assert(keys.no_duplicates()) by {
        assert forall|i: int, j: int|
            0 <= i < keys.len() && 0 <= j < keys.len() && i != j implies keys[i] != keys[j] by {
            assert(list[i].key() == keys[i] && list[j].key() == keys[j]);
        }
    }
    keys.unique_seq_to_set();
}

proof fn lemma_by_key_remove<J: PendingJob>(list: Seq<J>, at: int)
    requires
        one_per_key(list),
        0 <= at < list.len(),
    ensures
        one_per_key(list.remove(at)),
        by_key(list.remove(at)) == by_key(list).remove(list[at].key()),
{
    let rest = list.remove(at);
    assert forall|i: int, j: int|
        0 <= i < rest.len() && 0 <= j < rest.len() && (#[trigger] rest[i]).key() == (
        #[trigger] rest[j]).key() implies i == j by {
        let a = if i < at { i } else { i + 1 };
        let b = if j < at { j } else { j + 1 };
        assert(rest[i] == list[a] && rest[j] == list[b]);
    }
    lemma_by_key(list);
    lemma_by_key(rest);
    let target = by_key(list).remove(list[at].key());
    assert forall|k: KeyOf<J>| by_key(rest).contains_key(k) == target.contains_key(k) by {
        if listed(rest, k) {
            let i = choose|i: int| 0 <= i < rest.len() && (#[trigger] rest[i]).key() == k;
            let a = if i < at { i } else { i + 1 };
            assert(rest[i] == list[a]);
            assert(list[at].key() != k);
        }
        if target.contains_key(k) {
            let a = choose|i: int| 0 <= i < list.len() && (#[trigger] list[i]).key() == k;
            let i = if a < at { a } else { a - 1 };
            assert(rest[i] == list[a]);
        }
    }
    assert forall|k: KeyOf<J>| by_key(rest).contains_key(k) implies by_key(rest)[k]
        == target[k] by {
        let i = choose|i: int| 0 <= i < rest.len() && (#[trigger] rest[i]).key() == k;
        let a = if i < at { i } else { i + 1 };
        assert(rest[i] == list[a]);
    }
    assert(by_key(rest) =~= target);
}

proof fn lemma_by_key_push<J: PendingJob>(list: Seq<J>, job: J)
    requires
        one_per_key(list),
        !by_key(list).contains_key(job.key()),
    ensures
        one_per_key(list.push(job)),
        by_key(list.push(job)) == by_key(list).insert(job.key(), job),
{
    let longer = list.push(job);
    lemma_by_key(list);
    assert forall|i: int, j: int|
        0 <= i < longer.len() && 0 <= j < longer.len() && (#[trigger] longer[i]).key() == (
        #[trigger] longer[j]).key() implies i == j by {
        if i < list.len() {
            assert(longer[i] == list[i]);
        }
        if j < list.len() {
            assert(longer[j] == list[j]);
        }
    }
    lemma_by_key(longer);
    let target = by_key(list).insert(job.key(), job);
    assert forall|k: KeyOf<J>| by_key(longer).contains_key(k) == target.contains_key(k) by {
        if listed(longer, k) {
            let i = choose|i: int| 0 <= i < longer.len() && (#[trigger] longer[i]).key() == k;
            if i < list.len() {
                assert(longer[i] == list[i]);
            }
        }
        if target.contains_key(k) {
            if k == job.key() {
                assert(longer[list.len() as int].key() == k);
            } else {
                let i = choose|i: int| 0 <= i < list.len() && (#[trigger] list[i]).key() == k;
                assert(longer[i] == list[i]);
            }
        }
    }
    assert forall|k: KeyOf<J>| by_key(longer).contains_key(k) implies by_key(longer)[k]
        == target[k] by {
        let i = choose|i: int| 0 <= i < longer.len() && (#[trigger] longer[i]).key() == k;
        if i < list.len() {
            assert(longer[i] == list[i]);
        }
    }
    assert(by_key(longer) =~= target);
}

/// Jobs that wait, at most one per key.
pub struct PendingJobs<J: PendingJob> {
    list: Vec<J>,
}

/// Waiting package jobs.
pub type PendingPackageJobs<C> = PendingJobs<PendingPackageJob<C>>;

/// Waiting document view jobs.
pub type PendingViewJobs<C> = PendingJobs<PendingViewJob<C>>;

impl<J: PendingJob> View for PendingJobs<J> {
    type V = Map<KeyOf<J>, J>;

    closed spec fn view(&self) -> Map<KeyOf<J>, J> {
        by_key(self.list@)
    }
}

impl<J: PendingJob> PendingJobs<J> {
    /// The jobs are filed under distinct keys and have distinct arrival numbers.
    pub open spec fn wf(&self) -> bool {
        &&& self.listed_once()
        &&& filed(self@)
    }

    /// The list holds no key twice.
    pub closed spec fn listed_once(&self) -> bool {
        one_per_key(self.list@)
    }

    /// No jobs.
    pub fn new() -> (pending: Self)
        ensures
            pending.wf(),
            pending@ == Map::<KeyOf<J>, J>::empty(),
    {
        let pending = PendingJobs { list: Vec::new() };
        proof {
            lemma_by_key(pending.list@);
            assert(pending@ =~= Map::<KeyOf<J>, J>::empty());
        }
        pending
    }

    /// How many jobs wait.
    pub fn len(&self) -> (n: usize)
        requires
            self.wf(),
        ensures
            n == self@.len(),
    {
        proof {
            lemma_by_key(self.list@);
        }
        self.list.len()
    }

    /// Whether no job waits.
    pub fn is_empty(&self) -> (empty: bool)
        requires
            self.wf(),
        ensures
            empty == (self@ == Map::<KeyOf<J>, J>::empty()),
    {
        proof {
            lemma_by_key(self.list@);
            if self.list@.len() == 0 {
                assert(self@ =~= Map::<KeyOf<J>, J>::empty());
            } else {
                assert(self@.contains_key(self.list@[0].key()));
            }
        }
        self.list.len() == 0
    }

    /// The place of a key in the list, or the length of the list.
    fn position(&self, key: &J::Key) -> (at: usize)
        requires
            self.wf(),
        ensures
            at <= self.list@.len(),
            at < self.list@.len() ==> self.list@[at as int].key() == key@,
            at == self.list@.len() ==> !self@.contains_key(key@),
    {
        let mut at: usize = 0;
        while at < self.list.len()
            invariant
                at <= self.list@.len(),
                forall|i: int| 0 <= i < at ==> (#[trigger] self.list@[i]).key() != key@,
            decreases self.list@.len() - at,
        {
            if self.list[at].job_key().same(key) {
                return at;
            }
            at = at + 1;
        }
        at
    }

    /// Whether a job waits under this key.
    pub fn contains_key(&self, key: &J::Key) -> (found: bool)
        requires
            self.wf(),
        ensures
            found == self@.contains_key(key@),
    {
        proof {
            lemma_by_key(self.list@);
        }
        self.position(key) < self.list.len()
    }

    /// Takes the job out that stands at this place.
    fn remove_at(&mut self, at: usize) -> (job: J)
        requires
            old(self).wf(),
            at < old(self).list@.len(),
        ensures
            final(self).wf(),
            job == old(self).list@[at as int],
            old(self)@.contains_key(job.key()),
            old(self)@[job.key()] == job,
            final(self)@ == old(self)@.remove(job.key()),
    {
        proof {
            lemma_by_key(self.list@);
            lemma_by_key_remove(self.list@, at as int);
        }
        self.list.remove(at)
    }

    /// Puts a job under its key, in place of one that waits there.
    pub fn insert(&mut self, job: J)
        requires
            old(self).wf(),
            forall|k: KeyOf<J>| #[trigger]
                old(self)@.contains_key(k) ==> old(self)@[k].arrival() != job.arrival(),
        ensures
            final(self).wf(),
            final(self)@ == old(self)@.insert(job.key(), job),
    {
        let at = self.position(job.job_key());
        if at < self.list.len() {
            let _ = self.remove_at(at);
        }
        proof {
            assert(self@ == old(self)@.remove(job.key())) by {
                if !old(self)@.contains_key(job.key()) {
                    assert(self@ =~= old(self)@.remove(job.key()));
                }
            }
            lemma_by_key_push(self.list@, job);
            assert(self@.insert(job.key(), job) =~= old(self)@.insert(job.key(), job));
        }
        self.list.push(job);
    }

    /// Takes the job out that arrived last.
    pub fn take_latest(&mut self) -> (taken: Option<J>)
        requires
            old(self).wf(),
        ensures
            final(self).wf(),
            taken is None <==> old(self)@ == Map::<KeyOf<J>, J>::empty(),
            taken is None ==> final(self)@ == old(self)@,
            taken matches Some(job) ==> {
                &&& is_latest(old(self)@, latest_key(old(self)@))
                &&& job == old(self)@[latest_key(old(self)@)]
                &&& final(self)@ == old(self)@.remove(latest_key(old(self)@))
            },
    {
        if self.is_empty() {
            return None;
        }
        proof {
            lemma_by_key(self.list@);
            if self.list@.len() == 0 {
                assert(self@ =~= Map::<KeyOf<J>, J>::empty());
            }
        }
        let mut best: usize = 0;
        let mut i: usize = 1;
        while i < self.list.len()
            invariant
                best < i <= self.list@.len(),
                forall|j: int|
                    0 <= j < i ==> (#[trigger] self.list@[j]).arrival()
                        <= self.list@[best as int].arrival(),
            decreases self.list@.len() - i,
        {
            if self.list[i].job_sequence() > self.list[best].job_sequence() {
                best = i;
            }
            i = i + 1;
        }
        proof {
            let k = self.list@[best as int].key();
            assert forall|other: KeyOf<J>| #[trigger] self@.contains_key(other) implies self@[other].arrival()
                <= self@[k].arrival() by {
                let j = choose|j: int|
                    0 <= j < self.list@.len() && (#[trigger] self.list@[j]).key() == other;
                assert(self@[other] == self.list@[j]);
            }
            assert(is_latest(self@, k));
            lemma_latest_key(self@, k);
        }
        Some(self.remove_at(best))
    }

    /// Takes the job out that arrived first.
    pub fn drop_oldest(&mut self) -> (dropped: Option<J>)
        requires
            old(self).wf(),
        ensures
            final(self).wf(),
            dropped is None <==> old(self)@ == Map::<KeyOf<J>, J>::empty(),
            dropped is None ==> final(self)@ == old(self)@,
            dropped matches Some(job) ==> {
                &&& is_oldest(old(self)@, oldest_key(old(self)@))
                &&& job == old(self)@[oldest_key(old(self)@)]
                &&& final(self)@ == old(self)@.remove(oldest_key(old(self)@))
            },
    {
        if self.is_empty() {
            return None;
        }
        proof {
            lemma_by_key(self.list@);
            if self.list@.len() == 0 {
                assert(self@ =~= Map::<KeyOf<J>, J>::empty());
            }
        }
        let mut best: usize = 0;
        let mut i: usize = 1;
        while i < self.list.len()
            invariant
                best < i <= self.list@.len(),
                forall|j: int|
                    0 <= j < i ==> self.list@[best as int].arrival() <= (
                    #[trigger] self.list@[j]).arrival(),
            decreases self.list@.len() - i,
        {
            if self.list[i].job_sequence() < self.list[best].job_sequence() {
                best = i;
            }
            i = i + 1;
        }
        proof {
            let k = self.list@[best as int].key();
            assert forall|other: KeyOf<J>| #[trigger] self@.contains_key(other) implies self@[k].arrival()
                <= self@[other].arrival() by {
                let j = choose|j: int|
                    0 <= j < self.list@.len() && (#[trigger] self.list@[j]).key() == other;
                assert(self@[other] == self.list@[j]);
            }
            assert(is_oldest(self@, k));
            lemma_oldest_key(self@, k);
        }
        Some(self.remove_at(best))
    }
}

impl<C: Artifacts> PendingJobs<PendingPackageJob<C>> {
    /// Takes the job out that waits for the snapshot's document under another key.
    pub fn displace(&mut self, snapshot: &DocumentSnapshot<C>) -> (taken: Option<
        PendingPackageJob<C>,
    >)
        requires
            old(self).wf(),
            one_per_uri(old(self)@),
        ensures
            final(self).wf(),
            final(self)@ == undisplaced(old(self)@, *snapshot),
            taken is Some <==> displaces(old(self)@, *snapshot),
            taken matches Some(job) ==> job == old(self)@[displaced_key(old(self)@, *snapshot)],
    {
        proof {
            lemma_by_key(self.list@);
        }
        let mut at: usize = 0;
        while at < self.list.len()
            invariant
                at <= self.list@.len(),
                self.wf(),
                self@ == old(self)@,
                one_per_uri(self@),
                forall|i: int|
                    0 <= i < at ==> !((#[trigger] self.list@[i]).snapshot.uri@ == snapshot.uri@
                        && self.list@[i].key() != snapshot.package_key@),
            decreases self.list@.len() - at,
        {
            if self.list[at].snapshot.uri == snapshot.uri
                && !self.list[at].snapshot.package_key.same(&snapshot.package_key) {
                proof {
                    lemma_by_key(self.list@);
                    let k = self.list@[at as int].key();
                    assert(displaced(self@, *snapshot, k));
                    assert(displaced_key(self@, *snapshot) == k);
                }
                return Some(self.remove_at(at));
            }
            at = at + 1;
        }
        proof {
            lemma_by_key(self.list@);
            assert forall|k: PackageKeyView| !displaced(self@, *snapshot, k) by {
                if self@.contains_key(k) {
                    let i = choose|i: int|
                        0 <= i < self.list@.len() && (#[trigger] self.list@[i]).key() == k;
                    assert(self@[k] == self.list@[i]);
                }
            }
        }
        None
    }
}

/// Takes the snapshot of the newest package job.
pub fn take_latest_package<C: Artifacts>(pending: &mut PendingPackageJobs<C>) -> (taken: Option<
    DocumentSnapshot<C>,
>)
    requires
        old(pending).wf(),
    ensures
        final(pending).wf(),
        taken is None <==> old(pending)@ == Map::<PackageKeyView, PendingPackageJob<C>>::empty(),
        taken is None ==> final(pending)@ == old(pending)@,
        taken matches Some(snapshot) ==> {
            &&& is_latest(old(pending)@, latest_key(old(pending)@))
            &&& snapshot == old(pending)@[latest_key(old(pending)@)].snapshot
            &&& final(pending)@ == old(pending)@.remove(latest_key(old(pending)@))
        },
{
    match pending.take_latest() {
        Some(job) => Some(job.snapshot),
        None => None,
    }
}

/// Takes the newest document view job, with the package analysis that it is built against.
pub fn take_latest_view<C: Artifacts>(pending: &mut PendingViewJobs<C>) -> (taken: Option<
    (DocumentViewSnapshot<C>, Arc<C::Package>),
>)
    requires
        old(pending).wf(),
    ensures
        final(pending).wf(),
        taken is None <==> old(pending)@ == Map::<ViewKeyView, PendingViewJob<C>>::empty(),
        taken is None ==> final(pending)@ == old(pending)@,
        taken matches Some((snapshot, package)) ==> {
            &&& is_latest(old(pending)@, latest_key(old(pending)@))
            &&& snapshot == old(pending)@[latest_key(old(pending)@)].snapshot
            &&& package == old(pending)@[latest_key(old(pending)@)].package
            &&& final(pending)@ == old(pending)@.remove(latest_key(old(pending)@))
        },
{
    match pending.take_latest() {
        Some(job) => Some((job.snapshot, job.package)),
        None => None,
    }
}

/// Gives up the oldest package job.
pub fn drop_oldest_package<C: Artifacts>(pending: &mut PendingPackageJobs<C>) -> (dropped: Option<
    PendingPackageJob<C>,
>)
    requires
        old(pending).wf(),
    ensures
        final(pending).wf(),
        dropped is None <==> old(pending)@ == Map::<PackageKeyView, PendingPackageJob<C>>::empty(),
        dropped is None ==> final(pending)@ == old(pending)@,
        dropped matches Some(job) ==> {
            &&& is_oldest(old(pending)@, oldest_key(old(pending)@))
            &&& job == old(pending)@[oldest_key(old(pending)@)]
            &&& final(pending)@ == old(pending)@.remove(oldest_key(old(pending)@))
        },
{
    pending.drop_oldest()
}

/// Gives up the oldest document view job.
pub fn drop_oldest_view<C: Artifacts>(pending: &mut PendingViewJobs<C>) -> (dropped: Option<
    PendingViewJob<C>,
>)
    requires
        old(pending).wf(),
    ensures
        final(pending).wf(),
        dropped is None <==> old(pending)@ == Map::<ViewKeyView, PendingViewJob<C>>::empty(),
        dropped is None ==> final(pending)@ == old(pending)@,
        dropped matches Some(job) ==> {
            &&& is_oldest(old(pending)@, oldest_key(old(pending)@))
            &&& job == old(pending)@[oldest_key(old(pending)@)]
            &&& final(pending)@ == old(pending)@.remove(oldest_key(old(pending)@))
        },
{
    pending.drop_oldest()
}

/// Only one job can have arrived last.
pub proof fn lemma_latest_key<J: PendingJob>(jobs: Map<KeyOf<J>, J>, k: KeyOf<J>)
    requires
        filed(jobs),
        is_latest(jobs, k),
    ensures
        latest_key(jobs) == k,
{
    let chosen = latest_key(jobs);
    assert(is_latest(jobs, chosen));
    assert(jobs[chosen].arrival() == jobs[k].arrival());
}

/// Only one job can have arrived first.
pub proof fn lemma_oldest_key<J: PendingJob>(jobs: Map<KeyOf<J>, J>, k: KeyOf<J>)
    requires
        filed(jobs),
        is_oldest(jobs, k),
    ensures
        oldest_key(jobs) == k,
{
    let chosen = oldest_key(jobs);
    assert(is_oldest(jobs, chosen));
    assert(jobs[chosen].arrival() == jobs[k].arrival());
}

} // verus!
