use crossbeam_channel::{unbounded, Receiver, Sender};
use leo_lsp_scheduler::cancel::{is_cancelled, is_superseded};
use leo_lsp_scheduler::channel::{Inbox, Outbox, Polled};
use leo_lsp_scheduler::intake::{absorb_command, drain_commands, CacheOrders};
use leo_lsp_scheduler::jobs::{
    package_finished, package_panicked, run_package_job, run_view_job, view_finished,
    view_panicked,
};
use leo_lsp_scheduler::keys::{AnalysisBucket, DocumentViewKey, JobKey, PackageAnalysisKey};
use leo_lsp_scheduler::pending::{
    drop_oldest_package, drop_oldest_view, take_latest_package, take_latest_view,
    PendingPackageJob, PendingPackageJobs, PendingViewJobs,
};
use leo_lsp_scheduler::protocol::{
    package_cancelled, view_cancelled, Artifacts, DocumentSnapshot, DocumentViewSnapshot,
    JobKind, PackageAnalysis, WorkerCommand, WorkerEvent,
};
use leo_lsp_scheduler::scheduler::Scheduler;
use leo_lsp_scheduler::tools::Tools;
use leo_lsp_scheduler::worker::{worker_loop, LoopEnd, RoundEnd, Worker};
use line_index::LineIndex;
use lsp_types::Uri;
use std::cell::{Cell, RefCell};
use std::collections::HashSet;
use std::path::PathBuf;
use std::sync::atomic::{AtomicU64, Ordering};
use std::sync::Arc;
use std::time::Duration;

#[derive(Debug)]
struct Leo;

#[derive(Debug)]
struct Document {
    text: Arc<str>,
    line_index: Arc<LineIndex>,
    version: i32,
    file_path: Option<Arc<PathBuf>>,
}

impl Artifacts for Leo {
    type Document = Document;
    type ViewSource = ();
    type Package = u32;
    type Analysis = String;
    type View = String;
    type Report = String;
}

fn snapshot(uri: &str, generation: u64) -> DocumentSnapshot<Leo> {
    snapshot_with_token(uri, generation, Arc::new(AtomicU64::new(generation)))
}

fn snapshot_with_token(
    uri: &str,
    generation: u64,
    cancel_token: Arc<AtomicU64>,
) -> DocumentSnapshot<Leo> {
    let uri = uri.parse::<Uri>().expect("valid uri").as_str().to_owned();
    let bucket = AnalysisBucket::UnmanagedDocument { uri: uri.clone() };
    let package_key = PackageAnalysisKey { bucket, bucket_generation: generation };
    let view_key = DocumentViewKey {
        uri: uri.clone(),
        document_generation: generation,
        package: package_key.clone(),
    };
    DocumentSnapshot {
        uri,
        generation,
        package_key,
        view_key,
        cancel_token,
        document: Document {
            text: Arc::from("program test.aleo {}"),
            line_index: Arc::new(LineIndex::new("program test.aleo {}")),
            version: generation as i32,
            file_path: Some(Arc::new(PathBuf::from("/tmp/main.leo"))),
        },
    }
}

fn view_snapshot(uri: &str, generation: u64) -> DocumentViewSnapshot<Leo> {
    view_snapshot_with_token(uri, generation, Arc::new(AtomicU64::new(generation)))
}

fn view_snapshot_with_token(
    uri: &str,
    generation: u64,
    cancel_token: Arc<AtomicU64>,
) -> DocumentViewSnapshot<Leo> {
    let key = snapshot(uri, generation).view_key;
    DocumentViewSnapshot { uri: uri.to_owned(), key, cancel_token, source: () }
}

fn tools<R, A, B, I>(retain: R, analyze: A, build: B, inject: I) -> Tools<Leo, R, A, B, I>
where
    R: Fn(Vec<HashSet<AnalysisBucket>>),
    A: Fn(&DocumentSnapshot<Leo>) -> Result<String, String>,
    B: Fn(&DocumentViewSnapshot<Leo>, Arc<u32>) -> Result<String, String>,
    I: Fn(JobKind, &String, u64) -> String,
{
    Tools::new(retain, analyze, build, inject)
}

fn no_cache(_: Vec<HashSet<AnalysisBucket>>) {}

fn no_analysis(_: &DocumentSnapshot<Leo>) -> Result<String, String> {
    panic!("no analysis is asked for")
}

fn no_view(_: &DocumentViewSnapshot<Leo>, _: Arc<u32>) -> Result<String, String> {
    panic!("no view is asked for")
}

/// For jobs that are not to panic on purpose.
fn no_injection(_: JobKind, _: &String, _: u64) -> String {
    panic!("no panic is asked for")
}

fn injected(kind: JobKind, uri: &String, generation: u64) -> String {
    format!("{kind:?} {uri} {generation}: injected worker panic")
}

fn event_sink() -> Outbox<WorkerEvent<Leo>> {
    let (tx, _rx) = unbounded();
    Outbox::new(tx)
}

/// The parts that `absorb_command` works on, with both channel ends at hand.
struct Bench {
    packages: PendingPackageJobs<Leo>,
    views: PendingViewJobs<Leo>,
    sequence: u64,
    orders: CacheOrders,
    event_tx: Outbox<WorkerEvent<Leo>>,
    event_rx: Receiver<WorkerEvent<Leo>>,
}

impl Bench {
    fn new() -> Bench {
        let (tx, rx) = unbounded();
        Bench {
            packages: PendingPackageJobs::new(),
            views: PendingViewJobs::new(),
            sequence: 0,
            orders: CacheOrders::new(),
            event_tx: Outbox::new(tx),
            event_rx: rx,
        }
    }

    fn absorb(&mut self, command: WorkerCommand<Leo>) -> bool {
        absorb_command(
            command,
            &mut self.packages,
            &mut self.views,
            &mut self.sequence,
            &mut self.orders,
            &mut self.event_tx,
        )
    }

    fn package(&mut self, uri: &str, generation: u64) {
        assert!(!self.absorb(WorkerCommand::AnalyzePackage(snapshot(uri, generation))));
    }

    fn view(&mut self, uri: &str, generation: u64, package: u32) {
        assert!(!self.absorb(WorkerCommand::BuildDocumentView {
            snapshot: view_snapshot(uri, generation),
            package: Arc::new(package),
        }));
    }
}

fn uri_of(n: u64) -> String {
    format!("file:///tmp/{n}.leo")
}

fn worker() -> (Sender<WorkerCommand<Leo>>, Receiver<WorkerEvent<Leo>>, Worker<Leo>) {
    let (command_tx, command_rx) = unbounded();
    let (event_tx, event_rx) = unbounded();
    (command_tx, event_rx, Worker::new(command_rx, event_tx, false))
}

fn is_package_cancelled(event: &WorkerEvent<Leo>, of: &str, at: u64) -> bool {
    match event {
        WorkerEvent::PackageCancelled { key, uri, generation } => {
            *key == snapshot(of, at).package_key && uri == of && *generation == at
        }
        _ => false,
    }
}

#[test]
fn coalescing_keeps_latest_snapshot_per_uri() {
    let mut pending = PendingPackageJobs::new();
    let mut pending_views = PendingViewJobs::new();
    let mut sequence = 0;
    let mut cache_orders = CacheOrders::new();
    let mut event_tx = event_sink();
    let uri = "file:///tmp/main.leo";

    assert!(!absorb_command(
        WorkerCommand::AnalyzePackage(snapshot(uri, 1)),
        &mut pending,
        &mut pending_views,
        &mut sequence,
        &mut cache_orders,
        &mut event_tx
    ));
    assert!(!absorb_command(
        WorkerCommand::AnalyzePackage(snapshot(uri, 2)),
        &mut pending,
        &mut pending_views,
        &mut sequence,
        &mut cache_orders,
        &mut event_tx
    ));

    let next = take_latest_package(&mut pending).expect("pending snapshot");
    assert_eq!(next.generation, 2);
}

#[test]
fn latest_updated_document_runs_first() {
    let mut pending = PendingPackageJobs::new();
    let mut pending_views = PendingViewJobs::new();
    let mut sequence = 0;
    let mut cache_orders = CacheOrders::new();
    let mut event_tx = event_sink();

    assert!(!absorb_command(
        WorkerCommand::AnalyzePackage(snapshot("file:///tmp/a.leo", 1)),
        &mut pending,
        &mut pending_views,
        &mut sequence,
        &mut cache_orders,
        &mut event_tx
    ));
    assert!(!absorb_command(
        WorkerCommand::AnalyzePackage(snapshot("file:///tmp/b.leo", 1)),
        &mut pending,
        &mut pending_views,
        &mut sequence,
        &mut cache_orders,
        &mut event_tx
    ));
    assert!(!absorb_command(
        WorkerCommand::AnalyzePackage(snapshot("file:///tmp/a.leo", 2)),
        &mut pending,
        &mut pending_views,
        &mut sequence,
        &mut cache_orders,
        &mut event_tx
    ));

    let next = take_latest_package(&mut pending).expect("pending snapshot");
    assert_eq!(next.uri.as_str(), "file:///tmp/a.leo");
    assert_eq!(next.generation, 2);
}

#[test]
fn stale_snapshot_is_cancelled_before_work_starts() {
    let (mut scheduler, mut worker) = Scheduler::<Leo>::new(false);
    let cancel_token = Arc::new(AtomicU64::new(2));

    scheduler.enqueue_package(snapshot_with_token("file:///tmp/main.leo", 1, cancel_token));
    let mut tools = tools(no_cache, no_analysis, no_view, no_injection);
    let end = worker.round(8, &mut tools);
    assert!(matches!(end, RoundEnd::Worked { ran: true }));

    let event = scheduler.events().recv_timeout(Duration::from_secs(1)).expect("worker event");

    match event {
        WorkerEvent::PackageCancelled { uri, generation, .. } => {
            assert_eq!(uri.as_str(), "file:///tmp/main.leo");
            assert_eq!(generation, 1);
        }
        other => panic!("expected cancelled event, got {other:?}"),
    }

    scheduler.shutdown();
    let end = worker_loop(&mut worker, 8, 8, &mut tools);
    assert!(matches!(end, LoopEnd::Stopped));
}

#[test]
fn snapshots_keep_what_they_carry() {
    let mut bench = Bench::new();
    bench.package("file:///tmp/main.leo", 7);
    let next = take_latest_package(&mut bench.packages).expect("pending snapshot");
    assert_eq!(&*next.document.text, "program test.aleo {}");
    assert_eq!(next.document.line_index.line_col(8.into()).col, 8);
    assert_eq!(next.document.version, 7);
    assert_eq!(next.document.file_path, Some(Arc::new(PathBuf::from("/tmp/main.leo"))));
    assert_eq!(next.view_key.document_generation, 7);
    assert!(take_latest_package(&mut bench.packages).is_none());
}

#[test]
fn one_generation_is_coalesced_to_its_last_snapshot() {
    let mut bench = Bench::new();
    for version in 1..=5 {
        let mut next = snapshot("file:///tmp/main.leo", 1);
        next.document.version = version;
        assert!(!bench.absorb(WorkerCommand::AnalyzePackage(next)));
    }
    assert_eq!(bench.packages.len(), 1);
    assert_eq!(bench.sequence, 5);
    let next = take_latest_package(&mut bench.packages).expect("pending snapshot");
    assert_eq!(next.document.version, 5);
    assert!(bench.packages.is_empty());
    assert!(bench.event_rx.try_recv().is_err());
}

#[test]
fn newer_generation_displaces_the_older_one_of_its_uri() {
    let mut bench = Bench::new();
    bench.package("file:///tmp/main.leo", 1);
    bench.package("file:///tmp/other.leo", 1);
    bench.package("file:///tmp/main.leo", 2);
    assert_eq!(bench.packages.len(), 2);
    assert!(!bench.packages.contains_key(&snapshot("file:///tmp/main.leo", 1).package_key));
    assert!(bench.packages.contains_key(&snapshot("file:///tmp/main.leo", 2).package_key));
    assert!(bench.packages.contains_key(&snapshot("file:///tmp/other.leo", 1).package_key));
    // An older generation that comes later displaces the newer one just so.
    bench.package("file:///tmp/main.leo", 1);
    assert_eq!(bench.packages.len(), 2);
    let next = take_latest_package(&mut bench.packages).expect("pending snapshot");
    assert_eq!((next.uri.as_str(), next.generation), ("file:///tmp/main.leo", 1));
    // Both displaced jobs were announced, and nothing else.
    for generation in [1, 2] {
        let event = bench.event_rx.try_recv().expect("cancellation");
        assert!(is_package_cancelled(&event, "file:///tmp/main.leo", generation));
    }
    assert!(bench.event_rx.try_recv().is_err());
}

#[test]
fn one_pending_snapshot_is_left_of_two_generations() {
    let mut bench = Bench::new();
    bench.package("file:///tmp/main.leo", 1);
    bench.package("file:///tmp/main.leo", 2);
    assert_eq!(bench.packages.len(), 1);
    let next = take_latest_package(&mut bench.packages).expect("pending snapshot");
    assert_eq!(next.generation, 2);
    assert!(bench.packages.is_empty());
}

#[test]
fn snapshots_of_one_package_coalesce_across_its_documents() {
    let mut bench = Bench::new();
    let package_key = PackageAnalysisKey {
        bucket: AnalysisBucket::Package { root: "/tmp/pkg".to_owned() },
        bucket_generation: 1,
    };
    for uri in ["file:///tmp/pkg/a.leo", "file:///tmp/pkg/b.leo"] {
        let next = DocumentSnapshot { package_key: package_key.clone(), ..snapshot(uri, 1) };
        assert!(!bench.absorb(WorkerCommand::AnalyzePackage(next)));
    }
    assert_eq!(bench.packages.len(), 1);
    let next = take_latest_package(&mut bench.packages).expect("pending snapshot");
    assert_eq!(next.uri, "file:///tmp/pkg/b.leo");
}

#[test]
fn displaced_snapshot_makes_room() {
    let mut bench = Bench::new();
    for n in 0..16 {
        bench.package(&uri_of(n), 1);
    }
    bench.package(&uri_of(5), 2);
    assert_eq!(bench.packages.len(), 16);
    let event = bench.event_rx.try_recv().expect("cancellation");
    assert!(is_package_cancelled(&event, &uri_of(5), 1));
    assert!(bench.event_rx.try_recv().is_err());
    assert!(bench.packages.contains_key(&snapshot(&uri_of(0), 1).package_key));
}

#[test]
fn oldest_snapshot_displaced_from_full_queue_is_cancelled_once() {
    let mut bench = Bench::new();
    for n in 0..16 {
        bench.package(&uri_of(n), 1);
    }
    bench.package(&uri_of(0), 2);
    assert_eq!(bench.packages.len(), 16);
    let event = bench.event_rx.try_recv().expect("cancellation");
    assert!(is_package_cancelled(&event, &uri_of(0), 1));
    assert!(bench.event_rx.try_recv().is_err());
    assert!(!bench.packages.contains_key(&snapshot(&uri_of(0), 1).package_key));
    for n in 1..16 {
        assert!(bench.packages.contains_key(&snapshot(&uri_of(n), 1).package_key));
    }
    let next = take_latest_package(&mut bench.packages).expect("pending snapshot");
    assert_eq!((next.uri, next.generation), (uri_of(0), 2));
}

#[test]
fn snapshot_can_replace_one_job_and_displace_another() {
    let mut bench = Bench::new();
    bench.package("file:///tmp/a.leo", 1);
    bench.package("file:///tmp/b.leo", 1);
    // The second document moves to the key of the first.
    let package_key = snapshot("file:///tmp/a.leo", 1).package_key;
    let next = DocumentSnapshot { package_key, ..snapshot("file:///tmp/b.leo", 2) };
    assert!(!bench.absorb(WorkerCommand::AnalyzePackage(next)));
    assert_eq!(bench.packages.len(), 1);
    let event = bench.event_rx.try_recv().expect("cancellation");
    assert!(is_package_cancelled(&event, "file:///tmp/b.leo", 1));
    assert!(bench.event_rx.try_recv().is_err());
    let next = take_latest_package(&mut bench.packages).expect("pending snapshot");
    assert_eq!((next.uri.as_str(), next.generation), ("file:///tmp/b.leo", 2));
}

#[test]
fn overfull_queue_gives_up_no_job_for_a_replacement() {
    let mut bench = Bench::new();
    for n in 0..17 {
        bench.packages.insert(PendingPackageJob {
            sequence: n + 1,
            snapshot: snapshot(&uri_of(n), 1),
        });
    }
    bench.sequence = 17;
    bench.package(&uri_of(5), 1);
    assert_eq!(bench.packages.len(), 17);
    assert!(bench.event_rx.try_recv().is_err());
    // A displaced job and the oldest one go where the queue is over-full even without the former.
    bench.package(&uri_of(6), 2);
    assert_eq!(bench.packages.len(), 16);
    let event = bench.event_rx.try_recv().expect("cancellation");
    assert!(is_package_cancelled(&event, &uri_of(6), 1));
    let event = bench.event_rx.try_recv().expect("cancellation");
    assert!(is_package_cancelled(&event, &uri_of(0), 1));
    assert!(bench.event_rx.try_recv().is_err());
}

#[test]
fn packages_are_taken_newest_first() {
    let mut bench = Bench::new();
    for n in [3, 1, 2] {
        bench.package(&uri_of(n), 1);
    }
    bench.package(&uri_of(3), 1);
    for n in [3, 2, 1] {
        let next = take_latest_package(&mut bench.packages).expect("pending snapshot");
        assert_eq!(next.uri, uri_of(n));
    }
    assert!(take_latest_package(&mut bench.packages).is_none());
}

#[test]
fn views_are_taken_newest_first_with_their_package() {
    let mut bench = Bench::new();
    bench.view("file:///tmp/a.leo", 1, 10);
    bench.view("file:///tmp/b.leo", 1, 20);
    bench.view("file:///tmp/a.leo", 1, 30);
    assert_eq!(bench.views.len(), 2);
    let (next, package) = take_latest_view(&mut bench.views).expect("pending view");
    assert_eq!((next.uri.as_str(), *package), ("file:///tmp/a.leo", 30));
    let (next, package) = take_latest_view(&mut bench.views).expect("pending view");
    assert_eq!((next.uri.as_str(), *package), ("file:///tmp/b.leo", 20));
    assert!(take_latest_view(&mut bench.views).is_none());
}

#[test]
fn oldest_jobs_are_dropped_first() {
    let mut bench = Bench::new();
    bench.package("file:///tmp/a.leo", 1);
    bench.package("file:///tmp/b.leo", 1);
    bench.view("file:///tmp/a.leo", 1, 1);
    bench.view("file:///tmp/b.leo", 1, 2);
    bench.view("file:///tmp/a.leo", 1, 3);
    let dropped = drop_oldest_package(&mut bench.packages).expect("pending package");
    assert_eq!((dropped.sequence, dropped.snapshot.uri.as_str()), (1, "file:///tmp/a.leo"));
    let dropped = drop_oldest_view(&mut bench.views).expect("pending view");
    assert_eq!((dropped.sequence, dropped.snapshot.uri.as_str()), (4, "file:///tmp/b.leo"));
    assert!(drop_oldest_package(&mut bench.packages).is_some());
    assert!(drop_oldest_package(&mut bench.packages).is_none());
    assert!(drop_oldest_view(&mut bench.views).is_some());
    assert!(drop_oldest_view(&mut bench.views).is_none());
}

#[test]
fn seventeenth_package_cancels_the_oldest() {
    let mut bench = Bench::new();
    for n in 0..16 {
        bench.package(&uri_of(n), 1);
    }
    assert!(bench.event_rx.try_recv().is_err());
    // The first one is renewed, so the second one is the oldest now.
    bench.package(&uri_of(0), 1);
    assert_eq!(bench.packages.len(), 16);
    assert!(bench.event_rx.try_recv().is_err());

    bench.package(&uri_of(16), 1);
    assert_eq!(bench.packages.len(), 16);
    let event = bench.event_rx.try_recv().expect("cancellation");
    assert!(is_package_cancelled(&event, &uri_of(1), 1));
    assert!(bench.event_rx.try_recv().is_err());
    assert!(!bench.packages.contains_key(&snapshot(&uri_of(1), 1).package_key));
    assert!(bench.packages.contains_key(&snapshot(&uri_of(16), 1).package_key));
}

#[test]
fn sixty_fifth_view_cancels_the_oldest() {
    let mut bench = Bench::new();
    for n in 0..64 {
        bench.view(&uri_of(n), 1, 0);
    }
    assert!(bench.event_rx.try_recv().is_err());
    bench.view(&uri_of(64), 1, 0);
    assert_eq!(bench.views.len(), 64);
    match bench.event_rx.try_recv().expect("cancellation") {
        WorkerEvent::DocumentViewCancelled { key } => {
            assert_eq!(key, view_snapshot(&uri_of(0), 1).key);
        }
        _ => panic!("expected a cancelled view"),
    }
    assert!(bench.event_rx.try_recv().is_err());
}

#[test]
fn other_commands_leave_the_jobs_alone() {
    let mut bench = Bench::new();
    bench.package("file:///tmp/a.leo", 1);
    bench.view("file:///tmp/a.leo", 1, 1);
    let open = AnalysisBucket::Package { root: "/tmp/pkg".to_owned() };
    assert!(!bench.absorb(WorkerCommand::SetOpenBuckets(HashSet::from([open.clone()]))));
    assert!(!bench.absorb(WorkerCommand::SetOpenBuckets(HashSet::new())));
    assert!(bench.absorb(WorkerCommand::Shutdown));
    assert_eq!((bench.packages.len(), bench.views.len(), bench.sequence), (1, 1, 2));
    assert_eq!(bench.orders.take(), vec![HashSet::from([open]), HashSet::new()]);
    assert_eq!(bench.orders.take(), vec![]);
    assert!(bench.event_rx.try_recv().is_err());
}

#[test]
fn keys_differ_in_every_part() {
    let key = |root: &str, generation| PackageAnalysisKey {
        bucket: AnalysisBucket::Package { root: root.to_owned() },
        bucket_generation: generation,
    };
    let unmanaged = PackageAnalysisKey {
        bucket: AnalysisBucket::UnmanagedDocument { uri: "a".to_owned() },
        bucket_generation: 1,
    };
    assert!(key("a", 1).same(&key("a", 1)));
    assert!(key("a", 1).clone().same(&key("a", 1)));
    assert!(!key("a", 1).same(&key("b", 1)));
    assert!(!key("a", 1).same(&key("a", 2)));
    assert!(!key("a", 1).same(&unmanaged));
    assert!(unmanaged.same(&unmanaged.clone()));

    let view = |uri: &str, generation, package| DocumentViewKey {
        uri: uri.to_owned(),
        document_generation: generation,
        package,
    };
    assert!(view("u", 1, key("a", 1)).same(&view("u", 1, key("a", 1))));
    assert!(view("u", 1, key("a", 1)).clone().same(&view("u", 1, key("a", 1))));
    assert!(!view("u", 1, key("a", 1)).same(&view("v", 1, key("a", 1))));
    assert!(!view("u", 1, key("a", 1)).same(&view("u", 2, key("a", 1))));
    assert!(!view("u", 1, key("a", 1)).same(&view("u", 1, key("a", 2))));
}

#[test]
fn any_other_generation_cancels() {
    let token = AtomicU64::new(5);
    assert!(!is_cancelled(&token, 5));
    assert!(is_cancelled(&token, 4));
    assert!(is_cancelled(&token, 6));
    token.store(6, Ordering::SeqCst);
    assert!(!is_cancelled(&token, 6));
    assert!(is_superseded(2, 1) && is_superseded(0, 1) && !is_superseded(1, 1));
}

#[test]
fn channel_ends_pass_messages_on() {
    let (tx, rx) = unbounded();
    let mut outbox = Outbox::new(tx);
    let mut inbox = Inbox::new(rx);
    assert!(matches!(inbox.poll(), Polled::Empty));
    outbox.send(1);
    outbox.send(2);
    assert!(matches!(inbox.poll(), Polled::Message(1)));
    assert!(matches!(inbox.wait(), Polled::Message(2)));
    drop(outbox);
    assert!(matches!(inbox.poll(), Polled::Disconnected));
    assert!(matches!(inbox.wait(), Polled::Disconnected));
}

#[test]
fn current_package_is_analyzed() {
    let mut bench = Bench::new();
    let analyze = |s: &DocumentSnapshot<Leo>| Ok(format!("analysis of {}", s.uri));
    run_package_job(
        snapshot("file:///tmp/main.leo", 3),
        &mut bench.event_tx,
        false,
        &mut tools(no_cache, analyze, no_view, no_injection),
    );
    match bench.event_rx.try_recv().expect("answer") {
        WorkerEvent::PackageAnalyzed(analysis) => {
            assert_eq!(analysis.uri, "file:///tmp/main.leo");
            assert_eq!(analysis.generation, 3);
            assert_eq!(analysis.key, snapshot("file:///tmp/main.leo", 3).package_key);
            assert_eq!(analysis.result, "analysis of file:///tmp/main.leo");
            let copy: PackageAnalysis<Leo> = analysis.clone();
            assert_eq!((copy.uri, copy.generation), (analysis.uri, analysis.generation));
            assert_eq!((copy.key, copy.result), (analysis.key, analysis.result));
        }
        _ => panic!("expected an analysis"),
    }
    assert!(bench.event_rx.try_recv().is_err());
}

#[test]
fn package_overtaken_during_analysis_is_cancelled() {
    let mut bench = Bench::new();
    let token = Arc::new(AtomicU64::new(3));
    let commit = token.clone();
    let analyze = move |_: &DocumentSnapshot<Leo>| {
        commit.store(4, Ordering::SeqCst);
        Ok("outdated".to_owned())
    };
    run_package_job(
        snapshot_with_token("file:///tmp/main.leo", 3, token),
        &mut bench.event_tx,
        false,
        &mut tools(no_cache, analyze, no_view, no_injection),
    );
    let event = bench.event_rx.try_recv().expect("answer");
    assert!(is_package_cancelled(&event, "file:///tmp/main.leo", 3));
    assert!(bench.event_rx.try_recv().is_err());
}

#[test]
fn package_panic_is_reported_even_when_overtaken() {
    let mut bench = Bench::new();
    let token = Arc::new(AtomicU64::new(3));
    let commit = token.clone();
    let analyze = move |_: &DocumentSnapshot<Leo>| {
        commit.store(4, Ordering::SeqCst);
        Err("index out of bounds".to_owned())
    };
    run_package_job(
        snapshot_with_token("file:///tmp/main.leo", 3, token),
        &mut bench.event_tx,
        false,
        &mut tools(no_cache, analyze, no_view, no_injection),
    );
    match bench.event_rx.try_recv().expect("answer") {
        WorkerEvent::PackagePanicked { key, uri, generation, report } => {
            assert_eq!(key, snapshot("file:///tmp/main.leo", 3).package_key);
            assert_eq!(uri, "file:///tmp/main.leo");
            assert_eq!(generation, 3);
            assert_eq!(report, "index out of bounds");
        }
        _ => panic!("expected a panic report"),
    }
}

#[test]
fn injected_panic_takes_the_place_of_the_analysis() {
    let mut bench = Bench::new();
    run_package_job(
        snapshot("file:///tmp/main.leo", 1),
        &mut bench.event_tx,
        true,
        &mut tools(no_cache, no_analysis, no_view, injected),
    );
    match bench.event_rx.try_recv().expect("answer") {
        WorkerEvent::PackagePanicked { key, uri, generation, report } => {
            assert_eq!(key, snapshot("file:///tmp/main.leo", 1).package_key);
            assert_eq!((uri.as_str(), generation), ("file:///tmp/main.leo", 1));
            assert_eq!(report, "Package file:///tmp/main.leo 1: injected worker panic");
        }
        other => panic!("expected a panic report, got {other:?}"),
    }
    assert!(bench.event_rx.try_recv().is_err());

    // A stale job is cancelled all the same.
    run_package_job(
        snapshot_with_token("file:///tmp/main.leo", 1, Arc::new(AtomicU64::new(2))),
        &mut bench.event_tx,
        true,
        &mut tools(no_cache, no_analysis, no_view, no_injection),
    );
    let event = bench.event_rx.try_recv().expect("answer");
    assert!(is_package_cancelled(&event, "file:///tmp/main.leo", 1));
}

#[test]
fn injected_panics_do_not_end_the_worker() {
    let (command_tx, command_rx) = unbounded();
    let (event_tx, rx) = unbounded();
    let mut worker = Worker::<Leo>::new(command_rx, event_tx, true);
    let mut tools = tools(no_cache, no_analysis, no_view, injected);
    for uri in ["file:///tmp/a.leo", "file:///tmp/b.leo"] {
        command_tx.send(WorkerCommand::AnalyzePackage(snapshot(uri, 1))).unwrap();
        let end = worker.round(8, &mut tools);
        assert!(matches!(end, RoundEnd::Worked { ran: true }));
    }
    command_tx.send(WorkerCommand::Shutdown).unwrap();
    let end = worker_loop(&mut worker, 8, 8, &mut tools);
    assert!(matches!(end, LoopEnd::Stopped));
    for of in ["file:///tmp/a.leo", "file:///tmp/b.leo"] {
        assert!(matches!(
            rx.try_recv(),
            Ok(WorkerEvent::PackagePanicked { uri, generation: 1, .. }) if uri == of
        ));
    }
    assert!(rx.try_recv().is_err());
}

#[test]
fn view_jobs_are_answered_in_each_way() {
    let mut bench = Bench::new();
    let uri = "file:///tmp/main.leo";
    let build = |s: &DocumentViewSnapshot<Leo>, package: Arc<u32>| {
        Ok(format!("{} through {package}", s.uri))
    };

    run_view_job(
        view_snapshot(uri, 1),
        Arc::new(9),
        &mut bench.event_tx,
        false,
        &mut tools(no_cache, no_analysis, build, no_injection),
    );
    match bench.event_rx.try_recv().expect("answer") {
        WorkerEvent::DocumentViewBuilt(view) => {
            assert_eq!(view, "file:///tmp/main.leo through 9");
        }
        other => panic!("expected a view, got {other:?}"),
    }

    run_view_job(
        view_snapshot_with_token(uri, 1, Arc::new(AtomicU64::new(2))),
        Arc::new(9),
        &mut bench.event_tx,
        false,
        &mut tools(no_cache, no_analysis, no_view, no_injection),
    );
    match bench.event_rx.try_recv().expect("answer") {
        WorkerEvent::DocumentViewCancelled { key } => assert_eq!(key, view_snapshot(uri, 1).key),
        other => panic!("expected a cancelled view, got {other:?}"),
    }

    let token = Arc::new(AtomicU64::new(1));
    let overtaken = |_: &DocumentViewSnapshot<Leo>, _: Arc<u32>| {
        token.store(2, Ordering::SeqCst);
        Ok("outdated".to_owned())
    };
    run_view_job(
        view_snapshot_with_token(uri, 1, token.clone()),
        Arc::new(9),
        &mut bench.event_tx,
        false,
        &mut tools(no_cache, no_analysis, overtaken, no_injection),
    );
    assert!(matches!(
        bench.event_rx.try_recv().expect("answer"),
        WorkerEvent::DocumentViewCancelled { .. }
    ));

    run_view_job(
        view_snapshot(uri, 1),
        Arc::new(9),
        &mut bench.event_tx,
        false,
        &mut tools(
            no_cache,
            no_analysis,
            |_, _| Err("index out of bounds".to_owned()),
            no_injection,
        ),
    );
    match bench.event_rx.try_recv().expect("answer") {
        WorkerEvent::DocumentViewPanicked { key, report } => {
            assert_eq!(key, view_snapshot(uri, 1).key);
            assert_eq!(report, "index out of bounds");
        }
        other => panic!("expected a panic report, got {other:?}"),
    }

    run_view_job(
        view_snapshot(uri, 1),
        Arc::new(9),
        &mut bench.event_tx,
        true,
        &mut tools(no_cache, no_analysis, no_view, injected),
    );
    match bench.event_rx.try_recv().expect("answer") {
        WorkerEvent::DocumentViewPanicked { key, report } => {
            assert_eq!(key, view_snapshot(uri, 1).key);
            assert_eq!(report, "DocumentView file:///tmp/main.leo 1: injected worker panic");
        }
        other => panic!("expected a panic report, got {other:?}"),
    }
    assert!(bench.event_rx.try_recv().is_err());
}

#[test]
fn answers_follow_from_their_parts() {
    let uri = "file:///tmp/main.leo";
    assert!(is_package_cancelled(&package_cancelled(snapshot(uri, 1)), uri, 1));
    let event = package_finished(snapshot(uri, 1), "r".to_owned(), true);
    assert!(is_package_cancelled(&event, uri, 1));
    assert!(matches!(
        package_finished(snapshot(uri, 1), "r".to_owned(), false),
        WorkerEvent::PackageAnalyzed(a) if a.result == "r" && a.generation == 1
    ));
    assert!(matches!(
        package_panicked(snapshot(uri, 1), "p".to_owned()),
        WorkerEvent::PackagePanicked { generation: 1, report, .. } if report == "p"
    ));
    assert!(matches!(
        view_cancelled(view_snapshot(uri, 1)),
        WorkerEvent::DocumentViewCancelled { key } if key == view_snapshot(uri, 1).key
    ));
    assert!(matches!(
        view_finished(view_snapshot(uri, 1), "v".to_owned(), true),
        WorkerEvent::DocumentViewCancelled { .. }
    ));
    assert!(matches!(
        view_finished(view_snapshot(uri, 1), "v".to_owned(), false),
        WorkerEvent::DocumentViewBuilt(v) if v == "v"
    ));
    assert!(matches!(
        view_panicked(view_snapshot(uri, 1), "p".to_owned()),
        WorkerEvent::DocumentViewPanicked { report, .. } if report == "p"
    ));
}

#[test]
fn draining_stops_at_its_limit_at_shutdown_and_when_disconnected() {
    let mut bench = Bench::new();
    let (tx, rx) = unbounded();
    let mut inbox = Inbox::new(rx);
    let mut drain = |bench: &mut Bench, limit: u64| {
        drain_commands(
            &mut inbox,
            limit,
            &mut bench.packages,
            &mut bench.views,
            &mut bench.sequence,
            &mut bench.orders,
            &mut bench.event_tx,
        )
    };
    assert_eq!(drain(&mut bench, 4), Some(false));
    for n in 0..3 {
        tx.send(WorkerCommand::AnalyzePackage(snapshot(&uri_of(n), 1))).unwrap();
    }
    assert_eq!(drain(&mut bench, 0), None);
    assert_eq!(drain(&mut bench, 2), None);
    assert_eq!(bench.packages.len(), 2);
    assert_eq!(drain(&mut bench, 2), Some(false));
    assert_eq!(bench.packages.len(), 3);

    tx.send(WorkerCommand::AnalyzePackage(snapshot(&uri_of(3), 1))).unwrap();
    tx.send(WorkerCommand::Shutdown).unwrap();
    tx.send(WorkerCommand::AnalyzePackage(snapshot(&uri_of(4), 1))).unwrap();
    assert_eq!(drain(&mut bench, 9), Some(true));
    assert_eq!((bench.packages.len(), bench.sequence), (4, 4));
    drop(tx);
    assert_eq!(drain(&mut bench, 9), Some(true));
    assert_eq!((bench.packages.len(), bench.sequence), (5, 5));
}

#[test]
fn draining_is_absorbing_one_by_one_up_to_shutdown() {
    let commands = || {
        let mut commands = vec![];
        for n in 0..18 {
            commands.push(WorkerCommand::AnalyzePackage(snapshot(&uri_of(n), 1)));
        }
        commands.push(WorkerCommand::AnalyzePackage(snapshot(&uri_of(9), 2)));
        commands.push(WorkerCommand::BuildDocumentView {
            snapshot: view_snapshot(&uri_of(9), 2),
            package: Arc::new(3),
        });
        commands.push(WorkerCommand::SetOpenBuckets(HashSet::new()));
        commands.push(WorkerCommand::Shutdown);
        commands.push(WorkerCommand::AnalyzePackage(snapshot(&uri_of(30), 1)));
        commands.push(WorkerCommand::Shutdown);
        commands
    };
    let mut one_by_one = Bench::new();
    for command in commands() {
        if one_by_one.absorb(command) {
            break;
        }
    }

    for limit in [1, 5, 22, 100] {
        let mut drained = Bench::new();
        let (tx, rx) = unbounded();
        for command in commands() {
            tx.send(command).unwrap();
        }
        let left = rx.clone();
        let mut inbox = Inbox::new(rx);
        let mut end = None;
        while end.is_none() {
            end = drain_commands(
                &mut inbox,
                limit,
                &mut drained.packages,
                &mut drained.views,
                &mut drained.sequence,
                &mut drained.orders,
                &mut drained.event_tx,
            );
        }
        assert_eq!(end, Some(true));
        assert_eq!(left.len(), 2);
        assert_eq!(drained.sequence, one_by_one.sequence);
        assert_eq!(drained.packages.len(), 16);
        for n in 2..18 {
            let at = if n == 9 { 2 } else { 1 };
            let key = snapshot(&uri_of(n), at).package_key;
            assert!(drained.packages.contains_key(&key) && one_by_one.packages.contains_key(&key));
        }
        assert_eq!((drained.views.len(), one_by_one.views.len()), (1, 1));
        assert_eq!(drained.orders.take(), vec![HashSet::new()]);
        for n in [0, 1, 9] {
            let event = drained.event_rx.try_recv().expect("cancellation");
            assert!(is_package_cancelled(&event, &uri_of(n), 1));
        }
        assert!(drained.event_rx.try_recv().is_err());
    }
    assert_eq!(one_by_one.event_rx.len(), 3);
}

#[test]
fn worker_runs_packages_before_views_and_the_newest_first() {
    let (tx, rx, mut worker) = worker();
    let view = |uri: &str| WorkerCommand::BuildDocumentView {
        snapshot: view_snapshot(uri, 1),
        package: Arc::new(5),
    };
    tx.send(view("file:///tmp/a.leo")).unwrap();
    tx.send(WorkerCommand::AnalyzePackage(snapshot("file:///tmp/a.leo", 1))).unwrap();
    tx.send(WorkerCommand::AnalyzePackage(snapshot("file:///tmp/b.leo", 1))).unwrap();
    tx.send(view("file:///tmp/b.leo")).unwrap();

    let end = worker_loop(
        &mut worker,
        4,
        8,
        &mut tools(
            no_cache,
            |s| Ok(s.uri.clone()),
            |s, package| Ok(format!("{} {package}", s.uri)),
            no_injection,
        ),
    );
    assert!(matches!(end, LoopEnd::RoundsSpent));

    let mut answers = vec![];
    while let Ok(event) = rx.try_recv() {
        answers.push(match event {
            WorkerEvent::PackageAnalyzed(analysis) => analysis.result,
            WorkerEvent::DocumentViewBuilt(view) => view,
            _ => panic!("unexpected event"),
        });
    }
    assert_eq!(
        answers,
        vec![
            "file:///tmp/b.leo",
            "file:///tmp/a.leo",
            "file:///tmp/b.leo 5",
            "file:///tmp/a.leo 5"
        ]
    );
}

#[test]
fn worker_takes_in_all_commands_before_it_works() {
    let (tx, rx, mut worker) = worker();
    for n in 0..3 {
        tx.send(WorkerCommand::AnalyzePackage(snapshot(&uri_of(n), 1))).unwrap();
    }
    let mut idle = tools(no_cache, no_analysis, no_view, no_injection);
    // One command is waited for, one is drained, and one is left.
    let end = worker.round(1, &mut idle);
    assert!(matches!(end, RoundEnd::MoreCommands));
    let end = worker.round(1, &mut idle);
    assert!(matches!(end, RoundEnd::MoreCommands));
    assert_eq!(worker.sequence(), 3);
    let mut busy = tools(no_cache, |s| Ok(s.uri.clone()), no_view, no_injection);
    let end = worker.round(1, &mut busy);
    assert!(matches!(end, RoundEnd::Worked { ran: true }));
    assert!(matches!(
        rx.try_recv(),
        Ok(WorkerEvent::PackageAnalyzed(analysis)) if analysis.result == uri_of(2)
    ));
    assert!(rx.try_recv().is_err());
}

#[test]
fn cache_gets_its_orders_before_the_next_analysis() {
    let (tx, _rx, mut worker) = worker();
    let open = HashSet::from([AnalysisBucket::Package { root: "/tmp/pkg".to_owned() }]);
    tx.send(WorkerCommand::SetOpenBuckets(open.clone())).unwrap();
    tx.send(WorkerCommand::AnalyzePackage(snapshot("file:///tmp/a.leo", 1))).unwrap();
    tx.send(WorkerCommand::SetOpenBuckets(HashSet::new())).unwrap();

    let given = RefCell::new(vec![]);
    let analyzed = Cell::new(false);
    let end = worker.round(
        8,
        &mut tools(
            |orders| given.borrow_mut().extend(orders),
            |_| {
                assert_eq!(given.borrow().len(), 2);
                analyzed.set(true);
                Ok(String::new())
            },
            no_view,
            no_injection,
        ),
    );
    assert!(matches!(end, RoundEnd::Worked { ran: true }));
    assert!(analyzed.get());
    assert_eq!(given.into_inner(), vec![open, HashSet::new()]);
}

#[test]
fn a_turn_without_a_job_is_no_error() {
    let (tx, rx, mut worker) = worker();
    tx.send(WorkerCommand::SetOpenBuckets(HashSet::new())).unwrap();
    assert_eq!(worker.gather(4), Some(false));
    assert!(!worker.run_next_job(&mut tools(no_cache, no_analysis, no_view, no_injection)));
    assert!(rx.try_recv().is_err());
}

#[test]
fn worker_stops_when_told_and_when_left_alone() {
    let mut tools = tools(no_cache, no_analysis, no_view, no_injection);
    let (tx, rx, mut stopped) = worker();
    tx.send(WorkerCommand::AnalyzePackage(snapshot("file:///tmp/a.leo", 1))).unwrap();
    tx.send(WorkerCommand::Shutdown).unwrap();
    let end = worker_loop(&mut stopped, 9, 9, &mut tools);
    assert!(matches!(end, LoopEnd::Stopped));
    assert!(rx.try_recv().is_err());

    let (tx, _rx, mut first) = worker();
    tx.send(WorkerCommand::Shutdown).unwrap();
    assert_eq!(first.gather(9), Some(true));

    let (tx, rx, mut left_alone) = worker();
    drop(tx);
    let end = worker_loop(&mut left_alone, 9, 9, &mut tools);
    assert!(matches!(end, LoopEnd::Stopped));
    assert!(rx.try_recv().is_err());
}

#[test]
fn worker_pauses_before_its_numbers_run_out() {
    let (_tx, _rx, mut worker) = worker();
    let mut tools = tools(no_cache, no_analysis, no_view, no_injection);
    let end = worker_loop(&mut worker, 1, u64::MAX, &mut tools);
    assert!(matches!(end, LoopEnd::NumbersSpent));
    let end = worker_loop(&mut worker, 0, 1, &mut tools);
    assert!(matches!(end, LoopEnd::RoundsSpent));
}

#[test]
fn scheduler_passes_each_kind_of_command_on() {
    let (mut scheduler, mut worker) = Scheduler::<Leo>::new(false);
    let uri = "file:///tmp/main.leo";
    let given = Cell::new(0);
    let mut tools = tools(
        |orders| given.set(given.get() + orders.len()),
        |s| Ok(s.uri.clone()),
        |_, package| Err(format!("no view through {package}")),
        no_injection,
    );
    let mut turn = || worker.round(4, &mut tools);

    scheduler.set_open_buckets(HashSet::new());
    assert!(matches!(turn(), RoundEnd::Worked { ran: false }));
    assert_eq!(given.get(), 1);

    scheduler.enqueue_package(snapshot(uri, 1));
    assert!(matches!(turn(), RoundEnd::Worked { ran: true }));
    assert!(matches!(
        scheduler.events().try_recv(),
        Ok(WorkerEvent::PackageAnalyzed(analysis)) if analysis.result == uri
    ));

    scheduler.enqueue_document_view(view_snapshot(uri, 1), Arc::new(4));
    assert!(matches!(turn(), RoundEnd::Worked { ran: true }));
    assert!(matches!(
        scheduler.events().try_recv(),
        Ok(WorkerEvent::DocumentViewPanicked { report, .. }) if report == "no view through 4"
    ));

    scheduler.shutdown();
    assert!(matches!(turn(), RoundEnd::Stopped));
    assert_eq!(given.get(), 1);
    assert_eq!(scheduler.events().capacity(), None);
}

#[test]
fn scheduler_asks_for_panics_where_it_was_told_to() {
    let (mut scheduler, mut worker) = Scheduler::<Leo>::new(true);
    scheduler.enqueue_package(snapshot("file:///tmp/main.leo", 1));
    let end = worker.round(4, &mut tools(no_cache, no_analysis, no_view, injected));
    assert!(matches!(end, RoundEnd::Worked { ran: true }));
    assert!(matches!(
        scheduler.events().try_recv(),
        Ok(WorkerEvent::PackagePanicked { generation: 1, .. })
    ));
}
