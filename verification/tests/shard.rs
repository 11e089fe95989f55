use std::collections::HashMap;

use ticker_poc::dagda::controller::WorkerMessage;
use ticker_poc::dagda::shard::{Shard, Status, Worker, WorkerOp};
use ticker_poc::model::{Blueprint, ResourceValue, ASSET_VERSION};

fn blueprint(slug: &str, ticks: u64) -> Blueprint {
    Blueprint::new(slug.to_uppercase(), slug.to_string(), ticks, HashMap::new())
}

#[test]
fn blueprint_new_stamps_asset_version() {
    let mut cost = HashMap::new();
    cost.insert(
        "wood".to_string(),
        ResourceValue { name: "Wood".into(), slug: "wood".into(), value: 3, temporary: false },
    );
    let bp = Blueprint::new("House".into(), "house".into(), 4, cost);
    assert_eq!(bp.version, ASSET_VERSION);
    assert_eq!(bp.ticks, 4);
    assert_eq!(bp.cost["wood"].value, 3);
    let copy = bp.clone();
    assert_eq!(copy.slug, "house");
    assert_eq!(copy.cost["wood"].name, "Wood");
}

#[test]
fn worker_completes_after_its_ticks() {
    let mut w = Worker::with_id(5, blueprint("house", 3), Some(9));
    assert_eq!(w.status(), Status::Idle);
    assert!(w.is_child(9));
    assert!(!w.is_child(8));
    assert!(w.tick().is_empty());
    w.start();
    let m = w.tick();
    assert!(matches!(m.as_slice(), [WorkerMessage::Progress(5, 1, 3)]));
    assert_eq!(w.status(), Status::InProgress);
    w.tick();
    let m = w.tick();
    assert!(matches!(m.as_slice(), [WorkerMessage::Progress(5, 3, 3), WorkerMessage::Completed(5)]));
    assert_eq!(w.status(), Status::Completed);
    assert_eq!(w.progress(), (3, 3));
    assert!(w.tick().is_empty());
    assert_eq!(w.ticks(), 3);
}

#[test]
fn worker_with_no_ticks_completes_on_first_tick() {
    let mut w = Worker::with_id(1, blueprint("flag", 0), None);
    w.start();
    let m = w.tick();
    assert!(matches!(m.as_slice(), [WorkerMessage::Completed(1)]));
    assert_eq!(w.status(), Status::Completed);
    assert_eq!(w.ticks(), 0);
}

#[test]
fn paused_worker_holds_and_resumes() {
    let mut w = Worker::with_id(2, blueprint("road", 5), None);
    w.start();
    w.tick();
    w.pause();
    assert_eq!(w.status(), Status::Paused);
    assert!(w.tick().is_empty());
    assert_eq!(w.ticks(), 1);
    w.resume();
    assert_eq!(w.status(), Status::InProgress);
    w.tick();
    assert_eq!(w.ticks(), 2);
}

#[test]
fn stop_and_fail_reset_progress() {
    let mut w = Worker::with_id(3, blueprint("tower", 5), None);
    w.apply(WorkerOp::Start);
    w.tick();
    w.tick();
    w.apply(WorkerOp::Stop);
    assert_eq!(w.status(), Status::Stopped);
    assert_eq!(w.ticks(), 0);
    assert!(w.tick().is_empty());
    w.start();
    w.tick();
    let msg = w.fail("broken".to_string());
    assert!(matches!(msg, WorkerMessage::Failed(3, ref e) if e == "broken"));
    assert_eq!(w.status(), Status::Stopped);
    assert_eq!(w.ticks(), 0);
}

#[test]
fn worker_status_labels() {
    assert_eq!(Status::Idle.as_str(), "Idle");
    assert_eq!(Status::InProgress.as_str(), "In Progress");
    assert_eq!(Status::Completed.as_str(), "Completed");
    assert_eq!(Status::Stopped.as_str(), "Stopped");
    assert_eq!(Status::Paused.as_str(), "Paused");
}

#[test]
fn fresh_workers_get_version_four_ids() {
    let a = Worker::new(blueprint("a", 1));
    let b = Worker::new_with_parent(blueprint("b", 1), 77);
    assert_ne!(a.id(), b.id());
    for id in [a.id(), b.id()] {
        assert_eq!((id >> 76) & 0xf, 4);
        assert_eq!((id >> 62) & 3, 2);
    }
    assert_eq!(a.parent(), None);
    assert_eq!(b.parent(), Some(77));
    assert_eq!(b.blueprint().slug, "b");
}

#[test]
fn shard_refuses_beyond_capacity() {
    let mut shard = Shard::new(1, 2);
    assert_eq!(shard.capacity(), 0);
    let a = shard.dispatch(&blueprint("a", 1)).unwrap();
    let b = shard.dispatch_with_parent(&blueprint("b", 1), 4).unwrap();
    assert_eq!(shard.capacity(), 2);
    assert_eq!(shard.dispatch(&blueprint("c", 1)), Err("Shard capacity exceeded".to_string()));
    assert_eq!(
        shard.dispatch_with_parent(&blueprint("c", 1), 4),
        Err("Shard capacity exceeded".to_string())
    );
    assert_eq!(shard.capacity(), 2);
    assert_eq!(shard.worker_count(), 2);
    assert!(shard.contains_worker(a));
    assert_eq!(shard.get_worker(b).unwrap().parent(), Some(4));
    assert!(shard.get_worker(12345).is_none());
}

#[test]
fn shard_replaces_worker_with_same_id() {
    let mut shard = Shard::new(1, 3);
    shard.dispatch_worker(Worker::with_id(8, blueprint("a", 1), None)).unwrap();
    shard.dispatch_worker(Worker::with_id(8, blueprint("b", 1), None)).unwrap();
    assert_eq!(shard.worker_count(), 1);
    assert_eq!(shard.capacity(), 2);
    assert_eq!(shard.get_worker(8).unwrap().blueprint().slug, "b");
}

#[test]
fn shard_ticks_all_workers_in_order() {
    let mut shard = Shard::new(1, 3);
    shard.dispatch_worker(Worker::with_id(1, blueprint("a", 1), None)).unwrap();
    shard.dispatch_worker(Worker::with_id(2, blueprint("b", 2), None)).unwrap();
    assert!(shard.apply(1, WorkerOp::Start));
    assert!(shard.apply(2, WorkerOp::Start));
    assert!(!shard.apply(3, WorkerOp::Start));
    let m = shard.tick_all();
    assert!(matches!(
        m.as_slice(),
        [WorkerMessage::Progress(1, 1, 1), WorkerMessage::Completed(1), WorkerMessage::Progress(2, 1, 2)]
    ));
    assert_eq!(shard.worker_at(0).status(), Status::Completed);
    assert_eq!(shard.worker_at(1).status(), Status::InProgress);
}

#[test]
fn reports_over_ticks_follow_progress_then_completion() {
    let mut w = Worker::with_id(6, blueprint("wall", 3), None);
    w.start();
    let mut all = Vec::new();
    for _ in 0..5 {
        all.extend(w.tick());
    }
    assert!(matches!(
        all.as_slice(),
        [
            WorkerMessage::Progress(6, 1, 3),
            WorkerMessage::Progress(6, 2, 3),
            WorkerMessage::Progress(6, 3, 3),
            WorkerMessage::Completed(6)
        ]
    ));
}
