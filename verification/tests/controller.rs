use std::collections::HashMap;

use ticker_poc::dagda::controller::{Dagda, Request, Response, Status, WorkerMessage};
use ticker_poc::dagda::shard::{self, Shard};
use ticker_poc::library::{Blueprint, Building};
use ticker_poc::model;

fn building(slug: &str, name: &str, ticks: u64) -> Blueprint {
    Blueprint::Building(Building {
        slug: slug.to_string(),
        name: name.to_string(),
        version: "v1.0.0".into(),
        ticks,
        cost: HashMap::new(),
        attributes: HashMap::new(),
    })
}

fn shard_mut(dagda: &mut Dagda, id: u128) -> &mut Shard {
    dagda.shards.iter_mut().find(|s| s.id == id).unwrap()
}

#[test]
fn test_dagda_add_shard() {
    let mut dagda = Dagda::new(1);
    let shard_id = dagda.add_shard();
    assert!(dagda.has_shard(shard_id));
}

#[test]
fn test_dagda_pick_shard_empty() {
    let mut dagda = Dagda::new(1);
    assert!(dagda.shards.is_empty());
    let shard_id = dagda.pick_shard();
    assert!(dagda.shards.len() == 1);
    assert!(dagda.has_shard(shard_id));
}

#[test]
fn test_dagda_pick_shard_one_shard() {
    let mut dagda = Dagda::new(1);
    let shard_id = dagda.add_shard();
    let picked_shard_id = dagda.pick_shard();
    assert_eq!(picked_shard_id, shard_id);
}

#[test]
fn test_dagda_pick_shard_multiple_shards() {
    let mut dagda = Dagda::new(1);
    let shard_id_1 = dagda.add_shard();
    let shard_id_2 = dagda.add_shard();

    let blueprint = building("test-building-1", "Test Building 1", 6);

    let shard_1 = shard_mut(&mut dagda, shard_id_1);
    shard_1.dispatch(&model::Blueprint::from(blueprint)).unwrap();

    let picked_shard_id = dagda.pick_shard();
    assert!(picked_shard_id == shard_id_2);
}

#[test]
fn test_dagda_pick_shard_multiple_shards_none_available() {
    let mut dagda = Dagda::new(1);
    let shard_id_1 = dagda.add_shard();
    let shard_id_2 = dagda.add_shard();

    let blueprint_1 = building("test-building-1", "Test Building 1", 6);
    let blueprint_2 = building("test-building-2", "Test Building 2", 6);

    let shard_1 = shard_mut(&mut dagda, shard_id_1);
    shard_1.dispatch(&model::Blueprint::from(blueprint_1)).unwrap();

    let shard_2 = shard_mut(&mut dagda, shard_id_2);
    shard_2.dispatch(&model::Blueprint::from(blueprint_2)).unwrap();

    let picked_shard_id = dagda.pick_shard();
    assert!(picked_shard_id != shard_id_1 && picked_shard_id != shard_id_2);
}

#[test]
fn add_shard_with_same_id_replaces_the_shard() {
    let mut dagda = Dagda::new(2);
    dagda.add_shard_with_id(7);
    shard_mut(&mut dagda, 7).dispatch(&model::Blueprint::from(building("a", "A", 1))).unwrap();
    dagda.add_shard_with_id(7);
    assert_eq!(dagda.shard_count(), 1);
    assert_eq!(shard_mut(&mut dagda, 7).capacity(), 0);
}

#[test]
fn pick_shard_prefers_first_shard_with_room() {
    let mut dagda = Dagda::new(2);
    dagda.add_shard_with_id(1);
    dagda.add_shard_with_id(2);
    assert_eq!(dagda.pick_shard(), 1);
    shard_mut(&mut dagda, 1).dispatch(&model::Blueprint::from(building("a", "A", 1))).unwrap();
    assert_eq!(dagda.pick_shard(), 1);
    shard_mut(&mut dagda, 1).dispatch(&model::Blueprint::from(building("b", "B", 1))).unwrap();
    assert_eq!(dagda.pick_shard(), 2);
    assert_eq!(dagda.shard_count(), 2);
}

#[test]
fn status_lifecycle() {
    let mut dagda = Dagda::new(3);
    assert_eq!(dagda.status(), Status::Stopped);
    dagda.start();
    assert!(dagda.is_running());
    let r = dagda.handle(Request::Status);
    assert!(matches!(r, Response::Status(Status::Running)));
    let r = dagda.handle(Request::Stop);
    assert!(matches!(r, Response::Stopping));
    assert_eq!(dagda.status(), Status::Stopping);
    assert!(!dagda.is_running());
    dagda.finish();
    assert_eq!(dagda.status(), Status::Stopped);
}

#[test]
fn status_labels_and_gauge_values() {
    assert_eq!(Status::Running.as_str(), "running");
    assert_eq!(Status::Stopping.as_str(), "stopping");
    assert_eq!(Status::Stopped.as_str(), "stopped");
    assert_eq!(Status::Stopped.metric_value(), 0);
    assert_eq!(Status::Running.metric_value(), 1);
    assert_eq!(Status::Stopping.metric_value(), 2);
    assert_eq!(Dagda::new(1).interval_millis(), 1000);
}

#[test]
fn task_fills_shards_in_turn() {
    let mut dagda = Dagda::new(2);
    let bp = model::Blueprint::from(building("house", "House", 3));
    let mut ids = Vec::new();
    for _ in 0..5 {
        match dagda.handle(Request::Task(bp.clone())) {
            Response::Created(id) => ids.push(id),
            other => panic!("unexpected {:?}", other),
        }
    }
    assert_eq!(dagda.shard_count(), 3);
    let stats = dagda.shard_stats();
    assert_eq!(stats.iter().map(|s| s.workers).collect::<Vec<_>>(), vec![2, 2, 1]);
    for s in &stats {
        assert_eq!(s.idle + s.in_progress + s.paused + s.stopped + s.completed, s.workers);
        assert_eq!(s.idle, s.workers);
    }
    for id in &ids {
        assert_eq!(dagda.worker_status(*id), shard::Status::Idle);
        assert_eq!(dagda.worker_slug(*id), Some("house".to_string()));
    }
}

#[test]
fn control_requires_owner() {
    let mut dagda = Dagda::new(4);
    let bp = model::Blueprint::from(building("farm", "Farm", 2));
    let owner = 11u128;
    let stranger = 12u128;
    let id = match dagda.handle(Request::TaskWithParent(bp, owner)) {
        Response::Created(id) => id,
        other => panic!("unexpected {:?}", other),
    };
    assert!(dagda.worker_belongs_to_parent(id, owner));
    assert!(!dagda.worker_belongs_to_parent(id, stranger));

    match dagda.handle(Request::WorkerStartWithParent(id, stranger)) {
        Response::Control(Err(e)) => assert_eq!(e, "Worker not found or not owned by parent"),
        other => panic!("unexpected {:?}", other),
    }
    assert_eq!(dagda.worker_status(id), shard::Status::Idle);

    match dagda.handle(Request::WorkerStartWithParent(id, owner)) {
        Response::Control(Ok(())) => {}
        other => panic!("unexpected {:?}", other),
    }
    assert_eq!(dagda.worker_status(id), shard::Status::InProgress);

    match dagda.handle(Request::WorkerPauseWithParent(id, owner)) {
        Response::Control(Ok(())) => {}
        other => panic!("unexpected {:?}", other),
    }
    assert_eq!(dagda.worker_status(id), shard::Status::Paused);
    match dagda.handle(Request::WorkerResumeWithParent(id, owner)) {
        Response::Control(Ok(())) => {}
        other => panic!("unexpected {:?}", other),
    }
    assert_eq!(dagda.worker_status(id), shard::Status::InProgress);
    match dagda.handle(Request::WorkerStopWithParent(id, owner)) {
        Response::Control(Ok(())) => {}
        other => panic!("unexpected {:?}", other),
    }
    assert_eq!(dagda.worker_status(id), shard::Status::Stopped);

    match dagda.handle(Request::WorkerStopWithParent(999, owner)) {
        Response::Control(Err(e)) => assert_eq!(e, "Worker not found or not owned by parent"),
        other => panic!("unexpected {:?}", other),
    }
}

#[test]
fn plain_worker_operations_report_whether_found() {
    let mut dagda = Dagda::new(4);
    let bp = model::Blueprint::from(building("mill", "Mill", 2));
    let id = match dagda.handle(Request::Task(bp)) {
        Response::Created(id) => id,
        other => panic!("unexpected {:?}", other),
    };
    assert!(matches!(dagda.handle(Request::WorkerStart(id)), Response::Applied(true)));
    assert!(matches!(
        dagda.handle(Request::WorkerStatus(id)),
        Response::WorkerStatus(shard::Status::InProgress)
    ));
    assert!(matches!(dagda.handle(Request::WorkerPause(id)), Response::Applied(true)));
    assert!(matches!(dagda.handle(Request::WorkerResume(id)), Response::Applied(true)));
    assert!(matches!(dagda.handle(Request::WorkerCancel(id)), Response::Applied(true)));
    assert!(matches!(dagda.handle(Request::WorkerStart(404)), Response::Applied(false)));
    assert!(matches!(
        dagda.handle(Request::WorkerStatus(404)),
        Response::WorkerStatus(shard::Status::Stopped)
    ));
}

#[test]
fn listing_shows_only_the_parents_workers() {
    let mut dagda = Dagda::new(2);
    let a = model::Blueprint::from(building("well", "Well", 4));
    let b = model::Blueprint::from(building("barn", "Barn", 5));
    let mut mine = Vec::new();
    for bp in [&a, &b, &a] {
        if let Response::Created(id) = dagda.handle(Request::TaskWithParent(bp.clone(), 1)) {
            mine.push(id);
        }
    }
    dagda.handle(Request::TaskWithParent(b.clone(), 2));
    dagda.handle(Request::Task(a.clone()));
    let infos = match dagda.handle(Request::WorkersByParent(1)) {
        Response::Workers(v) => v,
        other => panic!("unexpected {:?}", other),
    };
    assert_eq!(infos.iter().map(|i| i.id).collect::<Vec<_>>(), mine);
    assert_eq!(
        infos.iter().map(|i| i.name.clone()).collect::<Vec<_>>(),
        vec!["well".to_string(), "barn".to_string(), "well".to_string()]
    );
    assert!(infos.iter().all(|i| i.parent == Some(1) && i.ticks == 0));
    assert_eq!(infos[1].total_ticks, 5);
    assert!(dagda.workers_by_parent(3).is_empty());
}

#[test]
fn tick_advances_started_workers_and_reports() {
    let mut dagda = Dagda::new(4);
    let bp = model::Blueprint::from(building("hut", "Hut", 2));
    let id = match dagda.handle(Request::Task(bp.clone())) {
        Response::Created(id) => id,
        other => panic!("unexpected {:?}", other),
    };
    let idle = match dagda.handle(Request::Task(bp)) {
        Response::Created(id) => id,
        other => panic!("unexpected {:?}", other),
    };
    dagda.apply_to_worker(id, shard::WorkerOp::Start);
    let m = dagda.on_tick();
    assert_eq!(m.len(), 1);
    assert!(matches!(m[0], WorkerMessage::Progress(w, 1, 2) if w == id));
    let m = dagda.on_tick();
    assert_eq!(m.len(), 2);
    assert!(matches!(m[0], WorkerMessage::Progress(w, 2, 2) if w == id));
    assert!(matches!(m[1], WorkerMessage::Completed(w) if w == id));
    assert_eq!(dagda.worker_status(id), shard::Status::Completed);
    assert!(dagda.on_tick().is_empty());
    assert_eq!(dagda.worker_status(idle), shard::Status::Idle);
    let stats = dagda.shard_stats();
    assert_eq!(stats.len(), 1);
    assert_eq!(stats[0].completed, 1);
    assert_eq!(stats[0].idle, 1);
    assert_eq!(stats[0].in_progress + stats[0].paused + stats[0].stopped, 0);
    assert!(dagda.lookup_worker(id).is_some());
    assert!(dagda.lookup_worker(5).is_none());
}

#[test]
fn new_shard_ids_are_version_four() {
    let mut dagda = Dagda::new(1);
    let id = dagda.add_shard();
    assert_eq!((id >> 76) & 0xf, 4);
    assert_eq!((id >> 62) & 3, 2);
}
