use comfy_router::cluster::{NodeState, Status};
use comfy_router::dispatch::dispatch_step;
use comfy_router::health::HealthMonitor;
use comfy_router::payload::{SDXLWorkflowPayload, WorkflowPayload};
use comfy_router::record::{WorkflowRecord, WorkflowRecordError};
use comfy_router::task::{WorkflowResult, WorkflowRunningResult};

fn sdxl() -> WorkflowPayload {
    WorkflowPayload::SDXL(SDXLWorkflowPayload {})
}

#[test]
fn fleet_add_and_get() {
    let mut fleet = NodeState::new();
    assert!(fleet.get("http://n1/").is_none());
    fleet.add("http://n1/");
    let st = fleet.get("http://n1/").expect("added node");
    assert!(matches!(st.status(), Status::Idle));
    assert_eq!(st.cache().len(), 0);
}

#[test]
fn fleet_add_is_idempotent() {
    let mut fleet = NodeState::new();
    fleet.add("http://n1/");
    fleet.set_busy("http://n1/");
    fleet.add("http://n1/");
    let st = fleet.get("http://n1/").expect("node");
    assert!(matches!(st.status(), Status::Busy));
    assert_eq!(fleet.get_all().len(), 1);
}

#[test]
fn fleet_pick_marks_busy() {
    let mut fleet = NodeState::new();
    fleet.add("http://n1/");
    let hint: Vec<(String, String)> = Vec::new();
    let picked = fleet.pick(&hint).expect("one idle node");
    assert_eq!(picked, "http://n1/");
    assert!(matches!(fleet.get("http://n1/").unwrap().status(), Status::Busy));
    assert!(fleet.pick(&hint).is_none());
    fleet.set_idle("http://n1/");
    assert_eq!(fleet.pick(&hint).expect("idle again"), "http://n1/");
}

#[test]
fn fleet_pick_skips_offline() {
    let mut fleet = NodeState::new();
    fleet.add("http://n1/");
    fleet.add("http://n2/");
    fleet.set_offline("http://n1/");
    let hint: Vec<(String, String)> = Vec::new();
    assert_eq!(fleet.pick(&hint).expect("n2 idle"), "http://n2/");
    assert!(fleet.pick(&hint).is_none());
}

#[test]
fn fleet_remove_busy_is_noop() {
    let mut fleet = NodeState::new();
    fleet.add("http://n1/");
    fleet.set_busy("http://n1/");
    fleet.remove("http://n1/");
    assert!(fleet.get("http://n1/").is_some());
    fleet.set_idle("http://n1/");
    fleet.remove("http://n1/");
    assert!(fleet.get("http://n1/").is_none());
}

#[test]
fn prober_demotes_after_three_strikes() {
    let mut fleet = NodeState::new();
    let mut monitor = HealthMonitor::new();
    fleet.add("http://n/");
    monitor.on_probe_result(&mut fleet, "http://n/", false);
    assert!(matches!(fleet.get("http://n/").unwrap().status(), Status::Idle));
    monitor.on_probe_result(&mut fleet, "http://n/", false);
    assert!(matches!(fleet.get("http://n/").unwrap().status(), Status::Idle));
    assert_eq!(monitor.count("http://n/"), 2);
    monitor.on_probe_result(&mut fleet, "http://n/", false);
    assert!(matches!(fleet.get("http://n/").unwrap().status(), Status::Offline));
}

#[test]
fn prober_promotes_only_after_demotion() {
    let mut fleet = NodeState::new();
    let mut monitor = HealthMonitor::new();
    fleet.add("http://n/");
    // one bad tick, then a good one: the node returns silently, no promotion
    monitor.on_probe_result(&mut fleet, "http://n/", false);
    monitor.on_probe_result(&mut fleet, "http://n/", true);
    assert_eq!(monitor.count("http://n/"), 0);
    assert!(matches!(fleet.get("http://n/").unwrap().status(), Status::Idle));
    // three bad ticks demote; the next good tick promotes back to idle
    monitor.on_probe_result(&mut fleet, "http://n/", false);
    monitor.on_probe_result(&mut fleet, "http://n/", false);
    monitor.on_probe_result(&mut fleet, "http://n/", false);
    assert!(matches!(fleet.get("http://n/").unwrap().status(), Status::Offline));
    monitor.on_probe_result(&mut fleet, "http://n/", true);
    assert!(matches!(fleet.get("http://n/").unwrap().status(), Status::Idle));
    assert_eq!(monitor.count("http://n/"), 0);
}

#[test]
fn admission_rejects_when_pending_full() {
    let mut record = WorkflowRecord::new(50, 2);
    record.add(sdxl(), String::from("t1")).expect("first admitted");
    record.add(sdxl(), String::from("t2")).expect("second admitted");
    let err = record.add(sdxl(), String::from("t3")).expect_err("pending full");
    assert!(matches!(err, WorkflowRecordError::PendingQueueFull));
    assert_eq!(err.message(), "pending queue is full");
    assert!(record.get("t3").is_none());
}

#[test]
fn pending_pops_in_admission_order() {
    let mut record = WorkflowRecord::new(10, 5);
    record.add(sdxl(), String::from("a")).unwrap();
    record.add(sdxl(), String::from("b")).unwrap();
    assert_eq!(record.top_pending().unwrap().id(), "a");
    assert_eq!(record.pop_pending().unwrap(), "a");
    assert_eq!(record.pop_pending().unwrap(), "b");
    assert!(record.pop_pending().is_none());
    assert!(record.get("a").is_some());
    assert!(record.get("b").is_some());
}

#[test]
fn history_evicts_oldest_at_capacity() {
    let mut record = WorkflowRecord::new(2, 2);
    record.add(sdxl(), String::from("a")).unwrap();
    record.add(sdxl(), String::from("b")).unwrap();
    record.pop_pending();
    record.pop_pending();
    record.add(sdxl(), String::from("c")).unwrap();
    assert!(record.get("a").is_none());
    assert!(record.get("b").is_some());
    assert!(record.get("c").is_some());
    assert_eq!(record.len(), 2);
}

#[test]
fn dispatch_claims_node_then_waits() {
    let mut record = WorkflowRecord::new(10, 5);
    let mut fleet = NodeState::new();
    fleet.add("http://n/");
    record.add(sdxl(), String::from("t1")).unwrap();
    record.add(sdxl(), String::from("t2")).unwrap();

    let (id, node) = dispatch_step(&mut record, &mut fleet).expect("one idle node");
    assert_eq!(id, "t1");
    assert_eq!(node, "http://n/");
    assert!(matches!(fleet.get("http://n/").unwrap().status(), Status::Busy));

    // the node is claimed for the whole run: no second dispatch
    assert!(dispatch_step(&mut record, &mut fleet).is_none());
    assert_eq!(record.pending_len(), 1);

    // after completion, the same node serves the next task
    fleet.set_idle("http://n/");
    let (id2, node2) = dispatch_step(&mut record, &mut fleet).expect("node idle again");
    assert_eq!(id2, "t2");
    assert_eq!(node2, "http://n/");
    assert!(dispatch_step(&mut record, &mut fleet).is_none());
}

#[test]
fn stored_results_are_visible_through_get() {
    let mut record = WorkflowRecord::new(10, 5);
    record.add(sdxl(), String::from("t1")).unwrap();
    record.set_result(
        "t1",
        WorkflowResult::Running(WorkflowRunningResult {
            progress_value: 1,
            progress_max: 2,
            previews: Vec::new(),
        }),
    );
    match record.get("t1").unwrap().result() {
        WorkflowResult::Running(r) => {
            assert_eq!(r.progress_value, 1);
            assert_eq!(r.progress_max, 2);
        },
        other => panic!("expected Running, got {:?}", other),
    }
    // a result for an evicted or unknown id is dropped
    record.set_result("missing", WorkflowResult::Pending(0));
    assert!(record.get("missing").is_none());
}

#[test]
fn dispatch_with_nothing_pending_changes_nothing() {
    let mut record = WorkflowRecord::new(10, 5);
    let mut fleet = NodeState::new();
    fleet.add("http://n/");
    assert!(dispatch_step(&mut record, &mut fleet).is_none());
    assert!(matches!(fleet.get("http://n/").unwrap().status(), Status::Idle));
}
