use fuzz_engine::outcome::Exchange;
use fuzz_engine::request::TemplateRequest;
use fuzz_engine::run::{cmd_stop_fuzz_attack, FuzzManager, RunError, ScheduleStep, SlotDecision, UnitPhase};

fn template(url: &str) -> TemplateRequest {
    TemplateRequest {
        id: "rq_abc".to_string(),
        url: url.to_string(),
        method: "GET".to_string(),
        headers: Vec::new(),
        body_text: None,
    }
}

fn words(ws: &[&str]) -> Vec<String> {
    ws.iter().map(|w| w.to_string()).collect()
}

fn granted_url(d: SlotDecision) -> String {
    match d {
        SlotDecision::Granted(req) => req.url,
        SlotDecision::Wait => panic!("expected a slot, got wait"),
        SlotDecision::Abandon => panic!("expected a slot, got abandon"),
    }
}

#[test]
fn example_two_entries() {
    let mut m = FuzzManager::new();
    assert_eq!(m.start_run("run", template("http://example.com/ยงidยง"), words(&["1", "2"]), 5), Ok(()));
    assert_eq!(m.next_unit("run"), ScheduleStep::Spawn(0));
    assert_eq!(m.next_unit("run"), ScheduleStep::Spawn(1));
    assert_eq!(m.next_unit("run"), ScheduleStep::Stop);
    assert_eq!(granted_url(m.acquire_slot("run", 0)), "http://example.com/1");
    assert_eq!(granted_url(m.acquire_slot("run", 1)), "http://example.com/2");
    let r0 = m.complete_unit("run", 0, Exchange::Response { status: 200, size: 10 }, 5).unwrap();
    let r1 = m.complete_unit("run", 1, Exchange::Response { status: 200, size: 11 }, 6).unwrap();
    assert_eq!(r0.payload, "1");
    assert_eq!(r0.request_id, "0");
    assert_eq!(r1.payload, "2");
    assert_eq!(r1.request_id, "1");
    assert_eq!(m.runs.len(), 0);
}

#[test]
fn limit_bounds_executing_units() {
    let mut m = FuzzManager::new();
    m.start_run("r", template("u/ยงxยง"), words(&["a", "b", "c"]), 2).unwrap();
    for k in 0..3 {
        assert_eq!(m.next_unit("r"), ScheduleStep::Spawn(k));
    }
    assert!(matches!(m.acquire_slot("r", 0), SlotDecision::Granted(_)));
    assert!(matches!(m.acquire_slot("r", 1), SlotDecision::Granted(_)));
    assert!(matches!(m.acquire_slot("r", 2), SlotDecision::Wait));
    let executing = m.runs[0].phases.iter().filter(|p| **p == UnitPhase::Executing).count();
    assert_eq!(executing, 2);
    assert!(m.complete_unit("r", 0, Exchange::Response { status: 500, size: 0 }, 1).is_some());
    assert_eq!(granted_url(m.acquire_slot("r", 2)), "u/c");
}

#[test]
fn stop_before_any_slot_emits_nothing() {
    let mut m = FuzzManager::new();
    m.start_run("r", template("u/ยงxยง"), words(&["a", "b", "c"]), 1).unwrap();
    assert_eq!(m.next_unit("r"), ScheduleStep::Spawn(0));
    assert_eq!(m.next_unit("r"), ScheduleStep::Spawn(1));
    cmd_stop_fuzz_attack(&mut m, "r");
    assert_eq!(m.next_unit("r"), ScheduleStep::Stop);
    assert!(matches!(m.acquire_slot("r", 0), SlotDecision::Abandon));
    assert!(m.complete_unit("r", 0, Exchange::Response { status: 200, size: 1 }, 1).is_none());
    assert!(matches!(m.acquire_slot("r", 1), SlotDecision::Abandon));
    assert_eq!(m.runs.len(), 0);
}

#[test]
fn stop_keeps_executing_unit() {
    let mut m = FuzzManager::new();
    m.start_run("r", template("u/ยงxยง"), words(&["a", "b"]), 1).unwrap();
    assert_eq!(m.next_unit("r"), ScheduleStep::Spawn(0));
    assert_eq!(m.next_unit("r"), ScheduleStep::Spawn(1));
    assert_eq!(m.next_unit("r"), ScheduleStep::Stop);
    assert!(matches!(m.acquire_slot("r", 0), SlotDecision::Granted(_)));
    cmd_stop_fuzz_attack(&mut m, "r");
    assert!(m.runs[0].cancelled);
    assert!(matches!(m.acquire_slot("r", 1), SlotDecision::Abandon));
    let r = m.complete_unit("r", 0, Exchange::Failure { message: "timeout".to_string() }, 10000).unwrap();
    assert_eq!(r.payload, "a");
    assert_eq!(r.status, 0);
    assert_eq!(m.runs.len(), 0);
}

#[test]
fn stop_unknown_run_is_harmless() {
    let mut m = FuzzManager::new();
    cmd_stop_fuzz_attack(&mut m, "nope");
    assert_eq!(m.runs.len(), 0);
    m.start_run("r", template("u"), words(&["a"]), 3).unwrap();
    cmd_stop_fuzz_attack(&mut m, "other");
    assert_eq!(m.runs.len(), 1);
    assert!(!m.runs[0].cancelled);
    assert_eq!(m.next_unit("r"), ScheduleStep::Spawn(0));
}

#[test]
fn one_result_per_unit() {
    let mut m = FuzzManager::new();
    m.start_run("r", template("u/ยงxยง"), words(&["a", "b"]), 4).unwrap();
    assert_eq!(m.next_unit("r"), ScheduleStep::Spawn(0));
    assert!(matches!(m.acquire_slot("r", 0), SlotDecision::Granted(_)));
    assert!(matches!(m.acquire_slot("r", 0), SlotDecision::Abandon));
    let r = m.complete_unit("r", 0, Exchange::Response { status: 204, size: 0 }, 2).unwrap();
    assert_eq!(r.payload, "a");
    assert!(m.complete_unit("r", 0, Exchange::Response { status: 204, size: 0 }, 2).is_none());
    assert_eq!(m.runs[0].phases[0], UnitPhase::Finished);
}

#[test]
fn conflicting_start_rejected() {
    let mut m = FuzzManager::new();
    m.start_run("r", template("u"), words(&["a"]), 3).unwrap();
    assert_eq!(m.start_run("r", template("v"), words(&["b"]), 3), Err(RunError::Conflict));
    assert_eq!(m.runs.len(), 1);
    assert_eq!(m.runs[0].template.url, "u");
}

#[test]
fn zero_limit_rejected() {
    let mut m = FuzzManager::new();
    assert_eq!(m.start_run("r", template("u"), words(&["a"]), 0), Err(RunError::InvalidLimit));
    assert_eq!(m.runs.len(), 0);
}

#[test]
fn empty_wordlist_ends_at_once() {
    let mut m = FuzzManager::new();
    m.start_run("r", template("u"), Vec::new(), 10).unwrap();
    assert_eq!(m.next_unit("r"), ScheduleStep::Stop);
    assert_eq!(m.runs.len(), 0);
    assert_eq!(m.start_run("r", template("u"), words(&["a"]), 10), Ok(()));
}

#[test]
fn unknown_run_operations() {
    let mut m = FuzzManager::new();
    assert_eq!(m.next_unit("x"), ScheduleStep::Stop);
    assert!(matches!(m.acquire_slot("x", 0), SlotDecision::Abandon));
    assert!(m.complete_unit("x", 0, Exchange::Response { status: 200, size: 0 }, 0).is_none());
}
