use versi::progress::InstallProgress;
use versi::queue::{Admission, OperationQueue, OperationRequest, Operation};

fn install(v: &str) -> OperationRequest {
    OperationRequest::Install { version: v.to_string() }
}

fn set_default(v: &str) -> OperationRequest {
    OperationRequest::SetDefault { version: v.to_string() }
}

fn uninstall(v: &str) -> OperationRequest {
    OperationRequest::Uninstall { version: v.to_string() }
}

#[test]
fn set_default_waits_for_running_install() {
    let mut q = OperationQueue::new();
    assert_eq!(q.request(install("v20.0.0"), 0), Admission::Started);
    assert_eq!(q.request(set_default("v18.0.0"), 1), Admission::Queued(0));
    assert!(q.exclusive_op.is_none());
    q.remove_completed_install("v20.0.0");
    let started = q.process_next();
    assert_eq!(started.len(), 1);
    assert_eq!(started[0].version(), "v18.0.0");
    assert!(matches!(q.exclusive_op, Some(Operation::SetDefault { .. })));
    assert_eq!(q.queue_count(), 0);
}

#[test]
fn two_installs_run_side_by_side() {
    let mut q = OperationQueue::new();
    assert_eq!(q.request(install("v20.0.0"), 0), Admission::Started);
    assert_eq!(q.request(install("v18.0.0"), 0), Admission::Started);
    assert_eq!(q.active_installs.len(), 2);
    assert!(!q.has_pending());
}

#[test]
fn repeated_requests_are_ignored() {
    let mut q = OperationQueue::new();
    assert_eq!(q.request(install("v20.0.0"), 0), Admission::Started);
    assert_eq!(q.request(install("v20.0.0"), 0), Admission::Ignored);
    assert_eq!(q.request(uninstall("v16.0.0"), 0), Admission::Queued(0));
    assert_eq!(q.request(uninstall("v16.0.0"), 0), Admission::Ignored);
    q.remove_completed_install("v20.0.0");
    assert_eq!(q.request(install("v20.0.0"), 0), Admission::Started);
}

#[test]
fn installs_wait_behind_exclusive_and_drain_together() {
    let mut q = OperationQueue::new();
    assert_eq!(q.request(uninstall("v16.0.0"), 0), Admission::Started);
    assert_eq!(q.request(install("v20.0.0"), 0), Admission::Queued(0));
    assert_eq!(q.request(install("v18.0.0"), 0), Admission::Queued(1));
    assert_eq!(q.request(set_default("v20.0.0"), 0), Admission::Queued(2));
    assert!(q.is_busy_for_install());
    assert!(q.process_next().is_empty());
    q.complete_exclusive();
    let started = q.process_next();
    assert_eq!(started.len(), 2);
    assert_eq!(started[0].version(), "v20.0.0");
    assert_eq!(started[1].version(), "v18.0.0");
    assert_eq!(q.queue_count(), 1);
    assert!(q.exclusive_op.is_none());
    q.remove_completed_install("v20.0.0");
    assert!(q.process_next().is_empty());
    q.remove_completed_install("v18.0.0");
    let started = q.process_next();
    assert_eq!(started.len(), 1);
    assert_eq!(started[0].description(), "Set Node v20.0.0 as default");
}

#[test]
fn cancel_removes_exactly_one_entry() {
    let mut q = OperationQueue::new();
    q.request(uninstall("v16.0.0"), 0);
    q.request(install("v20.0.0"), 0);
    q.request(install("v18.0.0"), 0);
    q.request(install("v22.0.0"), 0);
    assert!(q.cancel_pending(1));
    let left: Vec<usize> = q.pending.iter().map(|p| p.id).collect();
    assert_eq!(left, vec![0, 2]);
    assert!(!q.cancel_pending(7));
    assert!(!q.cancel_pending(1));
    assert_eq!(q.queue_count(), 2);
}

#[test]
fn queries_report_running_and_waiting_versions() {
    let mut q = OperationQueue::new();
    q.request(install("v20.0.0"), 0);
    q.request(set_default("v18.0.0"), 0);
    assert!(q.is_current_version("v20.0.0"));
    assert!(!q.is_current_version("v18.0.0"));
    assert!(q.has_pending_for_version("v18.0.0"));
    assert!(q.is_busy_for_exclusive());
    let mut p = InstallProgress::default();
    p.percent = Some(30);
    q.update_install_progress("v20.0.0", p);
    match &q.active_installs[0] {
        Operation::Install { progress, .. } => assert_eq!(progress.percent, Some(30)),
        _ => panic!("expected an install"),
    }
}

#[test]
fn descriptions_name_the_operation() {
    assert_eq!(install("v20.1.0").description(), "Install Node v20.1.0");
    assert_eq!(uninstall("v20.1.0").description(), "Uninstall Node v20.1.0");
    assert_eq!(set_default("v20.1.0").description(), "Set Node v20.1.0 as default");
}

#[test]
fn completions_drain_the_line() {
    let mut q = OperationQueue::new();
    q.request(install("v20.0.0"), 0);
    q.request(uninstall("v18.0.0"), 0);
    let started = q.finish_install("v20.0.0");
    assert_eq!(started.len(), 1);
    assert_eq!(started[0].description(), "Uninstall Node v18.0.0");
    assert_eq!(q.request(install("v22.0.0"), 0), Admission::Queued(1));
    let started = q.finish_exclusive();
    assert_eq!(started.len(), 1);
    assert_eq!(started[0].version(), "v22.0.0");
    assert!(q.exclusive_op.is_none());
}
