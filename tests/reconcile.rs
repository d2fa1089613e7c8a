use mcmod::deps::{plan_reconcile, reference_file_name, FetchAction, FetchAggregator};
use mcmod::error::{ErrorKind, SyncError};

fn strings(v: &[&str]) -> Vec<String> {
    v.iter().map(|s| s.to_string()).collect()
}

#[test]
fn reconcile_empty_directory_fetches_url_and_named_libs() {
    let plan = plan_reconcile(
        &Vec::new(),
        &strings(&["http://x/a.jar", "b.jar"]),
        "https://cdn.example/devjars/",
    )
    .unwrap();
    assert!(plan.remove.is_empty());
    assert_eq!(plan.fetch.len(), 2);
    match &plan.fetch[0] {
        FetchAction::Download { url, file_name } => {
            assert_eq!(url, "http://x/a.jar");
            assert_eq!(file_name, "a.jar");
        }
        other => panic!("unexpected {:?}", other),
    }
    match &plan.fetch[1] {
        FetchAction::Download { url, file_name } => {
            assert_eq!(url, "https://cdn.example/devjars/b.jar");
            assert_eq!(file_name, "b.jar");
        }
        other => panic!("unexpected {:?}", other),
    }
}

#[test]
fn reconcile_removes_stale_and_keeps_present() {
    let plan = plan_reconcile(&strings(&["a", "b"]), &strings(&["b", "c"]), "p/").unwrap();
    assert_eq!(plan.remove, strings(&["a"]));
    assert_eq!(plan.fetch.len(), 1);
    match &plan.fetch[0] {
        FetchAction::Download { url, file_name } => {
            assert_eq!(url, "p/c");
            assert_eq!(file_name, "c");
        }
        other => panic!("unexpected {:?}", other),
    }
}

#[test]
fn reconcile_matches_url_by_last_segment() {
    let plan =
        plan_reconcile(&strings(&["a.jar", "old.jar"]), &strings(&["https://h/x/a.jar"]), "p/")
            .unwrap();
    assert_eq!(plan.remove, strings(&["old.jar"]));
    assert!(plan.fetch.is_empty());
}

#[test]
fn reconcile_copies_local_paths() {
    let plan = plan_reconcile(&Vec::new(), &strings(&["./libs/local.jar"]), "p/").unwrap();
    match &plan.fetch[0] {
        FetchAction::Copy { source, file_name } => {
            assert_eq!(source, "./libs/local.jar");
            assert_eq!(file_name, "local.jar");
        }
        other => panic!("unexpected {:?}", other),
    }
}

#[test]
fn reconcile_rejects_url_without_file_name() {
    let r = plan_reconcile(&Vec::new(), &strings(&["http://x/.."]), "p/");
    assert_eq!(r.unwrap_err().kind, ErrorKind::InvalidData);
}

#[test]
fn reference_file_names() {
    assert_eq!(reference_file_name("http://x/a.jar"), Some("a.jar".to_string()));
    assert_eq!(reference_file_name("./dir/b.jar"), Some("b.jar".to_string()));
    assert_eq!(reference_file_name("plain.jar"), Some("plain.jar".to_string()));
    assert_eq!(reference_file_name("http://x/.."), None);
}

#[test]
fn aggregator_reports_first_failure_once() {
    let mut agg = FetchAggregator::new();
    assert!(agg.receive(Ok("u1".to_string())));
    assert!(agg.receive(Err(SyncError::with_message(ErrorKind::Network, "first"))));
    assert!(agg.is_closed());
    assert!(!agg.receive(Err(SyncError::with_message(ErrorKind::Network, "second"))));
    assert!(!agg.receive(Ok("u2".to_string())));
    let e = agg.finish().unwrap_err();
    assert_eq!(e.kind, ErrorKind::Network);
    assert_eq!(e.message, "first");
}

#[test]
fn aggregator_all_successes() {
    let mut agg = FetchAggregator::new();
    assert!(agg.receive(Ok("u1".to_string())));
    assert!(agg.receive(Ok("u2".to_string())));
    assert!(!agg.is_closed());
    assert_eq!(agg.finish().unwrap(), vec!["u1".to_string(), "u2".to_string()]);
}
