use snarf::crawl::CrawlResult;
use snarf::error::AppError;
use snarf::status::{
    format_crawl_id, generate_crawl_id, is_status_file, list_statuses, mark_crawl_status_failed,
    status_dir, status_path, stop_target, CrawlStatus, Ending, Showing, Tally,
};
use snarf::system::Timestamp;
use snarf::types::Page;

fn at(secs: i64) -> Timestamp {
    Timestamp { secs, nanos: 0 }
}

#[test]
fn crawl_status_failure_records_error_message() {
    let now = at(1_700_000_000);
    let mut status = CrawlStatus {
        id: "c_deadbeef".to_string(),
        pid: 0,
        seed: "https://example.com".to_string(),
        status: "starting".to_string(),
        pages: 0,
        new: 0,
        changed: 0,
        unchanged: 0,
        errors: 0,
        started_at: now,
        updated_at: now,
        error: String::new(),
    };

    mark_crawl_status_failed(&mut status, "spawn failed".to_string());

    assert_eq!(status.status, "failed");
    assert_eq!(status.error, "spawn failed");
}

fn result(status: &str, error: &str, page: bool) -> CrawlResult {
    CrawlResult {
        page: if page { Some(Page::default()) } else { None },
        depth: 0,
        status: status.to_string(),
        source: "link".to_string(),
        error: error.to_string(),
        url: "u".to_string(),
    }
}

fn running() -> CrawlStatus {
    CrawlStatus::running("c_1".to_string(), 42, "http://s".to_string(), at(5))
}

#[test]
fn results_are_counted() {
    let mut status = running();
    let kinds = ["new", "changed", "unchanged", "unchanged", "other"];
    for kind in kinds {
        assert!(!status.record(&result(kind, "", true)));
    }
    for _ in 0..4 {
        assert!(!status.record(&result("new", "boom", false)));
    }
    assert!(status.record(&result("new", "", true)));
    assert_eq!(status.pages, 10);
    assert_eq!(status.new, 2);
    assert_eq!(status.changed, 1);
    assert_eq!(status.unchanged, 2);
    assert_eq!(status.errors, 4);
}

#[test]
fn background_crawl_stop_preserves_final_counts() {
    let mut status = running();
    status.record(&result("new", "", true));
    status.error = "old".to_string();
    status.stop();
    status.touch(at(9));
    assert_eq!(status.status, "stopped");
    assert_eq!(status.error, "");
    assert_eq!(status.pages, 1);
    assert_eq!(status.new, 1);
    assert_eq!(status.errors, 0);
    assert_eq!(status.updated_at, at(9));
    assert_eq!(status.started_at, at(5));
}

#[test]
fn crawls_that_are_over_are_not_cancelled() {
    let mut status = running();
    status.complete();
    assert!(!status.cancel());
    assert_eq!(status.status, "completed");
    let mut status =
        CrawlStatus::starting("c_1".to_string(), "http://s".to_string(), at(5));
    assert_eq!(status.status, "starting");
    assert_eq!(status.pid, 0);
    assert!(status.cancel());
    assert_eq!(status.status, "stopped");
    assert!(!status.cancel());
}

#[test]
fn only_running_crawls_are_stopped() {
    assert_eq!(stop_target(&running(), "c_1").unwrap(), 42);
    let mut status = running();
    status.complete();
    let error = stop_target(&status, "c_1").unwrap_err();
    assert!(matches!(&error, AppError::Precondition(_)));
    assert_eq!(
        error.message(),
        "crawl c_1 is not running (status: completed)"
    );
    let mut status = running();
    status.pid = 0;
    let error = stop_target(&status, "c_1").unwrap_err();
    assert!(matches!(&error, AppError::Upstream(_)));
    assert_eq!(
        error.message(),
        "failed to stop crawl: crawl has no worker pid yet"
    );
}

#[test]
fn crawls_have_names_of_eight_digits() {
    assert_eq!(format_crawl_id(0xdead_beef), "c_deadbeef");
    assert_eq!(format_crawl_id(7), "c_00000007");
    let id = generate_crawl_id();
    assert_eq!(id.len(), 10);
    let value = u32::from_str_radix(&id[2..], 16).unwrap();
    assert_eq!(format_crawl_id(value), id);
    // Thirty-two bits drawn at random hardly ever repeat.
    let ids: Vec<String> = (0..5).map(|_| generate_crawl_id()).collect();
    assert!(ids.iter().any(|other| *other != ids[0]));
    assert_eq!(status_dir("/c"), "/c/crawls");
    assert_eq!(status_path("/c", "c_1"), "/c/crawls/c_1.json");
}

#[test]
fn states_are_stored_as_json() {
    assert!(is_status_file("c_1.json"));
    assert!(!is_status_file("c_1.json.tmp"));
    assert!(!is_status_file(".json"));
    assert!(!is_status_file("json"));
}

#[test]
fn the_latest_crawls_come_first() {
    let status = |id: &str, secs: i64, nanos: u32| {
        let mut status = running();
        status.id = id.to_string();
        status.updated_at = Timestamp { secs, nanos };
        status
    };
    let sorted = list_statuses(vec![
        status("a", 1, 0),
        status("b", 3, 0),
        status("c", 1, 5),
        status("d", 3, 0),
        status("e", -7, 0),
    ]);
    let ids: Vec<&str> = sorted.iter().map(|status| status.id.as_str()).collect();
    assert_eq!(ids, vec!["b", "d", "c", "a", "e"]);
    assert!(list_statuses(Vec::new()).is_empty());
}

#[test]
fn a_crawl_in_the_foreground_is_tallied() {
    let mut tally = Tally::new();
    assert_eq!(tally.record(&result("", "boom", false)), Showing::Warning);
    assert_eq!(tally.record(&result("new", "", true)), Showing::FirstPage);
    assert_eq!(tally.record(&result("changed", "", false)), Showing::Nothing);
    assert_eq!(tally.record(&result("unchanged", "", true)), Showing::NextPage);
    assert_eq!(tally.pages(), 3);
    assert_eq!(
        (tally.new, tally.changed, tally.unchanged, tally.errors),
        (1, 1, 1, 1)
    );
}

#[test]
fn the_last_state_tells_how_a_crawl_ended() {
    let ended = |ending: Ending| {
        let mut status = running();
        status.record(&result("new", "", true));
        status.record(&result("", "status 500", false));
        status.end(ending);
        assert_eq!(status.pages, 2);
        assert_eq!(status.new + status.changed + status.unchanged + status.errors, 2);
        (status.status, status.error)
    };
    let texts = |status: &str, error: &str| (status.to_string(), error.to_string());
    assert_eq!(ended(Ending::Completed), texts("completed", ""));
    assert_eq!(ended(Ending::Failed("no disk".to_string())), texts("failed", "no disk"));
    assert_eq!(ended(Ending::Interrupted), texts("stopped", ""));
}
