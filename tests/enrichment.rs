use pps::inventory::parse_inventory;
use pps::model::{Downloads, LocalPackage, Package, PpsError, Timestamp};
use pps::stats::{enrich_all, retry_step, Attempt, RetryPolicy, RetryStep};

const BODY: &str = r#"{"data": {"last_day": 12, "last_month": 3400, "last_week": 560}, "package": "python-gitlab", "type": "recent_downloads"}"#;

fn pkg(name: &str) -> Package {
    Package {
        name: name.to_string(),
        installed: None,
        version: "1".to_string(),
        release: Timestamp { secs: 0, nanos: 0 },
        description: String::new(),
        downloads: None,
    }
}

#[test]
fn stats_body_is_read() {
    let d = Downloads::from_stats_body(BODY).unwrap();
    assert_eq!(d, Downloads { last_day: 12, last_week: 560, last_month: 3400 });
}

#[test]
fn stats_body_without_counts_fails() {
    let body = r#"{"data": {"last_day": 12, "last_week": 560}, "package": "p", "type": "t"}"#;
    assert_eq!(Downloads::from_stats_body(body).unwrap_err(), PpsError::Enrichment);
    let body = r#"{"data": {"last_day": 1, "last_week": 2, "last_month": 3}, "type": "t"}"#;
    assert_eq!(Downloads::from_stats_body(body).unwrap_err(), PpsError::Enrichment);
    assert_eq!(Downloads::from_stats_body("not json").unwrap_err(), PpsError::Enrichment);
    let body = r#"{"data": {"last_day": -1, "last_week": 2, "last_month": 3}, "package": "p", "type": "t"}"#;
    assert_eq!(Downloads::from_stats_body(body).unwrap_err(), PpsError::Enrichment);
}

fn run(policy: &RetryPolicy, attempts: Vec<Attempt>) -> Option<Result<Downloads, PpsError>> {
    let mut failures: u64 = 0;
    for a in attempts.iter() {
        match retry_step(policy, failures, a) {
            RetryStep::Finished(r) => return Some(r),
            RetryStep::Wait => failures += 1,
        }
    }
    None
}

#[test]
fn retry_returns_the_first_success() {
    let mut attempts: Vec<Attempt> = (0..5).map(|i| Attempt::Transient(format!("failure {}", i))).collect();
    attempts.push(Attempt::Responded(BODY.to_string()));
    let expected = Downloads { last_day: 12, last_week: 560, last_month: 3400 };
    assert_eq!(run(&RetryPolicy::unbounded(), attempts.clone()), Some(Ok(expected)));
    assert_eq!(run(&RetryPolicy::at_most(6), attempts), Some(Ok(expected)));
}

#[test]
fn retry_gives_up_at_the_bound() {
    let attempts: Vec<Attempt> = vec![
        Attempt::Transient("one".to_string()),
        Attempt::Transient("two".to_string()),
        Attempt::Responded(BODY.to_string()),
    ];
    assert_eq!(run(&RetryPolicy::at_most(2), attempts), Some(Err(PpsError::Transport("two".to_string()))));
}

#[test]
fn retry_stops_on_cancellation() {
    let attempts = vec![Attempt::Transient("one".to_string()), Attempt::Cancelled, Attempt::Responded(BODY.to_string())];
    assert_eq!(run(&RetryPolicy::unbounded(), attempts), Some(Err(PpsError::Cancelled)));
}

#[test]
fn unreadable_response_is_not_retried() {
    let attempts = vec![Attempt::Responded("{}".to_string()), Attempt::Responded(BODY.to_string())];
    assert_eq!(run(&RetryPolicy::unbounded(), attempts), Some(Err(PpsError::Enrichment)));
}

#[test]
fn enrich_all_attaches_counts() {
    let mut packages = vec![pkg("a"), pkg("b")];
    let d1 = Downloads { last_day: 1, last_week: 2, last_month: 3 };
    let d2 = Downloads { last_day: 4, last_week: 5, last_month: 6 };
    assert_eq!(enrich_all(&mut packages, &vec![Ok(d1), Ok(d2)]), Ok(()));
    assert_eq!(packages[0].downloads, Some(d1));
    assert_eq!(packages[1].downloads, Some(d2));
}

#[test]
fn enrich_all_fails_on_the_first_error() {
    let mut packages = vec![pkg("a"), pkg("b"), pkg("c")];
    let d = Downloads { last_day: 1, last_week: 2, last_month: 3 };
    let results = vec![Ok(d), Err(PpsError::Enrichment), Err(PpsError::Cancelled)];
    assert_eq!(enrich_all(&mut packages, &results), Err(PpsError::Enrichment));
    assert_eq!(packages[0].downloads, None);
}

#[test]
fn inventory_skips_the_header() {
    let text = "Package    Version\n---------- -------\npip        21.1.2\nsetuptools 57.0.0\n";
    let packages = parse_inventory(text).unwrap();
    assert_eq!(packages, vec![
        LocalPackage { name: "pip".to_string(), version: "21.1.2".to_string() },
        LocalPackage { name: "setuptools".to_string(), version: "57.0.0".to_string() },
    ]);
}

#[test]
fn inventory_keeps_extra_columns_out() {
    let text = "Package Version Location\n------- ------- --------\nmylib   0.1     /src/mylib\n";
    let packages = parse_inventory(text).unwrap();
    assert_eq!(packages, vec![LocalPackage { name: "mylib".to_string(), version: "0.1".to_string() }]);
}

#[test]
fn inventory_with_a_bad_line_fails() {
    let text = "Package Version\n------- -------\npip 21.1.2\nbroken\n";
    assert_eq!(parse_inventory(text).unwrap_err(), PpsError::Parse);
}

#[test]
fn inventory_of_header_only_is_empty() {
    assert_eq!(parse_inventory("Package Version\n------- -------\n").unwrap(), vec![]);
    assert_eq!(parse_inventory("").unwrap(), vec![]);
}

#[test]
fn local_package_line() {
    let p = LocalPackage::from_str("  requests \t 2.25.1 ").unwrap();
    assert_eq!(p, LocalPackage { name: "requests".to_string(), version: "2.25.1".to_string() });
    assert_eq!(LocalPackage::from_str("   ").unwrap_err(), PpsError::Parse);
}
