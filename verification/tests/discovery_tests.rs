use company_data_store::company::ProcessedCompany;
use company_data_store::discovery::construct_query;
use company_data_store::discovery::discover_websites_from_data_store;
use company_data_store::discovery::driver_pause;
use company_data_store::discovery::CycleResult;
use company_data_store::discovery::DiscoveryError;
use company_data_store::discovery::DiscoveryOutcome;
use company_data_store::discovery::WebsiteDiscoverer;
use company_data_store::serp::parse_serp_response;
use company_data_store::serp::search_retry_step;
use company_data_store::serp::DuckDuckGoSerpService;
use company_data_store::serp::GoogleSerpService;
use company_data_store::serp::RetryDecision;
use company_data_store::serp::SerpServiceError;

fn seeded_worker(name: &str, cik: i32) -> (WebsiteDiscoverer, i32) {
    let mut worker = WebsiteDiscoverer::new();
    let sid = worker
        .company_data_store
        .add_company(ProcessedCompany::new(
            Some(cik),
            vec![name.to_string()],
            None,
            None,
            None,
            None,
        ))
        .unwrap();
    (worker, sid)
}

#[test]
fn construct_query_strips_suffixes_and_appends_keyword() {
    assert_eq!(construct_query("Apple Inc."), "apple careers");
    assert_eq!(construct_query("Acme Group"), "acme careers");
    assert_eq!(construct_query("First National Bank"), "first national careers");
    assert_eq!(construct_query("Plain Name"), "plain name careers");
    assert_eq!(construct_query(""), "careers");
}

#[test]
fn construct_query_keeps_words_that_merely_contain_a_designator() {
    assert_eq!(construct_query("Lincoln National Corp"), "lincoln national careers");
    assert_eq!(construct_query("ACME Corporation"), "acme corporation careers");
    assert_eq!(construct_query("xinc"), "xinc careers");
    assert_eq!(construct_query("Groupware Ltd."), "groupware careers");
}

#[test]
fn terminal_failure_deletes_the_company() {
    let (mut worker, sid) = seeded_worker("Ghost Corp", 10);
    let outcome = worker.apply_search_outcome(sid, Err(SerpServiceError::JsonFailedError));
    assert!(matches!(outcome, DiscoveryOutcome::Deleted(s) if s == sid));
    assert!(worker
        .company_data_store
        .construct_processed_company_from_sid(sid)
        .is_none());
    // the deleted company never reappears in the work queue
    assert!(worker
        .company_data_store
        .get_next_undiscovered_company()
        .is_none());
}

#[test]
fn transient_failures_then_success_attach_once() {
    let (mut worker, sid) = seeded_worker("Retry Inc", 11);
    // three transient failures leave the store untouched
    for _ in 0..3 {
        let outcome = worker.apply_search_outcome(
            sid,
            Err(SerpServiceError::StatusError { status_code: 429 }),
        );
        assert!(matches!(outcome, DiscoveryOutcome::Failed(_)));
        assert!(worker
            .company_data_store
            .get_websites_from_sid(sid)
            .is_none());
    }
    // the successful attempt attaches each url exactly once
    let results = vec![
        ("Retry careers".to_string(), "https://retry.example/careers".to_string()),
        ("Retry home".to_string(), "https://retry.example".to_string()),
    ];
    let outcome = worker.apply_search_outcome(sid, Ok(results));
    assert!(matches!(outcome, DiscoveryOutcome::Discovered(s) if s == sid));
    let websites = worker
        .company_data_store
        .get_websites_from_sid(sid)
        .unwrap();
    assert_eq!(websites.len(), 2);
    assert_eq!(
        websites
            .iter()
            .filter(|w| w.as_str() == "https://retry.example/careers")
            .count(),
        1
    );
    // the first result became the career page
    assert_eq!(
        worker.company_data_store.get_career_page_from_sid(sid),
        Some("https://retry.example/careers".to_string())
    );
}

#[test]
fn retry_policy_backs_off_exponentially() {
    let transient = SerpServiceError::StatusError { status_code: 503 };

    let d1 = search_retry_step(1, Err(transient));
    assert!(matches!(
        d1,
        RetryDecision::RetryAfter { delay: 1, next_backoff: 2 }
    ));
    let d64 = search_retry_step(64, Err(transient));
    assert!(matches!(
        d64,
        RetryDecision::RetryAfter { delay: 64, next_backoff: 128 }
    ));
    let d128 = search_retry_step(128, Err(transient));
    assert!(matches!(d128, RetryDecision::Exhausted(_)));

    let terminal = search_retry_step(1, Err(SerpServiceError::JsonFailedError));
    assert!(matches!(terminal, RetryDecision::Terminal(SerpServiceError::JsonFailedError)));

    let ok = search_retry_step(
        1,
        Ok(vec![("t".to_string(), "https://u.example".to_string())]),
    );
    assert!(matches!(ok, RetryDecision::Success(v) if v.len() == 1));
}

#[test]
fn next_discovery_task_reports_work_idle_and_missing_alias() {
    let worker = WebsiteDiscoverer::new();
    assert_eq!(worker.next_discovery_task(), Ok(None));

    let (mut worker, sid) = seeded_worker("Acme Corp", 12);
    match worker.next_discovery_task() {
        Ok(Some((task_sid, query))) => {
            assert_eq!(task_sid, sid);
            assert_eq!(query, "acme careers");
        }
        other => panic!("expected a task, got {:?}", other.map(|t| t.is_some())),
    }

    // a company without any alias cannot be searched for
    let mut empty_worker = WebsiteDiscoverer::new();
    let bare = empty_worker.company_data_store.initialize_company();
    empty_worker.company_data_store.add_cik(99, bare).unwrap();
    assert_eq!(
        empty_worker.next_discovery_task(),
        Err(DiscoveryError::MissingAlias(bare))
    );
}

#[test]
fn driver_pause_follows_the_cycle_result() {
    assert_eq!(driver_pause(&CycleResult::Progress), 0);
    assert_eq!(driver_pause(&CycleResult::Idle), 60);
    assert_eq!(driver_pause(&CycleResult::Failure), 1800);
}

#[test]
fn provider_handles_are_configured() {
    let default = GoogleSerpService::new(None);
    assert_eq!(default.secret_file_path, "assets/google_api_key");
    assert_eq!(default.cse_id, "4352d533b0a554434");
    let custom = GoogleSerpService::new(Some("elsewhere/key".to_string()));
    assert_eq!(custom.secret_file_path, "elsewhere/key");

    let ddg = DuckDuckGoSerpService {};
    assert_eq!(ddg.get_serp("test"), Err(SerpServiceError::HttpRequestError));

    assert_eq!(
        discover_websites_from_data_store(),
        Err(DiscoveryError::NotImplemented)
    );
}

#[test]
fn response_shape_check_reads_titles_and_links() {
    let body = "{\"items\": [\
        {\"title\": \"Acme careers\", \"link\": \"https://acme.example/careers\"},\
        {\"title\": \"no link here\"},\
        {\"title\": \"Acme home\", \"link\": \"https://acme.example\"}]}";
    let results = parse_serp_response(body).unwrap();
    assert_eq!(
        results,
        vec![
            ("Acme careers".to_string(), "https://acme.example/careers".to_string()),
            ("Acme home".to_string(), "https://acme.example".to_string()),
        ]
    );
}

#[test]
fn unreadable_response_shapes_are_terminal() {
    assert_eq!(
        parse_serp_response("not json at all"),
        Err(SerpServiceError::JsonFailedError)
    );
    assert_eq!(
        parse_serp_response("{\"no_items\": true}"),
        Err(SerpServiceError::JsonFailedError)
    );
    assert_eq!(
        parse_serp_response("{\"items\": 7}"),
        Err(SerpServiceError::JsonFailedError)
    );
    assert_eq!(parse_serp_response("{\"items\": []}"), Ok(vec![]));
}
