use company_data_store::company::ProcessedCompany;
use company_data_store::store::CompanyDataStore;
use company_data_store::store::StoreError;

fn record(cik: Option<i32>, names: &[&str]) -> ProcessedCompany {
    ProcessedCompany::new(
        cik,
        names.iter().map(|n| n.to_string()).collect(),
        None,
        None,
        None,
        None,
    )
}

#[test]
fn retrieve_company_test() {
    let apple_cik = 320193;
    let mut good_data_store = CompanyDataStore::new();
    let added = good_data_store.add_company(record(Some(apple_cik), &["Apple Inc."]));
    assert!(added.is_ok());
    let processed_company = good_data_store.get_company_by_cik(apple_cik);
    match processed_company {
        Some(company) => {
            assert!(company.cik == Some(apple_cik));
            assert!(company.company_aliases.contains(&"Apple Inc.".to_string()));
        }
        None => {
            assert!(false);
        }
    }
}

#[test]
fn duplicate_pk_cik_test() {
    let mut data_store = CompanyDataStore::new();
    let cik = 320193;
    let first = data_store.add_company(record(Some(cik), &["Apple Inc."]));
    assert!(first.is_ok());
    let company = data_store.get_company_by_cik(cik);
    assert!(company.is_some());
    let company = company.unwrap();

    // insert the company back into data_store: the duplicate natural key
    // resolves to the existing company instead of creating a second one
    let result = data_store.add_company(company);
    assert!(result.is_ok());
    assert_eq!(result.unwrap(), first.unwrap());
    assert_eq!(data_store.get_companies().len(), 1);
}

#[test]
fn upsert_twice_unions_aliases() {
    let mut store = CompanyDataStore::new();
    let sid1 = store.add_company(record(Some(100), &["Acme Corp"])).unwrap();
    let sid2 = store
        .add_company(record(Some(100), &["ACME CORPORATION"]))
        .unwrap();
    assert_eq!(sid1, sid2);
    assert_eq!(store.get_companies().len(), 1);
    let aliases = store.get_aliases_from_sid(sid1);
    assert_eq!(aliases.len(), 2);
    assert!(aliases.contains(&"Acme Corp".to_string()));
    assert!(aliases.contains(&"ACME CORPORATION".to_string()));
}

#[test]
fn delete_company_cascades() {
    let mut store = CompanyDataStore::new();
    let sid = store.add_company(record(Some(7), &["Seven Co"])).unwrap();
    store.add_tag(sid, &"tech".to_string()).unwrap();
    store
        .add_website(sid, &"https://seven.example".to_string(), false)
        .unwrap();
    store
        .add_career_page(sid, &"https://seven.example/careers".to_string())
        .unwrap();

    store.delete_company(sid);

    assert!(store.construct_processed_company_from_sid(sid).is_none());
    assert!(store.get_company_by_cik(7).is_none());
    assert!(store.get_aliases_from_sid(sid).is_empty());
    assert!(store.get_tags_from_sid(sid).is_none());
    assert!(store.get_websites_from_sid(sid).is_none());
    assert!(store.get_career_page_from_sid(sid).is_none());
    assert!(store.get_captcha_status_from_sid(sid).is_none());
    assert!(store.get_cik_from_sid(sid).is_none());
}

#[test]
fn undiscovered_queue_skips_discovered() {
    let mut store = CompanyDataStore::new();
    let a = store.add_company(record(Some(1), &["A"])).unwrap();
    let b = store.add_company(record(Some(2), &["B"])).unwrap();
    store
        .add_website(b, &"https://b.example".to_string(), false)
        .unwrap();

    // only A has no website, so A is the one handed out
    let next = store.get_next_undiscovered_company();
    assert!(next.is_some());
    let (sid, view) = next.unwrap();
    assert_eq!(sid, a);
    assert!(view.websites.is_none());

    // once A gains a website, nothing is left to hand out
    store
        .add_website(a, &"https://a.example".to_string(), false)
        .unwrap();
    assert!(store.get_next_undiscovered_company().is_none());
}

#[test]
fn captcha_update_targets_one_website() {
    let mut store = CompanyDataStore::new();
    let sid = store.add_company(record(Some(3), &["C"])).unwrap();
    let url = "https://c.example".to_string();
    let other = "https://c.example/jobs".to_string();
    store.add_website(sid, &url, false).unwrap();
    store.add_website(sid, &other, false).unwrap();

    store.update_captcha_status(sid, &url, true).unwrap();

    assert_eq!(store.get_website_captcha_status(sid, &url), Some(true));
    assert_eq!(store.get_website_captcha_status(sid, &other), Some(false));
}

#[test]
fn add_alias_is_idempotent() {
    let mut store = CompanyDataStore::new();
    let sid = store.add_company(record(None, &["Acme"])).unwrap();
    store.add_alias(sid, &"Acme".to_string()).unwrap();
    store.add_alias(sid, &"Acme".to_string()).unwrap();
    let aliases = store.get_aliases_from_sid(sid);
    assert_eq!(
        aliases.iter().filter(|a| a.as_str() == "Acme").count(),
        1
    );
    assert_eq!(aliases.len(), 1);
}

#[test]
fn attach_to_unknown_sid_reports_not_found() {
    let mut store = CompanyDataStore::new();
    assert_eq!(
        store.add_alias(99, &"ghost".to_string()),
        Err(StoreError::NotFound)
    );
    assert_eq!(
        store.add_tag(99, &"ghost".to_string()),
        Err(StoreError::NotFound)
    );
    assert_eq!(
        store.add_website(99, &"https://g.example".to_string(), false),
        Err(StoreError::NotFound)
    );
    assert_eq!(
        store.add_career_page(99, &"https://g.example".to_string()),
        Err(StoreError::NotFound)
    );
    assert_eq!(
        store.update_captcha_status(99, &"https://g.example".to_string(), true),
        Err(StoreError::NotFound)
    );
    assert_eq!(store.add_cik(5, 99), Err(StoreError::NotFound));
}

#[test]
fn lookups_cover_both_keys() {
    let mut store = CompanyDataStore::new();
    let sid = store.add_company(record(Some(42), &["Answer Ltd"])).unwrap();
    assert_eq!(store.cik_exists(42), Some(sid));
    assert_eq!(store.get_sid_from_cik(42), Some(sid));
    assert!(store.contains_cik(42));
    assert!(!store.contains_cik(43));
    assert_eq!(store.get_cik_from_sid(sid), Some(42));
    assert_eq!(store.get_sid_from_alias(&"Answer Ltd".to_string()), Some(sid));
    assert_eq!(store.get_sid_from_alias(&"Question".to_string()), None);
}

#[test]
fn career_page_is_single_and_replaced() {
    let mut store = CompanyDataStore::new();
    let sid = store.add_company(record(None, &["D"])).unwrap();
    store
        .add_career_page(sid, &"https://d.example/jobs".to_string())
        .unwrap();
    store
        .add_career_page(sid, &"https://d.example/careers".to_string())
        .unwrap();
    assert_eq!(
        store.get_career_page_from_sid(sid),
        Some("https://d.example/careers".to_string())
    );
}

#[test]
fn clean_sids_removes_orphans() {
    let mut store = CompanyDataStore::new();
    let kept = store.add_company(record(Some(1), &["Kept Inc"])).unwrap();
    let orphan = store.initialize_company();
    store.add_tag(orphan, &"noise".to_string()).unwrap();

    store.clean_sids();

    assert!(store.construct_processed_company_from_sid(kept).is_some());
    assert!(store.construct_processed_company_from_sid(orphan).is_none());
    assert!(store.get_tags_from_sid(orphan).is_none());
    assert_eq!(store.get_companies().len(), 1);
}

#[test]
fn filter_flags_companies_missing_all_substrings() {
    let mut store = CompanyDataStore::new();
    let corp = store.add_company(record(Some(1), &["Acme Inc"])).unwrap();
    let person = store.add_company(record(Some(2), &["John Doe"])).unwrap();
    let filter = vec!["inc".to_string(), "corp".to_string()];

    let flagged = store.filter_companies_alias(&filter);

    assert!(!flagged.contains(&corp));
    assert!(flagged.contains(&person));
    // identification does not delete
    assert_eq!(store.get_companies().len(), 2);
}

#[test]
fn filter_is_case_insensitive() {
    let mut store = CompanyDataStore::new();
    let shouty = store.add_company(record(Some(1), &["ACME INCORPORATED"])).unwrap();
    let filter = vec!["inc".to_string()];
    let flagged = store.filter_companies_alias(&filter);
    assert!(!flagged.contains(&shouty));
}

#[test]
fn upsert_attaches_all_supplied_facts() {
    let mut store = CompanyDataStore::new();
    let company = ProcessedCompany::new(
        Some(500),
        vec!["Full Facts Co".to_string()],
        Some(vec!["https://f.example".to_string()]),
        Some("https://f.example".to_string()),
        Some(vec!["tech".to_string()]),
        Some(true),
    );
    let sid = store.add_company(company).unwrap();

    let view = store.construct_processed_company_from_sid(sid).unwrap();
    assert_eq!(view.cik, Some(500));
    assert_eq!(view.company_aliases, vec!["Full Facts Co".to_string()]);
    assert_eq!(view.websites, Some(vec!["https://f.example".to_string()]));
    assert_eq!(view.career_page, Some("https://f.example".to_string()));
    assert_eq!(view.tags, Some(vec!["tech".to_string()]));
    // the supplied captcha flag applies to the supplied career page url
    assert_eq!(
        store.get_website_captcha_status(sid, &"https://f.example".to_string()),
        Some(true)
    );
}

#[test]
fn initialize_company_allocates_fresh_ids() {
    let mut store = CompanyDataStore::new();
    let a = store.initialize_company();
    let b = store.initialize_company();
    assert_eq!(a, 1);
    assert_eq!(b, 2);
    store.delete_company(a);
    let c = store.initialize_company();
    assert_eq!(c, 3);
}
