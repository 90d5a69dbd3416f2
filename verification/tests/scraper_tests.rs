use std::collections::HashMap;

use company_data_store::company::Company;
use company_data_store::store::CompanyDataStore;
use company_data_store::scraper::add_partition_to_index;
use company_data_store::scraper::header_date_field;
use company_data_store::scraper::idx_file_is_current;
use company_data_store::scraper::parse_cik;
use company_data_store::scraper::parse_idx_line;
use company_data_store::scraper::process_raw_data;
use company_data_store::scraper::separate_and_save_companies;
use company_data_store::scraper::trim_spaces;
use company_data_store::strings::str_contains_ci;

fn idx_line(name: &str, forms: &str, cik: &str, date: &str, file: &str) -> String {
    format!(
        "{:<62}{:<12}{:<12}{:<12}{}",
        name, forms, cik, date, file
    )
}

fn raw(name: &str, cik: i32) -> Company {
    Company::new(
        name.to_string(),
        Some(cik),
        "10-K".to_string(),
        "2024-05-25".to_string(),
        "edgar/data/1.txt".to_string(),
    )
}

#[test]
fn parse_idx_line_splits_fixed_width_columns() {
    let line = idx_line(
        "Apple Inc.",
        "10-K",
        "320193",
        "2024-05-25",
        "edgar/data/320193/0000320193.txt",
    );
    let company = parse_idx_line(&line).unwrap();
    assert_eq!(company.name, "Apple Inc.");
    assert_eq!(company.form_numbers, "10-K");
    assert_eq!(company.cik, Some(320193));
    assert_eq!(company.date, "2024-05-25");
    assert_eq!(company.file_name, "edgar/data/320193/0000320193.txt");
}

#[test]
fn parse_idx_line_rejects_short_or_unreadable_lines() {
    assert!(parse_idx_line("too short").is_none());
    let bad_cik = idx_line("Some Co", "10-K", "not-a-number", "2024-05-25", "f.txt");
    assert!(parse_idx_line(&bad_cik).is_none());
}

#[test]
fn parse_cik_reads_exactly_the_digit_texts() {
    assert_eq!(parse_cik("320193"), Some(320193));
    assert_eq!(parse_cik("0"), Some(0));
    assert_eq!(parse_cik("2147483647"), Some(i32::MAX));
    assert_eq!(parse_cik(""), None);
    assert_eq!(parse_cik("12a"), None);
    assert_eq!(parse_cik("2147483648"), None);
    assert_eq!(parse_cik("99999999999"), None);
}

#[test]
fn trim_spaces_drops_filler_blanks() {
    assert_eq!(trim_spaces("  Apple Inc.   "), "Apple Inc.");
    assert_eq!(trim_spaces("\t x \t"), "x");
    assert_eq!(trim_spaces("     "), "");
    assert_eq!(trim_spaces(""), "");
}

#[test]
fn header_date_field_reads_past_the_separator() {
    assert_eq!(
        header_date_field("Last Data Received: May 25, 2024"),
        Some("May 25, 2024".to_string())
    );
    assert_eq!(header_date_field("no separator here"), None);
}

#[test]
fn idx_file_currency_compares_calendar_days() {
    assert!(idx_file_is_current(2024, 5, 25, 2024, 5, 25));
    assert!(!idx_file_is_current(2024, 5, 25, 2024, 5, 26));
    assert!(!idx_file_is_current(2023, 5, 25, 2024, 5, 25));
}

#[test]
fn process_raw_data_keeps_cik_and_name() {
    let processed = process_raw_data(vec![raw("Acme Corp", 100), raw("Beta LLC", 200)]);
    assert_eq!(processed.len(), 2);
    assert_eq!(processed[0].cik, Some(100));
    assert_eq!(processed[0].company_aliases, vec!["Acme Corp".to_string()]);
    assert!(processed[0].websites.is_none());
    assert!(processed[0].career_page.is_none());
    assert!(processed[0].tags.is_none());
    assert!(processed[0].has_captcha.is_none());
    assert_eq!(processed[1].cik, Some(200));
}

#[test]
fn ingesting_two_records_with_one_cik_stores_one_company() {
    let records = vec![raw("Acme Corp", 100), raw("ACME CORPORATION", 100)];
    let mut store = CompanyDataStore::new();
    let mut sids = Vec::new();
    for pc in process_raw_data(records) {
        sids.push(store.add_company(pc).unwrap());
    }
    assert_eq!(sids[0], sids[1]);
    assert_eq!(store.get_companies().len(), 1);
    let aliases = store.get_aliases_from_sid(sids[0]);
    assert_eq!(aliases.len(), 2);
    assert!(aliases.contains(&"Acme Corp".to_string()));
    assert!(aliases.contains(&"ACME CORPORATION".to_string()));
}

#[test]
fn partitioning_tiles_the_company_list() {
    let companies = vec![
        raw("A", 1),
        raw("B", 2),
        raw("C", 3),
        raw("D", 4),
        raw("E", 5),
    ];
    let (partitions, index) = separate_and_save_companies(companies, 2);
    assert_eq!(partitions.len(), 2);
    assert_eq!(partitions[0].len(), 2);
    assert_eq!(partitions[1].len(), 3);
    assert_eq!(partitions[0][0].name, "A");
    assert_eq!(partitions[1][2].name, "E");
    assert_eq!(index.get(&1), Some(&0));
    assert_eq!(index.get(&5), Some(&1));
    assert_eq!(index.len(), 5);
}

#[test]
fn partition_index_records_each_cik() {
    let mut index: HashMap<i32, usize> = HashMap::new();
    let batch = vec![raw("A", 1), raw("B", 2)];
    add_partition_to_index(&batch, 4, &mut index);
    assert_eq!(index.get(&1), Some(&4));
    assert_eq!(index.get(&2), Some(&4));
    assert_eq!(index.get(&3), None);
}

#[test]
fn substring_search_ignores_case() {
    assert!(str_contains_ci("Acme National Bank", "BANK"));
    assert!(str_contains_ci("ACME INCORPORATED", "inc"));
    assert!(!str_contains_ci("John Doe", "inc"));
    assert!(str_contains_ci("anything", ""));
}
