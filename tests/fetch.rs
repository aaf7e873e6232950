use oura_cli::fetch::{decode_entries, fetch_records, sort_by_date};
use oura_cli::record::{FetchError, RawEntry, SleepRecord};
use oura_cli::render::render_json;

fn entry(day: &str, score: u32) -> RawEntry {
    RawEntry { day: Some(day.to_string()), score: Some(score) }
}

fn record(date: &str, score: u32) -> SleepRecord {
    SleepRecord { date: date.to_string(), score }
}

fn pairs(records: &[SleepRecord]) -> Vec<(String, u32)> {
    records.iter().map(|r| (r.date.clone(), r.score)).collect()
}

#[test]
fn unsorted_entries_come_back_in_date_order() {
    let raw = vec![entry("2024-01-03", 80), entry("2024-01-01", 70), entry("2024-01-02", 75)];
    let out = fetch_records(raw).unwrap();
    assert_eq!(
        pairs(&out),
        vec![
            ("2024-01-01".to_string(), 70),
            ("2024-01-02".to_string(), 75),
            ("2024-01-03".to_string(), 80),
        ]
    );
}

#[test]
fn every_entry_is_kept_once() {
    let raw = vec![
        entry("2024-02-10", 61),
        entry("2023-12-31", 99),
        entry("2024-02-01", 0),
        entry("2024-01-15", 100),
        entry("2024-01-16", 42),
    ];
    let out = fetch_records(raw).unwrap();
    assert_eq!(out.len(), 5);
    assert_eq!(
        pairs(&out),
        vec![
            ("2023-12-31".to_string(), 99),
            ("2024-01-15".to_string(), 100),
            ("2024-01-16".to_string(), 42),
            ("2024-02-01".to_string(), 0),
            ("2024-02-10".to_string(), 61),
        ]
    );
}

#[test]
fn equal_dates_keep_their_order() {
    let raw = vec![
        entry("2024-01-02", 1),
        entry("2024-01-01", 2),
        entry("2024-01-02", 3),
        entry("2024-01-01", 4),
    ];
    let out = fetch_records(raw).unwrap();
    assert_eq!(
        pairs(&out),
        vec![
            ("2024-01-01".to_string(), 2),
            ("2024-01-01".to_string(), 4),
            ("2024-01-02".to_string(), 1),
            ("2024-01-02".to_string(), 3),
        ]
    );
}

#[test]
fn empty_response_gives_empty_array() {
    let out = fetch_records(Vec::new()).unwrap();
    assert!(out.is_empty());
    assert_eq!(render_json(&out), "[]");
}

#[test]
fn missing_score_is_a_decode_error() {
    let raw = vec![
        entry("2024-01-01", 70),
        RawEntry { day: Some("2024-01-02".to_string()), score: None },
        entry("2024-01-03", 80),
    ];
    assert!(matches!(fetch_records(raw), Err(FetchError::Decode)));
}

#[test]
fn missing_day_is_a_decode_error() {
    let raw = vec![RawEntry { day: None, score: Some(70) }];
    assert_eq!(fetch_records(raw).unwrap_err(), FetchError::Decode);
}

#[test]
fn decode_keeps_response_order() {
    let raw = vec![entry("2024-01-03", 80), entry("2024-01-01", 70)];
    let out = decode_entries(raw).unwrap();
    assert_eq!(
        pairs(&out),
        vec![("2024-01-03".to_string(), 80), ("2024-01-01".to_string(), 70)]
    );
}

#[test]
fn sort_orders_by_characters_not_length() {
    let out = sort_by_date(vec![record("2024-1", 1), record("2024-01-01", 2), record("", 3)]);
    assert_eq!(
        pairs(&out),
        vec![("".to_string(), 3), ("2024-01-01".to_string(), 2), ("2024-1".to_string(), 1)]
    );
}
