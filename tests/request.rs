use oura_cli::record::FetchError;
use oura_cli::request::plan_request;

#[test]
fn empty_token_is_refused_before_any_request() {
    let r = plan_request("", "2024-01-01", "2024-01-03");
    assert!(matches!(r, Err(FetchError::ConfigMissing)));
}

#[test]
fn request_carries_dates_and_token() {
    let q = plan_request("tok-123", "2024-01-01", "2024-01-03").ok().unwrap();
    assert_eq!(
        q.url,
        "https://api.ouraring.com/v2/usercollection/daily_sleep?start_date=2024-01-01&end_date=2024-01-03"
    );
    assert_eq!(q.token, "tok-123");
}

#[test]
fn dates_pass_through_unchecked() {
    let q = plan_request("t", "not a date", "").ok().unwrap();
    assert_eq!(
        q.url,
        "https://api.ouraring.com/v2/usercollection/daily_sleep?start_date=not a date&end_date="
    );
}
