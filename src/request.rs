use vstd::prelude::*;

use crate::record::FetchError;

verus! {

/// The one GET request that fetches daily sleep scores: the full URL, and the
/// token that goes into its `Authorization: Bearer` header.
pub struct DailySleepRequest {
    pub url: String,
    pub token: String,
}

/// The daily-sleep endpoint queried for the dates `start` to `end`, both passed
/// through unchanged.
pub open spec fn daily_sleep_url(start: Seq<char>, end: Seq<char>) -> Seq<char> {
    "https://api.ouraring.com/v2/usercollection/daily_sleep?start_date="@ + start + "&end_date="@
        + end
}

/// Decides whether a request may be made, and builds it. An empty token is
/// refused with `ConfigMissing`, so that no request is sent without a
/// credential; the dates are not checked.
pub fn plan_request(token: &str, start_date: &str, end_date: &str) -> (r: Result<
    DailySleepRequest,
    FetchError,
>)
    ensures
        r is Err <==> token@.len() == 0,
        r is Err ==> r->Err_0 == FetchError::ConfigMissing,
        r is Ok ==> r->Ok_0.url@ == daily_sleep_url(start_date@, end_date@),
        r is Ok ==> r->Ok_0.token@ == token@,
{
    if token.is_empty() {
        return Err(FetchError::ConfigMissing);
    }
    let mut url = String::from_str(
        "https://api.ouraring.com/v2/usercollection/daily_sleep?start_date=",
    );
    url.append(start_date);
    url.append("&end_date=");
    url.append(end_date);
    Ok(DailySleepRequest { url, token: String::from_str(token) })
}

} // verus!
