use vstd::prelude::*;

verus! {

/// One night's sleep score, keyed by its calendar date (`YYYY-MM-DD`).
#[derive(Clone, Debug)]
pub struct SleepRecord {
    pub date: String,
    pub score: u32,
}

impl View for SleepRecord {
    type V = (Seq<char>, u32);

    open spec fn view(&self) -> (Seq<char>, u32) {
        (self.date@, self.score)
    }
}

/// The abstract contents of a sequence of records: (date, score) pairs.
pub open spec fn records_view(s: Seq<SleepRecord>) -> Seq<(Seq<char>, u32)> {
    s.map_values(|r: SleepRecord| r@)
}

/// One entry of the API's `data` array as it was decoded; a field that the
/// response left out is `None`.
#[derive(Clone, Debug)]
pub struct RawEntry {
    pub day: Option<String>,
    pub score: Option<u32>,
}

impl RawEntry {
    /// Both fields were present in the response.
    pub open spec fn is_complete(&self) -> bool {
        self.day is Some && self.score is Some
    }

    /// The (date, score) pair that a complete entry stands for.
    pub open spec fn record_view(&self) -> (Seq<char>, u32)
        recommends
            self.is_complete(),
    {
        (self.day->0@, self.score->0)
    }
}

/// Why fetching the records failed.
#[derive(PartialEq, Eq, Structural, Clone, Copy, Debug)]
pub enum FetchError {
    /// No bearer token is configured; no request was made.
    ConfigMissing,
    /// The request failed on the network, or the server answered with a
    /// non-success status.
    Transport,
    /// The response body does not have the expected shape.
    Decode,
}

} // verus!
