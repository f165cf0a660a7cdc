//! Wallpaper candidates: rows staged in the queue between the plugin fetch
//! that produced them and the trim that eventually retires them.

use vstd::prelude::*;

verus! {

/// One fetched wallpaper. `date` is a UTC timestamp in microseconds; it is
/// set when the candidate is created and refreshed when the wallpaper is
/// applied. `was_set` starts false and flips to true on application.
#[derive(Debug, PartialEq)]
pub struct Candidate {
    /// Stable id, at most one queue row per id.
    pub id: String,
    /// Display name, if the plugin gave one.
    pub name: Option<String>,
    /// Where the image bytes can be fetched.
    pub data_url: String,
    /// A page describing the image, if any.
    pub info_url: Option<String>,
    /// Fetch or apply timestamp, UTC microseconds.
    pub date: i64,
    /// The source key `pluginName_instanceId` this row belongs to.
    pub source: String,
    /// Whether this wallpaper has been applied already.
    pub was_set: bool,
}

/// Relies on `chrono::Utc::now`: the current UTC time in microseconds.
/// Nothing can be promised of a clock reading.
#[verifier::external_body]
pub fn now_micros() -> i64 {
    chrono::Utc::now().timestamp_micros()
}

impl Candidate {
    /// A fresh candidate: stamped with the current time, not yet applied.
    pub fn new(
        id: String,
        name: Option<String>,
        data_url: String,
        info_url: Option<String>,
        source: String,
    ) -> (r: Candidate)
        ensures
            r.id == id,
            r.name == name,
            r.data_url == data_url,
            r.info_url == info_url,
            r.source == source,
            r.was_set == false,
    {
        Candidate {
            id,
            name,
            data_url,
            info_url,
            date: now_micros(),
            source,
            was_set: false,
        }
    }
}

impl Clone for Candidate {
    fn clone(&self) -> (r: Self)
        ensures
            r == *self,
    {
        Candidate {
            id: self.id.clone(),
            name: match &self.name {
                Some(n) => Some(n.clone()),
                None => None,
            },
            data_url: self.data_url.clone(),
            info_url: match &self.info_url {
                Some(u) => Some(u.clone()),
                None => None,
            },
            date: self.date,
            source: self.source.clone(),
            was_set: self.was_set,
        }
    }
}

} // verus!
