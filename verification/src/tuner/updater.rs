use vstd::prelude::*;

verus! {

/// A results sink for InfluxDB that records nothing yet.
pub struct UpdateInflux {}

impl UpdateInflux {
    pub fn new() -> (r: UpdateInflux) {
        UpdateInflux {  }
    }
}

/// Connection settings for an InfluxDB database.
pub struct InfluxProxy {
    pub host: String,
    pub port: u32,
    pub username: String,
    pub password: String,
    pub database: String,
}

} // verus!
