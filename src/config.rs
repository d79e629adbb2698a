//! Where the database and the reports live.
use vstd::prelude::*;
use vstd::string::*;

verus! {

/// Where the database and the reports live.
pub struct Config {
    pub database_url: String,
    pub report_path: String,
}

impl Config {
    /// The configuration from optional settings, each defaulting where absent.
    pub fn from_settings(database_url: Option<String>, report_path: Option<String>) -> (r: Config)
        ensures
            r.database_url@ == match database_url {
                Some(u) => u@,
                None => "data/lottery.db"@,
            },
            r.report_path@ == match report_path {
                Some(p) => p@,
                None => "reports"@,
            },
    {
        let database_url = match database_url {
            Some(u) => u,
            None => String::from_str("data/lottery.db"),
        };
        let report_path = match report_path {
            Some(p) => p,
            None => String::from_str("reports"),
        };
        Config { database_url, report_path }
    }
}

} // verus!
