//! Process settings: the runtime environment name and the two backend URLs.

use vstd::prelude::*;

verus! {

/// Startup configuration. The two URLs are mandatory; the environment name
/// defaults when the process environment does not carry one.
pub struct Settings {
    pub env: String,
    pub chromadb_url: String,
    pub database_url: String,
}

impl Settings {
    /// Builds settings from values read out of the process environment: a
    /// missing environment name falls back to `development`; the caller has
    /// already treated a missing URL as fatal.
    pub fn new(env: Option<String>, chromadb_url: String, database_url: String) -> (r: Settings)
        ensures
            match env {
                Some(e) => r.env == e,
                None => r.env@ == "development"@,
            },
            r.chromadb_url == chromadb_url,
            r.database_url == database_url,
    {
        let env = match env {
            Some(e) => e,
            None => {
                let mut d = String::new();
                d.append("development");
                d
            },
        };
        Settings { env, chromadb_url, database_url }
    }
}

} // verus!
