//! Cloud service configuration.  The transfer calls themselves live with
//! the rest of the I/O, outside the library.

use vstd::prelude::*;
use vstd::string::StringExecFns;

verus! {

/// Where project files are uploaded and fetched.
#[derive(Debug, Clone)]
pub struct CloudConfig {
    pub endpoint: String,
    pub api_key: Option<String>,
}

impl Default for CloudConfig {
    fn default() -> (c: Self)
        ensures
            c.endpoint@ == "https://api.audiosync.pro"@,
            c.api_key is None,
    {
        CloudConfig { endpoint: String::from_str("https://api.audiosync.pro"), api_key: None }
    }
}

} // verus!
