use vstd::prelude::*;
use vstd::string::*;

use crate::modules::{HttpFinding, Module};

verus! {

/// Checks whether an endpoint serves its `.env` file.
pub struct DotenvDisclosure {}

impl Module for DotenvDisclosure {
    fn name(&self) -> (name: String)
        ensures
            name@ == "http/.env_disclosure"@,
    {
        "http/.env_disclosure".to_owned()
    }

    fn description(&self) -> (description: String)
        ensures
            description@ == "Check if .env files have been disclosed"@,
    {
        "Check if .env files have been disclosed".to_owned()
    }
}

impl DotenvDisclosure {
    pub fn new() -> (module: Self) {
        DotenvDisclosure {  }
    }

    /// The address that the probe requests under `endpoint`.
    pub fn target_url(&self, endpoint: &str) -> (url: String)
        ensures
            url@ == endpoint@ + "/.env"@,
    {
        let mut url = endpoint.to_owned();
        url.append("/.env");
        url
    }

    /// The finding that the answer to a request of `url` shows: any
    /// successful answer discloses the file.
    pub fn analyze_response(&self, url: String, success: bool) -> (finding: Option<HttpFinding>)
        ensures
            finding == (if success {
                Some(HttpFinding::DotenvDisclosure(url))
            } else {
                None
            }),
    {
        if success {
            Some(HttpFinding::DotenvDisclosure(url))
        } else {
            None
        }
    }
}

} // verus!
