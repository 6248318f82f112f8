use vstd::prelude::*;
use vstd::string::*;

use crate::modules::{HttpFinding, Module};
use crate::text::{contains, contains_text};

verus! {

/// Checks for the open redirect of CVE-2018-7600: an endpoint that fetches
/// and returns the page at a URL given in the query.
pub struct Cve2018_7600 {}

impl Module for Cve2018_7600 {
    fn name(&self) -> (name: String)
        ensures
            name@ == "http/cve_2018_7600"@,
    {
        "http/cve_2018_7600".to_owned()
    }

    fn description(&self) -> (description: String)
        ensures
            description@
                == "Check for CVE-2018-7600 (see: https://nvd.nist.gov/vuln/detail/CVE-2018-7600)"@,
    {
        "Check for CVE-2018-7600 (see: https://nvd.nist.gov/vuln/detail/CVE-2018-7600)".to_owned()
    }
}

impl Cve2018_7600 {
    pub fn new() -> (module: Self) {
        Cve2018_7600 {  }
    }

    /// The address that the probe requests under `endpoint`: one that asks
    /// the server to fetch a well-known `robots.txt`.
    pub fn target_url(&self, endpoint: &str) -> (url: String)
        ensures
            url@ == endpoint@
                + "/plugins/servlet/oauth/users/icon-uri?consumerUri=https://google.com/robots.txt"@,
    {
        let mut url = endpoint.to_owned();
        url.append("/plugins/servlet/oauth/users/icon-uri?consumerUri=https://google.com/robots.txt");
        url
    }

    /// The finding that the answer to a request of `url` shows: a successful
    /// answer whose body holds the fetched `robots.txt`.
    pub fn analyze_response(&self, url: String, success: bool, body: &str) -> (finding: Option<
        HttpFinding,
    >)
        ensures
            finding == (if success && contains_text(body@, "user-agent: *"@) && contains_text(
                body@,
                "disallow"@,
            ) {
                Some(HttpFinding::Cve2018_7600(url))
            } else {
                None
            }),
    {
        if !success {
            return None;
        }
        if contains(body, "user-agent: *") && contains(body, "disallow") {
            return Some(HttpFinding::Cve2018_7600(url));
        }
        None
    }
}

} // verus!
