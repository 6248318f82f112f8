use vstd::prelude::*;
use vstd::string::*;

use crate::modules::{HttpFinding, Module};
use crate::text::{chars_of, contains_chars, contains_text};

verus! {

/// Checks whether an etcd database answers without authentication.
pub struct EtcdUnauthenticatedAccess {}

impl Module for EtcdUnauthenticatedAccess {
    fn name(&self) -> (name: String)
        ensures
            name@ == "http/etcd_unauthenticated_access"@,
    {
        "http/etcd_unauthenticated_access".to_owned()
    }

    fn description(&self) -> (description: String)
        ensures
            description@ == "Check for unauthenticated access possibilities on an etcd database"@,
    {
        "Check for unauthenticated access possibilities on an etcd database".to_owned()
    }
}

impl EtcdUnauthenticatedAccess {
    pub fn new() -> (module: Self) {
        EtcdUnauthenticatedAccess {  }
    }

    /// The address that the probe requests under `endpoint`.
    pub fn target_url(&self, endpoint: &str) -> (url: String)
        ensures
            url@ == endpoint@ + "/version"@,
    {
        let mut url = endpoint.to_owned();
        url.append("/version");
        url
    }

    /// The finding that the answer to a request of `url` shows: a successful
    /// answer, shorter than 200 characters, that names both the etcd server
    /// and the etcd cluster version.
    pub fn analyze_response(&self, url: String, success: bool, body: &str) -> (finding: Option<
        HttpFinding,
    >)
        ensures
            finding == (if success && contains_text(body@, "\"etcdserver\""@) && contains_text(
                body@,
                "\"etcdcluster\""@,
            ) && body@.len() < 200 {
                Some(HttpFinding::EtcdUnauthenticatedAccess(url))
            } else {
                None
            }),
    {
        if !success {
            return None;
        }
        let chars = chars_of(body);
        if contains_chars(&chars, &chars_of("\"etcdserver\"")) && contains_chars(
            &chars,
            &chars_of("\"etcdcluster\""),
        ) && chars.len() < 200 {
            return Some(HttpFinding::EtcdUnauthenticatedAccess(url));
        }
        None
    }
}

} // verus!
