use vstd::prelude::*;
use vstd::string::*;

use crate::modules::{HttpFinding, Module};
use crate::text::{lowercase, starts_with, starts_with_text, to_lowercase, trim, trimmed};

verus! {

/// Checks whether an endpoint serves the `HEAD` file of its git repository.
pub struct GitHeadDisclosure {}

/// A lower-cased text reads as a git `HEAD` file: trimmed, it begins with `ref:`.
pub open spec fn reads_as_head(lowered: Seq<char>) -> bool {
    starts_with_text(trimmed(lowered), "ref:"@)
}

impl GitHeadDisclosure {
    pub fn new() -> (module: Self) {
        GitHeadDisclosure {  }
    }

    /// Whether `content`, once lower-cased, reads as a git `HEAD` file.
    pub fn is_head_file(&self, content: String) -> (is_head: bool)
        ensures
            is_head == reads_as_head(lowercase(content@)),
    {
        let lowered = to_lowercase(content.as_str());
        Self::is_head_text(lowered.as_str())
    }

    /// Whether the already lower-cased text `lowered` reads as a git `HEAD` file.
    pub fn is_head_text(lowered: &str) -> (is_head: bool)
        ensures
            is_head == reads_as_head(lowered@),
    {
        starts_with(trim(lowered), "ref:")
    }

    /// The address that the probe requests under `endpoint`.
    pub fn target_url(&self, endpoint: &str) -> (url: String)
        ensures
            url@ == endpoint@ + "/.git/HEAD"@,
    {
        let mut url = endpoint.to_owned();
        url.append("/.git/HEAD");
        url
    }

    /// The finding that the answer to a request of `url` shows: a successful
    /// answer whose body reads as a git `HEAD` file.
    pub fn analyze_response(&self, url: String, success: bool, body: String) -> (finding: Option<
        HttpFinding,
    >)
        ensures
            finding == (if success && reads_as_head(lowercase(body@)) {
                Some(HttpFinding::GitHeadDisclosure(url))
            } else {
                None
            }),
    {
        if !success {
            return None;
        }
        if self.is_head_file(body) {
            return Some(HttpFinding::GitHeadDisclosure(url));
        }
        None
    }
}

impl Module for GitHeadDisclosure {
    fn name(&self) -> (name: String)
        ensures
            name@ == "http/git_head_disclosure"@,
    {
        "http/git_head_disclosure".to_owned()
    }

    fn description(&self) -> (description: String)
        ensures
            description@ == "Check for .git/HEAD file disclosure"@,
    {
        "Check for .git/HEAD file disclosure".to_owned()
    }
}

} // verus!
