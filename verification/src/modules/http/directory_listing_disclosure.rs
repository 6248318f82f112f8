use vstd::prelude::*;
use vstd::string::*;

use crate::modules::{HttpFinding, Module};

verus! {

/// What `regex::Regex::new(pattern)` and then `is_match(haystack)` on the
/// compiled expression give: `None` where the pattern does not compile, else
/// whether the expression matches somewhere in `haystack`.
pub uninterp spec fn regex_search(pattern: Seq<char>, haystack: Seq<char>) -> Option<bool>;

/// Compiles `pattern` with `regex::Regex::new` and asks `Regex::is_match` of
/// the compiled expression on `haystack`. The contract names the outcome by
/// `regex_search` and says nothing of which texts match a pattern.
#[verifier::external_body]
fn search_regex(pattern: &str, haystack: &str) -> (found: Option<bool>)
    ensures
        found == regex_search(pattern@, haystack@),
{
    match regex::Regex::new(pattern) {
        Ok(expression) => Some(expression.is_match(haystack)),
        Err(_) => None,
    }
}

/// The regular expression of a generated directory index page.
pub open spec fn dir_listing_pattern() -> Seq<char> {
    "<title>Index of .*</title>"@
}

/// Checks whether an endpoint lists the files of a directory.
pub struct DirectoryListingDisclosure {
    dir_listing_regex: String,
}

impl DirectoryListingDisclosure {
    #[verifier::type_invariant]
    spec fn holds_listing_pattern(self) -> bool {
        self.dir_listing_regex@ == dir_listing_pattern()
    }

    /// The regular expression that the module matches bodies against.
    pub closed spec fn pattern(&self) -> Seq<char> {
        self.dir_listing_regex@
    }

    pub fn new() -> (module: Self)
        ensures
            module.pattern() == dir_listing_pattern(),
    {
        DirectoryListingDisclosure { dir_listing_regex: "<title>Index of .*</title>".to_owned() }
    }

    /// Whether `body` matches the expression of a directory index page (a
    /// pattern that does not compile matches nothing).
    pub fn is_directory_listing(&self, body: String) -> (is_listing: bool)
        ensures
            is_listing == (regex_search(dir_listing_pattern(), body@) == Some(true)),
    {
        proof {
            use_type_invariant(self);
        }
        match search_regex(self.dir_listing_regex.as_str(), body.as_str()) {
            Some(found) => found,
            None => false,
        }
    }

    /// The address that the probe requests under `endpoint`.
    pub fn target_url(&self, endpoint: &str) -> (url: String)
        ensures
            url@ == endpoint@ + "/"@,
    {
        let mut url = endpoint.to_owned();
        url.append("/");
        url
    }

    /// The finding that the answer to a request of `url` shows: a successful
    /// answer whose body `is_listing` found to be a directory index.
    pub fn analyze_response(&self, url: String, success: bool, is_listing: bool) -> (finding:
        Option<HttpFinding>)
        ensures
            finding == (if success && is_listing {
                Some(HttpFinding::DirectoryListingDisclosure(url))
            } else {
                None
            }),
    {
        if success && is_listing {
            Some(HttpFinding::DirectoryListingDisclosure(url))
        } else {
            None
        }
    }
}

impl Module for DirectoryListingDisclosure {
    fn name(&self) -> (name: String)
        ensures
            name@ == "http/dir_listing_disclosure"@,
    {
        "http/dir_listing_disclosure".to_owned()
    }

    fn description(&self) -> (description: String)
        ensures
            description@ == "Check for enabled directory listing, which often leaks information"@,
    {
        "Check for enabled directory listing, which often leaks information".to_owned()
    }
}

} // verus!
