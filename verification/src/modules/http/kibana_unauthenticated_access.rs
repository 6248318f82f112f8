use vstd::prelude::*;
use vstd::string::*;

use crate::modules::{HttpFinding, Module};
use crate::text::{
    chars_of, contains_chars, contains_text, occurs_at, occurs_at_index, starts_with_text,
};

verus! {

/// Checks whether a Kibana dashboard opens without authentication.
pub struct KibanaUnauthenticatedAccess {}

/// The page of a Kibana dashboard that needs no login shows one of these
/// texts (or begins with the third).
pub open spec fn kibana_marks(body: Seq<char>) -> bool {
    ||| contains_text(body, "</head><body kbn-chrome id=\"kibana-body\"><kbn-initial-state"@)
    ||| contains_text(
        body,
        "<div class=\"ui-app-loading\"><h1><strong>Kibana</strong><small>&nbsp;isloading."@,
    )
    ||| starts_with_text(body, "|| body.contains("@)
    ||| contains_text(
        body,
        "<div class=\"kibanaWelcomeLogo\"></div></div></div><div class=\"kibanaWelcomeText\">Loading Kibana</div></div>"@,
    )
}

/// A page shows the mark of an open Kibana dashboard exactly where one of the
/// three mark texts occurs at some index of it, or the page begins with
/// `|| body.contains(`.
pub proof fn lemma_kibana_marks_anywhere(body: Seq<char>)
    ensures
        forall|i: int|
            #![trigger occurs_at(body, "</head><body kbn-chrome id=\"kibana-body\"><kbn-initial-state"@, i)]
            #![trigger occurs_at(body, "<div class=\"ui-app-loading\"><h1><strong>Kibana</strong><small>&nbsp;isloading."@, i)]
            #![trigger occurs_at(body, "<div class=\"kibanaWelcomeLogo\"></div></div></div><div class=\"kibanaWelcomeText\">Loading Kibana</div></div>"@, i)]
            occurs_at(body, "</head><body kbn-chrome id=\"kibana-body\"><kbn-initial-state"@, i) || occurs_at(body, "<div class=\"ui-app-loading\"><h1><strong>Kibana</strong><small>&nbsp;isloading."@, i) || occurs_at(body, "<div class=\"kibanaWelcomeLogo\"></div></div></div><div class=\"kibanaWelcomeText\">Loading Kibana</div></div>"@, i)
                ==> kibana_marks(body),
        occurs_at(body, "|| body.contains("@, 0) ==> kibana_marks(body),
        kibana_marks(body) ==> occurs_at(body, "|| body.contains("@, 0) || exists|i: int|
            occurs_at(body, "</head><body kbn-chrome id=\"kibana-body\"><kbn-initial-state"@, i) || occurs_at(body, "<div class=\"ui-app-loading\"><h1><strong>Kibana</strong><small>&nbsp;isloading."@, i) || occurs_at(body, "<div class=\"kibanaWelcomeLogo\"></div></div></div><div class=\"kibanaWelcomeText\">Loading Kibana</div></div>"@, i),
{
}

impl Module for KibanaUnauthenticatedAccess {
    fn name(&self) -> (name: String)
        ensures
            name@ == "http/kibana_unauthenticated_access"@,
    {
        "http/kibana_unauthenticated_access".to_owned()
    }

    fn description(&self) -> (description: String)
        ensures
            description@ == "Check for Kibana databases the can be accessed without Auth"@,
    {
        "Check for Kibana databases the can be accessed without Auth".to_owned()
    }
}

impl KibanaUnauthenticatedAccess {
    pub fn new() -> (module: Self) {
        KibanaUnauthenticatedAccess {  }
    }

    /// The address that the probe requests: the endpoint itself.
    pub fn target_url(&self, endpoint: &str) -> (url: String)
        ensures
            url@ == endpoint@,
    {
        endpoint.to_owned()
    }

    /// The finding that the answer to a request of `url` shows: a successful
    /// answer that carries a mark of an open Kibana page.
    pub fn analyze_response(&self, url: String, success: bool, body: &str) -> (finding: Option<
        HttpFinding,
    >)
        ensures
            finding == (if success && kibana_marks(body@) {
                Some(HttpFinding::KibanaUnauthenticatedAccess(url))
            } else {
                None
            }),
            success && contains_text(body@, "</head><body kbn-chrome id=\"kibana-body\"><kbn-initial-state"@) ==> finding == Some(
                HttpFinding::KibanaUnauthenticatedAccess(url),
            ),
            success && contains_text(body@, "<div class=\"ui-app-loading\"><h1><strong>Kibana</strong><small>&nbsp;isloading."@) ==> finding == Some(
                HttpFinding::KibanaUnauthenticatedAccess(url),
            ),
            success && starts_with_text(body@, "|| body.contains("@) ==> finding == Some(
                HttpFinding::KibanaUnauthenticatedAccess(url),
            ),
            success && contains_text(body@, "<div class=\"kibanaWelcomeLogo\"></div></div></div><div class=\"kibanaWelcomeText\">Loading Kibana</div></div>"@) ==> finding == Some(
                HttpFinding::KibanaUnauthenticatedAccess(url),
            ),
            !success ==> finding is None,
    {
        if !success {
            return None;
        }
        let chars = chars_of(body);
        if contains_chars(
            &chars,
            &chars_of("</head><body kbn-chrome id=\"kibana-body\"><kbn-initial-state"),
        ) || contains_chars(
            &chars,
            &chars_of(
                "<div class=\"ui-app-loading\"><h1><strong>Kibana</strong><small>&nbsp;isloading.",
            ),
        ) || occurs_at_index(&chars, &chars_of("|| body.contains("), 0) || contains_chars(
            &chars,
            &chars_of(
                "<div class=\"kibanaWelcomeLogo\"></div></div></div><div class=\"kibanaWelcomeText\">Loading Kibana</div></div>",
            ),
        ) {
            return Some(HttpFinding::KibanaUnauthenticatedAccess(url));
        }
        None
    }
}

} // verus!
