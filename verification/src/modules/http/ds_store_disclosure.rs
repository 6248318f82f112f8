use vstd::prelude::*;
use vstd::string::*;

use crate::modules::{HttpFinding, Module};

verus! {

/// The eight bytes that open every `.DS_Store` file.
pub open spec fn ds_store_signature() -> Seq<u8> {
    seq![0x00u8, 0x00u8, 0x00u8, 0x01u8, 0x42u8, 0x75u8, 0x64u8, 0x31u8]
}

/// Checks for a disclosed `.DS_Store` file of macOS.
pub struct DsStoreDisclosure {}

impl DsStoreDisclosure {
    pub fn new() -> (module: Self) {
        DsStoreDisclosure {  }
    }

    /// Whether `content` begins with the `.DS_Store` signature.
    pub fn is_ds_store_file(&self, content: &[u8]) -> (is_ds_store: bool)
        ensures
            is_ds_store == (content@.len() >= 8 && content@.take(8) == ds_store_signature()),
    {
        if content.len() < 8 {
            return false;
        }
        let signature: [u8; 8] = [0x0, 0x0, 0x0, 0x1, 0x42, 0x75, 0x64, 0x31];
        let mut i: usize = 0;
        while i < 8
            invariant
                0 <= i <= 8,
                content@.len() >= 8,
                signature@ == ds_store_signature(),
                forall|j: int| 0 <= j < i ==> content@[j] == ds_store_signature()[j],
            decreases 8 - i,
        {
            if content[i] != signature[i] {
                assert(content@.take(8)[i as int] != ds_store_signature()[i as int]);
                return false;
            }
            i = i + 1;
        }
        assert(content@.take(8) =~= ds_store_signature());
        true
    }

    /// The address that the probe requests under `endpoint`.
    pub fn target_url(&self, endpoint: &str) -> (url: String)
        ensures
            url@ == endpoint@ + "/.DS_Store"@,
    {
        let mut url = endpoint.to_owned();
        url.append("/.DS_Store");
        url
    }

    /// The finding that the answer to a request of `url` shows: a successful
    /// answer whose bytes begin with the `.DS_Store` signature.
    pub fn analyze_response(&self, url: String, success: bool, body: &[u8]) -> (finding: Option<
        HttpFinding,
    >)
        ensures
            finding == (if success && body@.len() >= 8 && body@.take(8) == ds_store_signature() {
                Some(HttpFinding::DsStoreDisclosure(url))
            } else {
                None
            }),
    {
        if !success {
            return None;
        }
        if self.is_ds_store_file(body) {
            return Some(HttpFinding::DsStoreDisclosure(url));
        }
        None
    }
}

impl Module for DsStoreDisclosure {
    fn name(&self) -> (name: String)
        ensures
            name@ == "http/DsStoreDisclosure"@,
    {
        "http/DsStoreDisclosure".to_owned()
    }

    fn description(&self) -> (description: String)
        ensures
            description@ == "Checks if .DS_Store (Mac) files have been disclosed"@,
    {
        "Checks if .DS_Store (Mac) files have been disclosed".to_owned()
    }
}

} // verus!
