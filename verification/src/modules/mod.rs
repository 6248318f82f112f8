//! The scanning modules and the values they share.
use vstd::prelude::*;

pub mod http;
pub mod subdomains;

verus! {

/// What an HTTP module found at an address; each variant holds the address.
#[derive(Debug)]
#[allow(non_camel_case_types)]
pub enum HttpFinding {
    GitlabOpenRegistrations(String),
    GitHeadDisclosure(String),
    DotenvDisclosure(String),
    DsStoreDisclosure(String),
    EtcdUnauthenticatedAccess(String),
    KibanaUnauthenticatedAccess(String),
    DirectoryListingDisclosure(String),
    Cve2018_7600(String),
}

/// A port of a host and whether it accepted a connection.
#[derive(Clone, Copy, Debug)]
pub struct Port {
    pub port: u16,
    pub is_open: bool,
}

/// A host name under the scanned domain and the ports found open on it.
#[derive(Clone, Debug)]
pub struct Subdomain {
    pub domain: String,
    pub open_ports: Vec<Port>,
}

/// What every module tells of itself.
pub trait Module {
    /// The module's identifier, its kind and its name joined by a slash.
    fn name(&self) -> String;

    /// One sentence on what the module looks for.
    fn description(&self) -> String;
}

} // verus!
