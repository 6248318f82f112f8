//! The modules that probe a web endpoint for one weakness each.
pub mod cve_2018_7600;
pub mod directory_listing_disclosure;
pub mod dotenv_disclosure;
pub mod ds_store_disclosure;
pub mod etcd_unauthenticated_access;
pub mod git_head_disclosure;
pub mod kibana_unauthenticated_access;

pub use cve_2018_7600::Cve2018_7600;
pub use directory_listing_disclosure::DirectoryListingDisclosure;
pub use dotenv_disclosure::DotenvDisclosure;
pub use ds_store_disclosure::DsStoreDisclosure;
pub use etcd_unauthenticated_access::EtcdUnauthenticatedAccess;
pub use git_head_disclosure::GitHeadDisclosure;
pub use kibana_unauthenticated_access::KibanaUnauthenticatedAccess;
