//! The decisions of a scanner of web hosts: which host names a certificate log
//! or a web archive reveals under a domain, which of them a scan goes on with,
//! which addresses it probes, and what the answer to a probe discloses.
pub mod cli;
pub mod dns;
pub mod error;
pub mod modules;
pub mod ports;
pub mod subdomains;
pub mod text;
