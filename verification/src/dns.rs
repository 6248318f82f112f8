//! What name resolution keeps.
use vstd::prelude::*;

use crate::modules::Subdomain;

verus! {

/// `domain`, kept only where its name `resolves`.
pub fn keep_resolved(domain: Subdomain, resolves: bool) -> (kept: Option<Subdomain>)
    ensures
        kept == (if resolves {
            Some(domain)
        } else {
            None
        }),
{
    if resolves {
        Some(domain)
    } else {
        None
    }
}

} // verus!
