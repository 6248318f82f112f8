//! What a port scan keeps of its probes.
use vstd::prelude::*;

use crate::modules::{Port, Subdomain};

verus! {

/// The probes that found their port open, in order.
pub open spec fn open_only(probes: Seq<Port>) -> Seq<Port>
    decreases probes.len(),
{
    if probes.len() == 0 {
        Seq::<Port>::empty()
    } else {
        let before = open_only(probes.drop_last());
        if probes.last().is_open {
            before.push(probes.last())
        } else {
            before
        }
    }
}

/// `subdomain` with the ports that the `probes` found open.
pub fn record_open_ports(subdomain: Subdomain, probes: &Vec<Port>) -> (scanned: Subdomain)
    ensures
        scanned.domain == subdomain.domain,
        scanned.open_ports@ == open_only(probes@),
{
    let mut open_ports: Vec<Port> = Vec::new();
    assert(probes@.take(0) =~= Seq::<Port>::empty());
    for i in 0..probes.len()
        invariant
            open_ports@ == open_only(probes@.take(i as int)),
    {
        let probe = probes[i];
        proof {
            assert(probes@.take(i + 1).drop_last() =~= probes@.take(i as int));
            assert(probes@.take(i + 1).last() == probe);
        }
        if probe.is_open {
            open_ports.push(probe);
        }
    }
    assert(probes@.take(probes@.len() as int) =~= probes@);
    Subdomain { domain: subdomain.domain, open_ports }
}

/// Every port that a scan records is open.
pub proof fn lemma_recorded_ports_open(probes: Seq<Port>)
    ensures
        forall|i: int| 0 <= i < open_only(probes).len() ==> (#[trigger] open_only(probes)[i]).is_open,
    decreases probes.len(),
{
    if probes.len() > 0 {
        let before = open_only(probes.drop_last());
        lemma_recorded_ports_open(probes.drop_last());
        assert forall|i: int| 0 <= i < open_only(probes).len() implies (#[trigger] open_only(
            probes,
        )[i]).is_open by {
            if i < before.len() {
                assert(open_only(probes)[i] == before[i]);
            }
        }
    }
}

} // verus!
