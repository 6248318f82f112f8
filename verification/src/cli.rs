//! The decisions of a scan: which host names to keep and which addresses the
//! HTTP modules probe.
use vstd::prelude::*;
use vstd::string::*;

use crate::modules::{Port, Subdomain};
use crate::text::{contains, contains_text, decimal, dedup, push_decimal, push_unique};

verus! {

/// The names that hold `target`, in order.
pub open spec fn containing(names: Seq<Seq<char>>, target: Seq<char>) -> Seq<Seq<char>>
    decreases names.len(),
{
    if names.len() == 0 {
        Seq::<Seq<char>>::empty()
    } else {
        let before = containing(names.drop_last(), target);
        if contains_text(names.last(), target) {
            before.push(names.last())
        } else {
            before
        }
    }
}

/// The host names that a scan of `target` goes on with, given the names
/// `found` by the enumeration modules: the found names and the target itself,
/// those that hold the target, each once.
pub open spec fn scan_subdomains(found: Seq<Seq<char>>, target: Seq<char>) -> Seq<Seq<char>> {
    dedup(containing(found.push(target), target))
}

/// The host names of the subdomains.
pub open spec fn domains(subdomains: Seq<Subdomain>) -> Seq<Seq<char>> {
    subdomains.map_values(|subdomain: Subdomain| subdomain.domain@)
}

/// The address that the HTTP modules probe for an open `port` of `domain`.
pub open spec fn port_url(domain: Seq<char>, port: u16) -> Seq<char> {
    "http://"@ + domain + "/"@ + decimal(port as nat)
}

/// The addresses for the ports of one host.
pub open spec fn subdomain_urls(domain: Seq<char>, ports: Seq<Port>) -> Seq<Seq<char>> {
    ports.map_values(|port: Port| port_url(domain, port.port))
}

/// The addresses for the open ports of all hosts, host after host.
pub open spec fn scan_targets(subdomains: Seq<Subdomain>) -> Seq<Seq<char>>
    decreases subdomains.len(),
{
    if subdomains.len() == 0 {
        Seq::<Seq<char>>::empty()
    } else {
        scan_targets(subdomains.drop_last()) + subdomain_urls(
            subdomains.last().domain@,
            subdomains.last().open_ports@,
        )
    }
}

/// The subdomains that a scan of `target` goes on with, none of them with
/// open ports yet.
pub fn clean_subdomains(found: Vec<String>, target: &str) -> (subdomains: Vec<Subdomain>)
    ensures
        domains(subdomains@) == scan_subdomains(found.deep_view(), target@),
        forall|i: int| 0 <= i < subdomains@.len() ==> (#[trigger] subdomains@[i]).open_ports@.len()
            == 0,
        forall|i: int|
            0 <= i < found@.len() && contains_text(#[trigger] found@[i]@, target@) ==> domains(
                subdomains@,
            ).contains(found@[i]@),
        domains(subdomains@).contains(target@),
{
    let mut names: Vec<String> = Vec::new();
    let ghost all = found.deep_view().push(target@);
    let n = found.len();
    for i in 0..n
        invariant
            n == found@.len(),
            all == found.deep_view().push(target@),
            names.deep_view() == dedup(containing(all.take(i as int), target@)),
    {
        let name = found[i].clone();
        let keep = contains(name.as_str(), target);
        proof {
            assert(name@ == all[i as int]);
            assert(all.take(i + 1).drop_last() =~= all.take(i as int));
            let kept = containing(all.take(i as int), target@);
            if keep {
                assert(kept.push(name@).drop_last() =~= kept);
            }
        }
        if keep {
            push_unique(&mut names, name);
        }
    }
    let whole = target.to_owned();
    proof {
        assert(all.take(n + 1).drop_last() =~= all.take(n as int));
        assert(all.take(n + 1) =~= all);
        occurs_whole(target@);
        let kept = containing(all.take(n as int), target@);
        assert(kept.push(target@).drop_last() =~= kept);
    }
    push_unique(&mut names, whole);
    let mut subdomains: Vec<Subdomain> = Vec::new();
    for k in 0..names.len()
        invariant
            subdomains@.len() == k,
            k <= names@.len(),
            forall|j: int| 0 <= j < k ==> (#[trigger] subdomains@[j]).domain@ == names.deep_view()[j]
                && subdomains@[j].open_ports@.len() == 0,
    {
        let domain = names[k].clone();
        subdomains.push(Subdomain { domain, open_ports: Vec::new() });
    }
    assert(domains(subdomains@) =~= names.deep_view());
    proof {
        lemma_scan_subdomains_are_the_names(found.deep_view(), target@);
        lemma_scan_keeps_target(found.deep_view(), target@);
        assert forall|i: int|
            0 <= i < found@.len() && contains_text(#[trigger] found@[i]@, target@) implies domains(
            subdomains@,
        ).contains(found@[i]@) by {
            assert(found.deep_view()[i] == found@[i]@);
        }
    }
    subdomains
}

/// A text holds itself.
proof fn occurs_whole(text: Seq<char>)
    ensures
        contains_text(text, text),
{
    assert(text.subrange(0, text.len() as int) =~= text);
    assert(crate::text::occurs_at(text, text, 0));
}

/// Every scan keeps the scanned target among its host names, and every host
/// name it keeps holds the target and is kept once.
pub proof fn lemma_scan_keeps_target(found: Seq<Seq<char>>, target: Seq<char>)
    ensures
        scan_subdomains(found, target).contains(target),
        scan_subdomains(found, target).no_duplicates(),
        forall|name: Seq<char>| #[trigger]
            scan_subdomains(found, target).contains(name) ==> contains_text(name, target),
{
    let all = found.push(target);
    occurs_whole(target);
    lemma_containing(all, target);
    assert(all[all.len() - 1] == target);
    assert(all.contains(target));
    let kept = containing(all, target);
    assert(kept.contains(target));
    crate::text::lemma_dedup_same_elements(kept);
    crate::text::lemma_dedup_no_duplicates(kept);
    assert(dedup(kept).contains(target));
    assert forall|name: Seq<char>| #[trigger]
        scan_subdomains(found, target).contains(name) implies contains_text(name, target) by {
        assert(dedup(kept).contains(name));
        assert(kept.contains(name));
    }
}

/// A scan goes on with exactly the found names that hold the target, and the
/// target: every found name that holds the target is kept, and every kept name
/// holds the target and is the target or a found name.
pub proof fn lemma_scan_subdomains_are_the_names(found: Seq<Seq<char>>, target: Seq<char>)
    ensures
        forall|i: int|
            0 <= i < found.len() && contains_text(#[trigger] found[i], target) ==> scan_subdomains(
                found,
                target,
            ).contains(found[i]),
        forall|name: Seq<char>| #[trigger]
            scan_subdomains(found, target).contains(name) ==> contains_text(name, target) && (name
                == target || exists|i: int| 0 <= i < found.len() && found[i] == name),
{
    let all = found.push(target);
    let kept = containing(all, target);
    lemma_containing(all, target);
    crate::text::lemma_dedup_same_elements(kept);
    assert forall|i: int|
        0 <= i < found.len() && contains_text(#[trigger] found[i], target) implies scan_subdomains(
        found,
        target,
    ).contains(found[i]) by {
        assert(all[i] == found[i]);
        assert(all.contains(found[i]));
        assert(kept.contains(found[i]));
    }
    assert forall|name: Seq<char>| #[trigger]
        scan_subdomains(found, target).contains(name) implies contains_text(name, target) && (name
            == target || exists|i: int| 0 <= i < found.len() && found[i] == name) by {
        assert(kept.contains(name));
        assert(all.contains(name));
        let k = choose|k: int| 0 <= k < all.len() && all[k] == name;
        if k < found.len() {
            assert(found[k] == name);
        }
    }
}

/// The names that hold the target are exactly those of the list that hold it.
proof fn lemma_containing(names: Seq<Seq<char>>, target: Seq<char>)
    ensures
        forall|name: Seq<char>| #[trigger]
            containing(names, target).contains(name) <==> (names.contains(name) && contains_text(
                name,
                target,
            )),
    decreases names.len(),
{
    if names.len() > 0 {
        let t = names.drop_last();
        let l = names.last();
        lemma_containing(t, target);
        let before = containing(t, target);
        assert forall|name: Seq<char>| #[trigger]
            containing(names, target).contains(name) <==> (names.contains(name) && contains_text(
                name,
                target,
            )) by {
            if names.contains(name) && name != l {
                let k = choose|k: int| 0 <= k < names.len() && names[k] == name;
                assert(t[k] == name);
            }
            if t.contains(name) {
                let k = choose|k: int| 0 <= k < t.len() && t[k] == name;
                assert(names[k] == name);
            }
            if name == l {
                assert(names[names.len() - 1] == name);
            }
            if contains_text(l, target) {
                if before.push(l).contains(name) && name != l {
                    let k = choose|k: int| 0 <= k < before.push(l).len() && before.push(l)[k] == name;
                    assert(before[k] == name);
                }
                if before.contains(name) {
                    let k = choose|k: int| 0 <= k < before.len() && before[k] == name;
                    assert(before.push(l)[k] == name);
                }
                if name == l {
                    assert(before.push(l)[before.len() as int] == name);
                }
            }
        }
    }
}

/// The address that the HTTP modules probe for `port` of `domain`.
pub fn target_url(domain: &str, port: u16) -> (url: String)
    ensures
        url@ == port_url(domain@, port),
{
    let mut url = "http://".to_owned();
    url.append(domain);
    url.append("/");
    push_decimal(&mut url, port);
    url
}

/// The addresses that the HTTP modules probe: one for each open port of
/// each host, host after host.
pub fn http_targets(subdomains: &Vec<Subdomain>) -> (targets: Vec<String>)
    ensures
        targets.deep_view() == scan_targets(subdomains@),
{
    let mut targets: Vec<String> = Vec::new();
    assert(subdomains@.take(0) =~= Seq::<Subdomain>::empty());
    for i in 0..subdomains.len()
        invariant
            targets.deep_view() == scan_targets(subdomains@.take(i as int)),
    {
        let subdomain = &subdomains[i];
        let ghost start = targets.deep_view();
        let ghost urls = subdomain_urls(subdomain.domain@, subdomain.open_ports@);
        assert(start + urls.take(0) =~= start);
        for j in 0..subdomain.open_ports.len()
            invariant
                urls == subdomain_urls(subdomain.domain@, subdomain.open_ports@),
                targets.deep_view() == start + urls.take(j as int),
        {
            let url = target_url(subdomain.domain.as_str(), subdomain.open_ports[j].port);
            let ghost before = targets.deep_view();
            targets.push(url);
            assert(targets.deep_view() =~= before.push(urls[j as int]));
            assert(urls.take(j + 1) =~= urls.take(j as int).push(urls[j as int]));
        }
        assert(urls.take(subdomain.open_ports@.len() as int) =~= urls);
        assert(subdomains@.take(i + 1).drop_last() =~= subdomains@.take(i as int));
    }
    assert(subdomains@.take(subdomains@.len() as int) =~= subdomains@);
    targets
}

} // verus!
