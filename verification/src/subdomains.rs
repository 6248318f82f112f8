//! The candidates of the earlier enumeration that reads the certificate log
//! alone and always keeps the target.
use vstd::prelude::*;
use vstd::string::*;

use crate::modules::subdomains::crtsh::{
    crtsh_subdomains, lemma_crtsh_names_clean, name_values, CrtSh, CrtShEntry,
};

verus! {

/// The names other than `target`, in order.
pub open spec fn other_than(names: Seq<Seq<char>>, target: Seq<char>) -> Seq<Seq<char>>
    decreases names.len(),
{
    if names.len() == 0 {
        Seq::<Seq<char>>::empty()
    } else {
        let before = other_than(names.drop_last(), target);
        if names.last() == target {
            before
        } else {
            before.push(names.last())
        }
    }
}

/// The host names to resolve for `target`: those that the certificates
/// reveal other than the target, then the target.
pub open spec fn enumeration_candidates(name_values: Seq<Seq<char>>, target: Seq<char>) -> Seq<
    Seq<char>,
> {
    other_than(crtsh_subdomains(name_values), target).push(target)
}

proof fn lemma_other_than(names: Seq<Seq<char>>, target: Seq<char>)
    requires
        names.no_duplicates(),
    ensures
        other_than(names, target).no_duplicates(),
        forall|name: Seq<char>| #[trigger]
            other_than(names, target).contains(name) <==> (names.contains(name) && name != target),
    decreases names.len(),
{
    if names.len() > 0 {
        let t = names.drop_last();
        let l = names.last();
        assert(t.no_duplicates());
        lemma_other_than(t, target);
        let before = other_than(t, target);
        assert forall|name: Seq<char>| #[trigger]
            other_than(names, target).contains(name) <==> (names.contains(name) && name
                != target) by {
            if names.contains(name) && name != l {
                let k = choose|k: int| 0 <= k < names.len() && names[k] == name;
                assert(t[k] == name);
            }
            if t.contains(name) {
                let k = choose|k: int| 0 <= k < t.len() && t[k] == name;
                assert(names[k] == name);
            }
            if name == l {
                assert(names[names.len() - 1] == name);
            }
            if l != target {
                if before.push(l).contains(name) && name != l {
                    let k = choose|k: int| 0 <= k < before.push(l).len() && before.push(l)[k] == name;
                    assert(before[k] == name);
                }
                if before.contains(name) {
                    let k = choose|k: int| 0 <= k < before.len() && before[k] == name;
                    assert(before.push(l)[k] == name);
                }
                if name == l {
                    assert(before.push(l)[before.len() as int] == name);
                }
            }
        }
        if l != target {
            assert(!t.contains(l)) by {
                if t.contains(l) {
                    let k = choose|k: int| 0 <= k < t.len() && t[k] == l;
                    assert(names[k] == names[names.len() - 1]);
                }
            }
            assert(!before.contains(l));
            assert forall|i: int, j: int|
                0 <= i < before.push(l).len() && 0 <= j < before.push(l).len() && i != j implies
                before.push(l)[i] != before.push(l)[j] by {
                if i < before.len() && j < before.len() {
                } else if i < before.len() {
                    assert(before.contains(before[i]));
                } else if j < before.len() {
                    assert(before.contains(before[j]));
                }
            }
        }
    }
}

/// The earlier enumeration lists each candidate once, and the target among them.
pub proof fn lemma_candidates_distinct(name_values: Seq<Seq<char>>, target: Seq<char>)
    ensures
        enumeration_candidates(name_values, target).no_duplicates(),
        enumeration_candidates(name_values, target).contains(target),
{
    let names = crtsh_subdomains(name_values);
    lemma_crtsh_names_clean(name_values);
    lemma_other_than(names, target);
    let others = other_than(names, target);
    let all = others.push(target);
    assert(all[others.len() as int] == target);
    assert forall|i: int, j: int| 0 <= i < all.len() && 0 <= j < all.len() && i != j implies all[i]
        != all[j] by {
        if i < others.len() && j < others.len() {
        } else if i < others.len() {
            assert(others.contains(others[i]));
        } else if j < others.len() {
            assert(others.contains(others[j]));
        }
    }
}

/// The host names to resolve for `target`, given the log's certificates `entries`.
pub fn candidate_subdomains(entries: &Vec<CrtShEntry>, target: &str) -> (candidates: Vec<String>)
    ensures
        candidates.deep_view() == enumeration_candidates(name_values(entries@), target@),
{
    let names = CrtSh::subdomains_from_entries(entries);
    let whole = target.to_owned();
    let mut candidates: Vec<String> = Vec::new();
    let ghost all = names.deep_view();
    assert(all.take(0) =~= Seq::<Seq<char>>::empty());
    for i in 0..names.len()
        invariant
            all == names.deep_view(),
            whole@ == target@,
            candidates.deep_view() == other_than(all.take(i as int), target@),
    {
        let name = names[i].clone();
        let ghost before = candidates.deep_view();
        proof {
            assert(name@ == all[i as int]);
            assert(all.take(i + 1).drop_last() =~= all.take(i as int));
        }
        if !(name == whole) {
            candidates.push(name);
            assert(candidates.deep_view() =~= before.push(all[i as int]));
        }
    }
    assert(all.take(names@.len() as int) =~= all);
    let ghost before = candidates.deep_view();
    candidates.push(whole);
    assert(candidates.deep_view() =~= before.push(target@));
    candidates
}

} // verus!
