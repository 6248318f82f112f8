use vstd::prelude::*;
use vstd::string::*;

use crate::error::ModuleError;
use crate::modules::Module;
use crate::text::{
    dedup, has_char, lemma_dedup_no_duplicates, lemma_dedup_same_elements, lemma_trimmed_idempotent,
    lines_of, push_unique, split_lines, trim, trimmed,
};

verus! {

/// One certificate of the log's answer: the names it is issued for, one per line.
#[derive(Clone, Debug)]
pub struct CrtShEntry {
    pub name_value: String,
}

/// Looks up a domain's host names in the certificate transparency log of crt.sh.
pub struct CrtSh {}

/// The names that one certificate lists: its lines, trimmed.
pub open spec fn entry_names(name_value: Seq<char>) -> Seq<Seq<char>> {
    split_lines(name_value).map_values(|line: Seq<char>| trimmed(line))
}

/// The names of all certificates, in order.
pub open spec fn logged_names(name_values: Seq<Seq<char>>) -> Seq<Seq<char>>
    decreases name_values.len(),
{
    if name_values.len() == 0 {
        Seq::<Seq<char>>::empty()
    } else {
        logged_names(name_values.drop_last()) + entry_names(name_values.last())
    }
}

/// The names that hold no wildcard `*`, in order.
pub open spec fn without_wildcards(names: Seq<Seq<char>>) -> Seq<Seq<char>>
    decreases names.len(),
{
    if names.len() == 0 {
        Seq::<Seq<char>>::empty()
    } else {
        let before = without_wildcards(names.drop_last());
        if names.last().contains('*') {
            before
        } else {
            before.push(names.last())
        }
    }
}

/// The host names that certificates with these name lists reveal: every
/// trimmed line that holds no wildcard, each once.
pub open spec fn crtsh_subdomains(name_values: Seq<Seq<char>>) -> Seq<Seq<char>> {
    dedup(without_wildcards(logged_names(name_values)))
}

/// The name lists of the certificates.
pub open spec fn name_values(entries: Seq<CrtShEntry>) -> Seq<Seq<char>> {
    entries.map_values(|entry: CrtShEntry| entry.name_value@)
}

proof fn lemma_without_wildcards_members(names: Seq<Seq<char>>)
    ensures
        forall|name: Seq<char>| #[trigger]
            without_wildcards(names).contains(name) ==> names.contains(name) && !name.contains(
                '*',
            ),
    decreases names.len(),
{
    if names.len() > 0 {
        let t = names.drop_last();
        lemma_without_wildcards_members(t);
        let before = without_wildcards(t);
        assert forall|name: Seq<char>| #[trigger]
            without_wildcards(names).contains(name) implies names.contains(name) && !name.contains(
                '*',
            ) by {
            if before.contains(name) {
                let k = choose|k: int| 0 <= k < t.len() && t[k] == name;
                assert(names[k] == name);
            } else {
                let w = before.push(names.last());
                let k = choose|k: int| 0 <= k < w.len() && w[k] == name;
                if k < before.len() {
                    assert(before[k] == name);
                }
                assert(name == names.last());
                assert(names[names.len() - 1] == name);
            }
        }
    }
}

proof fn lemma_logged_names_trimmed(name_values: Seq<Seq<char>>)
    ensures
        forall|name: Seq<char>| #[trigger]
            logged_names(name_values).contains(name) ==> trimmed(name) == name,
    decreases name_values.len(),
{
    if name_values.len() > 0 {
        let t = name_values.drop_last();
        lemma_logged_names_trimmed(t);
        let before = logged_names(t);
        let last = entry_names(name_values.last());
        assert forall|name: Seq<char>| #[trigger]
            logged_names(name_values).contains(name) implies trimmed(name) == name by {
            let all = before + last;
            let k = choose|k: int| 0 <= k < all.len() && all[k] == name;
            assert(logged_names(name_values) == all);
            if k < before.len() {
                assert(before[k] == name);
                assert(before.contains(name));
            } else {
                let i = k - before.len();
                assert(logged_names(name_values) == all);
                assert(all[k] == last[i]);
                let line = split_lines(name_values.last())[i];
                assert(last[i] == trimmed(line));
                lemma_trimmed_idempotent(line);
                assert(trimmed(name) == name);
            }
        }
    }
}

/// Every host name read from the certificate log is trimmed, holds no
/// wildcard and is listed once.
pub proof fn lemma_crtsh_names_clean(name_values: Seq<Seq<char>>)
    ensures
        crtsh_subdomains(name_values).no_duplicates(),
        forall|name: Seq<char>| #[trigger]
            crtsh_subdomains(name_values).contains(name) ==> trimmed(name) == name
                && !name.contains('*'),
{
    let logged = logged_names(name_values);
    let kept = without_wildcards(logged);
    lemma_dedup_no_duplicates(kept);
    lemma_dedup_same_elements(kept);
    lemma_without_wildcards_members(logged);
    lemma_logged_names_trimmed(name_values);
    assert forall|name: Seq<char>| #[trigger]
        crtsh_subdomains(name_values).contains(name) implies trimmed(name) == name
        && !name.contains('*') by {
        assert(kept.contains(name));
        assert(logged.contains(name));
    }
}

proof fn lemma_logged_names_complete(name_values: Seq<Seq<char>>)
    ensures
        forall|i: int, j: int|
            0 <= i < name_values.len() && 0 <= j < split_lines(name_values[i]).len() ==> logged_names(
                name_values,
            ).contains(#[trigger] trimmed(split_lines(name_values[i])[j])),
    decreases name_values.len(),
{
    if name_values.len() > 0 {
        let t = name_values.drop_last();
        lemma_logged_names_complete(t);
        let before = logged_names(t);
        let last = entry_names(name_values.last());
        let all = before + last;
        assert(logged_names(name_values) == all);
        assert forall|i: int, j: int|
            0 <= i < name_values.len() && 0 <= j < split_lines(name_values[i]).len() implies all.contains(
            #[trigger] trimmed(split_lines(name_values[i])[j]),
        ) by {
            let name = trimmed(split_lines(name_values[i])[j]);
            if i == name_values.len() - 1 {
                assert(last[j] == name);
                assert(all[before.len() + j] == name);
            } else {
                assert(t[i] == name_values[i]);
                assert(before.contains(name));
                let k = choose|k: int| 0 <= k < before.len() && before[k] == name;
                assert(all[k] == name);
            }
        }
    }
}

proof fn lemma_logged_names_sound(name_values: Seq<Seq<char>>)
    ensures
        forall|name: Seq<char>| #[trigger]
            logged_names(name_values).contains(name) ==> exists|i: int, j: int|
                0 <= i < name_values.len() && 0 <= j < split_lines(name_values[i]).len() && name
                    == #[trigger] trimmed(split_lines(name_values[i])[j]),
    decreases name_values.len(),
{
    if name_values.len() > 0 {
        let t = name_values.drop_last();
        lemma_logged_names_sound(t);
        let before = logged_names(t);
        let last = entry_names(name_values.last());
        let all = before + last;
        assert(logged_names(name_values) == all);
        assert forall|name: Seq<char>| #[trigger] all.contains(name) implies exists|i: int, j: int|
            0 <= i < name_values.len() && 0 <= j < split_lines(name_values[i]).len() && name
                == #[trigger] trimmed(split_lines(name_values[i])[j]) by {
            let k = choose|k: int| 0 <= k < all.len() && all[k] == name;
            if k < before.len() {
                assert(before[k] == name);
                assert(before.contains(name));
                let (i, j) = choose|i: int, j: int|
                    0 <= i < t.len() && 0 <= j < split_lines(t[i]).len() && name == #[trigger] trimmed(
                        split_lines(t[i])[j],
                    );
                assert(name_values[i] == t[i]);
                assert(name == trimmed(split_lines(name_values[i])[j]));
            } else {
                let j = k - before.len();
                let i = name_values.len() - 1;
                assert(last[j] == name);
                assert(name == trimmed(split_lines(name_values[i])[j]));
            }
        }
    }
}

proof fn lemma_without_wildcards_complete(names: Seq<Seq<char>>)
    ensures
        forall|name: Seq<char>| #[trigger]
            names.contains(name) && !name.contains('*') ==> without_wildcards(names).contains(name),
    decreases names.len(),
{
    if names.len() > 0 {
        let t = names.drop_last();
        lemma_without_wildcards_complete(t);
        let before = without_wildcards(t);
        assert forall|name: Seq<char>| #[trigger]
            names.contains(name) && !name.contains('*') implies without_wildcards(names).contains(
            name,
        ) by {
            let k = choose|k: int| 0 <= k < names.len() && names[k] == name;
            if k < names.len() - 1 {
                assert(t[k] == name);
                assert(t.contains(name));
                assert(before.contains(name));
                let m = choose|m: int| 0 <= m < before.len() && before[m] == name;
                if !names.last().contains('*') {
                    assert(before.push(names.last())[m] == name);
                }
            } else {
                assert(before.push(names.last())[before.len() as int] == name);
            }
        }
    }
}

/// The certificate log yields exactly the trimmed lines of the certificates'
/// name lists that hold no wildcard: every such line is among the host names,
/// and every host name is such a line.
pub proof fn lemma_crtsh_names_are_the_lines(name_values: Seq<Seq<char>>)
    ensures
        forall|i: int, j: int|
            0 <= i < name_values.len() && 0 <= j < split_lines(name_values[i]).len()
                && !trimmed(split_lines(name_values[i])[j]).contains('*') ==> crtsh_subdomains(
                name_values,
            ).contains(#[trigger] trimmed(split_lines(name_values[i])[j])),
        forall|name: Seq<char>| #[trigger]
            crtsh_subdomains(name_values).contains(name) ==> !name.contains('*') && exists|
                i: int,
                j: int,
            |
                0 <= i < name_values.len() && 0 <= j < split_lines(name_values[i]).len() && name
                    == #[trigger] trimmed(split_lines(name_values[i])[j]),
{
    let logged = logged_names(name_values);
    let kept = without_wildcards(logged);
    lemma_logged_names_complete(name_values);
    lemma_logged_names_sound(name_values);
    lemma_without_wildcards_complete(logged);
    lemma_without_wildcards_members(logged);
    lemma_dedup_same_elements(kept);
    assert forall|i: int, j: int|
        0 <= i < name_values.len() && 0 <= j < split_lines(name_values[i]).len()
            && !trimmed(split_lines(name_values[i])[j]).contains('*') implies crtsh_subdomains(
        name_values,
    ).contains(#[trigger] trimmed(split_lines(name_values[i])[j])) by {
        let name = trimmed(split_lines(name_values[i])[j]);
        assert(logged.contains(name));
        assert(kept.contains(name));
    }
    assert forall|name: Seq<char>| #[trigger]
        crtsh_subdomains(name_values).contains(name) implies !name.contains('*') && exists|
            i: int,
            j: int,
        |
            0 <= i < name_values.len() && 0 <= j < split_lines(name_values[i]).len() && name
                == #[trigger] trimmed(split_lines(name_values[i])[j]) by {
        assert(kept.contains(name));
        assert(logged.contains(name));
    }
}

impl Module for CrtSh {
    fn name(&self) -> (name: String)
        ensures
            name@ == "subdomain/crtsh"@,
    {
        "subdomain/crtsh".to_owned()
    }

    fn description(&self) -> (description: String)
        ensures
            description@ == "Use crt.sh to search for subdomains"@,
    {
        "Use crt.sh to search for subdomains".to_owned()
    }
}

impl CrtSh {
    pub fn new() -> (module: Self) {
        CrtSh {  }
    }

    /// The address of the log's search for the names under `domain`.
    pub fn query_url(domain: &str) -> (url: String)
        ensures
            url@ == "https://crt.sh/?q=%25."@ + domain@ + "&output=json"@,
    {
        let mut url = "https://crt.sh/?q=%25.".to_owned();
        url.append(domain);
        url.append("&output=json");
        url
    }

    /// The host names that the certificates `entries` reveal.
    pub fn subdomains_from_entries(entries: &Vec<CrtShEntry>) -> (names: Vec<String>)
        ensures
            names.deep_view() == crtsh_subdomains(name_values(entries@)),
            forall|i: int, j: int|
                0 <= i < entries@.len() && 0 <= j < split_lines(entries@[i].name_value@).len()
                    && !trimmed(split_lines(entries@[i].name_value@)[j]).contains('*')
                    ==> names.deep_view().contains(
                    #[trigger] trimmed(split_lines(entries@[i].name_value@)[j]),
                ),
    {
        let ghost all = name_values(entries@);
        let mut names: Vec<String> = Vec::new();
        let ghost mut seen: Seq<Seq<char>> = Seq::empty();
        assert(all.take(0) =~= Seq::<Seq<char>>::empty());
        for i in 0..entries.len()
            invariant
                all == name_values(entries@),
                seen == logged_names(all.take(i as int)),
                names.deep_view() == dedup(without_wildcards(seen)),
        {
            let lines = lines_of(entries[i].name_value.as_str());
            let ghost start = seen;
            assert(entry_names(all[i as int]).take(0) =~= Seq::<Seq<char>>::empty());
            assert(start + Seq::<Seq<char>>::empty() =~= start);
            for j in 0..lines.len()
                invariant
                    0 <= i < all.len(),
                    lines.deep_view() == split_lines(all[i as int]),
                    seen == start + entry_names(all[i as int]).take(j as int),
                    names.deep_view() == dedup(without_wildcards(seen)),
            {
                let name = trim(lines[j].as_str()).to_owned();
                proof {
                    assert(name@ == entry_names(all[i as int])[j as int]);
                    assert(entry_names(all[i as int]).take(j + 1) =~= entry_names(
                        all[i as int],
                    ).take(j as int).push(name@));
                    assert(seen.push(name@).drop_last() =~= seen);
                }
                let wildcard = has_char(name.as_str(), '*');
                let ghost prev = seen;
                proof {
                    seen = seen.push(name@);
                    let kept = without_wildcards(prev);
                    if wildcard {
                        assert(without_wildcards(seen) == kept);
                    } else {
                        assert(without_wildcards(seen) == kept.push(name@));
                        assert(kept.push(name@).drop_last() =~= kept);
                    }
                }
                if !wildcard {
                    push_unique(&mut names, name);
                }
            }
            proof {
                assert(entry_names(all[i as int]).take(lines@.len() as int) =~= entry_names(
                    all[i as int],
                ));
                assert(all.take(i + 1).drop_last() =~= all.take(i as int));
            }
        }
        assert(all.take(entries@.len() as int) =~= all);
        proof {
            lemma_crtsh_names_are_the_lines(all);
            assert forall|i: int, j: int|
                0 <= i < entries@.len() && 0 <= j < split_lines(entries@[i].name_value@).len()
                    && !trimmed(split_lines(entries@[i].name_value@)[j]).contains('*')
                    implies names.deep_view().contains(
                #[trigger] trimmed(split_lines(entries@[i].name_value@)[j]),
            ) by {
                assert(all[i] == entries@[i].name_value@);
            }
        }
        names
    }

    /// What the enumeration makes of the log's answer: a failed answer, or one
    /// whose body is not a list of certificates (`None`), is an invalid
    /// response; otherwise the host names that the certificates reveal.
    pub fn enumerate_response(&self, success: bool, entries: Option<Vec<CrtShEntry>>) -> (result:
        Result<Vec<String>, ModuleError>)
        ensures
            (!success || entries is None) ==> (result matches Err(ModuleError::InvalidHttpResponse(
                module,
            )) && module@ == "subdomain/crtsh"@),
            (success && entries is Some) ==> (result matches Ok(names) && names.deep_view()
                == crtsh_subdomains(name_values(entries->0@))),
    {
        if !success {
            return Err(ModuleError::InvalidHttpResponse(self.name()));
        }
        match entries {
            Some(entries) => Ok(Self::subdomains_from_entries(&entries)),
            None => Err(ModuleError::InvalidHttpResponse(self.name())),
        }
    }
}

} // verus!
