use vstd::prelude::*;
use vstd::string::*;

use crate::error::ModuleError;
use crate::modules::Module;
use crate::text::{dedup, lemma_dedup_no_duplicates, lemma_dedup_same_elements, push_unique};

verus! {

/// What `url::Url::parse` and then `Url::host_str` give for a text: `None`
/// where the text does not parse as a URL, else the URL's host, if it has one.
pub uninterp spec fn url_host(input: Seq<char>) -> Option<Option<Seq<char>>>;

/// Parses `input` with `url::Url::parse` and reads the host of the parsed URL
/// with `Url::host_str`. The contract names the outcome by `url_host` and
/// says nothing of the URL grammar.
#[verifier::external_body]
fn parse_url_host(input: &str) -> (host: Option<Option<String>>)
    ensures
        match host {
            None => url_host(input@) is None,
            Some(None) => url_host(input@) == Some(None::<Seq<char>>),
            Some(Some(name)) => url_host(input@) == Some(Some(name@)),
        },
{
    match url::Url::parse(input) {
        Ok(parsed) => match parsed.host_str() {
            Some(name) => Some(Some(name.to_owned())),
            None => Some(None),
        },
        Err(_) => None,
    }
}

/// Looks up a domain's host names in the archived pages of web.archive.org.
pub struct WebArchive {}

/// All addresses of the archive's answer, row after row.
pub open spec fn archived_urls(rows: Seq<Seq<Seq<char>>>) -> Seq<Seq<char>>
    decreases rows.len(),
{
    if rows.len() == 0 {
        Seq::<Seq<char>>::empty()
    } else {
        archived_urls(rows.drop_last()) + rows.last()
    }
}

/// The hosts of the addresses, in order: the header `original` and the
/// addresses that do not parse or have no host give none.
pub open spec fn archived_hosts(urls: Seq<Seq<char>>) -> Seq<Seq<char>>
    decreases urls.len(),
{
    if urls.len() == 0 {
        Seq::<Seq<char>>::empty()
    } else {
        let before = archived_hosts(urls.drop_last());
        if urls.last() == "original"@ {
            before
        } else {
            match url_host(urls.last()) {
                Some(Some(host)) => before.push(host),
                _ => before,
            }
        }
    }
}

/// The host names that the archive's answer `rows` reveals, each once.
pub open spec fn web_archive_subdomains(rows: Seq<Seq<Seq<char>>>) -> Seq<Seq<char>> {
    dedup(archived_hosts(archived_urls(rows)))
}

proof fn lemma_archived_hosts_members(urls: Seq<Seq<char>>)
    ensures
        forall|host: Seq<char>| #[trigger]
            archived_hosts(urls).contains(host) ==> exists|i: int|
                0 <= i < urls.len() && urls[i] != "original"@ && url_host(#[trigger] urls[i])
                    == Some(Some(host)),
    decreases urls.len(),
{
    if urls.len() > 0 {
        let t = urls.drop_last();
        lemma_archived_hosts_members(t);
        let before = archived_hosts(t);
        assert forall|host: Seq<char>| #[trigger] archived_hosts(urls).contains(host) implies exists|
            i: int,
        | 0 <= i < urls.len() && urls[i] != "original"@ && url_host(#[trigger] urls[i]) == Some(
            Some(host),
        ) by {
            if before.contains(host) {
                let i = choose|i: int|
                    0 <= i < t.len() && t[i] != "original"@ && url_host(#[trigger] t[i]) == Some(
                        Some(host),
                    );
                assert(urls[i] == t[i]);
            } else {
                let k = choose|k: int|
                    0 <= k < archived_hosts(urls).len() && archived_hosts(urls)[k] == host;
                let last = urls.last();
                if last != "original"@ {
                    if url_host(last) is Some && url_host(last)->0 is Some {
                        if k < before.len() {
                            assert(before[k] == host);
                        }
                        assert(urls[urls.len() - 1] == last);
                    }
                }
            }
        }
    }
}

/// Every host name read from the archive is listed once, and is the host of
/// an archived address other than the header `original`.
pub proof fn lemma_web_archive_hosts(rows: Seq<Seq<Seq<char>>>)
    ensures
        web_archive_subdomains(rows).no_duplicates(),
        forall|host: Seq<char>| #[trigger]
            web_archive_subdomains(rows).contains(host) ==> exists|i: int|
                0 <= i < archived_urls(rows).len() && archived_urls(rows)[i] != "original"@
                    && url_host(#[trigger] archived_urls(rows)[i]) == Some(Some(host)),
{
    let hosts = archived_hosts(archived_urls(rows));
    lemma_dedup_no_duplicates(hosts);
    lemma_dedup_same_elements(hosts);
    lemma_archived_hosts_members(archived_urls(rows));
    assert forall|host: Seq<char>| #[trigger] web_archive_subdomains(rows).contains(host) implies exists|
        i: int,
    | 0 <= i < archived_urls(rows).len() && archived_urls(rows)[i] != "original"@ && url_host(
        #[trigger] archived_urls(rows)[i],
    ) == Some(Some(host)) by {
        assert(hosts.contains(host));
    }
}

/// `x` stands in some cell of `rows`.
pub open spec fn is_cell(rows: Seq<Seq<Seq<char>>>, x: Seq<char>) -> bool {
    exists|i: int, j: int| 0 <= i < rows.len() && 0 <= j < rows[i].len() && #[trigger] rows[i][j] == x
}

proof fn lemma_archived_urls_cells(rows: Seq<Seq<Seq<char>>>)
    ensures
        forall|i: int, j: int|
            0 <= i < rows.len() && 0 <= j < rows[i].len() ==> archived_urls(rows).contains(
                #[trigger] rows[i][j],
            ),
        forall|k: int|
            0 <= k < archived_urls(rows).len() ==> is_cell(rows, #[trigger] archived_urls(rows)[k]),
    decreases rows.len(),
{
    if rows.len() > 0 {
        let t = rows.drop_last();
        lemma_archived_urls_cells(t);
        let before = archived_urls(t);
        let all = before + rows.last();
        assert(archived_urls(rows) == all);
        assert forall|i: int, j: int| 0 <= i < rows.len() && 0 <= j < rows[i].len() implies all.contains(
            #[trigger] rows[i][j],
        ) by {
            if i == rows.len() - 1 {
                assert(all[before.len() + j] == rows[i][j]);
            } else {
                assert(t[i] == rows[i]);
                assert(before.contains(t[i][j]));
                let k = choose|k: int| 0 <= k < before.len() && before[k] == t[i][j];
                assert(all[k] == rows[i][j]);
            }
        }
        assert forall|k: int|
            0 <= k < archived_urls(rows).len() implies is_cell(
            rows,
            #[trigger] archived_urls(rows)[k],
        ) by {
            if k < before.len() {
                assert(all[k] == before[k]);
                assert(is_cell(t, before[k]));
                let (i, j) = choose|i: int, j: int|
                    #![trigger t[i][j]]
                    0 <= i < t.len() && 0 <= j < t[i].len() && t[i][j] == before[k];
                assert(t[i] == rows[i]);
                assert(all[k] == rows[i][j]);
            } else {
                let i = rows.len() - 1;
                let j = k - before.len();
                assert(all[k] == rows[i][j]);
            }
        }
    } else {
        assert(archived_urls(rows).len() == 0);
    }
}

proof fn lemma_archived_hosts_complete(urls: Seq<Seq<char>>)
    ensures
        forall|k: int|
            0 <= k < urls.len() && urls[k] != "original"@ && url_host(#[trigger] urls[k]) is Some
                && url_host(urls[k])->0 is Some ==> archived_hosts(urls).contains(
                url_host(urls[k])->0->0,
            ),
    decreases urls.len(),
{
    if urls.len() > 0 {
        let t = urls.drop_last();
        lemma_archived_hosts_complete(t);
        let before = archived_hosts(t);
        assert forall|k: int|
            0 <= k < urls.len() && urls[k] != "original"@ && url_host(#[trigger] urls[k]) is Some
                && url_host(urls[k])->0 is Some implies archived_hosts(urls).contains(
            url_host(urls[k])->0->0,
        ) by {
            let h = url_host(urls[k])->0->0;
            if k == urls.len() - 1 {
                assert(urls.last() == urls[k]);
                assert(archived_hosts(urls) == before.push(h));
                assert(before.push(h)[before.len() as int] == h);
            } else {
                assert(t[k] == urls[k]);
                assert(before.contains(h));
                let m = choose|m: int| 0 <= m < before.len() && before[m] == h;
                let last = urls.last();
                if last != "original"@ && url_host(last) is Some && url_host(last)->0 is Some {
                    assert(archived_hosts(urls)[m] == h);
                }
            }
        }
    }
}

/// The archive yields exactly the hosts of its cells other than the header
/// `original`: the host of every such cell that parses and has a host is
/// among the host names, and every host name is the host of such a cell.
pub proof fn lemma_web_archive_hosts_are_the_cells(rows: Seq<Seq<Seq<char>>>)
    ensures
        forall|i: int, j: int|
            0 <= i < rows.len() && 0 <= j < rows[i].len() && rows[i][j] != "original"@ && url_host(
                #[trigger] rows[i][j],
            ) is Some && url_host(rows[i][j])->0 is Some ==> web_archive_subdomains(rows).contains(
                url_host(rows[i][j])->0->0,
            ),
        forall|host: Seq<char>| #[trigger]
            web_archive_subdomains(rows).contains(host) ==> exists|i: int, j: int|
                0 <= i < rows.len() && 0 <= j < rows[i].len() && rows[i][j] != "original"@
                    && url_host(#[trigger] rows[i][j]) == Some(Some(host)),
{
    let urls = archived_urls(rows);
    let hosts = archived_hosts(urls);
    lemma_archived_urls_cells(rows);
    lemma_archived_hosts_complete(urls);
    lemma_web_archive_hosts(rows);
    lemma_dedup_same_elements(hosts);
    assert forall|i: int, j: int|
        0 <= i < rows.len() && 0 <= j < rows[i].len() && rows[i][j] != "original"@ && url_host(
            #[trigger] rows[i][j],
        ) is Some && url_host(rows[i][j])->0 is Some implies web_archive_subdomains(rows).contains(
        url_host(rows[i][j])->0->0,
    ) by {
        assert(urls.contains(rows[i][j]));
        let k = choose|k: int| 0 <= k < urls.len() && urls[k] == rows[i][j];
        assert(hosts.contains(url_host(urls[k])->0->0));
    }
    assert forall|host: Seq<char>| #[trigger] web_archive_subdomains(rows).contains(host) implies exists|
        i: int,
        j: int,
    |
        0 <= i < rows.len() && 0 <= j < rows[i].len() && rows[i][j] != "original"@ && url_host(
            #[trigger] rows[i][j],
        ) == Some(Some(host)) by {
        let k = choose|k: int|
            0 <= k < urls.len() && urls[k] != "original"@ && url_host(#[trigger] urls[k]) == Some(
                Some(host),
            );
        assert(is_cell(rows, urls[k]));
        let (i, j) = choose|i: int, j: int|
            #![trigger rows[i][j]]
            0 <= i < rows.len() && 0 <= j < rows[i].len() && rows[i][j] == urls[k];
        assert(url_host(rows[i][j]) == Some(Some(host)));
    }
}

impl Module for WebArchive {
    fn name(&self) -> (name: String)
        ensures
            name@ == "subdomain/web_archive"@,
    {
        "subdomain/web_archive".to_owned()
    }

    fn description(&self) -> (description: String)
        ensures
            description@ == "Use web.archive.org to search for subdomains"@,
    {
        "Use web.archive.org to search for subdomains".to_owned()
    }
}

impl WebArchive {
    pub fn new() -> (module: Self) {
        WebArchive {  }
    }

    /// The address of the archive's search for the pages under `domain`.
    pub fn query_url(domain: &str) -> (url: String)
        ensures
            url@
                == "https://web.archive.org/cdx/search/cdx?matchType=domain&fl=original&output=json&collapse=urlkey&url="@
                + domain@,
    {
        let mut url =
            "https://web.archive.org/cdx/search/cdx?matchType=domain&fl=original&output=json&collapse=urlkey&url=".to_owned();
        url.append(domain);
        url
    }

    /// Adds to `hosts` the host of a parsed address, `parsed` as `url_host`
    /// gives it, unless that host is there already or there is none.
    pub fn note_host(hosts: &mut Vec<String>, parsed: Option<Option<String>>)
        ensures
            final(hosts).deep_view() == (match parsed {
                Some(Some(host)) => if old(hosts).deep_view().contains(host@) {
                    old(hosts).deep_view()
                } else {
                    old(hosts).deep_view().push(host@)
                },
                _ => old(hosts).deep_view(),
            }),
    {
        match parsed {
            Some(Some(host)) => push_unique(hosts, host),
            _ => {},
        }
    }

    /// The host names that the archive's answer `rows` reveals.
    pub fn subdomains_from_rows(rows: &Vec<Vec<String>>) -> (hosts: Vec<String>)
        ensures
            hosts.deep_view() == web_archive_subdomains(rows.deep_view()),
            forall|i: int, j: int|
                0 <= i < rows@.len() && 0 <= j < rows@[i]@.len() && rows@[i]@[j]@ != "original"@
                    && url_host(#[trigger] rows@[i]@[j]@) is Some && url_host(rows@[i]@[j]@)->0 is Some
                    ==> hosts.deep_view().contains(url_host(rows@[i]@[j]@)->0->0),
    {
        let ghost all = rows.deep_view();
        let header = "original".to_owned();
        let mut hosts: Vec<String> = Vec::new();
        let ghost mut seen: Seq<Seq<char>> = Seq::empty();
        assert(all.take(0) =~= Seq::<Seq<Seq<char>>>::empty());
        for i in 0..rows.len()
            invariant
                all == rows.deep_view(),
                header@ == "original"@,
                seen == archived_urls(all.take(i as int)),
                hosts.deep_view() == dedup(archived_hosts(seen)),
        {
            let row = &rows[i];
            let ghost start = seen;
            assert(row.deep_view() == all[i as int]);
            assert(all[i as int].take(0) =~= Seq::<Seq<char>>::empty());
            assert(start + Seq::<Seq<char>>::empty() =~= start);
            for j in 0..row.len()
                invariant
                    0 <= i < all.len(),
                    row.deep_view() == all[i as int],
                    header@ == "original"@,
                    seen == start + all[i as int].take(j as int),
                    hosts.deep_view() == dedup(archived_hosts(seen)),
            {
                let url = &row[j];
                let ghost prev = seen;
                proof {
                    assert(url@ == all[i as int][j as int]);
                    assert(all[i as int].take(j + 1) =~= all[i as int].take(j as int).push(url@));
                    assert(seen.push(url@).drop_last() =~= seen);
                    seen = seen.push(url@);
                }
                if !(*url == header) {
                    let parsed = parse_url_host(url.as_str());
                    let ghost noted = parsed;
                    Self::note_host(&mut hosts, parsed);
                    proof {
                        let kept = archived_hosts(prev);
                        match noted {
                            Some(Some(host)) => {
                                assert(archived_hosts(seen) == kept.push(host@));
                                assert(kept.push(host@).drop_last() =~= kept);
                            },
                            _ => {
                                assert(archived_hosts(seen) == kept);
                            },
                        }
                    }
                } else {
                    assert(archived_hosts(seen) == archived_hosts(prev));
                }
            }
            proof {
                assert(all[i as int].take(row@.len() as int) =~= all[i as int]);
                assert(all.take(i + 1).drop_last() =~= all.take(i as int));
            }
        }
        assert(all.take(rows@.len() as int) =~= all);
        proof {
            lemma_web_archive_hosts_are_the_cells(all);
            assert forall|i: int, j: int|
                0 <= i < rows@.len() && 0 <= j < rows@[i]@.len() && rows@[i]@[j]@ != "original"@
                    && url_host(#[trigger] rows@[i]@[j]@) is Some && url_host(rows@[i]@[j]@)->0 is Some
                    implies hosts.deep_view().contains(url_host(rows@[i]@[j]@)->0->0) by {
                assert(all[i] == rows@[i].deep_view());
                assert(all[i][j] == rows@[i]@[j]@);
            }
        }
        hosts
    }

    /// What the enumeration makes of the archive's answer: a failed answer, or
    /// one whose body is not a list of rows of texts (`None`), is an invalid
    /// response; otherwise the host names that the rows reveal.
    pub fn enumerate_response(&self, success: bool, rows: Option<Vec<Vec<String>>>) -> (result:
        Result<Vec<String>, ModuleError>)
        ensures
            (!success || rows is None) ==> (result matches Err(ModuleError::InvalidHttpResponse(
                module,
            )) && module@ == "subdomain/web_archive"@),
            (success && rows is Some) ==> (result matches Ok(hosts) && hosts.deep_view()
                == web_archive_subdomains(rows->0.deep_view())),
    {
        if !success {
            return Err(ModuleError::InvalidHttpResponse(self.name()));
        }
        match rows {
            Some(rows) => Ok(Self::subdomains_from_rows(&rows)),
            None => Err(ModuleError::InvalidHttpResponse(self.name())),
        }
    }
}

} // verus!
