use tricoder::error::ModuleError;
use tricoder::modules::subdomains::{CrtSh, CrtShEntry, WebArchive};
use tricoder::modules::Module;
use tricoder::subdomains::candidate_subdomains;

fn entry(names: &str) -> CrtShEntry {
    CrtShEntry { name_value: names.to_owned() }
}

#[test]
fn crtsh_names_are_trimmed_deduplicated_and_wildcard_free() {
    let entries = vec![
        entry("a.example.com\n*.example.com\n b.example.com \n"),
        entry("a.example.com"),
        entry("c.example.com\u{a0}\nwww.*.example.com"),
    ];
    let names = CrtSh::subdomains_from_entries(&entries);
    assert_eq!(names, vec!["a.example.com", "b.example.com", "", "c.example.com"]);
}

#[test]
fn crtsh_no_entries() {
    assert!(CrtSh::subdomains_from_entries(&vec![]).is_empty());
}

#[test]
fn crtsh_response_errors() {
    let module = CrtSh::new();
    match module.enumerate_response(false, Some(vec![entry("a.example.com")])) {
        Err(ModuleError::InvalidHttpResponse(name)) => assert_eq!(name, "subdomain/crtsh"),
        _ => panic!("a failed answer is an invalid response"),
    }
    match module.enumerate_response(true, None) {
        Err(ModuleError::InvalidHttpResponse(name)) => assert_eq!(name, "subdomain/crtsh"),
        _ => panic!("an unreadable answer is an invalid response"),
    }
    match module.enumerate_response(true, Some(vec![entry("x.example.com\nx.example.com")])) {
        Ok(names) => assert_eq!(names, vec!["x.example.com"]),
        _ => panic!("a good answer gives names"),
    }
}

#[test]
fn crtsh_identity() {
    let module = CrtSh::new();
    assert_eq!(module.name(), "subdomain/crtsh");
    assert_eq!(module.description(), "Use crt.sh to search for subdomains");
    assert_eq!(CrtSh::query_url("example.com"), "https://crt.sh/?q=%25.example.com&output=json");
}

fn row(urls: &[&str]) -> Vec<String> {
    urls.iter().map(|u| u.to_string()).collect()
}

#[test]
fn web_archive_hosts() {
    let rows = vec![
        row(&["original"]),
        row(&["https://a.example.com/x?y=1"]),
        row(&["not a url"]),
        row(&["mailto:someone@example.com"]),
        row(&["http://b.example.com:8080/", "https://a.example.com/y"]),
        row(&["HTTP://C.Example.COM/"]),
    ];
    let hosts = WebArchive::subdomains_from_rows(&rows);
    assert_eq!(hosts, vec!["a.example.com", "b.example.com", "c.example.com"]);
}

#[test]
fn web_archive_note_host() {
    let mut hosts = vec!["a.example.com".to_owned()];
    WebArchive::note_host(&mut hosts, Some(Some("a.example.com".to_owned())));
    WebArchive::note_host(&mut hosts, None);
    WebArchive::note_host(&mut hosts, Some(None));
    WebArchive::note_host(&mut hosts, Some(Some("b.example.com".to_owned())));
    assert_eq!(hosts, vec!["a.example.com", "b.example.com"]);
}

#[test]
fn web_archive_response_errors() {
    let module = WebArchive::new();
    assert!(matches!(
        module.enumerate_response(false, Some(vec![])),
        Err(ModuleError::InvalidHttpResponse(ref name)) if name == "subdomain/web_archive"
    ));
    assert!(matches!(
        module.enumerate_response(true, None),
        Err(ModuleError::InvalidHttpResponse(_))
    ));
    match module.enumerate_response(true, Some(vec![row(&["original", "https://z.example.org"])])) {
        Ok(hosts) => assert_eq!(hosts, vec!["z.example.org"]),
        _ => panic!("a good answer gives hosts"),
    }
    assert_eq!(module.name(), "subdomain/web_archive");
    assert_eq!(
        WebArchive::query_url("example.com"),
        "https://web.archive.org/cdx/search/cdx?matchType=domain&fl=original&output=json&collapse=urlkey&url=example.com"
    );
}

#[test]
fn earlier_enumeration_keeps_target_last() {
    let entries = vec![
        entry("example.com\nwww.example.com\n*.example.com"),
        entry("api.example.com\nwww.example.com"),
    ];
    let names = candidate_subdomains(&entries, "example.com");
    assert_eq!(names, vec!["www.example.com", "api.example.com", "example.com"]);
    assert_eq!(candidate_subdomains(&vec![], "example.com"), vec!["example.com"]);
}
