use tricoder::modules::http::{
    Cve2018_7600, DirectoryListingDisclosure, DotenvDisclosure, DsStoreDisclosure,
    EtcdUnauthenticatedAccess, GitHeadDisclosure, KibanaUnauthenticatedAccess,
};
use tricoder::modules::{HttpFinding, Module};

#[test]
fn is_directory_listing() {
    let module = DirectoryListingDisclosure::new();
    let body = "Content <title>Index of galev.ski</title> test".to_owned();
    assert!(module.is_directory_listing(body));
    let body = "".to_owned();
    assert!(!module.is_directory_listing(body));
    let body = "Cont cc<ticcctle>Indaaaex of galev.ski</tifle> test".to_owned();
    assert!(!module.is_directory_listing(body));
    let body = "Content <ttttt>Index of galev.ski</title> test".to_owned();
    assert!(!module.is_directory_listing(body));
    let body = "Content <title>Index of galev.ski</asdff> test".to_owned();
    assert!(!module.is_directory_listing(body));
}

#[test]
fn is_ds_store() {
    let module = DsStoreDisclosure::new();
    let not_ds_store_body = "testtesttest";
    let ds_store_body = [
        0x0, 0x0, 0x0, 0x1, 0x42, 0x75, 0x64, 0x31, 0xDE, 0xAD, 0xBE, 0xEF,
    ];
    assert!(!module.is_ds_store_file(not_ds_store_body.as_bytes()));
    assert!(module.is_ds_store_file(&ds_store_body))
}

#[test]
fn ds_store_edges() {
    let module = DsStoreDisclosure::new();
    assert!(!module.is_ds_store_file(&[]));
    assert!(!module.is_ds_store_file(&[0x0, 0x0, 0x0, 0x1, 0x42, 0x75, 0x64]));
    assert!(module.is_ds_store_file(&[0x0, 0x0, 0x0, 0x1, 0x42, 0x75, 0x64, 0x31]));
    assert!(!module.is_ds_store_file(&[0x0, 0x0, 0x0, 0x1, 0x42, 0x75, 0x64, 0x32]));
}

#[test]
fn directory_listing_newline_breaks_match() {
    let module = DirectoryListingDisclosure::new();
    assert!(!module.is_directory_listing("<title>Index of a\nb</title>".to_owned()));
    assert!(module.is_directory_listing("<title>Index of </title>".to_owned()));
}

#[test]
fn module_names_and_descriptions() {
    assert_eq!(DotenvDisclosure::new().name(), "http/.env_disclosure");
    assert_eq!(
        DotenvDisclosure::new().description(),
        "Check if .env files have been disclosed"
    );
    assert_eq!(DsStoreDisclosure::new().name(), "http/DsStoreDisclosure");
    assert_eq!(EtcdUnauthenticatedAccess::new().name(), "http/etcd_unauthenticated_access");
    assert_eq!(GitHeadDisclosure::new().name(), "http/git_head_disclosure");
    assert_eq!(
        KibanaUnauthenticatedAccess::new().name(),
        "http/kibana_unauthenticated_access"
    );
    assert_eq!(DirectoryListingDisclosure::new().name(), "http/dir_listing_disclosure");
    assert_eq!(Cve2018_7600::new().name(), "http/cve_2018_7600");
    assert_eq!(
        Cve2018_7600::new().description(),
        "Check for CVE-2018-7600 (see: https://nvd.nist.gov/vuln/detail/CVE-2018-7600)"
    );
}

#[test]
fn target_urls() {
    let endpoint = "http://example.com/80";
    assert_eq!(DotenvDisclosure::new().target_url(endpoint), "http://example.com/80/.env");
    assert_eq!(DsStoreDisclosure::new().target_url(endpoint), "http://example.com/80/.DS_Store");
    assert_eq!(
        EtcdUnauthenticatedAccess::new().target_url(endpoint),
        "http://example.com/80/version"
    );
    assert_eq!(GitHeadDisclosure::new().target_url(endpoint), "http://example.com/80/.git/HEAD");
    assert_eq!(KibanaUnauthenticatedAccess::new().target_url(endpoint), endpoint);
    assert_eq!(DirectoryListingDisclosure::new().target_url(endpoint), "http://example.com/80/");
    assert_eq!(
        Cve2018_7600::new().target_url(endpoint),
        "http://example.com/80/plugins/servlet/oauth/users/icon-uri?consumerUri=https://google.com/robots.txt"
    );
}

fn finding_url(finding: Option<HttpFinding>) -> Option<String> {
    match finding {
        Some(HttpFinding::DotenvDisclosure(url))
        | Some(HttpFinding::DsStoreDisclosure(url))
        | Some(HttpFinding::EtcdUnauthenticatedAccess(url))
        | Some(HttpFinding::GitHeadDisclosure(url))
        | Some(HttpFinding::KibanaUnauthenticatedAccess(url))
        | Some(HttpFinding::DirectoryListingDisclosure(url))
        | Some(HttpFinding::Cve2018_7600(url))
        | Some(HttpFinding::GitlabOpenRegistrations(url)) => Some(url),
        None => None,
    }
}

#[test]
fn dotenv_findings() {
    let module = DotenvDisclosure::new();
    let found = module.analyze_response("u/.env".to_owned(), true);
    assert!(matches!(found, Some(HttpFinding::DotenvDisclosure(ref u)) if u == "u/.env"));
    assert!(module.analyze_response("u/.env".to_owned(), false).is_none());
}

#[test]
fn ds_store_findings() {
    let module = DsStoreDisclosure::new();
    let body = [0x0, 0x0, 0x0, 0x1, 0x42, 0x75, 0x64, 0x31, 0x00];
    let found = module.analyze_response("u".to_owned(), true, &body);
    assert!(matches!(found, Some(HttpFinding::DsStoreDisclosure(_))));
    assert!(module.analyze_response("u".to_owned(), false, &body).is_none());
    assert!(module.analyze_response("u".to_owned(), true, b"plain").is_none());
}

#[test]
fn cve_findings() {
    let module = Cve2018_7600::new();
    let robots = "User-agent: *\nuser-agent: *\ndisallow: /search";
    let found = module.analyze_response("u".to_owned(), true, robots);
    assert!(matches!(found, Some(HttpFinding::Cve2018_7600(_))));
    assert_eq!(finding_url(module.analyze_response("u".to_owned(), true, robots)), Some("u".to_owned()));
    assert!(module.analyze_response("u".to_owned(), false, robots).is_none());
    assert!(module.analyze_response("u".to_owned(), true, "User-agent: *\nDisallow: /").is_none());
    assert!(module.analyze_response("u".to_owned(), true, "user-agent: *").is_none());
}

#[test]
fn etcd_findings() {
    let module = EtcdUnauthenticatedAccess::new();
    let body = r#"{"etcdserver":"3.5.0","etcdcluster":"3.5.0"}"#;
    assert!(matches!(
        module.analyze_response("u".to_owned(), true, body),
        Some(HttpFinding::EtcdUnauthenticatedAccess(_))
    ));
    assert!(module.analyze_response("u".to_owned(), false, body).is_none());
    assert!(module.analyze_response("u".to_owned(), true, r#"{"etcdserver":"3.5.0"}"#).is_none());
    let long = format!("{}{}", body, " ".repeat(200));
    assert!(module.analyze_response("u".to_owned(), true, &long).is_none());
    // 199 characters, though more than 200 bytes
    let padded = format!("{}{}", body, "é".repeat(199 - body.chars().count()));
    assert_eq!(padded.chars().count(), 199);
    assert!(module.analyze_response("u".to_owned(), true, &padded).is_some());
}

#[test]
fn kibana_findings() {
    let module = KibanaUnauthenticatedAccess::new();
    let marks = [
        r#"x</head><body kbn-chrome id="kibana-body"><kbn-initial-state y"#,
        r#"<div class="ui-app-loading"><h1><strong>Kibana</strong><small>&nbsp;isloading."#,
        r#"|| body.contains( at the start"#,
        r#"<div class="kibanaWelcomeLogo"></div></div></div><div class="kibanaWelcomeText">Loading Kibana</div></div>"#,
    ];
    for mark in marks {
        assert!(matches!(
            module.analyze_response("u".to_owned(), true, mark),
            Some(HttpFinding::KibanaUnauthenticatedAccess(_))
        ));
        assert!(module.analyze_response("u".to_owned(), false, mark).is_none());
    }
    assert!(module.analyze_response("u".to_owned(), true, "x || body.contains(").is_none());
    assert!(module.analyze_response("u".to_owned(), true, "<html>Kibana</html>").is_none());
}

#[test]
fn git_head_files() {
    let module = GitHeadDisclosure::new();
    assert!(module.is_head_file("ref: refs/heads/main\n".to_owned()));
    assert!(module.is_head_file("  REF: refs/heads/main".to_owned()));
    assert!(module.is_head_file("\n\tRef:x".to_owned()));
    assert!(!module.is_head_file("a ref: refs/heads/main".to_owned()));
    assert!(!module.is_head_file("".to_owned()));
    assert!(!module.is_head_file("re f:".to_owned()));
    assert!(GitHeadDisclosure::is_head_text("  ref:"));
    assert!(!GitHeadDisclosure::is_head_text("REF:"));
    assert!(matches!(
        module.analyze_response("u".to_owned(), true, "ref: refs/heads/master".to_owned()),
        Some(HttpFinding::GitHeadDisclosure(_))
    ));
    assert!(module
        .analyze_response("u".to_owned(), false, "ref: refs/heads/master".to_owned())
        .is_none());
}

#[test]
fn directory_listing_findings() {
    let module = DirectoryListingDisclosure::new();
    assert!(matches!(
        module.analyze_response("u/".to_owned(), true, true),
        Some(HttpFinding::DirectoryListingDisclosure(_))
    ));
    assert!(module.analyze_response("u/".to_owned(), false, true).is_none());
    assert!(module.analyze_response("u/".to_owned(), true, false).is_none());
}
