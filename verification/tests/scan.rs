use tricoder::cli::{clean_subdomains, http_targets, target_url};
use tricoder::dns::keep_resolved;
use tricoder::modules::{Port, Subdomain};
use tricoder::ports::record_open_ports;

fn domains(subdomains: &[Subdomain]) -> Vec<String> {
    subdomains.iter().map(|s| s.domain.clone()).collect()
}

#[test]
fn cleaning_keeps_target_and_its_subdomains_once() {
    let found = vec![
        "a.example.com".to_owned(),
        "other.org".to_owned(),
        "a.example.com".to_owned(),
        "example.com".to_owned(),
        "b.example.com".to_owned(),
    ];
    let subdomains = clean_subdomains(found, "example.com");
    assert_eq!(domains(&subdomains), vec!["a.example.com", "example.com", "b.example.com"]);
    assert!(subdomains.iter().all(|s| s.open_ports.is_empty()));
}

#[test]
fn cleaning_nothing_found() {
    let subdomains = clean_subdomains(vec![], "example.com");
    assert_eq!(domains(&subdomains), vec!["example.com"]);
}

#[test]
fn target_urls_use_the_port_as_path() {
    assert_eq!(target_url("a.example.com", 80), "http://a.example.com/80");
    assert_eq!(target_url("h", 0), "http://h/0");
    assert_eq!(target_url("h", 65535), "http://h/65535");
    assert_eq!(target_url("h", 10), "http://h/10");
}

#[test]
fn targets_for_every_open_port() {
    let subdomains = vec![
        Subdomain {
            domain: "a.example.com".to_owned(),
            open_ports: vec![Port { port: 80, is_open: true }, Port { port: 443, is_open: true }],
        },
        Subdomain { domain: "b.example.com".to_owned(), open_ports: vec![] },
        Subdomain {
            domain: "c.example.com".to_owned(),
            open_ports: vec![Port { port: 8080, is_open: true }],
        },
    ];
    assert_eq!(
        http_targets(&subdomains),
        vec!["http://a.example.com/80", "http://a.example.com/443", "http://c.example.com/8080"]
    );
}

#[test]
fn recorded_ports_are_the_open_ones() {
    let subdomain = Subdomain { domain: "a.example.com".to_owned(), open_ports: vec![] };
    let probes = vec![
        Port { port: 22, is_open: false },
        Port { port: 80, is_open: true },
        Port { port: 443, is_open: true },
        Port { port: 8080, is_open: false },
    ];
    let scanned = record_open_ports(subdomain, &probes);
    assert_eq!(scanned.domain, "a.example.com");
    let ports: Vec<u16> = scanned.open_ports.iter().map(|p| p.port).collect();
    assert_eq!(ports, vec![80, 443]);
}

#[test]
fn resolution_keeps_resolved_names() {
    let subdomain = Subdomain { domain: "a.example.com".to_owned(), open_ports: vec![] };
    assert!(keep_resolved(subdomain.clone(), false).is_none());
    assert_eq!(keep_resolved(subdomain, true).map(|s| s.domain), Some("a.example.com".to_owned()));
}
