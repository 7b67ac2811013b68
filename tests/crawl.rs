use vuln_crawler::crawler::{resolve_all, Action, CompleteError, Crawler, FetchOutcome};
use vuln_crawler::frontier::Frontier;
use vuln_crawler::limiter::{Limiter, ShutdownError};
use vuln_crawler::links::{is_followable, normalize_url, resolve};
use vuln_crawler::scanner::{check_for_vulnerabilities, rules, FindingKind, Header, Rule};
use vuln_crawler::text::{contains_str, starts_with_ignore_ascii_case};

fn header(name: &str, value: &str) -> Header {
    Header { name: name.to_string(), value: value.to_string() }
}

fn hardened() -> Vec<Header> {
    vec![
        header("X-Content-Type-Options", "nosniff"),
        header("Strict-Transport-Security", "max-age=63072000"),
        header("Content-Security-Policy", "default-src 'self'"),
    ]
}

fn fired(hs: &Vec<Header>) -> Vec<Rule> {
    check_for_vulnerabilities(hs, "https://example.com/").iter().map(|f| f.rule).collect()
}

fn key(s: &str) -> String {
    normalize_url(s).into_iter().collect()
}

fn page(headers: Vec<Header>, body: &str) -> FetchOutcome {
    FetchOutcome::Page { headers, body: body.to_string() }
}

fn expect_fetch(c: &mut Crawler) -> (usize, String, u32) {
    match c.next_action() {
        Action::Fetch { id, url, depth } => (id, url, depth),
        Action::Wait => panic!("expected a fetch, got Wait"),
        Action::Done => panic!("expected a fetch, got Done"),
    }
}

#[test]
fn resolves_root_relative_href() {
    assert_eq!(resolve("https://example.com/blog/post1", "/about"), "https://example.com/about");
}

#[test]
fn resolves_document_relative_href() {
    assert_eq!(
        resolve("https://example.com/blog/post1", "page2.html"),
        "https://example.com/blog/page2.html"
    );
}

#[test]
fn absolute_href_is_kept() {
    assert_eq!(resolve("https://example.com/a", "https://other.org/x"), "https://other.org/x");
}

#[test]
fn unresolvable_href_is_passed_through() {
    // the base is not an absolute URL, so the join fails
    assert_eq!(resolve("not a url", "page2.html"), "page2.html");
}

#[test]
fn script_link_is_not_followed() {
    let r = resolve("https://example.com/", "javascript:void(0)");
    assert!(!is_followable(&r));
    assert!(!is_followable("MailTo:someone@example.com"));
    assert!(!is_followable("tel:+15550100"));
    assert!(is_followable("https://example.com/a"));
}

#[test]
fn resolve_all_keeps_order() {
    let hrefs = vec!["/a".to_string(), "b".to_string()];
    assert_eq!(
        resolve_all("https://example.com/x/y", &hrefs),
        vec!["https://example.com/a".to_string(), "https://example.com/x/b".to_string()]
    );
}

#[test]
fn normalization_folds_variants() {
    assert_eq!(key("HTTPS://Example.COM/Path/?q=1#top"), "https://example.com/Path");
    assert_eq!(key("https://example.com/"), "https://example.com");
    assert_eq!(key("https://example.com"), "https://example.com");
    assert_eq!(key("https://example.com/a#x"), key("https://example.com/a/"));
    assert_eq!(key(""), "");
}

#[test]
fn text_helpers() {
    assert!(contains_str("Apache/2.4.1 (Unix)", "Apache/2.4"));
    assert!(!contains_str("apache/2.4.1", "Apache/2.4"));
    assert!(contains_str("abc", ""));
    assert!(!contains_str("ab", "abc"));
    assert!(starts_with_ignore_ascii_case("JavaScript:x", "javascript:"));
    assert!(!starts_with_ignore_ascii_case("java", "javascript:"));
}

#[test]
fn rule_table_kinds() {
    let table = rules();
    assert_eq!(table.len(), 5);
    assert_eq!(Rule::ContentSecurityPolicy.kind(), FindingKind::MissingHeader);
    assert_eq!(Rule::OldApache.kind(), FindingKind::OutdatedServer);
    assert_eq!(Rule::OldPhp.kind(), FindingKind::OutdatedRuntime);
    assert_eq!(Rule::OldApache.header(), "Server");
    assert_eq!(Rule::OldPhp.pattern(), "PHP/7");
}

#[test]
fn no_headers_gives_three_missing() {
    assert_eq!(
        fired(&Vec::new()),
        vec![Rule::ContentTypeOptions, Rule::StrictTransportSecurity, Rule::ContentSecurityPolicy]
    );
}

#[test]
fn missing_csp_gives_one_finding() {
    let mut hs = hardened();
    hs.remove(2);
    let found = check_for_vulnerabilities(&hs, "https://example.com/p");
    assert_eq!(found.len(), 1);
    assert_eq!(found[0].rule, Rule::ContentSecurityPolicy);
    assert_eq!(found[0].rule.kind(), FindingKind::MissingHeader);
    assert_eq!(found[0].url, "https://example.com/p");
}

#[test]
fn present_csp_with_any_value_gives_none() {
    let mut hs = hardened();
    hs[2] = header("content-security-policy", "");
    assert!(fired(&hs).is_empty());
}

#[test]
fn old_apache_is_flagged() {
    let mut hs = hardened();
    hs.push(header("Server", "Apache/2.4.1"));
    assert_eq!(fired(&hs), vec![Rule::OldApache]);
}

#[test]
fn nginx_is_not_flagged() {
    let mut hs = hardened();
    hs.push(header("Server", "nginx/1.21"));
    assert!(fired(&hs).is_empty());
}

#[test]
fn old_php_is_flagged() {
    let mut hs = hardened();
    hs.push(header("x-powered-by", "PHP/7.4.3"));
    assert_eq!(fired(&hs), vec![Rule::OldPhp]);
}

#[test]
fn first_header_value_counts() {
    let mut hs = hardened();
    hs.push(header("Server", "nginx/1.21"));
    hs.push(header("Server", "Apache/2.4.1"));
    assert!(fired(&hs).is_empty());
}

#[test]
fn frontier_visits_once() {
    let mut f = Frontier::new();
    assert!(f.try_visit(normalize_url("https://example.com/a")));
    assert!(!f.try_visit(normalize_url("https://EXAMPLE.com/a/")));
    assert!(f.try_visit(normalize_url("https://example.com/b")));
    assert_eq!(f.len(), 2);
    assert!(f.contains(&normalize_url("https://example.com/b")));
}

#[test]
fn limiter_caps_permits() {
    let mut l = Limiter::new(2);
    assert_eq!(l.try_acquire(), Ok(true));
    assert_eq!(l.try_acquire(), Ok(true));
    assert_eq!(l.try_acquire(), Ok(false));
    assert_eq!(l.held(), 2);
    l.release();
    assert_eq!(l.try_acquire(), Ok(true));
    l.close();
    assert!(l.closed());
    assert_eq!(l.try_acquire(), Err(ShutdownError));
    assert_eq!(l.capacity(), 2);
}

#[test]
fn depth_zero_fetches_only_the_seed() {
    let mut c = Crawler::new("https://example.com/".to_string(), 0, 10);
    let (id, url, depth) = expect_fetch(&mut c);
    assert_eq!((id, url.as_str(), depth), (0, "https://example.com/", 0));
    let body = r#"<a href="/a">a</a><a href="/b">b</a>"#;
    let found = c.complete(id, page(hardened(), body)).unwrap();
    assert!(found.is_empty());
    assert_eq!(c.pending(), 0);
    assert!(matches!(c.next_action(), Action::Done));
    assert_eq!(c.visited_count(), 1);
}

#[test]
fn children_are_dispatched_once_each() {
    let mut c = Crawler::new("https://example.com/".to_string(), 1, 10);
    let (id, _, _) = expect_fetch(&mut c);
    let body = format!(
        "{}{}",
        r#"<a href="/a">a</a><a href="/a/">again</a><a href="javascript:void(0)">js</a>"#,
        r#"<a href="https://example.com/">home</a><a>no target</a><a href="b.html">b</a>"#
    );
    let found = c.complete(id, page(Vec::new(), &body)).unwrap();
    assert_eq!(found.len(), 3);
    // /a, /a/, the home page and b.html; the script link is dropped
    assert_eq!(c.pending(), 4);
    let mut fetched = Vec::new();
    loop {
        match c.next_action() {
            Action::Fetch { id, url, depth } => {
                assert_eq!(depth, 0);
                fetched.push(url);
                c.complete(id, page(hardened(), r#"<a href="/deeper">d</a>"#)).unwrap();
            }
            Action::Wait => panic!("nothing is in flight"),
            Action::Done => break,
        }
    }
    // "/a" and "/a/" are one page: whichever is taken first, the other is dropped
    let mut keys: Vec<String> = fetched.iter().map(|u| key(u)).collect();
    keys.sort();
    assert_eq!(keys, vec!["https://example.com/a".to_string(), "https://example.com/b.html".to_string()]);
    assert_eq!(c.visited_count(), 3);
}

#[test]
fn capacity_bounds_fetches_in_flight() {
    let mut c = Crawler::new("https://example.com/".to_string(), 1, 1);
    let (id, _, _) = expect_fetch(&mut c);
    c.complete(id, page(hardened(), r#"<a href="/a">a</a><a href="/b">b</a>"#)).unwrap();
    let (first, _, _) = expect_fetch(&mut c);
    assert!(matches!(c.next_action(), Action::Wait));
    assert_eq!(c.in_flight(), 1);
    c.complete(first, FetchOutcome::Failed).unwrap();
    let (second, _, _) = expect_fetch(&mut c);
    assert!(matches!(c.next_action(), Action::Wait));
    c.complete(second, FetchOutcome::Failed).unwrap();
    assert!(matches!(c.next_action(), Action::Done));
}

#[test]
fn unknown_id_is_rejected() {
    let mut c = Crawler::new("https://example.com/".to_string(), 2, 4);
    assert_eq!(c.complete(7, FetchOutcome::Failed).err(), Some(CompleteError::UnknownTask));
    let (id, _, _) = expect_fetch(&mut c);
    assert!(c.complete(id, FetchOutcome::Failed).is_ok());
    assert_eq!(c.complete(id, FetchOutcome::Failed).err(), Some(CompleteError::UnknownTask));
}

#[test]
fn failed_fetch_dispatches_nothing() {
    let mut c = Crawler::new("https://example.com/".to_string(), 3, 4);
    let (id, _, _) = expect_fetch(&mut c);
    let found = c.complete(id, FetchOutcome::Failed).unwrap();
    assert!(found.is_empty());
    assert!(matches!(c.next_action(), Action::Done));
}

#[test]
fn cancel_stops_admission() {
    let mut c = Crawler::new("https://example.com/".to_string(), 2, 4);
    let (id, _, _) = expect_fetch(&mut c);
    c.complete(id, page(hardened(), r#"<a href="/a">a</a><a href="/b">b</a>"#)).unwrap();
    let (a, _, _) = expect_fetch(&mut c);
    c.cancel();
    assert!(matches!(c.next_action(), Action::Wait));
    assert_eq!(c.pending(), 0);
    c.complete(a, FetchOutcome::Failed).unwrap();
    assert!(matches!(c.next_action(), Action::Done));
}

#[test]
fn enqueue_children_filters_and_decrements() {
    let mut c = Crawler::new("https://example.com/".to_string(), 2, 4);
    let urls = vec![
        "https://example.com/x".to_string(),
        "mailto:a@example.com".to_string(),
        "https://example.com/y".to_string(),
    ];
    c.enqueue_children(2, &urls);
    assert_eq!(c.pending(), 3);
    c.enqueue_children(0, &urls);
    assert_eq!(c.pending(), 3);
    let (_, url, depth) = expect_fetch(&mut c);
    assert_eq!((url.as_str(), depth), ("https://example.com/y", 1));
}
