use crawler::address::{resolve_link, Address, UrlError};
use crawler::crawl::{join_level, level_tasks, task_step, CrawlError, Step, Task};
use crawler::links::{get_links, Attribute, LinkQueue, Tag};
use std::collections::HashMap;

fn addr(s: &str) -> Address {
    Address::parse(s).ok().expect("a valid address")
}

fn anchor(href: &[u8]) -> Tag {
    Tag {
        start: true,
        name: "a".to_string(),
        attrs: vec![Attribute { name: "href".to_string(), value: href.to_vec() }],
    }
}

fn page_of(hrefs: &[&str]) -> LinkQueue {
    let mut q = LinkQueue::new();
    for h in hrefs {
        q.process_token(&anchor(h.as_bytes()));
    }
    q
}

/// Runs a set of tasks the way the program does, one after the other,
/// against pages held in memory; records each fetch with its depth.
fn run_tasks(
    tasks: Vec<Task>,
    max: u8,
    web: &HashMap<String, Vec<&str>>,
    fetched: &mut Vec<(String, u8)>,
) -> Result<(), CrawlError> {
    let mut results = Vec::new();
    for t in tasks {
        fetched.push((t.address.as_str().to_string(), t.depth));
        let page = match web.get(t.address.as_str()) {
            Some(hrefs) => Ok(page_of(hrefs)),
            None => Err("404 Not Found".to_string()),
        };
        let r = match task_step(&t, max, page) {
            Step::Failed(e) => Err(e),
            Step::Recurse(children) => run_tasks(children, max, web, fetched),
        };
        results.push(r);
    }
    join_level(results)
}

fn crawl(
    frontier: Vec<Address>,
    current: u8,
    max: u8,
    web: &HashMap<String, Vec<&str>>,
) -> (Result<(), CrawlError>, Vec<(String, u8)>) {
    let mut fetched = Vec::new();
    let r = run_tasks(level_tasks(frontier, current, max), max, web, &mut fetched);
    (r, fetched)
}

#[test]
fn leaf_frontier_one_fetch_each() {
    let mut web = HashMap::new();
    web.insert("https://a.test/".to_string(), vec![]);
    web.insert("https://b.test/".to_string(), vec![]);
    web.insert("https://c.test/x".to_string(), vec![]);
    for max in 1..4u8 {
        let frontier = vec![addr("https://a.test/"), addr("https://b.test/"), addr("https://c.test/x")];
        let (r, fetched) = crawl(frontier, 1, max, &web);
        assert!(r.is_ok());
        assert_eq!(fetched.len(), 3);
    }
}

#[test]
fn beyond_max_fetches_nothing() {
    let web: HashMap<String, Vec<&str>> = HashMap::new();
    let frontier = vec![addr("https://a.test/"), addr("https://b.test/")];
    let (r, fetched) = crawl(frontier, 3, 2, &web);
    assert!(r.is_ok());
    assert!(fetched.is_empty());
    assert!(level_tasks(vec![addr("https://a.test/")], 255, 254).is_empty());
}

#[test]
fn absolute_href_unchanged() {
    let root = addr("https://x.test/").domain_root();
    let a = resolve_link(&root, "https://y.test/p2").expect("resolves");
    assert_eq!(a.as_str(), "https://y.test/p2");
}

#[test]
fn relative_href_against_domain_root() {
    let base = addr("https://example.com/a/b?q=1");
    assert_eq!(base.domain_root().as_str(), "https://example.com/");
    let links = get_links(&base, &vec!["/c".to_string(), "d".to_string()]).ok().expect("resolves");
    assert_eq!(links.len(), 2);
    assert_eq!(links[0].as_str(), "https://example.com/c");
    assert_eq!(links[1].as_str(), "https://example.com/d");
}

#[test]
fn malformed_href_fails_extraction_and_crawl() {
    let base = addr("https://x.test/");
    match get_links(&base, &vec!["/ok".to_string(), "http://[".to_string()]) {
        Err(CrawlError::MalformedLink { href }) => assert_eq!(href, "http://["),
        _ => panic!("expected a malformed link"),
    }
    let mut web = HashMap::new();
    web.insert("https://x.test/".to_string(), vec!["/p1"]);
    web.insert("https://x.test/p1".to_string(), vec!["http://["]);
    let (r, fetched) = crawl(vec![addr("https://x.test/")], 1, 3, &web);
    assert!(matches!(r, Err(CrawlError::MalformedLink { .. })));
    assert_eq!(fetched.len(), 2);
}

#[test]
fn seed_with_two_anchors() {
    let mut web = HashMap::new();
    web.insert("https://x.test/".to_string(), vec!["/p1", "https://y.test/p2"]);
    web.insert("https://x.test/p1".to_string(), vec!["/p3"]);
    web.insert("https://y.test/p2".to_string(), vec!["/p4"]);
    let (r, fetched) = crawl(vec![addr("https://x.test/")], 1, 2, &web);
    assert!(r.is_ok());
    assert_eq!(
        fetched,
        vec![
            ("https://x.test/".to_string(), 1),
            ("https://x.test/p1".to_string(), 2),
            ("https://y.test/p2".to_string(), 2),
        ]
    );
}

#[test]
fn two_page_cycle_stops_at_max() {
    let mut web = HashMap::new();
    web.insert("https://a.test/".to_string(), vec!["https://b.test/"]);
    web.insert("https://b.test/".to_string(), vec!["https://a.test/"]);
    let (r, fetched) = crawl(vec![addr("https://a.test/")], 1, 3, &web);
    assert!(r.is_ok());
    assert_eq!(
        fetched,
        vec![
            ("https://a.test/".to_string(), 1),
            ("https://b.test/".to_string(), 2),
            ("https://a.test/".to_string(), 3),
        ]
    );
}

#[test]
fn fetch_failure_fails_crawl() {
    let mut web = HashMap::new();
    web.insert("https://x.test/".to_string(), vec!["/gone", "/here"]);
    web.insert("https://x.test/here".to_string(), vec![]);
    let (r, fetched) = crawl(vec![addr("https://x.test/")], 1, 2, &web);
    match r {
        Err(CrawlError::Fetch { address, message }) => {
            assert_eq!(address, "https://x.test/gone");
            assert_eq!(message, "404 Not Found");
        }
        _ => panic!("expected a fetch failure"),
    }
    // the sibling still ran
    assert_eq!(fetched.len(), 3);
}

#[test]
fn join_reports_first_failure_in_order() {
    let results = vec![
        Ok(()),
        Err(CrawlError::MalformedLink { href: "first".to_string() }),
        Err(CrawlError::MalformedLink { href: "second".to_string() }),
    ];
    match join_level(results) {
        Err(CrawlError::MalformedLink { href }) => assert_eq!(href, "first"),
        _ => panic!("expected the first failure"),
    }
    assert!(join_level(vec![Ok(()), Ok(())]).is_ok());
    assert!(join_level(vec![]).is_ok());
}

#[test]
fn duplicates_are_kept() {
    let base = addr("https://x.test/q");
    let links = get_links(&base, &vec!["/p".to_string(), "/p".to_string()]).ok().expect("resolves");
    assert_eq!(links.len(), 2);
    assert_eq!(links[0].as_str(), "https://x.test/p");
    assert_eq!(links[1].as_str(), "https://x.test/p");
}

#[test]
fn parse_errors_are_told_apart() {
    assert!(matches!(Address::parse("/c"), Err(UrlError::RelativeWithoutBase)));
    assert!(matches!(Address::parse("http://["), Err(UrlError::Invalid)));
    assert_eq!(addr("HTTPS://Example.COM").as_str(), "https://example.com/");
}
