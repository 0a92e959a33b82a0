use spider::crawl::filter_valid_images;
use spider::crawl::Crawler;

const SEED_PAGE: &[u8] = b"<html><body>\
<img src=\"/a.png\">\
<img data-src=\"b.jpg\">\
<img src=\"data:image/png;base64,AAAA\">\
<a href=\"/page2\">next</a>\
</body></html>";

const PAGE2: &[u8] = b"<html><body>\
<img src=\"/c.gif\">\
<a href=\"http://seed.test/\">back to seed</a>\
<a href=\"http://other.test/away\">off-site</a>\
</body></html>";

/// Drives a crawl over an in-memory site; a page missing from `site`
/// simulates a transport failure, which aborts the run as the engine's
/// caller must. Returns the downloaded image URLs and whether the run
/// failed.
fn run(seed: &[u8], max_depth: usize, site: &[(&[u8], &[u8])]) -> (Vec<Vec<u8>>, bool) {
    let mut crawler = Crawler::new(seed.to_vec(), max_depth);
    let mut downloads: Vec<Vec<u8>> = Vec::new();
    while let Some((url, _depth)) = crawler.next_page() {
        let page = site.iter().find(|(u, _)| *u == url.as_slice());
        match page {
            Some((_, html)) => {
                let (imgs, _dropped) = crawler.page_fetched(html);
                downloads.extend(imgs);
            }
            None => return (downloads, true),
        }
    }
    (downloads, false)
}

#[test]
fn flat_extraction_of_seed_scenario() {
    // Flat mode: one page, two valid images (the data: one is skipped).
    let (downloads, failed) = run(b"http://seed.test/", 0, &[(b"http://seed.test/", SEED_PAGE)]);
    assert!(!failed);
    assert_eq!(
        downloads,
        vec![b"http://seed.test/a.png".to_vec(), b"http://seed.test/b.jpg".to_vec()]
    );
}

#[test]
fn recursive_crawl_visits_linked_page() {
    let site: &[(&[u8], &[u8])] = &[
        (b"http://seed.test/", SEED_PAGE),
        (b"http://seed.test/page2", PAGE2),
    ];
    let (downloads, failed) = run(b"http://seed.test/", 1, site);
    assert!(!failed);
    assert_eq!(
        downloads,
        vec![
            b"http://seed.test/a.png".to_vec(),
            b"http://seed.test/b.jpg".to_vec(),
            b"http://seed.test/c.gif".to_vec(),
        ]
    );
}

#[test]
fn depth_bound_stops_link_following() {
    // With the bound at zero the link to page2 is never followed.
    let site: &[(&[u8], &[u8])] = &[(b"http://seed.test/", SEED_PAGE)];
    let (downloads, failed) = run(b"http://seed.test/", 0, site);
    assert!(!failed);
    assert_eq!(downloads.len(), 2);
}

#[test]
fn cycles_do_not_revisit_pages() {
    // page2 links back to the seed; with a generous bound the crawl
    // still fetches each page exactly once and terminates.
    let site: &[(&[u8], &[u8])] = &[
        (b"http://seed.test/", SEED_PAGE),
        (b"http://seed.test/page2", PAGE2),
    ];
    let mut crawler = Crawler::new(b"http://seed.test/".to_vec(), 5);
    let mut fetched: Vec<Vec<u8>> = Vec::new();
    while let Some((url, depth)) = crawler.next_page() {
        assert!(depth <= 5);
        assert!(!fetched.contains(&url));
        fetched.push(url.clone());
        let html = site.iter().find(|(u, _)| *u == url.as_slice()).unwrap().1;
        let _ = crawler.page_fetched(html);
    }
    assert_eq!(fetched.len(), 2);
    assert_eq!(crawler.pages_visited(), 2);
    assert!(crawler.done());
}

#[test]
fn off_domain_links_are_never_followed() {
    let site: &[(&[u8], &[u8])] = &[
        (b"http://seed.test/", SEED_PAGE),
        (b"http://seed.test/page2", PAGE2),
        (b"http://other.test/away", b"<img src=\"evil.png\">"),
    ];
    let (downloads, failed) = run(b"http://seed.test/", 9, site);
    assert!(!failed);
    assert!(!downloads.contains(&b"http://other.test/evil.png".to_vec()));
    assert_eq!(downloads.len(), 3);
}

#[test]
fn links_between_ip_hosts_are_not_followed() {
    // Both hosts are IP literals with no named domain; scoping is by
    // host, so the second is never fetched.
    let site: &[(&[u8], &[u8])] = &[
        (b"http://192.0.2.1/", b"<a href=\"http://203.0.113.9/x\"></a>" as &[u8]),
        (b"http://203.0.113.9/x", b"<img src=\"evil.png\">"),
    ];
    let mut crawler = Crawler::new(b"http://192.0.2.1/".to_vec(), 9);
    let mut fetched: Vec<Vec<u8>> = Vec::new();
    while let Some((url, _)) = crawler.next_page() {
        let html = site.iter().find(|(u, _)| *u == url.as_slice()).unwrap().1;
        fetched.push(url);
        let _ = crawler.page_fetched(html);
    }
    assert_eq!(fetched, vec![b"http://192.0.2.1/".to_vec()]);
}

#[test]
fn failed_seed_fetch_yields_no_downloads() {
    // The seed page itself cannot be fetched: the run reports failure
    // and nothing is downloaded.
    let (downloads, failed) = run(b"http://seed.test/", 3, &[]);
    assert!(failed);
    assert_eq!(downloads, Vec::<Vec<u8>>::new());
}

#[test]
fn depth_first_order_of_discovery() {
    let seed: &[u8] = b"<a href=\"/l\"></a><a href=\"/r\"></a>";
    let left: &[u8] = b"<a href=\"/l2\"></a>";
    let site: &[(&[u8], &[u8])] = &[
        (b"http://d.test/", seed),
        (b"http://d.test/l", left),
        (b"http://d.test/l2", b""),
        (b"http://d.test/r", b""),
    ];
    let mut crawler = Crawler::new(b"http://d.test/".to_vec(), 5);
    let mut order: Vec<Vec<u8>> = Vec::new();
    while let Some((url, _)) = crawler.next_page() {
        order.push(url.clone());
        let html = site.iter().find(|(u, _)| *u == url.as_slice()).unwrap().1;
        let _ = crawler.page_fetched(html);
    }
    assert_eq!(
        order,
        vec![
            b"http://d.test/".to_vec(),
            b"http://d.test/l".to_vec(),
            b"http://d.test/l2".to_vec(),
            b"http://d.test/r".to_vec(),
        ]
    );
}

#[test]
fn filter_keeps_only_valid_images_in_order() {
    let imgs = vec![
        b"http://x/a.png".to_vec(),
        b"http://x/b.svg".to_vec(),
        b"http://x/c.JPG?v=1".to_vec(),
        b"http://x/page.html".to_vec(),
    ];
    let kept = filter_valid_images(imgs);
    assert_eq!(kept, vec![b"http://x/a.png".to_vec(), b"http://x/c.JPG?v=1".to_vec()]);
}

#[test]
fn page_fetched_without_pending_does_nothing() {
    let mut crawler = Crawler::new(b"http://seed.test/".to_vec(), 1);
    let (imgs, dropped) = crawler.page_fetched(SEED_PAGE);
    assert!(imgs.is_empty());
    assert!(dropped.is_empty());
    assert!(!crawler.done());
}

#[test]
fn engine_laws_hold_mid_run() {
    let mut crawler = Crawler::new(b"http://seed.test/".to_vec(), 2);
    let _ = crawler.next_page();
    let _ = crawler.page_fetched(SEED_PAGE);
    spider::crawl::lemma_depth_bound(&crawler);
    spider::crawl::lemma_no_duplicate_fetches(&crawler);
    spider::crawl::lemma_host_scoped(&crawler);
}
