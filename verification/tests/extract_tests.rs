use spider::extract::find_images;
use spider::extract::find_links;

const SEED_PAGE: &[u8] = b"<html><body>\
<img src=\"/a.png\">\
<img data-src=\"b.jpg\">\
<img src=\"data:image/png;base64,AAAA\">\
<a href=\"/page2\">next</a>\
</body></html>";

#[test]
fn finds_images_in_document_order_resolved_against_base() {
    let (imgs, dropped) = find_images(SEED_PAGE, b"http://seed.test/");
    assert_eq!(
        imgs,
        vec![b"http://seed.test/a.png".to_vec(), b"http://seed.test/b.jpg".to_vec()]
    );
    assert_eq!(dropped, Vec::<Vec<u8>>::new());
}

#[test]
fn data_and_empty_sources_are_skipped() {
    let html = b"<img src=\"data:image/gif;base64,AA\"><img src=\"\"><img src=\"x.gif\">";
    let (imgs, _) = find_images(html, b"http://h.test/");
    assert_eq!(imgs, vec![b"http://h.test/x.gif".to_vec()]);
}

#[test]
fn src_takes_precedence_over_data_src() {
    let html = b"<img src=\"one.png\" data-src=\"two.png\">";
    let (imgs, _) = find_images(html, b"http://h.test/");
    assert_eq!(imgs, vec![b"http://h.test/one.png".to_vec()]);
}

#[test]
fn duplicate_image_urls_are_kept() {
    let html = b"<img src=\"a.png\"><img src=\"a.png\">";
    let (imgs, _) = find_images(html, b"http://h.test/");
    assert_eq!(imgs.len(), 2);
    assert_eq!(imgs[0], imgs[1]);
}

#[test]
fn unresolvable_candidates_are_reported_not_kept() {
    let (imgs, dropped) = find_images(b"<img src=\"x.png\">", b"not a url");
    assert_eq!(imgs, Vec::<Vec<u8>>::new());
    assert_eq!(dropped, vec![b"x.png".to_vec()]);
}

#[test]
fn finds_same_domain_links_only() {
    let html = b"<a href=\"/page2\"></a>\
<a href=\"http://other.test/x\"></a>\
<a href=\"sub\"></a>";
    let links = find_links(html, b"http://seed.test/dir/");
    assert_eq!(
        links,
        vec![b"http://seed.test/page2".to_vec(), b"http://seed.test/dir/sub".to_vec()]
    );
}

#[test]
fn links_to_a_different_ip_host_are_dropped() {
    let html = b"<a href=\"http://203.0.113.9/x\"></a><a href=\"/same\"></a>";
    let links = find_links(html, b"http://192.0.2.1/");
    assert_eq!(links, vec![b"http://192.0.2.1/same".to_vec()]);
}

#[test]
fn links_that_fail_to_resolve_are_silently_dropped() {
    let links = find_links(b"<a href=\"x\"></a>", b"not a url");
    assert_eq!(links, Vec::<Vec<u8>>::new());
}

#[test]
fn seed_scenario_link_extraction() {
    let links = find_links(SEED_PAGE, b"http://seed.test/");
    assert_eq!(links, vec![b"http://seed.test/page2".to_vec()]);
}
