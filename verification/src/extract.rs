//! Extracting image and link URLs from page markup.
//!
//! Image extraction walks the markup's image elements in document
//! order, takes each element's source (or lazy-load source) attribute,
//! skips empty and inline-data candidates, and resolves the rest
//! against the page's base URL; candidates that fail to resolve are
//! reported back for diagnostics. Link extraction walks the anchor
//! elements, silently drops what fails to resolve, and keeps only
//! links whose host component equals the base URL's host.

use vstd::prelude::*;

use crate::bytes::clone_bytes;
use crate::bytes::seq_starts_with;
use crate::bytes::seq_views;
use crate::bytes::starts_with;
use crate::scrape::anchor_hrefs_of;
use crate::scrape::elem_view;
use crate::scrape::elem_views;
use crate::scrape::img_elements_of;
use crate::scrape::opt_views;
use crate::scrape::scrape_anchor_hrefs;
use crate::scrape::scrape_img_elements;
use crate::urls::host_of;
use crate::urls::host_raw;
use crate::urls::resolve_of;
use crate::urls::resolve_raw;
use crate::bytes::bytes_eq;

verus! {

/// The bytes of `data:`.
pub open spec fn data_scheme() -> Seq<u8> {
    seq![100u8, 97u8, 116u8, 97u8, 58u8]
}

/// The candidate URL an image element offers: its source attribute,
/// else its lazy-load source attribute.
pub open spec fn spec_candidate(e: (Option<Seq<u8>>, Option<Seq<u8>>)) -> Option<Seq<u8>> {
    if e.0 is Some {
        e.0
    } else {
        e.1
    }
}

/// A candidate worth resolving: present, non-empty, and not an
/// inline-data URL.
pub open spec fn spec_usable(c: Option<Seq<u8>>) -> bool {
    match c {
        Some(s) => s.len() > 0 && !seq_starts_with(s, data_scheme()),
        None => false,
    }
}

/// The resolved image URLs of a sequence of image elements, in
/// document order.
pub open spec fn spec_extract_images(
    elems: Seq<(Option<Seq<u8>>, Option<Seq<u8>>)>,
    base: Seq<u8>,
) -> Seq<Seq<u8>>
    decreases elems.len(),
{
    if elems.len() == 0 {
        Seq::empty()
    } else {
        let rest = spec_extract_images(elems.skip(1), base);
        let c = spec_candidate(elems[0]);
        if spec_usable(c) {
            match resolve_of(base, c.unwrap()) {
                Some(u) => seq![u] + rest,
                None => rest,
            }
        } else {
            rest
        }
    }
}

/// The usable candidates of a sequence of image elements that fail to
/// resolve, in document order.
pub open spec fn spec_dropped_images(
    elems: Seq<(Option<Seq<u8>>, Option<Seq<u8>>)>,
    base: Seq<u8>,
) -> Seq<Seq<u8>>
    decreases elems.len(),
{
    if elems.len() == 0 {
        Seq::empty()
    } else {
        let rest = spec_dropped_images(elems.skip(1), base);
        let c = spec_candidate(elems[0]);
        if spec_usable(c) {
            match resolve_of(base, c.unwrap()) {
                Some(u) => rest,
                None => seq![c.unwrap()] + rest,
            }
        } else {
            rest
        }
    }
}

/// The resolved link URLs of a sequence of anchor attributes whose
/// host equals the base URL's host, in document order.
pub open spec fn spec_extract_links(hrefs: Seq<Option<Seq<u8>>>, base: Seq<u8>) -> Seq<Seq<u8>>
    decreases hrefs.len(),
{
    if hrefs.len() == 0 {
        Seq::empty()
    } else {
        let rest = spec_extract_links(hrefs.skip(1), base);
        match hrefs[0] {
            Some(h) => match resolve_of(base, h) {
                Some(u) => if host_of(u) == host_of(base) {
                    seq![u] + rest
                } else {
                    rest
                },
                None => rest,
            },
            None => rest,
        }
    }
}

/// The image URLs a page's markup yields against its base URL.
pub open spec fn images_of(html: Seq<u8>, base: Seq<u8>) -> Seq<Seq<u8>> {
    spec_extract_images(img_elements_of(html), base)
}

/// The image candidates of a page's markup that fail to resolve.
pub open spec fn dropped_of(html: Seq<u8>, base: Seq<u8>) -> Seq<Seq<u8>> {
    spec_dropped_images(img_elements_of(html), base)
}

/// The same-domain link URLs a page's markup yields against its base
/// URL.
pub open spec fn links_of(html: Seq<u8>, base: Seq<u8>) -> Seq<Seq<u8>> {
    spec_extract_links(anchor_hrefs_of(html), base)
}

/// Law: every link the link extractor keeps has the base URL's own
/// host.
pub proof fn lemma_links_same_host(hrefs: Seq<Option<Seq<u8>>>, base: Seq<u8>)
    ensures
        forall|i: int|
            0 <= i < spec_extract_links(hrefs, base).len() ==> host_of(
                #[trigger] spec_extract_links(hrefs, base)[i],
            ) == host_of(base),
    decreases hrefs.len(),
{
    if hrefs.len() > 0 {
        lemma_links_same_host(hrefs.skip(1), base);
    }
}

/// Extracts the images of a page: the resolved URLs of the usable
/// image candidates in document order, and, apart, the usable
/// candidates whose resolution failed (for diagnostics).
pub fn find_images(html: &[u8], base_url: &[u8]) -> (r: (Vec<Vec<u8>>, Vec<Vec<u8>>))
    ensures
        seq_views(r.0@) == images_of(html@, base_url@),
        seq_views(r.1@) == dropped_of(html@, base_url@),
{
    let elems = scrape_img_elements(html);
    let ghost eseq = elem_views(elems@);
    proof {
        assert(eseq =~= img_elements_of(html@));
    }
    let data_pre: Vec<u8> = vec![100u8, 97u8, 116u8, 97u8, 58u8];
    let mut imgs: Vec<Vec<u8>> = Vec::new();
    let mut dropped: Vec<Vec<u8>> = Vec::new();
    let n = elems.len();
    let mut i: usize = 0;
    proof {
        assert(eseq.skip(0) =~= eseq);
        assert(seq_views(imgs@) =~= Seq::<Seq<u8>>::empty());
        assert(seq_views(dropped@) =~= Seq::<Seq<u8>>::empty());
        assert(Seq::<Seq<u8>>::empty() + spec_extract_images(eseq, base_url@)
            =~= spec_extract_images(eseq, base_url@));
        assert(Seq::<Seq<u8>>::empty() + spec_dropped_images(eseq, base_url@)
            =~= spec_dropped_images(eseq, base_url@));
    }
    while i < n
        invariant
            n == elems@.len(),
            0 <= i <= n,
            eseq == elem_views(elems@),
            data_pre@ == data_scheme(),
            spec_extract_images(eseq, base_url@) == seq_views(imgs@) + spec_extract_images(
                eseq.skip(i as int),
                base_url@,
            ),
            spec_dropped_images(eseq, base_url@) == seq_views(dropped@) + spec_dropped_images(
                eseq.skip(i as int),
                base_url@,
            ),
        decreases n - i,
    {
        proof {
            assert(eseq[i as int] == elem_view(elems@[i as int]));
            assert(eseq.skip(i as int).skip(1) =~= eseq.skip(i as int + 1));
            assert(eseq.skip(i as int)[0] == eseq[i as int]);
        }
        let e = &elems[i];
        let cand: Option<&Vec<u8>> = match (&e.0, &e.1) {
            (Some(s), _) => Some(s),
            (None, Some(s)) => Some(s),
            (None, None) => None,
        };
        if let Some(c) = cand {
            if c.len() > 0 && !starts_with(c.as_slice(), data_pre.as_slice()) {
                match resolve_raw(base_url, c.as_slice()) {
                    Some(u) => {
                        proof {
                            assert(seq_views(imgs@.push(u)) =~= seq_views(imgs@).push(u@));
                        }
                        imgs.push(u);
                    },
                    None => {
                        let copy = clone_bytes(c.as_slice());
                        proof {
                            assert(seq_views(dropped@.push(copy)) =~= seq_views(dropped@).push(
                                copy@,
                            ));
                        }
                        dropped.push(copy);
                    },
                }
            }
        }
        i += 1;
    }
    proof {
        assert(eseq.skip(n as int) =~= Seq::empty());
        assert(seq_views(imgs@) + Seq::<Seq<u8>>::empty() =~= seq_views(imgs@));
        assert(seq_views(dropped@) + Seq::<Seq<u8>>::empty() =~= seq_views(dropped@));
    }
    (imgs, dropped)
}

/// Extracts the same-domain links of a page, in document order;
/// references that fail to resolve or whose host differs from the base
/// URL's host are dropped.
pub fn find_links(html: &[u8], base_url: &[u8]) -> (r: Vec<Vec<u8>>)
    ensures
        seq_views(r@) == links_of(html@, base_url@),
{
    let hrefs = scrape_anchor_hrefs(html);
    let ghost hseq = opt_views(hrefs@);
    proof {
        assert(hseq =~= anchor_hrefs_of(html@));
    }
    let base_host = host_raw(base_url);
    let mut links: Vec<Vec<u8>> = Vec::new();
    let n = hrefs.len();
    let mut i: usize = 0;
    proof {
        assert(hseq.skip(0) =~= hseq);
        assert(seq_views(links@) =~= Seq::<Seq<u8>>::empty());
        assert(Seq::<Seq<u8>>::empty() + spec_extract_links(hseq, base_url@)
            =~= spec_extract_links(hseq, base_url@));
    }
    while i < n
        invariant
            n == hrefs@.len(),
            0 <= i <= n,
            hseq == opt_views(hrefs@),
            crate::bytes::opt_view(base_host) == host_of(base_url@),
            spec_extract_links(hseq, base_url@) == seq_views(links@) + spec_extract_links(
                hseq.skip(i as int),
                base_url@,
            ),
        decreases n - i,
    {
        proof {
            assert(hseq[i as int] == crate::bytes::opt_view(hrefs@[i as int]));
            assert(hseq.skip(i as int).skip(1) =~= hseq.skip(i as int + 1));
            assert(hseq.skip(i as int)[0] == hseq[i as int]);
        }
        let h = &hrefs[i];
        if let Some(href) = h {
            if let Some(u) = resolve_raw(base_url, href.as_slice()) {
                let uh = host_raw(u.as_slice());
                let same = match (&uh, &base_host) {
                    (Some(x), Some(y)) => bytes_eq(x.as_slice(), y.as_slice()),
                    (None, None) => true,
                    _ => false,
                };
                if same {
                    proof {
                        assert(seq_views(links@.push(u)) =~= seq_views(links@).push(u@));
                    }
                    links.push(u);
                }
            }
        }
        i += 1;
    }
    proof {
        assert(hseq.skip(n as int) =~= Seq::empty());
        assert(seq_views(links@) + Seq::<Seq<u8>>::empty() =~= seq_views(links@));
    }
    links
}

} // verus!
