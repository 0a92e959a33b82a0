//! The crawl engine: depth-bounded, deduplicated traversal.
//!
//! The engine owns the work list (a stack of URL/depth pairs, giving
//! depth-first order) and the visited set. It does no fetching itself:
//! the caller asks it which page to fetch next, fetches it, and hands
//! the markup back; the engine then yields the page's valid images and
//! queues its same-domain links one level deeper. A ghost log records
//! every page handed out, so the engine's guarantees — every fetched
//! page lies within the depth bound, no URL is fetched twice, and every
//! fetched page has the seed's host — are stated over the whole run.

use vstd::prelude::*;

use crate::bytes::bytes_eq;
use crate::bytes::clone_bytes;
use crate::bytes::seq_views;
use crate::extract::dropped_of;
use crate::extract::find_images;
use crate::extract::find_links;
use crate::extract::images_of;
use crate::extract::lemma_links_same_host;
use crate::extract::links_of;
use crate::scrape::anchor_hrefs_of;
use crate::urls::host_of;
use crate::validate::is_valid_image;
use crate::validate::spec_is_valid_image;

verus! {

/// The image URLs of `imgs` that pass the image filter, in order.
pub open spec fn spec_filter_valid(imgs: Seq<Seq<u8>>) -> Seq<Seq<u8>>
    decreases imgs.len(),
{
    if imgs.len() == 0 {
        Seq::empty()
    } else if spec_is_valid_image(imgs[0]) {
        seq![imgs[0]] + spec_filter_valid(imgs.skip(1))
    } else {
        spec_filter_valid(imgs.skip(1))
    }
}

/// The downloadable images a page yields: its extracted image URLs
/// that pass the image filter.
pub open spec fn valid_images_of(html: Seq<u8>, base: Seq<u8>) -> Seq<Seq<u8>> {
    spec_filter_valid(images_of(html, base))
}

/// The view of a work-list entry sequence: each URL with its depth.
pub open spec fn stack_views(s: Seq<(Vec<u8>, usize)>) -> Seq<(Seq<u8>, int)> {
    s.map_values(|p: (Vec<u8>, usize)| (p.0@, p.1 as int))
}

/// Keeps the image URLs that pass the image filter, in order.
pub fn filter_valid_images(imgs: Vec<Vec<u8>>) -> (r: Vec<Vec<u8>>)
    ensures
        seq_views(r@) == spec_filter_valid(seq_views(imgs@)),
{
    let ghost iseq = seq_views(imgs@);
    let mut out: Vec<Vec<u8>> = Vec::new();
    let n = imgs.len();
    let mut i: usize = 0;
    proof {
        assert(iseq.skip(0) =~= iseq);
        assert(seq_views(out@) =~= Seq::<Seq<u8>>::empty());
        assert(Seq::<Seq<u8>>::empty() + spec_filter_valid(iseq) =~= spec_filter_valid(iseq));
    }
    while i < n
        invariant
            n == imgs@.len(),
            0 <= i <= n,
            iseq == seq_views(imgs@),
            spec_filter_valid(iseq) == seq_views(out@) + spec_filter_valid(iseq.skip(i as int)),
        decreases n - i,
    {
        proof {
            assert(iseq[i as int] == imgs@[i as int]@);
            assert(iseq.skip(i as int).skip(1) =~= iseq.skip(i as int + 1));
            assert(iseq.skip(i as int)[0] == iseq[i as int]);
        }
        if is_valid_image(imgs[i].as_slice()) {
            let copy = clone_bytes(imgs[i].as_slice());
            proof {
                assert(seq_views(out@.push(copy)) =~= seq_views(out@).push(copy@));
            }
            out.push(copy);
        }
        i += 1;
    }
    proof {
        assert(iseq.skip(n as int) =~= Seq::empty());
        assert(seq_views(out@) + Seq::<Seq<u8>>::empty() =~= seq_views(out@));
    }
    out
}

/// `urls` holds `url`.
fn contains_url(urls: &Vec<Vec<u8>>, url: &[u8]) -> (r: bool)
    ensures
        r == seq_views(urls@).contains(url@),
{
    let n = urls.len();
    let mut i: usize = 0;
    while i < n
        invariant
            n == urls@.len(),
            0 <= i <= n,
            forall|j: int| 0 <= j < i ==> seq_views(urls@)[j] != url@,
        decreases n - i,
    {
        if bytes_eq(urls[i].as_slice(), url) {
            proof {
                assert(seq_views(urls@)[i as int] == url@);
            }
            return true;
        }
        proof {
            assert(seq_views(urls@)[i as int] == urls@[i as int]@);
        }
        i += 1;
    }
    proof {
        assert(!seq_views(urls@).contains(url@)) by {
            if seq_views(urls@).contains(url@) {
                let j = choose|j: int| 0 <= j < seq_views(urls@).len() && seq_views(urls@)[j] == url@;
                assert(seq_views(urls@)[j] != url@);
            }
        }
    }
    false
}

/// The crawl engine. It hands out pages to fetch, never the same URL
/// twice, never beyond the depth bound, and never off the seed's
/// host.
pub struct Crawler {
    max_depth: usize,
    stack: Vec<(Vec<u8>, usize)>,
    visited: Vec<Vec<u8>>,
    pending: Option<(Vec<u8>, usize)>,
    seed: Ghost<Option<Seq<u8>>>,
    log: Ghost<Seq<(Seq<u8>, int)>>,
}

impl Crawler {
    /// Every page handed out so far, as URL/depth pairs, in fetch
    /// order.
    pub closed spec fn fetched(self) -> Seq<(Seq<u8>, int)> {
        self.log@
    }

    /// The URLs of every page handed out so far, in fetch order.
    pub open spec fn fetched_urls(self) -> Seq<Seq<u8>> {
        self.fetched().map_values(|p: (Seq<u8>, int)| p.0)
    }

    /// The depth bound of this run.
    pub closed spec fn spec_max_depth(self) -> int {
        self.max_depth as int
    }

    /// The seed URL's host; every fetched page shares it.
    pub closed spec fn seed_host(self) -> Option<Seq<u8>> {
        self.seed@
    }

    /// The work list: pages discovered but not yet handed out, the
    /// next one last.
    pub closed spec fn frontier(self) -> Seq<(Seq<u8>, int)> {
        stack_views(self.stack@)
    }

    /// The page handed out and not yet answered, if any.
    pub closed spec fn pending_page(self) -> Option<(Seq<u8>, int)> {
        match self.pending {
            Some(p) => Some((p.0@, p.1 as int)),
            None => None,
        }
    }

    #[verifier::type_invariant]
    spec fn wf(self) -> bool {
        &&& seq_views(self.visited@) == self.fetched_urls()
        &&& forall|i: int, j: int|
            0 <= i < j < self.log@.len() ==> (#[trigger] self.log@[i]).0 != (
            #[trigger] self.log@[j]).0
        &&& forall|i: int|
            0 <= i < self.log@.len() ==> 0 <= (#[trigger] self.log@[i]).1 <= self.max_depth
                && host_of(self.log@[i].0) == self.seed@
        &&& forall|i: int|
            0 <= i < self.stack@.len() ==> (#[trigger] self.stack@[i]).1 <= self.max_depth
                && host_of(self.stack@[i].0@) == self.seed@
        &&& match self.pending {
            Some(p) => p.1 <= self.max_depth && host_of(p.0@) == self.seed@,
            None => true,
        }
    }

    /// A crawler with nothing discovered, nothing visited and nothing
    /// pending.
    fn empty_shell() -> (c: Crawler)
    {
        proof {
            assert(seq_views(Seq::<Vec<u8>>::empty()) =~= Seq::<Seq<u8>>::empty());
            assert(Seq::<(Seq<u8>, int)>::empty().map_values(|p: (Seq<u8>, int)| p.0)
                =~= Seq::<Seq<u8>>::empty());
        }
        Crawler {
            max_depth: 0,
            stack: Vec::new(),
            visited: Vec::new(),
            pending: None,
            seed: Ghost(None),
            log: Ghost(Seq::empty()),
        }
    }

    /// Starts a crawl at `seed` with the given depth bound; the seed
    /// sits on the work list at depth zero.
    pub fn new(seed: Vec<u8>, max_depth: usize) -> (c: Crawler)
        ensures
            c.fetched() == Seq::<(Seq<u8>, int)>::empty(),
            c.frontier() == seq![(seed@, 0int)],
            c.spec_max_depth() == max_depth as int,
            c.seed_host() == host_of(seed@),
            c.pending_page() is None,
    {
        let ghost h = host_of(seed@);
        let ghost sv = seed@;
        let mut stack: Vec<(Vec<u8>, usize)> = Vec::new();
        stack.push((seed, 0));
        proof {
            assert(seq_views(Seq::<Vec<u8>>::empty()) =~= Seq::<Seq<u8>>::empty());
            assert(Seq::<(Seq<u8>, int)>::empty().map_values(|p: (Seq<u8>, int)| p.0)
                =~= Seq::<Seq<u8>>::empty());
            assert(stack_views(stack@) =~= seq![(sv, 0int)]);
        }
        let c = Crawler {
            max_depth,
            stack,
            visited: Vec::new(),
            pending: None,
            seed: Ghost(h),
            log: Ghost(Seq::empty()),
        };
        c
    }

    /// The number of pages handed out (visited) so far.
    pub fn pages_visited(&self) -> (n: usize)
        ensures
            n == self.fetched().len(),
    {
        proof {
            use_type_invariant(&*self);
            assert(seq_views(self.visited@).len() == self.visited@.len());
            assert(self.fetched_urls().len() == self.fetched().len());
        }
        self.visited.len()
    }

    /// Nothing is left on the work list.
    pub fn done(&self) -> (r: bool)
        ensures
            r == (self.frontier().len() == 0),
    {
        proof {
            assert(stack_views(self.stack@).len() == self.stack@.len());
        }
        self.stack.is_empty()
    }

    /// Hands out the next page to fetch: the work list is popped,
    /// skipping URLs already visited and entries beyond the depth
    /// bound, until a fresh page turns up; that page is recorded as
    /// visited and left pending. `None` once the work list is
    /// exhausted.
    pub fn next_page(&mut self) -> (r: Option<(Vec<u8>, usize)>)
        ensures
            final(self).spec_max_depth() == old(self).spec_max_depth(),
            final(self).seed_host() == old(self).seed_host(),
            match r {
                Some(p) => {
                    &&& p.1 <= old(self).spec_max_depth()
                    &&& host_of(p.0@) == old(self).seed_host()
                    &&& !old(self).fetched_urls().contains(p.0@)
                    &&& final(self).frontier().len() < old(self).frontier().len()
                    &&& final(self).frontier() == old(self).frontier().take(
                        final(self).frontier().len() as int,
                    )
                    &&& old(self).frontier()[final(self).frontier().len() as int] == (p.0@,
                    p.1 as int)
                    &&& forall|j: int|
                        final(self).frontier().len() < j < old(self).frontier().len() ==> ((
                        #[trigger] old(self).frontier()[j]).1 > old(self).spec_max_depth() || old(
                            self,
                        ).fetched_urls().contains(old(self).frontier()[j].0))
                    &&& final(self).fetched() == old(self).fetched().push((p.0@, p.1 as int))
                    &&& final(self).pending_page() == Some((p.0@, p.1 as int))
                },
                None => {
                    &&& final(self).fetched() == old(self).fetched()
                    &&& final(self).frontier().len() == 0
                    &&& forall|j: int|
                        0 <= j < old(self).frontier().len() ==> ((#[trigger] old(
                            self,
                        ).frontier()[j]).1 > old(self).spec_max_depth() || old(
                            self,
                        ).fetched_urls().contains(old(self).frontier()[j].0))
                    &&& final(self).pending_page() is None
                },
            },
    {
        proof {
            use_type_invariant(&*self);
        }
        let ghost prev = *self;
        let mut own = Self::empty_shell();
        core::mem::swap(self, &mut own);
        let Crawler { max_depth, mut stack, mut visited, pending: _, seed, log } = own;
        loop
            invariant
                prev == *old(self),
                prev.wf(),
                max_depth == prev.max_depth,
                visited@ == prev.visited@,
                seed == prev.seed,
                log == prev.log,
                stack@.len() <= prev.stack@.len(),
                stack@ == prev.stack@.take(stack@.len() as int),
                forall|j: int|
                    stack@.len() <= j < prev.stack@.len() ==> ((#[trigger] prev.stack@[j]).1
                        > max_depth || seq_views(prev.visited@).contains(prev.stack@[j].0@)),
            decreases stack@.len(),
        {
            let ghost len_before = stack@.len() as int;
            let popped = stack.pop();
            match popped {
                None => {
                    proof {
                        assert(stack_views(stack@).len() == 0);
                        assert(forall|j: int|
                            0 <= j < prev.frontier().len() ==> #[trigger] prev.frontier()[j] == (
                            prev.stack@[j].0@,
                            prev.stack@[j].1 as int,
                            ));
                    }
                    *self = Crawler { max_depth, stack, visited, pending: None, seed, log };
                    return None;
                },
                Some((url, depth)) => {
                    proof {
                        let gi = stack@.len() as int;
                        assert(gi == len_before - 1);
                        assert(stack@ =~= prev.stack@.take(gi));
                        assert((url@, depth) == (prev.stack@.take(len_before)[gi].0@,
                            prev.stack@.take(len_before)[gi].1));
                        assert(prev.stack@.take(len_before)[gi] == prev.stack@[gi]);
                    }
                    if depth > max_depth {
                        continue;
                    }
                    if !contains_url(&visited, url.as_slice()) {
                        let ghost uv = url@;
                        let url_pending = clone_bytes(url.as_slice());
                        let url_ret = clone_bytes(url.as_slice());
                        proof {
                            let gi = stack@.len() as int;
                            assert(prev.frontier()[gi] == (uv, depth as int)) by {
                                assert(prev.frontier()[gi] == (prev.stack@[gi].0@,
                                    prev.stack@[gi].1 as int));
                            };
                            assert(stack_views(stack@) =~= stack_views(prev.stack@).take(gi));
                            assert(forall|j: int|
                                0 <= j < prev.frontier().len() ==> #[trigger] prev.frontier()[j]
                                    == (prev.stack@[j].0@, prev.stack@[j].1 as int));
                            assert(seq_views(visited@.push(url)) =~= seq_views(visited@).push(uv));
                            assert(log@.push((uv, depth as int)).map_values(
                                |p: (Seq<u8>, int)| p.0,
                            ) =~= log@.map_values(|p: (Seq<u8>, int)| p.0).push(uv));
                            assert(forall|i: int|
                                0 <= i < log@.len() ==> (#[trigger] log@[i]).0
                                    == prev.fetched_urls()[i]);
                        }
                        visited.push(url);
                        *self = Crawler {
                            max_depth,
                            stack,
                            visited,
                            pending: Some((url_pending, depth)),
                            seed,
                            log: Ghost(log@.push((uv, depth as int))),
                        };
                        return Some((url_ret, depth));
                    }
                },
            }
        }
    }

    /// Answers the pending page with its markup: yields the page's
    /// valid image URLs (and, apart, the candidates that failed to
    /// resolve), and, when the page sits below the depth bound, queues
    /// its same-domain links one level deeper, first-discovered on
    /// top. With nothing pending, nothing happens.
    pub fn page_fetched(&mut self, html: &[u8]) -> (r: (Vec<Vec<u8>>, Vec<Vec<u8>>))
        ensures
            final(self).spec_max_depth() == old(self).spec_max_depth(),
            final(self).seed_host() == old(self).seed_host(),
            final(self).fetched() == old(self).fetched(),
            final(self).pending_page() is None,
            match old(self).pending_page() {
                Some(p) => {
                    &&& seq_views(r.0@) == valid_images_of(html@, p.0)
                    &&& seq_views(r.1@) == dropped_of(html@, p.0)
                    &&& final(self).frontier() == if p.1 < old(self).spec_max_depth() {
                        old(self).frontier() + links_of(html@, p.0).reverse().map_values(
                            |l: Seq<u8>| (l, p.1 + 1),
                        )
                    } else {
                        old(self).frontier()
                    }
                },
                None => {
                    &&& r.0@.len() == 0
                    &&& r.1@.len() == 0
                    &&& final(self).frontier() == old(self).frontier()
                },
            },
    {
        proof {
            use_type_invariant(&*self);
        }
        let ghost prev = *self;
        let mut own = Self::empty_shell();
        core::mem::swap(self, &mut own);
        let Crawler { max_depth, mut stack, visited, pending, seed, log } = own;
        match pending {
            None => {
                proof {
                    assert(stack_views(stack@) == prev.frontier());
                }
                *self = Crawler { max_depth, stack, visited, pending: None, seed, log };
                (Vec::new(), Vec::new())
            },
            Some((url, depth)) => {
                let ghost uv = url@;
                let (imgs, dropped) = find_images(html, url.as_slice());
                let valid = filter_valid_images(imgs);
                proof {
                    assert(seq_views(valid@) == valid_images_of(html@, uv));
                }
                if depth < max_depth {
                    let mut links = find_links(html, url.as_slice());
                    let new_depth = depth + 1;
                    let ghost lseq = links_of(html@, uv);
                    let ghost target = lseq.reverse().map_values(
                        |l: Seq<u8>| (l, depth + 1 as int),
                    );
                    proof {
                        lemma_links_same_host(anchor_hrefs_of(html@), uv);
                        assert(stack_views(stack@) =~= stack_views(prev.stack@) + target.take(
                            target.len() - links@.len(),
                        ));
                        assert(seq_views(links@) =~= lseq.take(links@.len() as int));
                    }
                    while links.len() > 0
                        invariant
                            prev.wf(),
                            max_depth == prev.max_depth,
                            depth < max_depth,
                            new_depth == depth + 1,
                            lseq == links_of(html@, uv),
                            host_of(uv) == prev.seed@,
                            forall|i: int|
                                0 <= i < lseq.len() ==> host_of(#[trigger] lseq[i]) == host_of(
                                    uv,
                                ),
                            target == lseq.reverse().map_values(|l: Seq<u8>| (l, depth + 1 as int)),
                            seq_views(links@) == lseq.take(links@.len() as int),
                            links@.len() <= lseq.len(),
                            forall|i: int|
                                0 <= i < stack@.len() ==> (#[trigger] stack@[i]).1 <= max_depth
                                    && host_of(stack@[i].0@) == prev.seed@,
                            stack_views(stack@) == stack_views(prev.stack@) + target.take(
                                target.len() - links@.len(),
                            ),
                        decreases links@.len(),
                    {
                        let ghost k = links@.len() as int;
                        let l = links.pop().unwrap();
                        proof {
                            assert(seq_views(links@) =~= lseq.take(k - 1)) by {
                                assert(seq_views(links@.push(l)) == lseq.take(k));
                                assert(forall|i: int|
                                    0 <= i < k - 1 ==> seq_views(links@)[i] == #[trigger] seq_views(
                                        links@.push(l),
                                    )[i]);
                            };
                            assert(l@ == lseq.take(k)[k - 1]);
                            assert(l@ == lseq[k - 1]);
                            assert(target[target.len() - k] == (lseq.reverse()[lseq.len() - k],
                                depth + 1 as int));
                            assert(lseq.reverse()[lseq.len() - k] == lseq[k - 1]);
                            assert(stack_views(stack@.push((l, new_depth))) =~= stack_views(stack@)
                                .push((l@, new_depth as int)));
                            assert(target.take(target.len() - (k - 1)) =~= target.take(
                                target.len() - k,
                            ).push(target[target.len() - k]));
                        }
                        stack.push((l, new_depth));
                        proof {
                            assert(stack_views(stack@) =~= stack_views(prev.stack@) + target.take(
                                target.len() - links@.len(),
                            ));
                        }
                    }
                    proof {
                        assert(target.take(target.len() - 0) =~= target);
                        assert(stack_views(stack@) == stack_views(prev.stack@) + target);
                    }
                    *self = Crawler { max_depth, stack, visited, pending: None, seed, log };
                    (valid, dropped)
                } else {
                    proof {
                        assert(stack_views(stack@) == prev.frontier());
                    }
                    *self = Crawler { max_depth, stack, visited, pending: None, seed, log };
                    (valid, dropped)
                }
            },
        }
    }
}

/// Law: every page the crawler has handed out to be fetched lies
/// within the depth bound.
pub fn lemma_depth_bound(c: &Crawler)
    ensures
        forall|i: int|
            0 <= i < c.fetched().len() ==> 0 <= (#[trigger] c.fetched()[i]).1
                <= c.spec_max_depth(),
{
    proof {
        use_type_invariant(c);
    }
}

/// Law: no URL is ever fetched as a page twice, however many link
/// paths lead to it.
pub fn lemma_no_duplicate_fetches(c: &Crawler)
    ensures
        forall|i: int, j: int|
            0 <= i < j < c.fetched().len() ==> (#[trigger] c.fetched()[i]).0 != (
            #[trigger] c.fetched()[j]).0,
{
    proof {
        use_type_invariant(c);
    }
}

/// Law: a crawl whose seed page links to exactly one page different
/// from the seed follows that link — whatever markup the seed page
/// holds, the engine hands out the seed at depth zero, yields the seed
/// page's valid images, and hands out the linked page next at depth
/// one; at that point exactly those two pages have been fetched.
pub fn lemma_linked_page_is_visited(
    seed: Vec<u8>,
    html: &[u8],
    max_depth: usize,
    p2: Ghost<Seq<u8>>,
) -> (r: (Crawler, Vec<Vec<u8>>))
    requires
        max_depth >= 1,
        links_of(html@, seed@) == seq![p2@],
        p2@ != seed@,
    ensures
        r.0.fetched() == seq![(seed@, 0int), (p2@, 1int)],
        seq_views(r.1@) == valid_images_of(html@, seed@),
{
    let ghost seedv = seed@;
    let ghost p2v = p2@;
    let mut c = Crawler::new(seed, max_depth);
    let ghost c0 = c;
    let r1 = c.next_page();
    let (u1, d1) = match r1 {
        Some(p) => p,
        None => {
            proof {
                assert(c0.frontier()[0] == (seedv, 0int));
                assert(!c0.fetched_urls().contains(seedv)) by {
                    assert(c0.fetched_urls().len() == 0);
                }
                assert(false);
            }
            vstd::pervasive::unreached()
        },
    };
    proof {
        assert(c.frontier().len() == 0);
        assert((u1@, d1 as int) == (seedv, 0int));
        assert(c.fetched() =~= seq![(seedv, 0int)]);
        assert(c.pending_page() == Some((seedv, 0int)));
    }
    let ghost c1 = c;
    let (imgs, _dropped) = c.page_fetched(html);
    proof {
        assert(seq_views(imgs@) == valid_images_of(html@, seedv));
        assert(c.frontier().len() == 1);
        assert(c.frontier()[0] == (p2v, 1int)) by {
            assert(links_of(html@, seedv).reverse()[0] == p2v);
        }
        assert(c.frontier() =~= seq![(p2v, 1int)]);
        assert(c.fetched() == c1.fetched());
    }
    let ghost c2 = c;
    let r2 = c.next_page();
    let (u2, d2) = match r2 {
        Some(q) => q,
        None => {
            proof {
                assert(c2.frontier()[0] == (p2v, 1int));
                assert(c2.fetched_urls().len() == 1);
                assert(c2.fetched_urls()[0] == seedv);
                assert(!c2.fetched_urls().contains(p2v)) by {
                    if c2.fetched_urls().contains(p2v) {
                        let i = choose|i: int|
                            0 <= i < c2.fetched_urls().len() && c2.fetched_urls()[i] == p2v;
                        assert(c2.fetched_urls()[i] == seedv);
                    }
                }
                assert(false);
            }
            vstd::pervasive::unreached()
        },
    };
    proof {
        assert((u2@, d2 as int) == (p2v, 1int));
        assert(c.fetched() =~= seq![(seedv, 0int), (p2v, 1int)]);
    }
    (c, imgs)
}

/// Law: every page the crawler has handed out has the seed's host —
/// links to a different host than the seed's are never followed.
pub fn lemma_host_scoped(c: &Crawler)
    ensures
        forall|i: int|
            0 <= i < c.fetched().len() ==> host_of((#[trigger] c.fetched()[i]).0)
                == c.seed_host(),
{
    proof {
        use_type_invariant(c);
    }
}

} // verus!

