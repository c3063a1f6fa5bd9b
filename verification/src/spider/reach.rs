//! How deep a page lies.
//!
//! Where every report that the crawl is given is true of the site, the depth
//! of a page that it hands out is the length of a chain of links from the
//! seed. So a page that no chain reaches within the depth limit is never
//! fetched, and an image that only such pages show is never downloaded.

use vstd::prelude::*;
use crate::spider::crawl::{
    action_in, fetches_of_run, initial_state, lemma_fetches_are_admitted, lemma_passed_over,
    lemma_settings_never_change, passed_over, state_after_run, ActionView, Call, CrawlState,
    PageView, TaskView,
};
use crate::spider::download::{plans_of, PlanView};
use crate::spider::settings::{depth_admitted, links_followed};

verus! {

/// A site: for each page, the links that lead on from it and the images that
/// it shows.
pub ghost struct Site {
    pub links: spec_fn(Seq<char>) -> Set<Seq<char>>,
    pub images: spec_fn(Seq<char>) -> Set<Seq<char>>,
}

/// Whether the page `from` holds a link to `to`.
pub open spec fn links_to(site: Site, from: Seq<char>, to: Seq<char>) -> bool {
    (site.links)(from).contains(to)
}

/// Whether the page `page` shows the image `image`.
pub open spec fn shows(site: Site, page: Seq<char>, image: Seq<char>) -> bool {
    (site.images)(page).contains(image)
}

/// Whether a chain of exactly `hops` links leads from `seed` to `url`.
pub open spec fn linked_in(site: Site, seed: Seq<char>, url: Seq<char>, hops: nat) -> bool
    decreases hops,
{
    if hops == 0 {
        url == seed
    } else {
        exists|via: Seq<char>|
            linked_in(site, seed, via, (hops - 1) as nat) && #[trigger] links_to(site, via, url)
    }
}

/// Whether each of `tasks` lies as deep as a chain of links from `seed` is
/// long.
pub open spec fn chained(site: Site, seed: Seq<char>, tasks: Seq<TaskView>) -> bool {
    forall|i: int|
        0 <= i < tasks.len() ==> linked_in(
            site,
            seed,
            (#[trigger] tasks[i]).url,
            tasks[i].depth as nat,
        )
}

/// Whether one of `pages` shows `image`.
pub open spec fn shown(site: Site, pages: Seq<TaskView>, image: Seq<char>) -> bool {
    exists|k: int| 0 <= k < pages.len() && shows(site, (#[trigger] pages[k]).url, image)
}

/// Whether each of `plans` is for an image that one of `pages` shows.
pub open spec fn all_shown(site: Site, pages: Seq<TaskView>, plans: Seq<PlanView>) -> bool {
    forall|j: int| 0 <= j < plans.len() ==> shown(site, pages, (#[trigger] plans[j]).url)
}

/// Whether every one of `links` is a link of the page `from`.
pub open spec fn links_are_true(site: Site, from: Seq<char>, links: Seq<Seq<char>>) -> bool {
    forall|j: int| 0 <= j < links.len() ==> links_to(site, from, #[trigger] links[j])
}

/// Whether every one of `images` is an image of the page `page`.
pub open spec fn images_are_true(site: Site, page: Seq<char>, images: Seq<Seq<char>>) -> bool {
    forall|j: int| 0 <= j < images.len() ==> shows(site, page, #[trigger] images[j])
}

/// Whether what `call` reports is true of the page of `task`: the depth is
/// the task's, and the links and images are the page's.
pub open spec fn report_is_true(site: Site, task: TaskView, call: Call) -> bool {
    match call {
        Call::Page(depth, PageView::Content { images, links }) => {
            &&& depth == task.depth
            &&& links_are_true(site, task.url, links)
            &&& images_are_true(site, task.url, images)
        },
        Call::Links(links, depth) => depth == task.depth && links_are_true(site, task.url, links),
        _ => true,
    }
}

/// Whether `call` reports links or images.
pub open spec fn is_report(call: Call) -> bool {
    match call {
        Call::Page(_, PageView::Content { .. }) => true,
        Call::Links(_, _) => true,
        _ => false,
    }
}

/// Whether `call` is honest after the pages `fetched` were handed out: where
/// it reports links or images, it reports them of one of those pages, and
/// truly.
pub open spec fn honest_call(site: Site, fetched: Seq<TaskView>, call: Call) -> bool {
    is_report(call) ==> exists|k: int|
        0 <= k < fetched.len() && report_is_true(site, #[trigger] fetched[k], call)
}

/// Whether every call of a run from state `s` is honest.
pub open spec fn honest_run(site: Site, s: CrawlState, calls: Seq<Call>) -> bool
    decreases calls.len(),
{
    calls.len() == 0 || (honest_run(site, s, calls.drop_last()) && honest_call(
        site,
        fetches_of_run(s, calls.drop_last()),
        calls.last(),
    ))
}

/// The image that one call hands out for download, if it hands one out.
pub open spec fn download_handed_out(s: CrawlState, call: Call) -> Option<PlanView> {
    match call {
        Call::Next => match action_in(s) {
            ActionView::Download(p) => Some(p),
            _ => None,
        },
        _ => None,
    }
}

/// The images handed out for download over a run of calls from state `s`, in
/// the order in which they were handed out.
pub open spec fn downloads_of_run(s: CrawlState, calls: Seq<Call>) -> Seq<PlanView>
    decreases calls.len(),
{
    if calls.len() == 0 {
        Seq::empty()
    } else {
        let before = downloads_of_run(s, calls.drop_last());
        match download_handed_out(state_after_run(s, calls.drop_last()), calls.last()) {
            Some(p) => before.push(p),
            None => before,
        }
    }
}

/// One more page among the fetched takes nothing from what they show.
proof fn lemma_shown_grows(site: Site, pages: Seq<TaskView>, t: TaskView, plans: Seq<PlanView>)
    requires
        all_shown(site, pages, plans),
    ensures
        all_shown(site, pages.push(t), plans),
{
    let more = pages.push(t);
    assert forall|j: int| 0 <= j < plans.len() implies shown(
        site,
        more,
        (#[trigger] plans[j]).url,
    ) by {
        assert(shown(site, pages, plans[j].url));
        let k = choose|k: int|
            0 <= k < pages.len() && shows(site, (#[trigger] pages[k]).url, plans[j].url);
        assert(more[k] == pages[k]);
    }
}

/// What holds after every honest run from the start: each page that waits
/// and each page that was handed out lies as deep as a chain of links from
/// the seed is long, and each image that waits or was handed out is shown by
/// a page that was handed out.
proof fn lemma_honest_run(
    site: Site,
    recursive: bool,
    max_depth: u32,
    output_dir: Seq<char>,
    seed: Seq<char>,
    calls: Seq<Call>,
)
    requires
        honest_run(site, initial_state(recursive, max_depth, output_dir, seed), calls),
    ensures
        ({
            let s = initial_state(recursive, max_depth, output_dir, seed);
            let fetched = fetches_of_run(s, calls);
            &&& chained(site, seed, fetched)
            &&& chained(site, seed, state_after_run(s, calls).pending)
            &&& all_shown(site, fetched, state_after_run(s, calls).downloads)
            &&& all_shown(site, fetched, downloads_of_run(s, calls))
        }),
    decreases calls.len(),
{
    let s = initial_state(recursive, max_depth, output_dir, seed);
    if calls.len() == 0 {
        assert(linked_in(site, seed, seed, 0));
        return ;
    }
    let prefix = calls.drop_last();
    let call = calls.last();
    let before = state_after_run(s, prefix);
    let after = state_after_run(s, calls);
    let earlier = fetches_of_run(s, prefix);
    let fetched = fetches_of_run(s, calls);
    let got = downloads_of_run(s, prefix);
    lemma_honest_run(site, recursive, max_depth, output_dir, seed, prefix);
    lemma_settings_never_change(s, prefix);
    match call {
        Call::Next => {
            lemma_passed_over(before, before.pending);
            if before.downloads.len() > 0 {
                assert forall|j: int| 0 <= j < after.downloads.len() implies shown(
                    site,
                    fetched,
                    (#[trigger] after.downloads[j]).url,
                ) by {
                    assert(after.downloads[j] == before.downloads[j + 1]);
                }
                let plan = before.downloads.first();
                assert(shown(site, earlier, before.downloads[0].url));
                assert forall|j: int| 0 <= j < got.push(plan).len() implies shown(
                    site,
                    fetched,
                    (#[trigger] got.push(plan)[j]).url,
                ) by {
                    if j < got.len() {
                        assert(got.push(plan)[j] == got[j]);
                    }
                }
            } else {
                let k = passed_over(before, before.pending);
                if k < before.pending.len() {
                    let t = before.pending[k];
                    assert(fetched == earlier.push(t));
                    assert forall|i: int| 0 <= i < fetched.len() implies linked_in(
                        site,
                        seed,
                        (#[trigger] fetched[i]).url,
                        fetched[i].depth as nat,
                    ) by {
                        if i < earlier.len() {
                            assert(fetched[i] == earlier[i]);
                        }
                    }
                    assert forall|j: int| 0 <= j < after.pending.len() implies linked_in(
                        site,
                        seed,
                        (#[trigger] after.pending[j]).url,
                        after.pending[j].depth as nat,
                    ) by {
                        assert(after.pending[j] == before.pending[k + 1 + j]);
                    }
                    lemma_shown_grows(site, earlier, t, before.downloads);
                    lemma_shown_grows(site, earlier, t, got);
                }
            }
        },
        Call::Page(depth, page) => {
            match page {
                PageView::Content { images, links } => {
                    let w = choose|w: int|
                        0 <= w < earlier.len() && report_is_true(site, #[trigger] earlier[w], call);
                    let t = earlier[w];
                    let plans = plans_of(images, before.output_dir);
                    assert forall|j: int| 0 <= j < after.downloads.len() implies shown(
                        site,
                        fetched,
                        (#[trigger] after.downloads[j]).url,
                    ) by {
                        if j < before.downloads.len() {
                            assert(after.downloads[j] == before.downloads[j]);
                        } else {
                            let m = j - before.downloads.len();
                            assert(after.downloads[j] == plans[m]);
                            assert(plans[m].url == images[m]);
                            assert(shows(site, earlier[w].url, images[m]));
                        }
                    }
                    lemma_links_join_chained(site, seed, before, t, links, depth);
                },
                PageView::Failed(_) => {},
            }
        },
        Call::Links(links, depth) => {
            let w = choose|w: int|
                0 <= w < earlier.len() && report_is_true(site, #[trigger] earlier[w], call);
            lemma_links_join_chained(site, seed, before, earlier[w], links, depth);
        },
        Call::Download(_) => {},
    }
}

/// Links that are truly those of a page in a chain keep the waiting pages in
/// chains when they join them.
proof fn lemma_links_join_chained(
    site: Site,
    seed: Seq<char>,
    s: CrawlState,
    from: TaskView,
    links: Seq<Seq<char>>,
    depth: u32,
)
    requires
        chained(site, seed, s.pending),
        linked_in(site, seed, from.url, from.depth as nat),
        from.depth == depth,
        links_are_true(site, from.url, links),
    ensures
        chained(site, seed, crate::spider::crawl::state_after_links(s, links, depth).pending),
{
    let after = crate::spider::crawl::state_after_links(s, links, depth).pending;
    if links_followed(s.recursive, s.max_depth, depth) {
        assert forall|i: int| 0 <= i < after.len() implies linked_in(
            site,
            seed,
            (#[trigger] after[i]).url,
            after[i].depth as nat,
        ) by {
            if i < s.pending.len() {
                assert(after[i] == s.pending[i]);
            } else {
                let m = i - s.pending.len();
                assert(after[i] == TaskView { url: links[m], depth: (depth + 1) as u32 });
                assert(links_to(site, from.url, links[m]));
                assert(linked_in(site, seed, links[m], (depth + 1) as nat));
            }
        }
    }
}

/// The depth of a fetched page is the length of a chain of links from the
/// seed: in every honest run from the start, each page handed out at depth
/// `d` is reached from the seed by `d` links.
pub proof fn lemma_depth_is_a_chain_of_links(
    site: Site,
    recursive: bool,
    max_depth: u32,
    output_dir: Seq<char>,
    seed: Seq<char>,
    calls: Seq<Call>,
    i: int,
)
    requires
        honest_run(site, initial_state(recursive, max_depth, output_dir, seed), calls),
        0 <= i < fetches_of_run(initial_state(recursive, max_depth, output_dir, seed), calls).len(),
    ensures
        ({
            let t = fetches_of_run(initial_state(recursive, max_depth, output_dir, seed), calls)[i];
            &&& linked_in(site, seed, t.url, t.depth as nat)
            &&& depth_admitted(recursive, max_depth, t.depth)
        }),
{
    let s = initial_state(recursive, max_depth, output_dir, seed);
    lemma_honest_run(site, recursive, max_depth, output_dir, seed, calls);
    lemma_fetches_are_admitted(s, calls, i);
}

/// A page that no chain of at most `max_depth` links reaches from the seed
/// is never fetched, in any honest run from the start.
pub proof fn lemma_pages_past_the_limit_are_never_fetched(
    site: Site,
    recursive: bool,
    max_depth: u32,
    output_dir: Seq<char>,
    seed: Seq<char>,
    calls: Seq<Call>,
    page: Seq<char>,
)
    requires
        honest_run(site, initial_state(recursive, max_depth, output_dir, seed), calls),
        forall|hops: nat| hops <= max_depth ==> !linked_in(site, seed, page, hops),
    ensures
        forall|i: int|
            0 <= i < fetches_of_run(
                initial_state(recursive, max_depth, output_dir, seed),
                calls,
            ).len() ==> (#[trigger] fetches_of_run(
                initial_state(recursive, max_depth, output_dir, seed),
                calls,
            )[i]).url != page,
{
    let s = initial_state(recursive, max_depth, output_dir, seed);
    let fetched = fetches_of_run(s, calls);
    assert forall|i: int| 0 <= i < fetched.len() implies (#[trigger] fetched[i]).url != page by {
        lemma_depth_is_a_chain_of_links(site, recursive, max_depth, output_dir, seed, calls, i);
        let d = fetched[i].depth as nat;
        assert(d <= max_depth);
        if fetched[i].url == page {
            assert(linked_in(site, seed, page, d));
        }
    }
}

/// An image is downloaded only where a fetched page shows it: one that only
/// pages past the depth limit show is never handed out for download, in any
/// honest run from the start.
pub proof fn lemma_images_past_the_limit_are_never_downloaded(
    site: Site,
    recursive: bool,
    max_depth: u32,
    output_dir: Seq<char>,
    seed: Seq<char>,
    calls: Seq<Call>,
    image: Seq<char>,
)
    requires
        honest_run(site, initial_state(recursive, max_depth, output_dir, seed), calls),
        forall|page: Seq<char>, hops: nat|
            hops <= max_depth && #[trigger] shows(site, page, image) ==> !#[trigger] linked_in(
                site,
                seed,
                page,
                hops,
            ),
    ensures
        forall|j: int|
            0 <= j < downloads_of_run(
                initial_state(recursive, max_depth, output_dir, seed),
                calls,
            ).len() ==> (#[trigger] downloads_of_run(
                initial_state(recursive, max_depth, output_dir, seed),
                calls,
            )[j]).url != image,
{
    let s = initial_state(recursive, max_depth, output_dir, seed);
    let fetched = fetches_of_run(s, calls);
    let handed = downloads_of_run(s, calls);
    lemma_honest_run(site, recursive, max_depth, output_dir, seed, calls);
    assert forall|j: int| 0 <= j < handed.len() implies (#[trigger] handed[j]).url != image by {
        if handed[j].url == image {
            assert(shown(site, fetched, handed[j].url));
            let k = choose|k: int|
                0 <= k < fetched.len() && shows(site, (#[trigger] fetched[k]).url, image);
            lemma_depth_is_a_chain_of_links(site, recursive, max_depth, output_dir, seed, calls, k);
            let d = fetched[k].depth as nat;
            assert(d <= max_depth);
            assert(shows(site, fetched[k].url, image));
            assert(linked_in(site, seed, fetched[k].url, d));
        }
    }
}

} // verus!
