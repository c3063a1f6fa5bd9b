//! Finding the images and the same-site links of a page.

use vstd::prelude::*;
use vstd::string::*;
use crate::formats::{has_image_extension, is_image_extension};
use crate::seqs::{
    filter_map, lemma_filter_map_keeps, lemma_filter_map_push, lemma_filter_map_source,
};
use crate::spider::web::{
    host_of, html_attr_values, join_url, path_of, select_attr, url_host, url_join, url_path,
};
use crate::text::{after_last, find_last, last_index_of, starts_with, to_chars};

verus! {

/// Whether an image source holds the image itself instead of pointing to
/// it: it begins with `data:`. Such a source is never downloaded.
pub open spec fn is_inline_data(src: Seq<char>) -> bool {
    "data:"@.is_prefix_of(src)
}

/// Whether the path of a URL ends in an image extension: it holds a `.`, and
/// what follows the last one is `jpg`, `jpeg`, `png`, `gif` or `bmp` in any
/// mix of upper and lower case.
pub open spec fn path_is_image(path: Seq<char>) -> bool {
    last_index_of(path, '.') is Some && is_image_extension(after_last(path, '.'))
}

/// What [`external_sources`] keeps of one candidate.
pub open spec fn external_source(candidate: Option<Seq<char>>) -> Option<Seq<char>> {
    match candidate {
        Some(src) => if is_inline_data(src) {
            None
        } else {
            Some(src)
        },
        None => None,
    }
}

/// [`external_source`] as a function value.
pub open spec fn keep_external() -> spec_fn(Option<Seq<char>>) -> Option<Seq<char>> {
    |c: Option<Seq<char>>| external_source(c)
}

/// The identity on candidates, as a function value.
pub open spec fn keep_present() -> spec_fn(Option<Seq<char>>) -> Option<Seq<char>> {
    |c: Option<Seq<char>>| c
}

/// Resolution against `base`, as a function value.
pub open spec fn resolve_against(base: Seq<char>) -> spec_fn(Seq<char>) -> Option<Seq<char>> {
    |r: Seq<char>| url_join(base, r)
}

/// What [`keep_images`] keeps of one URL and its path.
pub open spec fn image_at(link: (Seq<char>, Option<Seq<char>>)) -> Option<Seq<char>> {
    match link.1 {
        Some(path) => if path_is_image(path) {
            Some(link.0)
        } else {
            None
        },
        None => None,
    }
}

/// [`image_at`] as a function value.
pub open spec fn keep_image() -> spec_fn((Seq<char>, Option<Seq<char>>)) -> Option<Seq<char>> {
    |l: (Seq<char>, Option<Seq<char>>)| image_at(l)
}

/// What [`keep_same_host`] keeps of one URL and its host.
pub open spec fn on_host(host: Option<Seq<char>>, link: (Seq<char>, Option<Seq<char>>)) -> Option<
    Seq<char>,
> {
    if link.1 == host {
        Some(link.0)
    } else {
        None
    }
}

/// [`on_host`] for a fixed host, as a function value.
pub open spec fn keep_on_host(host: Option<Seq<char>>) -> spec_fn(
    (Seq<char>, Option<Seq<char>>),
) -> Option<Seq<char>> {
    |l: (Seq<char>, Option<Seq<char>>)| on_host(host, l)
}

/// The candidates that carry a value which is no inline data.
pub open spec fn external_of(candidates: Seq<Option<Seq<char>>>) -> Seq<Seq<char>> {
    filter_map(candidates, keep_external())
}

/// The candidates that carry a value.
pub open spec fn present_of(candidates: Seq<Option<Seq<char>>>) -> Seq<Seq<char>> {
    filter_map(candidates, keep_present())
}

/// The references that resolve against `base`, resolved.
pub open spec fn resolved_of(base: Seq<char>, references: Seq<Seq<char>>) -> Seq<Seq<char>> {
    filter_map(references, resolve_against(base))
}

/// The URLs whose path ends in an image extension.
pub open spec fn images_among(links: Seq<(Seq<char>, Option<Seq<char>>)>) -> Seq<Seq<char>> {
    filter_map(links, keep_image())
}

/// The URLs whose host is exactly `host`: two absent hosts count as equal.
pub open spec fn same_host_of(
    host: Option<Seq<char>>,
    links: Seq<(Seq<char>, Option<Seq<char>>)>,
) -> Seq<Seq<char>> {
    filter_map(links, keep_on_host(host))
}

/// Each URL with its path.
pub open spec fn with_paths_of(urls: Seq<Seq<char>>) -> Seq<(Seq<char>, Option<Seq<char>>)> {
    Seq::new(urls.len(), |i: int| (urls[i], url_path(urls[i])))
}

/// Each URL with its host.
pub open spec fn with_hosts_of(urls: Seq<Seq<char>>) -> Seq<(Seq<char>, Option<Seq<char>>)> {
    Seq::new(urls.len(), |i: int| (urls[i], url_host(urls[i])))
}

/// The `src` values of the image elements of `body`: `img` elements and
/// elements of class `img-responsive`.
pub open spec fn image_candidates(body: Seq<char>) -> Seq<Option<Seq<char>>> {
    match html_attr_values(body, "img, .img-responsive"@, "src"@) {
        Some(values) => values,
        None => Seq::empty(),
    }
}

/// The `href` values of the anchors of `body`.
pub open spec fn link_candidates(body: Seq<char>) -> Seq<Option<Seq<char>>> {
    match html_attr_values(body, "a"@, "href"@) {
        Some(values) => values,
        None => Seq::empty(),
    }
}

/// The image URLs of the page `body` fetched from `base`, in the order in
/// which the parser met them: the `src` values that are no inline data,
/// resolved against `base`, whose path ends in an image extension.
pub open spec fn page_images(body: Seq<char>, base: Seq<char>) -> Seq<Seq<char>> {
    images_among(with_paths_of(resolved_of(base, external_of(image_candidates(body)))))
}

/// The links of the page `body` fetched from `base` that stay on its host,
/// in the order in which the parser met them.
pub open spec fn page_links(body: Seq<char>, base: Seq<char>) -> Seq<Seq<char>> {
    same_host_of(url_host(base), with_hosts_of(resolved_of(base, present_of(link_candidates(body)))))
}

/// What a page holds for the crawl.
pub struct PageContent {
    /// Absolute URLs of the images to download, duplicates included.
    pub images: Vec<String>,
    /// Absolute URLs of the links to follow, duplicates included.
    pub links: Vec<String>,
}

/// Whether the image source `src` is inline data.
pub fn is_inline_source(src: &str) -> (r: bool)
    ensures
        r == is_inline_data(src@),
{
    let chars = to_chars(src);
    let marker = to_chars("data:");
    starts_with(&chars, &marker)
}

/// Whether the URL path `path` ends in an image extension.
pub fn has_image_path(path: &str) -> (r: bool)
    ensures
        r == path_is_image(path@),
{
    let chars = to_chars(path);
    find_last(&chars, '.').is_some() && has_image_extension(path)
}

/// The sources among `candidates` that point to an image: those that carry a
/// value which is no inline data, in order.
pub fn external_sources(candidates: &Vec<Option<String>>) -> (out: Vec<String>)
    ensures
        out.deep_view() == external_of(candidates.deep_view()),
{
    let mut out: Vec<String> = Vec::new();
    let n: usize = candidates.len();
    let ghost all = candidates.deep_view();
    assert(out.deep_view() =~= external_of(all.take(0)));
    let mut i: usize = 0;
    while i < n
        invariant
            n == candidates.len(),
            all == candidates.deep_view(),
            i <= n,
            out.deep_view() == external_of(all.take(i as int)),
        decreases n - i,
    {
        let ghost before = out.deep_view();
        proof {
            assert(all.take(i + 1) =~= all.take(i as int).push(all[i as int]));
            lemma_filter_map_push(all.take(i as int), all[i as int], keep_external());
        }
        match &candidates[i] {
            Some(src) => {
                if !is_inline_source(src.as_str()) {
                    out.push(src.clone());
                    assert(out.deep_view() =~= before.push(src@));
                }
            },
            None => {},
        }
        i += 1;
    }
    assert(all.take(n as int) =~= all);
    out
}

/// The values among `candidates`, in order.
pub fn present_values(candidates: &Vec<Option<String>>) -> (out: Vec<String>)
    ensures
        out.deep_view() == present_of(candidates.deep_view()),
{
    let mut out: Vec<String> = Vec::new();
    let n: usize = candidates.len();
    let ghost all = candidates.deep_view();
    assert(out.deep_view() =~= present_of(all.take(0)));
    let mut i: usize = 0;
    while i < n
        invariant
            n == candidates.len(),
            all == candidates.deep_view(),
            i <= n,
            out.deep_view() == present_of(all.take(i as int)),
        decreases n - i,
    {
        let ghost before = out.deep_view();
        proof {
            assert(all.take(i + 1) =~= all.take(i as int).push(all[i as int]));
            lemma_filter_map_push(all.take(i as int), all[i as int], keep_present());
        }
        match &candidates[i] {
            Some(value) => {
                out.push(value.clone());
                assert(out.deep_view() =~= before.push(value@));
            },
            None => {},
        }
        i += 1;
    }
    assert(all.take(n as int) =~= all);
    out
}

/// Resolves each of `references` against `base` and keeps, in order, those
/// that resolve.
pub fn resolve_all(base: &str, references: &Vec<String>) -> (out: Vec<String>)
    ensures
        out.deep_view() == resolved_of(base@, references.deep_view()),
{
    let mut out: Vec<String> = Vec::new();
    let n: usize = references.len();
    let ghost all = references.deep_view();
    assert(out.deep_view() =~= resolved_of(base@, all.take(0)));
    let mut i: usize = 0;
    while i < n
        invariant
            n == references.len(),
            all == references.deep_view(),
            i <= n,
            out.deep_view() == resolved_of(base@, all.take(i as int)),
        decreases n - i,
    {
        let ghost before = out.deep_view();
        proof {
            assert(all.take(i + 1) =~= all.take(i as int).push(all[i as int]));
            lemma_filter_map_push(all.take(i as int), all[i as int], resolve_against(base@));
        }
        match join_url(base, references[i].as_str()) {
            Some(url) => {
                out.push(url);
                assert(out.deep_view() =~= before.push(url_join(base@, all[i as int])->0));
            },
            None => {},
        }
        i += 1;
    }
    assert(all.take(n as int) =~= all);
    out
}

/// Pairs each of `urls` with its host.
pub fn with_hosts(urls: &Vec<String>) -> (out: Vec<(String, Option<String>)>)
    ensures
        out.deep_view() == with_hosts_of(urls.deep_view()),
{
    let mut out: Vec<(String, Option<String>)> = Vec::new();
    let n: usize = urls.len();
    let mut i: usize = 0;
    while i < n
        invariant
            n == urls.len(),
            i <= n,
            out.len() == i,
            forall|j: int|
                0 <= j < i ==> #[trigger] out@[j].deep_view() == (
                    urls@[j]@,
                    url_host(urls@[j]@),
                ),
        decreases n - i,
    {
        let host = host_of(urls[i].as_str());
        out.push((urls[i].clone(), host));
        i += 1;
    }
    assert(out.deep_view() =~= with_hosts_of(urls.deep_view()));
    out
}

/// Pairs each of `urls` with its path.
pub fn with_paths(urls: &Vec<String>) -> (out: Vec<(String, Option<String>)>)
    ensures
        out.deep_view() == with_paths_of(urls.deep_view()),
{
    let mut out: Vec<(String, Option<String>)> = Vec::new();
    let n: usize = urls.len();
    let mut i: usize = 0;
    while i < n
        invariant
            n == urls.len(),
            i <= n,
            out.len() == i,
            forall|j: int|
                0 <= j < i ==> #[trigger] out@[j].deep_view() == (
                    urls@[j]@,
                    url_path(urls@[j]@),
                ),
        decreases n - i,
    {
        let path = path_of(urls[i].as_str());
        out.push((urls[i].clone(), path));
        i += 1;
    }
    assert(out.deep_view() =~= with_paths_of(urls.deep_view()));
    out
}

/// The URLs among `links` whose path ends in an image extension, in order.
/// A URL without a path is left out.
pub fn keep_images(links: &Vec<(String, Option<String>)>) -> (out: Vec<String>)
    ensures
        out.deep_view() == images_among(links.deep_view()),
{
    let mut out: Vec<String> = Vec::new();
    let n: usize = links.len();
    let ghost all = links.deep_view();
    assert(out.deep_view() =~= images_among(all.take(0)));
    let mut i: usize = 0;
    while i < n
        invariant
            n == links.len(),
            all == links.deep_view(),
            i <= n,
            out.deep_view() == images_among(all.take(i as int)),
        decreases n - i,
    {
        let ghost before = out.deep_view();
        proof {
            assert(all.take(i + 1) =~= all.take(i as int).push(all[i as int]));
            lemma_filter_map_push(all.take(i as int), all[i as int], keep_image());
            assert(all[i as int] == links@[i as int].deep_view());
        }
        let keep: bool = match &links[i].1 {
            Some(path) => has_image_path(path.as_str()),
            None => false,
        };
        if keep {
            out.push(links[i].0.clone());
            assert(out.deep_view() =~= before.push(all[i as int].0));
        }
        i += 1;
    }
    assert(all.take(n as int) =~= all);
    out
}

/// Whether two optional texts are the same: both absent, or both present
/// and equal character by character.
pub fn same_text(a: &Option<String>, b: &Option<String>) -> (r: bool)
    ensures
        r == (a.deep_view() == b.deep_view()),
{
    match a {
        Some(x) => match b {
            Some(y) => *x == *y,
            None => false,
        },
        None => b.is_none(),
    }
}

/// The URLs among `links` whose host is exactly `host`, in order.
pub fn keep_same_host(host: &Option<String>, links: &Vec<(String, Option<String>)>) -> (out: Vec<
    String,
>)
    ensures
        out.deep_view() == same_host_of(host.deep_view(), links.deep_view()),
{
    let mut out: Vec<String> = Vec::new();
    let n: usize = links.len();
    let ghost all = links.deep_view();
    let ghost h = host.deep_view();
    assert(out.deep_view() =~= same_host_of(h, all.take(0)));
    let mut i: usize = 0;
    while i < n
        invariant
            n == links.len(),
            all == links.deep_view(),
            h == host.deep_view(),
            i <= n,
            out.deep_view() == same_host_of(h, all.take(i as int)),
        decreases n - i,
    {
        let ghost before = out.deep_view();
        proof {
            assert(all.take(i + 1) =~= all.take(i as int).push(all[i as int]));
            lemma_filter_map_push(all.take(i as int), all[i as int], keep_on_host(h));
            assert(all[i as int] == links@[i as int].deep_view());
        }
        if same_text(&links[i].1, host) {
            out.push(links[i].0.clone());
            assert(out.deep_view() =~= before.push(all[i as int].0));
        }
        i += 1;
    }
    assert(all.take(n as int) =~= all);
    out
}

/// Reads the page `body` that was fetched from `base_url`: the images to
/// download and the links to follow.
///
/// Images are the `src` values of the image elements that are no inline
/// data, resolved against `base_url`, whose path ends in an image extension.
/// Links are the `href` values of the anchors, resolved against `base_url`,
/// that stay on its host. A value that does not resolve is left out. Both
/// lists are in the order in which the parser met the elements and may repeat
/// a URL.
pub fn extract(body: &str, base_url: &str) -> (content: PageContent)
    ensures
        content.images.deep_view() == page_images(body@, base_url@),
        content.links.deep_view() == page_links(body@, base_url@),
{
    let sources: Vec<Option<String>> = match select_attr(body, "img, .img-responsive", "src") {
        Some(values) => values,
        None => Vec::new(),
    };
    assert(sources.deep_view() =~= image_candidates(body@));
    let pictures = resolve_all(base_url, &external_sources(&sources));
    let images = keep_images(&with_paths(&pictures));
    let targets: Vec<Option<String>> = match select_attr(body, "a", "href") {
        Some(values) => values,
        None => Vec::new(),
    };
    assert(targets.deep_view() =~= link_candidates(body@));
    let resolved = resolve_all(base_url, &present_values(&targets));
    let links = keep_same_host(&host_of(base_url), &with_hosts(&resolved));
    PageContent { images, links }
}

/// Inline data is never an image to download, whatever follows the marker.
pub proof fn lemma_inline_data_rejected(src: Seq<char>)
    requires
        is_inline_data(src),
    ensures
        external_source(Some(src)) is None,
{
}

/// Every image of a page is a `src` value of that page that is no inline
/// data, resolved against the page's URL, and its path ends in an image
/// extension.
pub proof fn lemma_images_come_from_sources(body: Seq<char>, base: Seq<char>, k: int)
    requires
        0 <= k < page_images(body, base).len(),
    ensures
        url_path(page_images(body, base)[k]) is Some,
        path_is_image(url_path(page_images(body, base)[k])->0),
        exists|src: Seq<char>|
            {
                &&& image_candidates(body).contains(Some(src))
                &&& !is_inline_data(src)
                &&& #[trigger] url_join(base, src) == Some(page_images(body, base)[k])
            },
{
    let candidates = image_candidates(body);
    let external = external_of(candidates);
    let resolved = resolved_of(base, external);
    let paired = with_paths_of(resolved);
    let image = page_images(body, base)[k];
    lemma_filter_map_source(paired, keep_image(), k);
    let m = choose|m: int| 0 <= m < paired.len() && keep_image()(#[trigger] paired[m]) == Some(image);
    assert(paired[m] == (resolved[m], url_path(resolved[m])));
    lemma_filter_map_source(external, resolve_against(base), m);
    let j = choose|j: int|
        0 <= j < external.len() && resolve_against(base)(#[trigger] external[j]) == Some(
            resolved[m],
        );
    lemma_filter_map_source(candidates, keep_external(), j);
    let i = choose|i: int|
        0 <= i < candidates.len() && keep_external()(#[trigger] candidates[i]) == Some(
            external[j],
        );
    let src = external[j];
    assert(candidates[i] == Some(src));
    assert(url_join(base, src) == Some(image));
}

/// A `src` value that is no inline data and resolves to a URL whose path
/// ends in an image extension is among the images of its page.
pub proof fn lemma_image_sources_are_kept(body: Seq<char>, base: Seq<char>, src: Seq<char>)
    requires
        image_candidates(body).contains(Some(src)),
        !is_inline_data(src),
        url_join(base, src) is Some,
        url_path(url_join(base, src)->0) is Some,
        path_is_image(url_path(url_join(base, src)->0)->0),
    ensures
        page_images(body, base).contains(url_join(base, src)->0),
{
    let candidates = image_candidates(body);
    let external = external_of(candidates);
    let resolved = resolved_of(base, external);
    let paired = with_paths_of(resolved);
    let target = url_join(base, src)->0;
    let i = choose|i: int| 0 <= i < candidates.len() && candidates[i] == Some(src);
    lemma_filter_map_keeps(candidates, keep_external(), i);
    let j = choose|j: int| 0 <= j < external.len() && external[j] == src;
    lemma_filter_map_keeps(external, resolve_against(base), j);
    let m = choose|m: int| 0 <= m < resolved.len() && resolved[m] == target;
    assert(paired[m] == (target, url_path(target)));
    lemma_filter_map_keeps(paired, keep_image(), m);
}

/// Every link of a page has exactly the host of the page's own URL: a link
/// to another host is never handed on.
pub proof fn lemma_links_stay_on_host(body: Seq<char>, base: Seq<char>, k: int)
    requires
        0 <= k < page_links(body, base).len(),
    ensures
        url_host(page_links(body, base)[k]) == url_host(base),
{
    let resolved = resolved_of(base, present_of(link_candidates(body)));
    let paired = with_hosts_of(resolved);
    lemma_filter_map_source(paired, keep_on_host(url_host(base)), k);
}

/// Every link of a page is an `href` value of that page, resolved against the
/// page's URL.
pub proof fn lemma_links_come_from_anchors(body: Seq<char>, base: Seq<char>, k: int)
    requires
        0 <= k < page_links(body, base).len(),
    ensures
        exists|href: Seq<char>|
            {
                &&& link_candidates(body).contains(Some(href))
                &&& #[trigger] url_join(base, href) == Some(page_links(body, base)[k])
            },
{
    let candidates = link_candidates(body);
    let present = present_of(candidates);
    let resolved = resolved_of(base, present);
    let paired = with_hosts_of(resolved);
    lemma_filter_map_source(paired, keep_on_host(url_host(base)), k);
    let m = choose|m: int|
        0 <= m < paired.len() && keep_on_host(url_host(base))(#[trigger] paired[m]) == Some(
            page_links(body, base)[k],
        );
    lemma_filter_map_source(present, resolve_against(base), m);
    let j = choose|j: int|
        0 <= j < present.len() && resolve_against(base)(#[trigger] present[j]) == Some(
            resolved[m],
        );
    lemma_filter_map_source(candidates, keep_present(), j);
    let i = choose|i: int|
        0 <= i < candidates.len() && keep_present()(#[trigger] candidates[i]) == Some(present[j]);
    assert(candidates[i] == Some(present[j]));
    assert(url_join(base, present[j]) == Some(page_links(body, base)[k]));
}

/// An `href` value that resolves to a URL on the page's own host is among
/// the links of its page.
pub proof fn lemma_same_host_links_are_kept(body: Seq<char>, base: Seq<char>, href: Seq<char>)
    requires
        link_candidates(body).contains(Some(href)),
        url_join(base, href) is Some,
        url_host(url_join(base, href)->0) == url_host(base),
    ensures
        page_links(body, base).contains(url_join(base, href)->0),
{
    let candidates = link_candidates(body);
    let present = present_of(candidates);
    let resolved = resolved_of(base, present);
    let paired = with_hosts_of(resolved);
    let target = url_join(base, href)->0;
    let i = choose|i: int| 0 <= i < candidates.len() && candidates[i] == Some(href);
    lemma_filter_map_keeps(candidates, keep_present(), i);
    let j = choose|j: int| 0 <= j < present.len() && present[j] == href;
    lemma_filter_map_keeps(present, resolve_against(base), j);
    let m = choose|m: int| 0 <= m < resolved.len() && resolved[m] == target;
    assert(paired[m] == (target, url_host(target)));
    lemma_filter_map_keeps(paired, keep_on_host(url_host(base)), m);
}

} // verus!
