//! The crawl itself, as a machine that is asked for the next thing to do and
//! told how it went.
//!
//! The caller owns the network and the disk. It asks [`Crawler::next_action`]
//! what to do, does it, and reports a fetched page with
//! [`Crawler::page_fetched`] and a finished download with
//! [`Crawler::record_download`]. No failure that it reports stops the crawl.

use std::collections::VecDeque;
use vstd::prelude::*;
use vstd::string::*;
use crate::spider::download::{plan_downloads, plan_views, plans_of, DownloadPlan, PlanView};
use crate::spider::extract::{extract, page_images, page_links, PageContent};
use crate::spider::registry::{distinct, VisitedRegistry};
use crate::spider::settings::{depth_admitted, links_followed, CrawlSettings};
use crate::spider::web::{parse_url, url_parse};

verus! {

/// One page to process: its URL and how many links it lies from the seed.
pub struct CrawlTask {
    /// The page's absolute URL.
    pub url: String,
    /// Link-hops from the seed, which is at 0.
    pub depth: u32,
}

/// A [`CrawlTask`] as plain values.
pub ghost struct TaskView {
    pub url: Seq<char>,
    pub depth: u32,
}

impl View for CrawlTask {
    type V = TaskView;

    open spec fn view(&self) -> TaskView {
        TaskView { url: self.url@, depth: self.depth }
    }
}

/// Why a page could not be had. None of these stops the crawl.
#[derive(Clone, Copy, Debug, PartialEq, Eq)]
pub enum FetchError {
    /// The request did not get through, or timed out.
    Transport,
    /// The server answered with this status, which is no success.
    Status(u16),
    /// The body could not be read as text.
    Decode,
}

/// Why an image could not be saved. None of these stops the crawl.
#[derive(Clone, Copy, Debug, PartialEq, Eq)]
pub enum DownloadError {
    /// The request did not get through, or timed out.
    Transport,
    /// The server answered with this status, which is no success.
    Status(u16),
    /// The output directory could not be created.
    CreateDir,
    /// The file could not be written.
    Write,
}

/// The one thing that stops a crawl before it starts.
#[derive(Clone, Copy, Debug, PartialEq, Eq)]
pub enum CrawlError {
    /// The seed is no absolute URL.
    InvalidSeed,
}

/// What became of one page.
pub enum PageResult {
    /// The page was fetched and read.
    Content(PageContent),
    /// The page could not be had.
    Failed(FetchError),
}

/// A [`PageResult`] as plain values.
pub ghost enum PageView {
    Content { images: Seq<Seq<char>>, links: Seq<Seq<char>> },
    Failed(FetchError),
}

impl View for PageResult {
    type V = PageView;

    open spec fn view(&self) -> PageView {
        match self {
            PageResult::Content(c) => PageView::Content {
                images: c.images.deep_view(),
                links: c.links.deep_view(),
            },
            PageResult::Failed(e) => PageView::Failed(*e),
        }
    }
}

/// What became of one image.
pub enum DownloadResult {
    /// The image was written: how many bytes, and where.
    Saved { bytes: u64, path: String },
    /// The image could not be saved.
    Failed(DownloadError),
}

/// What the caller is to do next.
pub enum Action {
    /// Fetch this page and report it with [`Crawler::page_fetched`].
    Fetch(CrawlTask),
    /// Fetch this image, write it, and report with
    /// [`Crawler::record_download`].
    Download(DownloadPlan),
    /// Nothing is left to do.
    Finished,
}

/// An [`Action`] as plain values.
pub ghost enum ActionView {
    Fetch(TaskView),
    Download(PlanView),
    Finished,
}

impl View for Action {
    type V = ActionView;

    open spec fn view(&self) -> ActionView {
        match self {
            Action::Fetch(t) => ActionView::Fetch(t@),
            Action::Download(p) => ActionView::Download(p@),
            Action::Finished => ActionView::Finished,
        }
    }
}

/// Counts of what a crawl has done. Each count stops at `u64::MAX`.
#[derive(Clone, Copy, Debug, PartialEq, Eq)]
pub struct CrawlReport {
    /// Pages fetched and read.
    pub pages_fetched: u64,
    /// Pages that could not be had.
    pub pages_failed: u64,
    /// Images written.
    pub images_saved: u64,
    /// Images that could not be saved.
    pub images_failed: u64,
}

/// `n + 1`, held at `u64::MAX`.
pub open spec fn bumped(n: u64) -> u64 {
    if n < u64::MAX {
        (n + 1) as u64
    } else {
        n
    }
}

/// The whole state of a crawl as plain values.
pub ghost struct CrawlState {
    pub recursive: bool,
    pub max_depth: u32,
    pub output_dir: Seq<char>,
    /// The URLs handed out for fetching so far, oldest first.
    pub fetched: Seq<Seq<char>>,
    /// The pages waiting, next first.
    pub pending: Seq<TaskView>,
    /// The images waiting, next first.
    pub downloads: Seq<PlanView>,
    pub report: CrawlReport,
}

/// The state of a crawl of `seed` before anything was done.
pub open spec fn initial_state(
    recursive: bool,
    max_depth: u32,
    output_dir: Seq<char>,
    seed: Seq<char>,
) -> CrawlState {
    CrawlState {
        recursive,
        max_depth,
        output_dir,
        fetched: Seq::empty(),
        pending: seq![TaskView { url: seed, depth: 0 }],
        downloads: Seq::empty(),
        report: CrawlReport { pages_fetched: 0, pages_failed: 0, images_saved: 0, images_failed: 0 },
    }
}

/// Whether a waiting task is taken up: its depth is admitted and its URL
/// was not handed out before.
pub open spec fn eligible(s: CrawlState, t: TaskView) -> bool {
    depth_admitted(s.recursive, s.max_depth, t.depth) && !s.fetched.contains(t.url)
}

/// How many tasks at the front of `pending` are passed over before one is
/// taken up; the length of `pending` where none is.
pub open spec fn passed_over(s: CrawlState, pending: Seq<TaskView>) -> int
    decreases pending.len(),
{
    if pending.len() == 0 {
        0
    } else if eligible(s, pending.first()) {
        0
    } else {
        1 + passed_over(s, pending.drop_first())
    }
}

/// The state after the task `t` was tested in state `s`: its URL is recorded
/// where it is taken up, and nothing changes where it is not.
pub open spec fn state_after_claim(s: CrawlState, t: TaskView) -> CrawlState {
    if eligible(s, t) {
        CrawlState { fetched: s.fetched.push(t.url), ..s }
    } else {
        s
    }
}

/// What [`Crawler::next_action`] hands out in state `s`: the next image
/// where one waits; else the first waiting page that is taken up; else
/// nothing.
pub open spec fn action_in(s: CrawlState) -> ActionView {
    if s.downloads.len() > 0 {
        ActionView::Download(s.downloads.first())
    } else if passed_over(s, s.pending) < s.pending.len() {
        ActionView::Fetch(s.pending[passed_over(s, s.pending)])
    } else {
        ActionView::Finished
    }
}

/// The state after [`Crawler::next_action`] in state `s`.
pub open spec fn state_after_action(s: CrawlState) -> CrawlState {
    if s.downloads.len() > 0 {
        CrawlState { downloads: s.downloads.drop_first(), ..s }
    } else {
        let k = passed_over(s, s.pending);
        if k < s.pending.len() {
            CrawlState {
                fetched: s.fetched.push(s.pending[k].url),
                pending: s.pending.skip(k + 1),
                ..s
            }
        } else {
            CrawlState { pending: Seq::empty(), ..s }
        }
    }
}

/// One task per link, each at `depth`.
pub open spec fn tasks_at(links: Seq<Seq<char>>, depth: u32) -> Seq<TaskView> {
    Seq::new(links.len(), |i: int| TaskView { url: links[i], depth })
}

/// The state after the links of a page at `depth` were handed in: they wait
/// at `depth + 1` where links are followed from `depth`, and are dropped
/// where they are not.
pub open spec fn state_after_links(s: CrawlState, links: Seq<Seq<char>>, depth: u32) -> CrawlState {
    if links_followed(s.recursive, s.max_depth, depth) {
        CrawlState { pending: s.pending + tasks_at(links, (depth + 1) as u32), ..s }
    } else {
        s
    }
}

/// The state after the page of a task at `depth` was reported.
pub open spec fn state_after_page(s: CrawlState, depth: u32, page: PageView) -> CrawlState {
    match page {
        PageView::Content { images, links } => {
            let counted = CrawlState {
                downloads: s.downloads + plans_of(images, s.output_dir),
                report: CrawlReport { pages_fetched: bumped(s.report.pages_fetched), ..s.report },
                ..s
            };
            state_after_links(counted, links, depth)
        },
        PageView::Failed(_) => CrawlState {
            report: CrawlReport { pages_failed: bumped(s.report.pages_failed), ..s.report },
            ..s
        },
    }
}

/// The state after a download was reported as saved or not.
pub open spec fn state_after_download(s: CrawlState, saved: bool) -> CrawlState {
    if saved {
        CrawlState {
            report: CrawlReport { images_saved: bumped(s.report.images_saved), ..s.report },
            ..s
        }
    } else {
        CrawlState {
            report: CrawlReport { images_failed: bumped(s.report.images_failed), ..s.report },
            ..s
        }
    }
}

/// What the page at `url` comes to, given what fetching it gave.
pub open spec fn page_of(fetched: Result<Seq<char>, FetchError>, url: Seq<char>) -> PageView {
    match fetched {
        Ok(body) => PageView::Content { images: page_images(body, url), links: page_links(body, url) },
        Err(e) => PageView::Failed(e),
    }
}

/// The views of `tasks`, in order.
pub open spec fn task_views(tasks: Seq<CrawlTask>) -> Seq<TaskView> {
    Seq::new(tasks.len(), |i: int| tasks[i]@)
}

/// Adds one to a count, holding it at `u64::MAX`.
pub fn bump(n: u64) -> (r: u64)
    ensures
        r == bumped(n),
{
    if n < u64::MAX {
        n + 1
    } else {
        n
    }
}

/// Turns what fetching the page at `url` gave into what the page holds for
/// the crawl: its images and same-host links, or the failure as it came.
pub fn read_page(fetched: Result<String, FetchError>, url: &str) -> (page: PageResult)
    ensures
        page@ == page_of(
            match fetched {
                Ok(body) => Ok(body@),
                Err(e) => Err(e),
            },
            url@,
        ),
{
    match fetched {
        Ok(body) => PageResult::Content(extract(body.as_str(), url)),
        Err(e) => PageResult::Failed(e),
    }
}

/// One crawl: its settings, the URLs it has taken up, and what still waits.
pub struct Crawler {
    settings: CrawlSettings,
    registry: VisitedRegistry,
    pending: VecDeque<CrawlTask>,
    downloads: VecDeque<DownloadPlan>,
    report: CrawlReport,
}

impl View for Crawler {
    type V = CrawlState;

    closed spec fn view(&self) -> CrawlState {
        CrawlState {
            recursive: self.settings.recursive,
            max_depth: self.settings.max_depth,
            output_dir: self.settings.output_dir@,
            fetched: self.registry.order(),
            pending: task_views(self.pending@),
            downloads: plan_views(self.downloads@),
            report: self.report,
        }
    }
}

impl Crawler {
    /// A crawl of `seed` with `settings`: the seed waits at depth 0 and
    /// nothing else has happened. Fails exactly where `seed` is no absolute
    /// URL. The seed is kept as written.
    pub fn new(settings: CrawlSettings, seed: &str) -> (r: Result<Crawler, CrawlError>)
        ensures
            match r {
                Ok(c) => url_parse(seed@) is Some && c@ == initial_state(
                    settings.recursive,
                    settings.max_depth,
                    settings.output_dir@,
                    seed@,
                ),
                Err(e) => url_parse(seed@) is None && e == CrawlError::InvalidSeed,
            },
    {
        if parse_url(seed).is_none() {
            return Err(CrawlError::InvalidSeed);
        }
        let mut pending: VecDeque<CrawlTask> = VecDeque::new();
        pending.push_back(CrawlTask { url: String::from_str(seed), depth: 0 });
        let c = Crawler {
            settings,
            registry: VisitedRegistry::new(),
            pending,
            downloads: VecDeque::new(),
            report: CrawlReport {
                pages_fetched: 0,
                pages_failed: 0,
                images_saved: 0,
                images_failed: 0,
            },
        };
        assert(c@.pending =~= seq![TaskView { url: seed@, depth: 0 }]);
        assert(c@.downloads =~= Seq::<PlanView>::empty());
        Ok(c)
    }

    /// The settings of this crawl.
    pub fn settings(&self) -> (s: &CrawlSettings)
        ensures
            s.recursive == self@.recursive,
            s.max_depth == self@.max_depth,
            s.output_dir@ == self@.output_dir,
    {
        &self.settings
    }

    /// What has been counted so far.
    pub fn report(&self) -> (r: CrawlReport)
        ensures
            r == self@.report,
    {
        self.report
    }

    /// How many URLs have been handed out for fetching.
    pub fn fetched_count(&self) -> (n: usize)
        ensures
            n == self@.fetched.len(),
    {
        self.registry.len()
    }

    /// Decides whether `task` is processed, and records its URL where it
    /// is.
    ///
    /// A task whose depth is not admitted is turned down without a claim.
    /// Else its URL is claimed, and the task is processed exactly where the
    /// claim is the first for that URL.
    fn claim_task(&mut self, task: &CrawlTask) -> (taken: bool)
        ensures
            taken == eligible(old(self)@, task@),
            final(self)@ == state_after_claim(old(self)@, task@),
    {
        self.settings.admits(task.depth) && self.registry.claim(task.url.as_str())
    }

    /// Says what to do next, and takes it off the lists.
    ///
    /// Images come first. Then the waiting pages are gone through from the
    /// front: a page whose depth is not admitted is dropped without
    /// a claim, one whose URL was claimed before is dropped, and the first
    /// that remains is claimed and handed out. With nothing left the crawl
    /// is finished.
    pub fn next_action(&mut self) -> (action: Action)
        ensures
            action@ == action_in(old(self)@),
            final(self)@ == state_after_action(old(self)@),
    {
        let ghost s0 = self@;
        match self.downloads.pop_front() {
            Some(plan) => {
                assert(self@.downloads =~= s0.downloads.drop_first());
                assert(plan@ == s0.downloads.first());
                return Action::Download(plan);
            },
            None => {},
        }
        assert(self@.downloads =~= s0.downloads);
        assert(s0.pending.skip(0) =~= s0.pending);
        let ghost mut k: int = 0;
        loop
            invariant
                s0 == old(self)@,
                0 <= k <= s0.pending.len(),
                s0.downloads.len() == 0,
                self@ == (CrawlState { pending: s0.pending.skip(k), ..s0 }),
                passed_over(s0, s0.pending) == k + passed_over(s0, s0.pending.skip(k)),
            decreases s0.pending.len() - k,
        {
            match self.pending.pop_front() {
                Some(task) => {
                    let ghost rest = s0.pending.skip(k);
                    assert(task@ == rest.first());
                    assert(rest.drop_first() =~= s0.pending.skip(k + 1));
                    assert(task_views(self.pending@) =~= s0.pending.skip(k + 1));
                    assert(rest.first() == s0.pending[k]);
                    if self.claim_task(&task) {
                        assert(eligible(s0, task@));
                        assert(passed_over(s0, rest) == 0);
                        return Action::Fetch(task);
                    }
                    assert(!eligible(s0, task@));
                    proof {
                        k = k + 1;
                    }
                },
                None => {
                    assert(s0.pending.skip(k).len() == 0);
                    assert(self@.pending =~= Seq::<TaskView>::empty());
                    return Action::Finished;
                },
            }
        }
    }

    /// Takes in the links of a page that was processed at `current_depth`:
    /// where links are followed from that depth, one task per link joins the
    /// end of the waiting pages at `current_depth + 1`, in order; where they
    /// are not, the links are dropped.
    pub fn process_links(&mut self, links: Vec<String>, current_depth: u32)
        ensures
            final(self)@ == state_after_links(old(self)@, links.deep_view(), current_depth),
    {
        let ghost s0 = self@;
        if !self.settings.follows_links(current_depth) {
            return ;
        }
        let depth: u32 = current_depth + 1;
        let ghost all = links.deep_view();
        let n: usize = links.len();
        let mut i: usize = 0;
        assert(s0.pending + tasks_at(all.take(0), depth) =~= s0.pending);
        while i < n
            invariant
                n == links.len(),
                all == links.deep_view(),
                i <= n,
                self@ == (CrawlState {
                    pending: s0.pending + tasks_at(all.take(i as int), depth),
                    ..s0
                }),
            decreases n - i,
        {
            let ghost before = self@.pending;
            self.pending.push_back(CrawlTask { url: links[i].clone(), depth });
            assert(self@.pending =~= before.push(TaskView { url: all[i as int], depth }));
            assert(tasks_at(all.take(i + 1), depth) =~= tasks_at(all.take(i as int), depth).push(
                TaskView { url: all[i as int], depth },
            ));
            assert(self@.pending =~= s0.pending + tasks_at(all.take(i + 1), depth));
            i += 1;
        }
        assert(all.take(n as int) =~= all);
    }

    /// Takes in what became of the page of a task at `depth`.
    ///
    /// A page that could not be had is counted and changes nothing else. Of
    /// a page that was read, every image joins the waiting downloads, and
    /// its links are handed to [`Crawler::process_links`].
    pub fn record_page(&mut self, depth: u32, page: PageResult)
        ensures
            final(self)@ == state_after_page(old(self)@, depth, page@),
    {
        let ghost s0 = self@;
        match page {
            PageResult::Content(content) => {
                let plans = plan_downloads(&content.images, self.settings.output_dir.as_str());
                let ghost wanted = plans_of(content.images.deep_view(), s0.output_dir);
                let n: usize = plans.len();
                let mut plans = plans;
                let mut i: usize = 0;
                assert(s0.downloads + wanted.take(0) =~= s0.downloads);
                while i < n
                    invariant
                        n == plans.len(),
                        plan_views(plans@) == wanted,
                        i <= n,
                        self@ == (CrawlState { downloads: s0.downloads + wanted.take(i as int), ..s0 }),
                    decreases n - i,
                {
                    let ghost before = self@.downloads;
                    let ghost view_i = plans@[i as int]@;
                    assert(view_i == wanted[i as int]);
                    let plan = DownloadPlan {
                        url: plans[i].url.clone(),
                        directory: plans[i].directory.clone(),
                        file_name: plans[i].file_name.clone(),
                        path: plans[i].path.clone(),
                    };
                    self.downloads.push_back(plan);
                    assert(self@.downloads =~= before.push(view_i));
                    assert(wanted.take(i + 1) =~= wanted.take(i as int).push(view_i));
                    assert(self@.downloads =~= s0.downloads + wanted.take(i + 1));
                    i += 1;
                }
                assert(wanted.take(n as int) =~= wanted);
                self.report.pages_fetched = bump(self.report.pages_fetched);
                self.process_links(content.links, depth);
            },
            PageResult::Failed(_) => {
                self.report.pages_failed = bump(self.report.pages_failed);
            },
        }
    }

    /// Takes in what fetching the page of `task` gave: reads the page with
    /// [`read_page`] and records it with [`Crawler::record_page`].
    pub fn page_fetched(&mut self, task: &CrawlTask, fetched: Result<String, FetchError>)
        ensures
            final(self)@ == state_after_page(
                old(self)@,
                task.depth,
                page_of(
                    match fetched {
                        Ok(body) => Ok(body@),
                        Err(e) => Err(e),
                    },
                    task.url@,
                ),
            ),
    {
        let page = read_page(fetched, task.url.as_str());
        self.record_page(task.depth, page);
    }

    /// Takes in what became of one image. A failure is counted and changes
    /// nothing else: the images and pages that wait are untouched.
    pub fn record_download(&mut self, result: &DownloadResult)
        ensures
            final(self)@ == state_after_download(old(self)@, result is Saved),
    {
        match result {
            DownloadResult::Saved { .. } => {
                self.report.images_saved = bump(self.report.images_saved);
            },
            DownloadResult::Failed(_) => {
                self.report.images_failed = bump(self.report.images_failed);
            },
        }
    }
}

/// One call that a caller can make on a crawl.
pub ghost enum Call {
    /// [`Crawler::next_action`].
    Next,
    /// [`Crawler::record_page`] for a task at this depth, with this page.
    Page(u32, PageView),
    /// [`Crawler::process_links`] with these links, found at this depth.
    Links(Seq<Seq<char>>, u32),
    /// [`Crawler::record_download`], saved or not.
    Download(bool),
}

/// The state after one call.
pub open spec fn state_after(s: CrawlState, call: Call) -> CrawlState {
    match call {
        Call::Next => state_after_action(s),
        Call::Page(depth, page) => state_after_page(s, depth, page),
        Call::Links(links, depth) => state_after_links(s, links, depth),
        Call::Download(saved) => state_after_download(s, saved),
    }
}

/// The page that one call hands out for fetching, if it hands one out.
pub open spec fn handed_out(s: CrawlState, call: Call) -> Option<TaskView> {
    match call {
        Call::Next => match action_in(s) {
            ActionView::Fetch(t) => Some(t),
            _ => None,
        },
        _ => None,
    }
}

/// The state after a run of calls, made in order from state `s`.
pub open spec fn state_after_run(s: CrawlState, calls: Seq<Call>) -> CrawlState
    decreases calls.len(),
{
    if calls.len() == 0 {
        s
    } else {
        state_after(state_after_run(s, calls.drop_last()), calls.last())
    }
}

/// The pages handed out for fetching over a run of calls from state `s`, in
/// the order in which they were handed out.
pub open spec fn fetches_of_run(s: CrawlState, calls: Seq<Call>) -> Seq<TaskView>
    decreases calls.len(),
{
    if calls.len() == 0 {
        Seq::empty()
    } else {
        let before = fetches_of_run(s, calls.drop_last());
        match handed_out(state_after_run(s, calls.drop_last()), calls.last()) {
            Some(t) => before.push(t),
            None => before,
        }
    }
}

/// The URLs of `tasks`, in order.
pub open spec fn urls_of(tasks: Seq<TaskView>) -> Seq<Seq<char>> {
    Seq::new(tasks.len(), |i: int| tasks[i].url)
}

/// Where a page is passed over, it is not taken up; where the count stops
/// inside the list, the page there is.
pub proof fn lemma_passed_over(s: CrawlState, pending: Seq<TaskView>)
    ensures
        0 <= passed_over(s, pending) <= pending.len(),
        forall|j: int| 0 <= j < passed_over(s, pending) ==> !eligible(s, #[trigger] pending[j]),
        passed_over(s, pending) < pending.len() ==> eligible(
            s,
            pending[passed_over(s, pending)],
        ),
    decreases pending.len(),
{
    if pending.len() > 0 && !eligible(s, pending.first()) {
        let rest = pending.drop_first();
        lemma_passed_over(s, rest);
        assert forall|j: int| 0 <= j < passed_over(s, pending) implies !eligible(
            s,
            #[trigger] pending[j],
        ) by {
            if j > 0 {
                assert(pending[j] == rest[j - 1]);
            }
        }
        if passed_over(s, pending) < pending.len() {
            assert(pending[passed_over(s, pending)] == rest[passed_over(s, rest)]);
        }
    }
}

/// A page that is handed out is at an admitted depth and was never handed out
/// before; its URL is recorded, and nothing else is.
pub proof fn lemma_handed_out_is_new(s: CrawlState, call: Call)
    ensures
        match handed_out(s, call) {
            Some(t) => {
                &&& depth_admitted(s.recursive, s.max_depth, t.depth)
                &&& !s.fetched.contains(t.url)
                &&& s.pending.contains(t)
                &&& state_after(s, call).fetched == s.fetched.push(t.url)
            },
            None => state_after(s, call).fetched == s.fetched,
        },
{
    lemma_passed_over(s, s.pending);
}

/// No call changes the settings of a crawl.
pub proof fn lemma_settings_never_change(s: CrawlState, calls: Seq<Call>)
    ensures
        state_after_run(s, calls).recursive == s.recursive,
        state_after_run(s, calls).max_depth == s.max_depth,
        state_after_run(s, calls).output_dir == s.output_dir,
    decreases calls.len(),
{
    if calls.len() > 0 {
        lemma_settings_never_change(s, calls.drop_last());
    }
}

/// What a run of calls adds to the fetched URLs is exactly the URLs of the
/// pages that it handed out, in order.
pub proof fn lemma_fetched_grows_by_fetches(s: CrawlState, calls: Seq<Call>)
    ensures
        state_after_run(s, calls).fetched == s.fetched + urls_of(fetches_of_run(s, calls)),
    decreases calls.len(),
{
    if calls.len() == 0 {
        assert(s.fetched + urls_of(fetches_of_run(s, calls)) =~= s.fetched);
    } else {
        let before = state_after_run(s, calls.drop_last());
        let earlier = fetches_of_run(s, calls.drop_last());
        lemma_fetched_grows_by_fetches(s, calls.drop_last());
        lemma_handed_out_is_new(before, calls.last());
        match handed_out(before, calls.last()) {
            Some(t) => {
                assert(urls_of(earlier.push(t)) =~= urls_of(earlier).push(t.url));
                assert((s.fetched + urls_of(earlier)).push(t.url) =~= s.fetched + urls_of(
                    earlier,
                ).push(t.url));
            },
            None => {},
        }
    }
}

/// A text that is new to a list without repeats can join it.
proof fn lemma_distinct_push(order: Seq<Seq<char>>, url: Seq<char>)
    requires
        distinct(order),
        !order.contains(url),
    ensures
        distinct(order.push(url)),
{
    let longer = order.push(url);
    assert forall|i: int, j: int| 0 <= i < j < longer.len() implies longer[i] != longer[j] by {
        if j == order.len() {
            assert(order[i] == longer[i]);
            assert(order.contains(order[i]));
        } else {
            assert(order[i] == longer[i]);
            assert(order[j] == longer[j]);
        }
    }
}

/// Where a list made of two parts has no repeats, its second part has none
/// and shares nothing with the first.
proof fn lemma_distinct_parts(first: Seq<Seq<char>>, second: Seq<Seq<char>>)
    requires
        distinct(first + second),
    ensures
        distinct(second),
        forall|i: int| 0 <= i < second.len() ==> !first.contains(#[trigger] second[i]),
{
    let all = first + second;
    assert forall|i: int, j: int| 0 <= i < j < second.len() implies second[i] != second[j] by {
        assert(all[first.len() + i] == second[i]);
        assert(all[first.len() + j] == second[j]);
    }
    assert forall|i: int| 0 <= i < second.len() implies !first.contains(
        #[trigger] second[i],
    ) by {
        if first.contains(second[i]) {
            let m = choose|m: int| 0 <= m < first.len() && first[m] == second[i];
            assert(all[m] == first[m]);
            assert(all[first.len() + i] == second[i]);
        }
    }
}

/// No call lets a URL into the fetched list twice.
proof fn lemma_calls_keep_fetched_distinct(s: CrawlState, calls: Seq<Call>)
    requires
        distinct(s.fetched),
    ensures
        distinct(state_after_run(s, calls).fetched),
    decreases calls.len(),
{
    if calls.len() > 0 {
        let before = state_after_run(s, calls.drop_last());
        lemma_calls_keep_fetched_distinct(s, calls.drop_last());
        lemma_handed_out_is_new(before, calls.last());
        match handed_out(before, calls.last()) {
            Some(t) => {
                lemma_distinct_push(before.fetched, t.url);
            },
            None => {},
        }
    }
}

/// No URL is handed out for fetching twice: whatever calls are made, in
/// whatever order, the URLs fetched stay pairwise different, and none of
/// them was fetched before the run.
pub proof fn lemma_no_url_fetched_twice(s: CrawlState, calls: Seq<Call>)
    requires
        distinct(s.fetched),
    ensures
        distinct(state_after_run(s, calls).fetched),
        distinct(urls_of(fetches_of_run(s, calls))),
        forall|i: int|
            0 <= i < fetches_of_run(s, calls).len() ==> !s.fetched.contains(
                #[trigger] fetches_of_run(s, calls)[i].url,
            ),
{
    lemma_calls_keep_fetched_distinct(s, calls);
    lemma_fetched_grows_by_fetches(s, calls);
    let out = urls_of(fetches_of_run(s, calls));
    lemma_distinct_parts(s.fetched, out);
    assert forall|i: int| 0 <= i < fetches_of_run(s, calls).len() implies !s.fetched.contains(
        #[trigger] fetches_of_run(s, calls)[i].url,
    ) by {
        assert(out[i] == fetches_of_run(s, calls)[i].url);
    }
}

/// Every page handed out for fetching is at an admitted depth: without
/// recursion it is at depth 0, with recursion at most at the depth limit.
pub proof fn lemma_fetches_are_admitted(s: CrawlState, calls: Seq<Call>, i: int)
    requires
        0 <= i < fetches_of_run(s, calls).len(),
    ensures
        depth_admitted(s.recursive, s.max_depth, fetches_of_run(s, calls)[i].depth),
    decreases calls.len(),
{
    let before = state_after_run(s, calls.drop_last());
    let earlier = fetches_of_run(s, calls.drop_last());
    if i < earlier.len() {
        lemma_fetches_are_admitted(s, calls.drop_last(), i);
    } else {
        lemma_settings_never_change(s, calls.drop_last());
        lemma_handed_out_is_new(before, calls.last());
    }
}

/// Without recursion no call adds a waiting page.
proof fn lemma_flat_pending_shrinks(s: CrawlState, call: Call)
    requires
        !s.recursive,
    ensures
        state_after(s, call).pending.len() <= s.pending.len(),
        forall|t: TaskView|
            state_after(s, call).pending.contains(t) ==> s.pending.contains(t),
        handed_out(s, call) is Some ==> state_after(s, call).pending.len() < s.pending.len(),
{
    lemma_passed_over(s, s.pending);
    let after = state_after(s, call).pending;
    assert forall|t: TaskView| after.contains(t) implies s.pending.contains(t) by {
        let m = choose|m: int| 0 <= m < after.len() && after[m] == t;
        match call {
            Call::Next => {
                if s.downloads.len() == 0 {
                    let k = passed_over(s, s.pending);
                    assert(s.pending[k + 1 + m] == t);
                } else {
                    assert(s.pending[m] == t);
                }
            },
            _ => {
                assert(s.pending[m] == t);
            },
        }
    }
}

/// Without recursion only the seed is ever fetched, and at most once,
/// however many links its page holds.
pub proof fn lemma_flat_crawl_fetches_only_seed(
    max_depth: u32,
    output_dir: Seq<char>,
    seed: Seq<char>,
    calls: Seq<Call>,
)
    ensures
        ({
            let s = initial_state(false, max_depth, output_dir, seed);
            let fetches = fetches_of_run(s, calls);
            &&& fetches.len() <= 1
            &&& fetches.len() + state_after_run(s, calls).pending.len() <= 1
            &&& forall|i: int|
                0 <= i < fetches.len() ==> #[trigger] fetches[i] == (TaskView {
                    url: seed,
                    depth: 0,
                })
            &&& forall|t: TaskView|
                state_after_run(s, calls).pending.contains(t) ==> t == (TaskView {
                    url: seed,
                    depth: 0,
                })
        }),
    decreases calls.len(),
{
    let s = initial_state(false, max_depth, output_dir, seed);
    let seed_task = TaskView { url: seed, depth: 0 };
    if calls.len() == 0 {
        assert forall|t: TaskView| s.pending.contains(t) implies t == seed_task by {
            let m = choose|m: int| 0 <= m < s.pending.len() && s.pending[m] == t;
        }
    } else {
        let before = state_after_run(s, calls.drop_last());
        lemma_flat_crawl_fetches_only_seed(max_depth, output_dir, seed, calls.drop_last());
        lemma_settings_never_change(s, calls.drop_last());
        lemma_flat_pending_shrinks(before, calls.last());
        lemma_handed_out_is_new(before, calls.last());
    }
}

/// A page or an image that fails is counted and changes nothing else: what
/// waits, and what was fetched, stay as they were.
pub proof fn lemma_failures_only_count(s: CrawlState, depth: u32, e: FetchError)
    ensures
        state_after_page(s, depth, PageView::Failed(e)) == (CrawlState {
            report: CrawlReport { pages_failed: bumped(s.report.pages_failed), ..s.report },
            ..s
        }),
        state_after_download(s, false) == (CrawlState {
            report: CrawlReport { images_failed: bumped(s.report.images_failed), ..s.report },
            ..s
        }),
{
}

/// The links of a page at the depth limit, and of any page without
/// recursion, are not followed; below the limit each link waits one level
/// down.
pub proof fn lemma_links_wait_one_level_down(s: CrawlState, links: Seq<Seq<char>>, depth: u32)
    ensures
        !s.recursive || depth >= s.max_depth ==> state_after_links(s, links, depth) == s,
        s.recursive && depth < s.max_depth ==> state_after_links(s, links, depth).pending
            == s.pending + tasks_at(links, (depth + 1) as u32),
{
}

} // verus!
