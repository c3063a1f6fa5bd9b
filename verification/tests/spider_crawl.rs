use arachnida::spider::crawl::{
    bump, read_page, Action, CrawlError, CrawlReport, CrawlTask, Crawler, DownloadError,
    DownloadResult, FetchError, PageResult,
};
use arachnida::spider::extract::PageContent;
use arachnida::spider::registry::VisitedRegistry;
use arachnida::spider::settings::{CrawlSettings, DEFAULT_MAX_DEPTH};

struct Site {
    pages: Vec<(String, String)>,
    broken_images: Vec<String>,
}

struct Outcome {
    fetched: Vec<(String, u32)>,
    downloaded: Vec<String>,
    written: Vec<String>,
    report: CrawlReport,
}

fn site(pages: &[(&str, &str)], broken_images: &[&str]) -> Site {
    Site {
        pages: pages.iter().map(|(u, b)| (u.to_string(), b.to_string())).collect(),
        broken_images: broken_images.iter().map(|u| u.to_string()).collect(),
    }
}

fn settings(recursive: bool, max_depth: u32) -> CrawlSettings {
    CrawlSettings::new(recursive, Some(max_depth), Some("out".to_string()))
}

fn run(site: &Site, settings: CrawlSettings, seed: &str) -> Outcome {
    let mut crawler = Crawler::new(settings, seed).unwrap();
    let mut outcome = Outcome {
        fetched: Vec::new(),
        downloaded: Vec::new(),
        written: Vec::new(),
        report: crawler.report(),
    };
    let mut steps = 0;
    loop {
        steps += 1;
        assert!(steps < 10_000, "the crawl does not end");
        match crawler.next_action() {
            Action::Fetch(task) => {
                outcome.fetched.push((task.url.clone(), task.depth));
                let body = site.pages.iter().find(|(u, _)| *u == task.url).map(|(_, b)| b.clone());
                let fetched = match body {
                    Some(b) => Ok(b),
                    None => Err(FetchError::Status(404)),
                };
                crawler.page_fetched(&task, fetched);
            }
            Action::Download(plan) => {
                outcome.downloaded.push(plan.url.clone());
                if site.broken_images.contains(&plan.url) {
                    crawler.record_download(&DownloadResult::Failed(DownloadError::Status(404)));
                } else {
                    outcome.written.push(plan.path.clone());
                    crawler.record_download(&DownloadResult::Saved {
                        bytes: 3,
                        path: plan.path.clone(),
                    });
                }
            }
            Action::Finished => break,
        }
    }
    outcome.report = crawler.report();
    assert_eq!(crawler.fetched_count(), outcome.fetched.len());
    outcome
}

fn urls(fetched: &[(String, u32)]) -> Vec<&str> {
    fetched.iter().map(|(u, _)| u.as_str()).collect()
}

#[test]
fn settings_default_to_depth_five_and_data() {
    let s = CrawlSettings::new(false, None, None);
    assert!(!s.recursive);
    assert_eq!(s.max_depth, 5);
    assert_eq!(DEFAULT_MAX_DEPTH, 5);
    assert_eq!(s.output_dir, "./data");
    let t = CrawlSettings::new(true, Some(2), Some("pics".to_string()));
    assert!(t.recursive);
    assert_eq!(t.max_depth, 2);
    assert_eq!(t.output_dir, "pics");
    let d = t.duplicate();
    assert!(d.recursive);
    assert_eq!(d.max_depth, 2);
    assert_eq!(d.output_dir, "pics");
}

#[test]
fn depth_test_without_recursion_admits_only_the_seed() {
    let s = settings(false, 5);
    assert!(s.admits(0));
    assert!(!s.admits(1));
    assert!(!s.admits(5));
    assert!(!s.admits(u32::MAX));
    assert!(!s.follows_links(0));
    assert!(!s.follows_links(4));
}

#[test]
fn depth_test_with_recursion_admits_up_to_the_limit() {
    let s = settings(true, 2);
    assert!(s.admits(0));
    assert!(s.admits(1));
    assert!(s.admits(2));
    assert!(!s.admits(3));
    assert!(s.follows_links(0));
    assert!(s.follows_links(1));
    assert!(!s.follows_links(2));
    assert!(!s.follows_links(3));
    let zero = settings(true, 0);
    assert!(zero.admits(0));
    assert!(!zero.admits(1));
    assert!(!zero.follows_links(0));
    let all = settings(true, u32::MAX);
    assert!(all.admits(u32::MAX));
    assert!(!all.follows_links(u32::MAX));
    assert!(all.follows_links(u32::MAX - 1));
}

#[test]
fn claim_is_true_once() {
    let mut registry = VisitedRegistry::new();
    assert_eq!(registry.len(), 0);
    assert!(registry.claim("https://site.example/a"));
    assert!(!registry.claim("https://site.example/a"));
    assert!(registry.claim("https://site.example/b"));
    assert!(!registry.claim("https://site.example/a"));
    assert!(!registry.claim("https://site.example/b"));
    assert_eq!(registry.len(), 2);
}

#[test]
fn claim_does_not_normalise() {
    let mut registry = VisitedRegistry::new();
    assert!(registry.claim("https://site.example/a"));
    assert!(registry.claim("https://site.example/a/"));
    assert!(registry.claim("HTTPS://site.example/a"));
    assert!(registry.claim("https://site.example/a?x=1&y=2"));
    assert!(registry.claim("https://site.example/a?y=2&x=1"));
    assert!(registry.claim(""));
    assert!(!registry.claim(""));
    assert_eq!(registry.len(), 6);
}

#[test]
fn registries_do_not_share_state() {
    let mut first = VisitedRegistry::new();
    let mut second = VisitedRegistry::new();
    assert!(first.claim("https://site.example/"));
    assert!(second.claim("https://site.example/"));
}

#[test]
fn bump_stops_at_the_top() {
    assert_eq!(bump(0), 1);
    assert_eq!(bump(41), 42);
    assert_eq!(bump(u64::MAX - 1), u64::MAX);
    assert_eq!(bump(u64::MAX), u64::MAX);
}

#[test]
fn unreadable_seed_is_fatal() {
    assert!(matches!(Crawler::new(settings(true, 5), "not a url"), Err(CrawlError::InvalidSeed)));
    assert!(matches!(Crawler::new(settings(true, 5), ""), Err(CrawlError::InvalidSeed)));
    assert!(matches!(Crawler::new(settings(true, 5), "/relative/path"), Err(CrawlError::InvalidSeed)));
    assert!(Crawler::new(settings(true, 5), "https://site.example/").is_ok());
}

#[test]
fn new_crawl_hands_out_the_seed_first() {
    let mut crawler = Crawler::new(settings(true, 3), "https://site.example/start").unwrap();
    assert!(crawler.settings().recursive);
    assert_eq!(crawler.settings().max_depth, 3);
    assert_eq!(crawler.settings().output_dir, "out");
    assert_eq!(crawler.fetched_count(), 0);
    match crawler.next_action() {
        Action::Fetch(task) => {
            assert_eq!(task.url, "https://site.example/start");
            assert_eq!(task.depth, 0);
        }
        _ => panic!("the seed was not handed out"),
    }
    assert_eq!(crawler.fetched_count(), 1);
    assert!(matches!(crawler.next_action(), Action::Finished));
    assert!(matches!(crawler.next_action(), Action::Finished));
}

#[test]
fn shared_target_is_fetched_once() {
    let s = site(
        &[
            ("https://site.example/", r#"<a href="/a">a</a><a href="/b">b</a>"#),
            ("https://site.example/a", r#"<a href="/t">t</a>"#),
            ("https://site.example/b", r#"<a href="/t">t</a>"#),
            ("https://site.example/t", r#"<img src="t.png">"#),
        ],
        &[],
    );
    let outcome = run(&s, settings(true, 5), "https://site.example/");
    let fetched = urls(&outcome.fetched);
    assert_eq!(fetched.iter().filter(|u| **u == "https://site.example/t").count(), 1);
    assert_eq!(
        fetched,
        vec![
            "https://site.example/",
            "https://site.example/a",
            "https://site.example/b",
            "https://site.example/t",
        ]
    );
    assert_eq!(outcome.downloaded, vec!["https://site.example/t.png"]);
}

#[test]
fn reciprocal_links_do_not_loop() {
    let s = site(
        &[
            ("https://site.example/", r#"<a href="/other">o</a><a href="/">self</a>"#),
            ("https://site.example/other", r#"<a href="/">back</a><a href="/other">self</a>"#),
        ],
        &[],
    );
    let outcome = run(&s, settings(true, u32::MAX), "https://site.example/");
    assert_eq!(urls(&outcome.fetched), vec!["https://site.example/", "https://site.example/other"]);
}

#[test]
fn without_recursion_only_the_seed_is_fetched() {
    let s = site(
        &[
            (
                "https://site.example/",
                r#"<img src="one.png"><a href="/a">a</a><a href="/b">b</a><a href="/c">c</a>"#,
            ),
            ("https://site.example/a", r#"<img src="a.png">"#),
            ("https://site.example/b", r#"<img src="b.png">"#),
            ("https://site.example/c", r#"<img src="c.png">"#),
        ],
        &[],
    );
    let outcome = run(&s, settings(false, 5), "https://site.example/");
    assert_eq!(outcome.fetched, vec![("https://site.example/".to_string(), 0)]);
    assert_eq!(outcome.downloaded, vec!["https://site.example/one.png"]);
    assert_eq!(outcome.report.pages_fetched, 1);
}

#[test]
fn depth_limit_is_inclusive() {
    let s = site(
        &[
            ("https://site.example/0", r#"<a href="/1">1</a>"#),
            ("https://site.example/1", r#"<a href="/2">2</a>"#),
            ("https://site.example/2", r#"<a href="/3">3</a>"#),
            ("https://site.example/3", r#"<a href="/4">4</a>"#),
            ("https://site.example/4", ""),
        ],
        &[],
    );
    let outcome = run(&s, settings(true, 2), "https://site.example/0");
    assert_eq!(
        outcome.fetched,
        vec![
            ("https://site.example/0".to_string(), 0),
            ("https://site.example/1".to_string(), 1),
            ("https://site.example/2".to_string(), 2),
        ]
    );
    let none = run(&s, settings(true, 0), "https://site.example/0");
    assert_eq!(none.fetched, vec![("https://site.example/0".to_string(), 0)]);
}

#[test]
fn page_one_past_the_limit_is_not_fetched_nor_its_images() {
    let s = site(
        &[
            ("https://site.example/", r#"<a href="/a">a</a><a href="/b">b</a>"#),
            ("https://site.example/a", r#"<a href="/a2">a2</a><img src="a.png">"#),
            ("https://site.example/b", r#"<a href="/b2">b2</a>"#),
            ("https://site.example/a2", r#"<a href="/far">far</a><img src="a2.png">"#),
            ("https://site.example/b2", r#"<a href="/far">far</a>"#),
            ("https://site.example/far", r#"<img src="far.png"><img src="a.png">"#),
        ],
        &[],
    );
    let outcome = run(&s, settings(true, 2), "https://site.example/");
    assert!(!urls(&outcome.fetched).contains(&"https://site.example/far"));
    assert!(!outcome.downloaded.contains(&"https://site.example/far.png".to_string()));
    assert_eq!(
        outcome.fetched,
        vec![
            ("https://site.example/".to_string(), 0),
            ("https://site.example/a".to_string(), 1),
            ("https://site.example/b".to_string(), 1),
            ("https://site.example/a2".to_string(), 2),
            ("https://site.example/b2".to_string(), 2),
        ]
    );
    assert_eq!(
        outcome.downloaded,
        vec!["https://site.example/a.png", "https://site.example/a2.png"]
    );
    let deeper = run(&s, settings(true, 3), "https://site.example/");
    assert_eq!(
        deeper.fetched.last(),
        Some(&("https://site.example/far".to_string(), 3))
    );
    assert!(deeper.downloaded.contains(&"https://site.example/far.png".to_string()));
}

#[test]
fn pages_are_taken_level_by_level() {
    let s = site(
        &[
            ("https://site.example/", r#"<a href="/long1">l</a><a href="/near">n</a>"#),
            ("https://site.example/long1", r#"<a href="/near">n</a><a href="/long2">l</a>"#),
            ("https://site.example/long2", r#"<a href="/deep">d</a>"#),
            ("https://site.example/near", r#"<a href="/deep">d</a>"#),
            ("https://site.example/deep", r#"<img src="deep.gif">"#),
        ],
        &[],
    );
    let outcome = run(&s, settings(true, 2), "https://site.example/");
    assert_eq!(
        outcome.fetched,
        vec![
            ("https://site.example/".to_string(), 0),
            ("https://site.example/long1".to_string(), 1),
            ("https://site.example/near".to_string(), 1),
            ("https://site.example/long2".to_string(), 2),
            ("https://site.example/deep".to_string(), 2),
        ]
    );
    assert_eq!(outcome.downloaded, vec!["https://site.example/deep.gif"]);
}

#[test]
fn other_hosts_are_not_followed() {
    let s = site(
        &[
            (
                "https://site.example/",
                r#"<a href="https://other.example/x">x</a><a href="https://site.example/y">y</a>"#,
            ),
            ("https://other.example/x", r#"<img src="x.png">"#),
            ("https://site.example/y", r#"<img src="y.png">"#),
        ],
        &[],
    );
    let outcome = run(&s, settings(true, 5), "https://site.example/");
    assert_eq!(urls(&outcome.fetched), vec!["https://site.example/", "https://site.example/y"]);
    assert_eq!(outcome.downloaded, vec!["https://site.example/y.png"]);
}

#[test]
fn images_from_other_hosts_are_downloaded() {
    let s = site(
        &[("https://site.example/", r#"<img src="https://cdn.example/pics/logo.png">"#)],
        &[],
    );
    let outcome = run(&s, settings(false, 5), "https://site.example/");
    assert_eq!(outcome.downloaded, vec!["https://cdn.example/pics/logo.png"]);
    assert_eq!(outcome.written, vec!["out/logo.png"]);
}

#[test]
fn one_broken_image_does_not_stop_the_others() {
    let s = site(
        &[(
            "https://site.example/",
            r#"<img src="one.png"><img src="two.png"><img src="three.png">"#,
        )],
        &["https://site.example/two.png"],
    );
    let outcome = run(&s, settings(false, 5), "https://site.example/");
    assert_eq!(
        outcome.downloaded,
        vec![
            "https://site.example/one.png",
            "https://site.example/two.png",
            "https://site.example/three.png",
        ]
    );
    assert_eq!(outcome.written, vec!["out/one.png", "out/three.png"]);
    assert_eq!(
        outcome.report,
        CrawlReport { pages_fetched: 1, pages_failed: 0, images_saved: 2, images_failed: 1 }
    );
}

#[test]
fn one_dead_page_does_not_stop_the_others() {
    let s = site(
        &[
            ("https://site.example/", r#"<a href="/dead">d</a><a href="/live">l</a>"#),
            ("https://site.example/live", r#"<img src="live.bmp">"#),
        ],
        &[],
    );
    let outcome = run(&s, settings(true, 5), "https://site.example/");
    assert_eq!(
        urls(&outcome.fetched),
        vec!["https://site.example/", "https://site.example/dead", "https://site.example/live"]
    );
    assert_eq!(outcome.written, vec!["out/live.bmp"]);
    assert_eq!(
        outcome.report,
        CrawlReport { pages_fetched: 2, pages_failed: 1, images_saved: 1, images_failed: 0 }
    );
}

#[test]
fn dead_seed_still_ends_the_crawl() {
    let s = site(&[], &[]);
    let outcome = run(&s, settings(true, 5), "https://site.example/");
    assert_eq!(outcome.fetched.len(), 1);
    assert_eq!(
        outcome.report,
        CrawlReport { pages_fetched: 0, pages_failed: 1, images_saved: 0, images_failed: 0 }
    );
}

#[test]
fn trailing_slash_image_is_written_as_unknown_jpg() {
    let mut crawler = Crawler::new(settings(false, 5), "https://site.example/").unwrap();
    let task = match crawler.next_action() {
        Action::Fetch(task) => task,
        _ => panic!("the seed was not handed out"),
    };
    let page = PageResult::Content(PageContent {
        images: vec!["https://site.example/images/".to_string()],
        links: Vec::new(),
    });
    crawler.record_page(task.depth, page);
    match crawler.next_action() {
        Action::Download(plan) => {
            assert_eq!(plan.url, "https://site.example/images/");
            assert_eq!(plan.file_name, "unknown.jpg");
            assert_eq!(plan.path, "out/unknown.jpg");
            assert_eq!(plan.directory, "out");
        }
        _ => panic!("the image was not handed out"),
    }
    assert!(matches!(crawler.next_action(), Action::Finished));
}

#[test]
fn images_come_before_the_next_page() {
    let mut crawler = Crawler::new(settings(true, 5), "https://site.example/").unwrap();
    let task = match crawler.next_action() {
        Action::Fetch(task) => task,
        _ => panic!("the seed was not handed out"),
    };
    let body = r#"<a href="/next">n</a><img src="a.png"><img src="b.png">"#.to_string();
    crawler.page_fetched(&task, Ok(body));
    let mut seen = Vec::new();
    for _ in 0..4 {
        match crawler.next_action() {
            Action::Fetch(t) => seen.push(format!("fetch {} {}", t.url, t.depth)),
            Action::Download(p) => seen.push(format!("download {}", p.url)),
            Action::Finished => seen.push("finished".to_string()),
        }
    }
    assert_eq!(
        seen,
        vec![
            "download https://site.example/a.png",
            "download https://site.example/b.png",
            "fetch https://site.example/next 1",
            "finished",
        ]
    );
}

#[test]
fn links_at_the_limit_are_dropped() {
    let mut crawler = Crawler::new(settings(true, 1), "https://site.example/").unwrap();
    let _ = crawler.next_action();
    crawler.process_links(vec!["https://site.example/deep".to_string()], 1);
    assert!(matches!(crawler.next_action(), Action::Finished));
    crawler.process_links(vec!["https://site.example/deep".to_string()], u32::MAX);
    assert!(matches!(crawler.next_action(), Action::Finished));
    crawler.process_links(
        vec!["https://site.example/near".to_string(), "https://site.example/".to_string()],
        0,
    );
    match crawler.next_action() {
        Action::Fetch(t) => {
            assert_eq!(t.url, "https://site.example/near");
            assert_eq!(t.depth, 1);
        }
        _ => panic!("the link was not handed out"),
    }
    assert!(matches!(crawler.next_action(), Action::Finished));
    assert_eq!(crawler.fetched_count(), 2);
}

#[test]
fn a_task_from_outside_cannot_pass_the_limit() {
    let mut crawler = Crawler::new(settings(true, 1), "https://site.example/").unwrap();
    let _ = crawler.next_action();
    let stray = CrawlTask { url: "https://site.example/stray".to_string(), depth: 7 };
    crawler.page_fetched(&stray, Ok(r#"<a href="/x">x</a><img src="x.png">"#.to_string()));
    match crawler.next_action() {
        Action::Download(p) => assert_eq!(p.url, "https://site.example/x.png"),
        _ => panic!("the image was not handed out"),
    }
    assert!(matches!(crawler.next_action(), Action::Finished));
}

#[test]
fn read_page_keeps_the_failure() {
    assert!(matches!(
        read_page(Err(FetchError::Transport), "https://site.example/"),
        PageResult::Failed(FetchError::Transport)
    ));
    assert!(matches!(
        read_page(Err(FetchError::Status(503)), "https://site.example/"),
        PageResult::Failed(FetchError::Status(503))
    ));
    assert!(matches!(
        read_page(Err(FetchError::Decode), "https://site.example/"),
        PageResult::Failed(FetchError::Decode)
    ));
    match read_page(Ok(r#"<img src="p.jpeg"><a href="q">q</a>"#.to_string()), "https://site.example/d/") {
        PageResult::Content(c) => {
            assert_eq!(c.images, vec!["https://site.example/d/p.jpeg"]);
            assert_eq!(c.links, vec!["https://site.example/d/q"]);
        }
        PageResult::Failed(_) => panic!("the page was not read"),
    }
}

#[test]
fn every_download_failure_is_counted_alike() {
    let mut crawler = Crawler::new(settings(false, 5), "https://site.example/").unwrap();
    for e in [
        DownloadError::Transport,
        DownloadError::Status(500),
        DownloadError::CreateDir,
        DownloadError::Write,
    ] {
        crawler.record_download(&DownloadResult::Failed(e));
    }
    crawler.record_download(&DownloadResult::Saved { bytes: 0, path: "out/x.png".to_string() });
    assert_eq!(
        crawler.report(),
        CrawlReport { pages_fetched: 0, pages_failed: 0, images_saved: 1, images_failed: 4 }
    );
    match crawler.next_action() {
        Action::Fetch(t) => assert_eq!(t.url, "https://site.example/"),
        _ => panic!("the seed was not handed out"),
    }
}
