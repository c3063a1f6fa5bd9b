use arachnida::spider::download::{
    destination_path, file_name_from_path, plan_download, plan_downloads, target_directory,
    trimmed_directory,
};
use arachnida::formats::{has_image_extension, has_valid_extension, is_listed};
use arachnida::spider::extract::{
    external_sources, extract, has_image_path, is_inline_source, keep_images, keep_same_host,
    present_values, resolve_all, same_text, with_hosts, with_paths,
};

const EXTENSIONS: [&str; 5] = ["jpg", "jpeg", "png", "gif", "bmp"];

fn owned(items: &[&str]) -> Vec<String> {
    items.iter().map(|s| s.to_string()).collect()
}

#[test]
fn extension_is_what_follows_the_last_dot() {
    assert!(has_valid_extension("a.jpg", &EXTENSIONS));
    assert!(has_valid_extension("archive.tar.png", &EXTENSIONS));
    assert!(has_valid_extension("/deep/path/photo.jpeg", &EXTENSIONS));
    assert!(!has_valid_extension("a.jpg.txt", &EXTENSIONS));
    assert!(!has_valid_extension("a.svg", &EXTENSIONS));
    assert!(!has_valid_extension("a.", &EXTENSIONS));
    assert!(!has_valid_extension("", &EXTENSIONS));
}

#[test]
fn extension_ignores_case() {
    assert!(has_valid_extension("a.JPG", &EXTENSIONS));
    assert!(has_valid_extension("a.JpEg", &EXTENSIONS));
    assert!(has_valid_extension("a.PNG", &EXTENSIONS));
    assert!(has_valid_extension("a.Gif", &EXTENSIONS));
    assert!(has_valid_extension("a.bMp", &EXTENSIONS));
}

#[test]
fn extension_is_lowered_by_the_unicode_rules() {
    assert!(has_valid_extension("a.É", &["é"]));
    assert!(!has_valid_extension("a.é", &["É"]));
    assert!(has_valid_extension("a.\u{212A}", &["k"]));
    assert!(has_valid_extension("a.ΣΑΣ", &["σας"]));
    assert!(!has_valid_extension("a.ΣΑΣ", &["σασ"]));
    assert!(has_valid_extension("photo.ÄÖÜ", &["xyz", "äöü"]));
    assert!(!has_valid_extension("a.J\u{212A}G", &EXTENSIONS));
}

#[test]
fn listing_is_exact() {
    assert!(is_listed("jpg", &EXTENSIONS));
    assert!(is_listed("bmp", &EXTENSIONS));
    assert!(!is_listed("JPG", &EXTENSIONS));
    assert!(!is_listed("jp", &EXTENSIONS));
    assert!(!is_listed("jpg ", &EXTENSIONS));
    assert!(!is_listed("", &EXTENSIONS));
    assert!(is_listed("", &[""]));
    assert!(!is_listed("jpg", &[]));
    assert!(is_listed("é", &["e", "é"]));
}

#[test]
fn image_extension_folds_plain_letters_only() {
    assert!(has_image_extension("a.PNG"));
    assert!(!has_image_extension("a.\u{212A}png"));
    assert!(!has_image_extension("a.pńg"));
}

#[test]
fn extension_without_a_dot_is_the_whole_text() {
    assert!(has_valid_extension("png", &EXTENSIONS));
    assert!(!has_valid_extension("photo", &EXTENSIONS));
}

#[test]
fn extension_is_read_as_written() {
    assert!(!has_valid_extension("a.jpg?size=2", &EXTENSIONS));
    assert!(!has_valid_extension("a.jpg#top", &EXTENSIONS));
    assert!(!has_valid_extension("https://site.example/a", &EXTENSIONS));
}

#[test]
fn extension_list_is_the_callers() {
    assert!(has_valid_extension("a.webp", &["webp"]));
    assert!(!has_valid_extension("a.jpg", &["webp"]));
    assert!(!has_valid_extension("a.jpg", &[]));
    assert!(!has_valid_extension("a.jpg", &["JPG"]));
}

#[test]
fn image_extensions_are_the_five() {
    for name in ["a.jpg", "a.jpeg", "a.png", "a.gif", "a.bmp", "A.JPEG", "x.y.Png", "bmp"] {
        assert!(has_image_extension(name), "{name}");
    }
    for name in ["a.svg", "a.webp", "a.tiff", "a.jpg ", "a.jpg/", "a", "", ".", "a.jpgx", "a.pn"] {
        assert!(!has_image_extension(name), "{name}");
    }
}

#[test]
fn svg_path_is_rejected_and_upper_case_jpg_accepted() {
    assert!(!has_image_path("/a.svg"));
    assert!(has_image_path("/a.JPG"));
}

#[test]
fn image_path_needs_a_dot() {
    assert!(has_image_path("/pics/cat.png"));
    assert!(has_image_path("/pics/cat.v2.GIF"));
    assert!(has_image_path("/.bmp"));
    assert!(has_image_path("x.jpeg"));
    assert!(!has_image_path("/png"));
    assert!(!has_image_path("png"));
    assert!(!has_image_path("/pics/cat"));
    assert!(!has_image_path("/pics.png/cat"));
    assert!(!has_image_path("/cat.png/"));
    assert!(!has_image_path("/cat."));
    assert!(!has_image_path("/"));
    assert!(!has_image_path(""));
    assert!(!has_image_path("/cat.pngx"));
    assert!(!has_image_path("/cat.jpg "));
}

#[test]
fn inline_data_is_told_by_its_start() {
    assert!(is_inline_source("data:image/png;base64,iVBORw0KGgo="));
    assert!(is_inline_source("data:image/png;base64,AAAA.png"));
    assert!(is_inline_source("data:"));
    assert!(!is_inline_source("data"));
    assert!(!is_inline_source("Data:x.jpg"));
    assert!(!is_inline_source(" data:x.jpg"));
    assert!(!is_inline_source("metadata:x.jpg"));
    assert!(!is_inline_source("a.png"));
    assert!(!is_inline_source(""));
}

#[test]
fn external_sources_keeps_order_and_duplicates() {
    let candidates = vec![
        Some("a.png".to_string()),
        None,
        Some("b.svg".to_string()),
        Some("data:image/gif;base64,R0lGOD.gif".to_string()),
        Some("a.png".to_string()),
        Some("".to_string()),
    ];
    assert_eq!(external_sources(&candidates), owned(&["a.png", "b.svg", "a.png", ""]));
    assert_eq!(external_sources(&Vec::new()), Vec::<String>::new());
}

#[test]
fn with_paths_reads_each_path() {
    let urls = owned(&[
        "https://site.example/a/b.png?x=1#y",
        "https://site.example",
        "mailto:me@site.example",
        "nonsense",
    ]);
    assert_eq!(
        with_paths(&urls),
        vec![
            ("https://site.example/a/b.png?x=1#y".to_string(), Some("/a/b.png".to_string())),
            ("https://site.example".to_string(), Some("/".to_string())),
            ("mailto:me@site.example".to_string(), Some("me@site.example".to_string())),
            ("nonsense".to_string(), None),
        ]
    );
}

#[test]
fn keep_images_goes_by_the_path() {
    let links = vec![
        ("https://site.example/a.png?x=1".to_string(), Some("/a.png".to_string())),
        ("https://site.example/a.svg".to_string(), Some("/a.svg".to_string())),
        ("https://site.example/x?f=a.png".to_string(), Some("/x".to_string())),
        ("unreadable.png".to_string(), None),
        ("https://site.example/B.JPEG".to_string(), Some("/B.JPEG".to_string())),
    ];
    assert_eq!(
        keep_images(&links),
        owned(&["https://site.example/a.png?x=1", "https://site.example/B.JPEG"])
    );
}

#[test]
fn present_values_drops_only_the_missing() {
    let candidates = vec![None, Some("x".to_string()), Some("".to_string()), None];
    assert_eq!(present_values(&candidates), owned(&["x", ""]));
}

#[test]
fn resolve_all_resolves_against_the_base() {
    let refs = owned(&["c.png", "/v1/meta", "//eve.example/b", "http://eve.example/b", "../up.gif"]);
    assert_eq!(
        resolve_all("https://alice.example/a/b.html", &refs),
        owned(&[
            "https://alice.example/a/c.png",
            "https://alice.example/v1/meta",
            "https://eve.example/b",
            "http://eve.example/b",
            "https://alice.example/up.gif",
        ])
    );
}

#[test]
fn resolve_all_drops_what_does_not_resolve() {
    let refs = owned(&["ok.png", "http://[bad", "also.png"]);
    assert_eq!(
        resolve_all("https://site.example/", &refs),
        owned(&["https://site.example/ok.png", "https://site.example/also.png"])
    );
    assert_eq!(resolve_all("not a url", &refs), Vec::<String>::new());
}

#[test]
fn with_hosts_reads_each_host() {
    let urls = owned(&["https://site.example/a", "http://Other.Example:8080/b", "mailto:me@site.example", "nonsense"]);
    let paired = with_hosts(&urls);
    assert_eq!(
        paired,
        vec![
            ("https://site.example/a".to_string(), Some("site.example".to_string())),
            ("http://Other.Example:8080/b".to_string(), Some("other.example".to_string())),
            ("mailto:me@site.example".to_string(), None),
            ("nonsense".to_string(), None),
        ]
    );
}

#[test]
fn same_text_compares_presence_and_content() {
    let a = Some("site.example".to_string());
    let b = Some("site.example".to_string());
    let c = Some("www.site.example".to_string());
    assert!(same_text(&a, &b));
    assert!(!same_text(&a, &c));
    assert!(!same_text(&a, &None));
    assert!(!same_text(&None, &a));
    assert!(same_text(&None, &None));
}

#[test]
fn keep_same_host_is_exact() {
    let links = vec![
        ("https://site.example/y".to_string(), Some("site.example".to_string())),
        ("https://other.example/x".to_string(), Some("other.example".to_string())),
        ("https://www.site.example/z".to_string(), Some("www.site.example".to_string())),
        ("mailto:me@site.example".to_string(), None),
        ("https://site.example/y".to_string(), Some("site.example".to_string())),
    ];
    assert_eq!(
        keep_same_host(&Some("site.example".to_string()), &links),
        owned(&["https://site.example/y", "https://site.example/y"])
    );
    assert_eq!(keep_same_host(&None, &links), owned(&["mailto:me@site.example"]));
}

#[test]
fn extract_filters_images_by_extension() {
    let body = r#"<html><body><img src="a.svg"><img src="a.JPG"></body></html>"#;
    let page = extract(body, "https://site.example/");
    assert_eq!(page.images, owned(&["https://site.example/a.JPG"]));
}

#[test]
fn extract_never_takes_inline_data() {
    let body = r#"<img src="data:image/png;base64,iVBORw0KGgoAAAANSUhEUg.png"><img src="data:image/png;base64,AAAA">"#;
    let page = extract(body, "https://site.example/");
    assert!(page.images.is_empty());
}

#[test]
fn extract_goes_by_the_path_of_the_image() {
    let body = r#"
        <img src="a.jpg?size=large">
        <img src="b.png#top">
        <img src="show?file=c.png">
        <img src="png">
        <img src="https://cdn.example.png">
        <img src="d.gif/">
    "#;
    let page = extract(body, "https://site.example/");
    assert_eq!(
        page.images,
        owned(&["https://site.example/a.jpg?size=large", "https://site.example/b.png#top"])
    );
}

#[test]
fn extract_rejects_other_hosts() {
    let body = r#"<a href="https://other.example/x">x</a><a href="https://site.example/y">y</a>"#;
    let page = extract(body, "https://site.example/");
    assert_eq!(page.links, owned(&["https://site.example/y"]));
}

#[test]
fn extract_reads_responsive_elements_too() {
    let body = r#"<div class="img-responsive" src="banner.png"></div><img class="img-responsive" src="both.gif"><span src="plain.png"></span>"#;
    let page = extract(body, "https://site.example/dir/page.html");
    assert_eq!(
        page.images,
        owned(&["https://site.example/dir/banner.png", "https://site.example/dir/both.gif"])
    );
}

#[test]
fn extract_keeps_document_order_and_duplicates() {
    let body = r#"
        <a href="/two">2</a>
        <img src="/i/one.png">
        <a href="one">1</a>
        <img src="two.bmp">
        <a href="/two">again</a>
        <img src="/i/one.png">
        <a>no target</a>
        <img alt="no source">
    "#;
    let page = extract(body, "https://site.example/base/index.html");
    assert_eq!(
        page.images,
        owned(&[
            "https://site.example/i/one.png",
            "https://site.example/base/two.bmp",
            "https://site.example/i/one.png",
        ])
    );
    assert_eq!(
        page.links,
        owned(&[
            "https://site.example/two",
            "https://site.example/base/one",
            "https://site.example/two",
        ])
    );
}

#[test]
fn extract_with_an_unreadable_base_finds_nothing() {
    let body = r#"<img src="a.png"><a href="/y">y</a>"#;
    let page = extract(body, "not a url");
    assert!(page.images.is_empty());
    assert!(page.links.is_empty());
}

#[test]
fn extract_of_an_empty_page_is_empty() {
    let page = extract("", "https://site.example/");
    assert!(page.images.is_empty());
    assert!(page.links.is_empty());
}

#[test]
fn file_name_is_the_last_segment() {
    assert_eq!(file_name_from_path(&Some("/images/cat.png".to_string())), "cat.png");
    assert_eq!(file_name_from_path(&Some("/cat.png".to_string())), "cat.png");
    assert_eq!(file_name_from_path(&Some("cat.png".to_string())), "cat.png");
}

#[test]
fn file_name_falls_back() {
    assert_eq!(file_name_from_path(&Some("/images/".to_string())), "unknown.jpg");
    assert_eq!(file_name_from_path(&Some("/".to_string())), "unknown.jpg");
    assert_eq!(file_name_from_path(&Some("".to_string())), "unknown.jpg");
    assert_eq!(file_name_from_path(&None), "unknown.jpg");
}

#[test]
fn directory_loses_its_trailing_slashes() {
    assert_eq!(trimmed_directory("./data"), "./data");
    assert_eq!(trimmed_directory("./data/"), "./data");
    assert_eq!(trimmed_directory("out///"), "out");
    assert_eq!(trimmed_directory("a/b/"), "a/b");
    assert_eq!(trimmed_directory("/"), "");
    assert_eq!(trimmed_directory(""), "");
    assert_eq!(target_directory("./data/"), "./data");
    assert_eq!(target_directory("/"), "/");
    assert_eq!(target_directory(""), "/");
}

#[test]
fn destination_joins_with_one_slash() {
    assert_eq!(destination_path("./data", "cat.png"), "./data/cat.png");
    assert_eq!(destination_path("./data/", "cat.png"), "./data/cat.png");
    assert_eq!(destination_path("out//", "unknown.jpg"), "out/unknown.jpg");
    assert_eq!(destination_path("/", "cat.png"), "/cat.png");
}

#[test]
fn trailing_slash_downloads_to_unknown_jpg() {
    let plan = plan_download("https://site.example/images/", "./data");
    assert_eq!(plan.url, "https://site.example/images/");
    assert_eq!(plan.file_name, "unknown.jpg");
    assert_eq!(plan.directory, "./data");
    assert_eq!(plan.path, "./data/unknown.jpg");
}

#[test]
fn plan_is_flat_whatever_the_remote_path() {
    let plan = plan_download("https://site.example/a/b/c/pic.gif?size=large#top", "out/");
    assert_eq!(plan.file_name, "pic.gif");
    assert_eq!(plan.directory, "out");
    assert_eq!(plan.path, "out/pic.gif");
}

#[test]
fn plan_for_root_and_unreadable_urls_falls_back() {
    assert_eq!(plan_download("https://site.example", "d").path, "d/unknown.jpg");
    assert_eq!(plan_download("https://site.example/", "d").path, "d/unknown.jpg");
    assert_eq!(plan_download("no url at all", "d").path, "d/unknown.jpg");
}

#[test]
fn plans_come_in_order_and_may_collide() {
    let images = owned(&[
        "https://site.example/a/pic.png",
        "https://site.example/b/pic.png",
        "https://site.example/c/",
    ]);
    let plans = plan_downloads(&images, "./data");
    let paths: Vec<String> = plans.iter().map(|p| p.path.clone()).collect();
    assert_eq!(paths, owned(&["./data/pic.png", "./data/pic.png", "./data/unknown.jpg"]));
    let urls: Vec<String> = plans.iter().map(|p| p.url.clone()).collect();
    assert_eq!(urls, images);
}
