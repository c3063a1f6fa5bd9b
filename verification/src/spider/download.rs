//! Where a downloaded image is written.

use vstd::prelude::*;
use vstd::string::*;
use crate::spider::web::{path_of, url_path};
use crate::text::{
    after_last, find_last, lemma_last_index_is, lemma_last_index_of, lemma_trim_end, to_chars, trim_end, trimmed_len,
};

verus! {

/// One image to fetch and where its bytes go.
pub struct DownloadPlan {
    /// The image's absolute URL.
    pub url: String,
    /// The directory to create before writing.
    pub directory: String,
    /// The file's name inside that directory.
    pub file_name: String,
    /// The full path of the file: every image lies directly in the output
    /// directory, whatever its place on the site.
    pub path: String,
}

/// A [`DownloadPlan`] as plain texts.
pub ghost struct PlanView {
    pub url: Seq<char>,
    pub directory: Seq<char>,
    pub file_name: Seq<char>,
    pub path: Seq<char>,
}

impl View for DownloadPlan {
    type V = PlanView;

    open spec fn view(&self) -> PlanView {
        PlanView {
            url: self.url@,
            directory: self.directory@,
            file_name: self.file_name@,
            path: self.path@,
        }
    }
}

/// The file name for an image whose URL has the path `path`: the last
/// segment of the path, and `unknown.jpg` where that segment is empty (the
/// path is empty, is the root or ends in `/`) or the URL has no path at all.
pub open spec fn file_name_of(path: Option<Seq<char>>) -> Seq<char> {
    match path {
        Some(p) => if after_last(p, '/').len() == 0 {
            "unknown.jpg"@
        } else {
            after_last(p, '/')
        },
        None => "unknown.jpg"@,
    }
}

/// The directory that holds the images: `output_dir` without the slashes at
/// its end, and `/` where nothing else is left.
pub open spec fn directory_of(output_dir: Seq<char>) -> Seq<char> {
    if trim_end(output_dir, '/').len() == 0 {
        seq!['/']
    } else {
        trim_end(output_dir, '/')
    }
}

/// The path of the file `name` under `output_dir`: `output_dir` without the
/// slashes at its end, one `/`, and the name.
pub open spec fn destination_of(output_dir: Seq<char>, name: Seq<char>) -> Seq<char> {
    trim_end(output_dir, '/') + seq!['/'] + name
}

/// The plan for the image at `url` with the output directory `output_dir`.
pub open spec fn plan_of(url: Seq<char>, output_dir: Seq<char>) -> PlanView {
    PlanView {
        url,
        directory: directory_of(output_dir),
        file_name: file_name_of(url_path(url)),
        path: destination_of(output_dir, file_name_of(url_path(url))),
    }
}

/// The plans for `urls`, one each, in order.
pub open spec fn plans_of(urls: Seq<Seq<char>>, output_dir: Seq<char>) -> Seq<PlanView> {
    Seq::new(urls.len(), |i: int| plan_of(urls[i], output_dir))
}

/// The views of `plans`, in order.
pub open spec fn plan_views(plans: Seq<DownloadPlan>) -> Seq<PlanView> {
    Seq::new(plans.len(), |i: int| plans[i]@)
}

/// Names the file for an image from the path of its URL; `path` is `None`
/// where the URL could not be read.
pub fn file_name_from_path(path: &Option<String>) -> (name: String)
    ensures
        name@ == file_name_of(path.deep_view()),
{
    match path {
        Some(p) => {
            let chars = to_chars(p.as_str());
            let from: usize = match find_last(&chars, '/') {
                Some(i) => i + 1,
                None => 0,
            };
            assert(p@.skip(from as int) =~= after_last(p@, '/'));
            if from == chars.len() {
                String::from_str("unknown.jpg")
            } else {
                let segment = p.as_str().substring_char(from, chars.len());
                assert(p@.subrange(from as int, p@.len() as int) =~= p@.skip(from as int));
                String::from_str(segment)
            }
        },
        None => String::from_str("unknown.jpg"),
    }
}

/// `output_dir` without the slashes at its end.
pub fn trimmed_directory(output_dir: &str) -> (dir: String)
    ensures
        dir@ == trim_end(output_dir@, '/'),
{
    let chars = to_chars(output_dir);
    let n: usize = trimmed_len(&chars, '/');
    let kept = output_dir.substring_char(0, n);
    assert(output_dir@.subrange(0, n as int) =~= output_dir@.take(n as int));
    String::from_str(kept)
}

/// The directory to create for `output_dir`.
pub fn target_directory(output_dir: &str) -> (dir: String)
    ensures
        dir@ == directory_of(output_dir@),
{
    let trimmed = trimmed_directory(output_dir);
    if trimmed.as_str().unicode_len() == 0 {
        proof {
            reveal_strlit("/");
        }
        let root = String::from_str("/");
        assert(root@ =~= seq!['/']);
        root
    } else {
        trimmed
    }
}

/// The full path of the file `file_name` under `output_dir`.
pub fn destination_path(output_dir: &str, file_name: &str) -> (path: String)
    ensures
        path@ == destination_of(output_dir@, file_name@),
{
    proof {
        reveal_strlit("/");
    }
    let mut path = trimmed_directory(output_dir);
    path.append("/");
    path.append(file_name);
    assert(path@ =~= destination_of(output_dir@, file_name@));
    path
}

/// Plans the download of the image at `image_url` into `output_dir`.
pub fn plan_download(image_url: &str, output_dir: &str) -> (plan: DownloadPlan)
    ensures
        plan@ == plan_of(image_url@, output_dir@),
{
    let file_name = file_name_from_path(&path_of(image_url));
    let path = destination_path(output_dir, file_name.as_str());
    DownloadPlan {
        url: String::from_str(image_url),
        directory: target_directory(output_dir),
        file_name,
        path,
    }
}

/// Plans the download of each of `images` into `output_dir`, in order.
pub fn plan_downloads(images: &Vec<String>, output_dir: &str) -> (plans: Vec<DownloadPlan>)
    ensures
        plan_views(plans@) == plans_of(images.deep_view(), output_dir@),
{
    let mut plans: Vec<DownloadPlan> = Vec::new();
    let n: usize = images.len();
    let mut i: usize = 0;
    while i < n
        invariant
            n == images.len(),
            i <= n,
            plans.len() == i,
            forall|j: int| 0 <= j < i ==> (#[trigger] plans@[j])@ == plan_of(images@[j]@, output_dir@),
        decreases n - i,
    {
        plans.push(plan_download(images[i].as_str(), output_dir));
        i += 1;
    }
    assert(plan_views(plans@) =~= plans_of(images.deep_view(), output_dir@));
    plans
}

/// A file name never holds a `/`, so the file lies directly in the output
/// directory.
pub proof fn lemma_file_name_is_flat(path: Option<Seq<char>>)
    ensures
        file_name_of(path).len() > 0,
        !file_name_of(path).contains('/'),
{
    reveal_strlit("unknown.jpg");
    let fallback = "unknown.jpg"@;
    assert(!fallback.contains('/')) by {
        assert forall|i: int| 0 <= i < fallback.len() implies fallback[i] != '/' by {}
    }
    match path {
        Some(p) => {
            lemma_last_index_of(p, '/');
            let tail = after_last(p, '/');
            if tail.len() > 0 {
                assert forall|i: int| 0 <= i < tail.len() implies tail[i] != '/' by {}
            }
        },
        None => {},
    }
}

/// A path that ends in `/` has no last segment, and the file is named
/// `unknown.jpg`.
pub proof fn lemma_trailing_slash_falls_back(p: Seq<char>)
    requires
        p.len() > 0,
        p.last() == '/',
    ensures
        file_name_of(Some(p)) == "unknown.jpg"@,
{
}

/// The directory is never empty and ends in `/` only where it is the root.
pub proof fn lemma_directory_is_trimmed(output_dir: Seq<char>)
    ensures
        directory_of(output_dir).len() > 0,
        directory_of(output_dir).last() == '/' ==> directory_of(output_dir) == seq!['/'],
{
    lemma_trim_end(output_dir, '/');
}

/// The destination is the output directory without its slashes at the end,
/// one `/`, and a name without any: the file lies directly in the directory.
pub proof fn lemma_destination_is_flat(url: Seq<char>, output_dir: Seq<char>)
    ensures
        ({
            let plan = plan_of(url, output_dir);
            &&& plan.path == trim_end(output_dir, '/') + seq!['/'] + plan.file_name
            &&& after_last(plan.path, '/') == plan.file_name
        }),
{
    let plan = plan_of(url, output_dir);
    let dir = trim_end(output_dir, '/');
    lemma_file_name_is_flat(url_path(url));
    let name = plan.file_name;
    let path = plan.path;
    let slash = dir.len() as int;
    assert(path[slash] == '/');
    assert forall|j: int| slash < j < path.len() implies path[j] != '/' by {
        assert(path[j] == name[j - slash - 1]);
        assert(name.contains(name[j - slash - 1]));
    }
    lemma_last_index_is(path, '/', slash);
    assert(path.skip(slash + 1) =~= name);
}

} // verus!
