//! What one crawl is configured with.

use vstd::prelude::*;
use vstd::string::*;

verus! {

/// Depth limit of a recursive crawl when none is given.
pub const DEFAULT_MAX_DEPTH: u32 = 5;

/// Settings of one crawl. They never change while it runs.
pub struct CrawlSettings {
    /// Whether links are followed at all.
    pub recursive: bool,
    /// Deepest level that is still processed; the seed is level 0.
    pub max_depth: u32,
    /// Directory that the images are written to.
    pub output_dir: String,
}

/// Whether a page at `depth` is processed: only the seed without recursion,
/// levels `0..=max_depth` with it.
pub open spec fn depth_admitted(recursive: bool, max_depth: u32, depth: u32) -> bool {
    !((!recursive && depth >= 1) || (recursive && depth > max_depth))
}

/// Whether the links of a page at `depth` are followed.
pub open spec fn links_followed(recursive: bool, max_depth: u32, depth: u32) -> bool {
    recursive && depth < max_depth
}

impl CrawlSettings {
    /// Settings from what a user gave, with depth 5 and directory `./data`
    /// where nothing was given.
    pub fn new(recursive: bool, max_depth: Option<u32>, output_dir: Option<String>) -> (s: Self)
        ensures
            s.recursive == recursive,
            s.max_depth == match max_depth {
                Some(d) => d,
                None => DEFAULT_MAX_DEPTH,
            },
            s.output_dir@ == match output_dir {
                Some(p) => p@,
                None => "./data"@,
            },
    {
        let depth: u32 = match max_depth {
            Some(d) => d,
            None => DEFAULT_MAX_DEPTH,
        };
        let dir: String = match output_dir {
            Some(p) => p,
            None => String::from_str("./data"),
        };
        CrawlSettings { recursive, max_depth: depth, output_dir: dir }
    }

    /// Spec form of [`CrawlSettings::admits`].
    pub open spec fn admits_spec(&self, depth: u32) -> bool {
        depth_admitted(self.recursive, self.max_depth, depth)
    }

    /// Spec form of [`CrawlSettings::follows_links`].
    pub open spec fn follows_links_spec(&self, depth: u32) -> bool {
        links_followed(self.recursive, self.max_depth, depth)
    }

    /// The depth test: whether a task at `depth` is processed at all.
    #[verifier::when_used_as_spec(admits_spec)]
    pub fn admits(&self, depth: u32) -> (r: bool)
        ensures
            r == self.admits_spec(depth),
    {
        !((!self.recursive && depth >= 1) || (self.recursive && depth > self.max_depth))
    }

    /// Whether a page processed at `depth` hands its links on to level
    /// `depth + 1`.
    #[verifier::when_used_as_spec(follows_links_spec)]
    pub fn follows_links(&self, depth: u32) -> (r: bool)
        ensures
            r == self.follows_links_spec(depth),
    {
        self.recursive && depth < self.max_depth
    }

    /// A copy of these settings.
    pub fn duplicate(&self) -> (s: Self)
        ensures
            s.recursive == self.recursive,
            s.max_depth == self.max_depth,
            s.output_dir@ == self.output_dir@,
    {
        CrawlSettings {
            recursive: self.recursive,
            max_depth: self.max_depth,
            output_dir: self.output_dir.clone(),
        }
    }
}

/// Without recursion exactly level 0 is admitted.
pub proof fn lemma_flat_crawl_admits_only_seed(max_depth: u32, depth: u32)
    ensures
        depth_admitted(false, max_depth, depth) <==> depth == 0,
{
}

/// With recursion exactly the levels up to `max_depth` are admitted.
pub proof fn lemma_recursive_crawl_admits_up_to_limit(max_depth: u32, depth: u32)
    ensures
        depth_admitted(true, max_depth, depth) <==> depth <= max_depth,
{
}

/// A page whose links are followed was itself admitted, and so is the level
/// below it.
pub proof fn lemma_followed_links_are_admitted(recursive: bool, max_depth: u32, depth: u32)
    requires
        links_followed(recursive, max_depth, depth),
    ensures
        depth < u32::MAX,
        depth_admitted(recursive, max_depth, depth),
        depth_admitted(recursive, max_depth, (depth + 1) as u32),
{
}

} // verus!
