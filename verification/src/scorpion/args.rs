//! The viewer's arguments.

use vstd::prelude::*;
use crate::formats::{has_image_extension, is_image_extension};
use crate::text::after_last;

verus! {

/// What the viewer is started with.
pub struct Args {
    /// Paths of the images to show.
    pub path: Vec<String>,
}

/// Whether every one of `paths` ends in an image extension.
pub open spec fn all_images(paths: Seq<String>) -> bool {
    forall|i: int| 0 <= i < paths.len() ==> is_image_extension(after_last(#[trigger] paths[i]@, '.'))
}

/// Whether the viewer takes these arguments: every path must end in `jpg`,
/// `jpeg`, `png`, `gif` or `bmp`, in any case. No path at all is fine.
pub fn check_args(args: &Args) -> (ok: bool)
    ensures
        ok == all_images(args.path@),
{
    let n: usize = args.path.len();
    let mut i: usize = 0;
    while i < n
        invariant
            n == args.path.len(),
            i <= n,
            forall|j: int|
                0 <= j < i ==> is_image_extension(after_last(#[trigger] args.path@[j]@, '.')),
        decreases n - i,
    {
        if !has_image_extension(args.path[i].as_str()) {
            return false;
        }
        i += 1;
    }
    true
}

} // verus!
