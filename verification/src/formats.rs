//! Which names count as images.

use vstd::prelude::*;
use vstd::string::*;
use crate::text::{after_last, find_last, lower_seq, tail_matches_folded, to_chars};

verus! {

/// `text` in lower case, as `str::to_lowercase` of the standard library
/// gives it: by the Unicode rules, whatever the language of the text.
pub uninterp spec fn lowercase_of(text: Seq<char>) -> Seq<char>;

/// Calls `str::to_lowercase` on `text`. Trusted: the result depends on
/// `text` alone.
#[verifier::external_body]
pub(crate) fn lowercase(text: &str) -> (r: String)
    ensures
        r@ == lowercase_of(text@),
{
    text.to_lowercase()
}

/// Whether `text` is one of `names`, character for character.
pub open spec fn listed(text: Seq<char>, names: Seq<&str>) -> bool {
    exists|i: int| 0 <= i < names.len() && #[trigger] names[i]@ == text
}

/// Whether `ext` names an image format that the tools handle: `jpg`, `jpeg`,
/// `png`, `gif` or `bmp`, in any mix of upper and lower case.
pub open spec fn is_image_extension(ext: Seq<char>) -> bool {
    let e = lower_seq(ext);
    e == "jpg"@ || e == "jpeg"@ || e == "png"@ || e == "gif"@ || e == "bmp"@
}

/// Whether `text` is one of `names`, character for character.
pub fn is_listed(text: &str, names: &[&str]) -> (r: bool)
    ensures
        r == listed(text@, names@),
{
    let wanted: String = String::from_str(text);
    let n: usize = names.len();
    let mut k: usize = 0;
    while k < n
        invariant
            n == names@.len(),
            k <= n,
            wanted@ == text@,
            forall|i: int| 0 <= i < k ==> #[trigger] names@[i]@ != text@,
        decreases n - k,
    {
        let name: String = String::from_str(names[k]);
        if name == wanted {
            assert(names@[k as int]@ == text@);
            return true;
        }
        k += 1;
    }
    false
}

/// Whether what follows the last `.` of `url` (all of it where there is no
/// `.`), put in lower case, is one of `valid_extensions`. The names in the
/// list are taken as they are.
pub fn has_valid_extension(url: &str, valid_extensions: &[&str]) -> (r: bool)
    ensures
        r == (exists|i: int|
            0 <= i < valid_extensions@.len() && #[trigger] valid_extensions@[i]@ == lowercase_of(
                after_last(url@, '.'),
            )),
{
    let chars = to_chars(url);
    let from: usize = match find_last(&chars, '.') {
        Some(i) => i + 1,
        None => 0,
    };
    let extension = url.substring_char(from, chars.len());
    assert(url@.subrange(from as int, url@.len() as int) =~= after_last(url@, '.'));
    let lowered = lowercase(extension);
    is_listed(lowered.as_str(), valid_extensions)
}

/// Whether `name` ends in the extension of an image format that the tools
/// handle, its letters `A` to `Z` folded to lower case.
pub fn has_image_extension(name: &str) -> (r: bool)
    ensures
        r == is_image_extension(after_last(name@, '.')),
{
    let chars = to_chars(name);
    let from: usize = match find_last(&chars, '.') {
        Some(i) => i + 1,
        None => 0,
    };
    assert(chars@.skip(from as int) =~= after_last(name@, '.'));
    let names: [&str; 5] = ["jpg", "jpeg", "png", "gif", "bmp"];
    let mut k: usize = 0;
    while k < 5
        invariant
            k <= 5,
            from <= chars.len(),
            chars@.skip(from as int) == after_last(name@, '.'),
            names@ == seq!["jpg", "jpeg", "png", "gif", "bmp"],
            forall|i: int|
                0 <= i < k ==> #[trigger] names@[i]@ != lower_seq(after_last(name@, '.')),
        decreases 5 - k,
    {
        let word = to_chars(names[k]);
        if tail_matches_folded(&chars, from, &word) {
            assert(names@[k as int]@ == lower_seq(after_last(name@, '.')));
            return true;
        }
        k += 1;
    }
    proof {
        assert(names@[0]@ != lower_seq(after_last(name@, '.')));
        assert(names@[1]@ != lower_seq(after_last(name@, '.')));
        assert(names@[2]@ != lower_seq(after_last(name@, '.')));
        assert(names@[3]@ != lower_seq(after_last(name@, '.')));
        assert(names@[4]@ != lower_seq(after_last(name@, '.')));
    }
    false
}

} // verus!
