//! The set of URLs that a crawl has taken up.

use vstd::prelude::*;
use vstd::string::*;

verus! {

/// The URLs claimed so far in one crawl.
///
/// The only way in is [`VisitedRegistry::claim`], which tests and records in
/// one call on an exclusive borrow: two callers can never both be told that
/// the same URL is new. Tasks that share a registry share it behind a lock
/// held for the whole call.
pub struct VisitedRegistry {
    urls: Vec<String>,
}

/// No text occurs twice in `order`.
pub open spec fn distinct(order: Seq<Seq<char>>) -> bool {
    forall|i: int, j: int| 0 <= i < j < order.len() ==> order[i] != order[j]
}

impl VisitedRegistry {
    /// The claimed URLs, oldest first.
    pub closed spec fn order(&self) -> Seq<Seq<char>> {
        self.urls.deep_view()
    }

    /// The claimed URLs as a set.
    pub open spec fn view(&self) -> Set<Seq<char>> {
        Set::new(|u: Seq<char>| self.order().contains(u))
    }

    /// Every URL is recorded once.
    pub open spec fn wf(&self) -> bool {
        distinct(self.order())
    }

    /// A registry with nothing claimed.
    pub fn new() -> (r: Self)
        ensures
            r.order() == Seq::<Seq<char>>::empty(),
            r@ == Set::<Seq<char>>::empty(),
            r.wf(),
    {
        let r = VisitedRegistry { urls: Vec::new() };
        assert(r.order() =~= Seq::<Seq<char>>::empty());
        assert(r@ =~= Set::<Seq<char>>::empty());
        r
    }

    /// How many URLs have been claimed.
    pub fn len(&self) -> (n: usize)
        ensures
            n == self.order().len(),
    {
        self.urls.len()
    }

    /// Claims `url`: `true` the first time this exact text is claimed, `false`
    /// every time after. Texts are compared character by character, with no
    /// normalisation.
    pub fn claim(&mut self, url: &str) -> (fresh: bool)
        ensures
            fresh == !old(self).order().contains(url@),
            final(self).order() == if fresh {
                old(self).order().push(url@)
            } else {
                old(self).order()
            },
            final(self).order().contains(url@),
            final(self)@ == old(self)@.insert(url@),
            old(self).wf() ==> final(self).wf(),
    {
        let wanted: String = String::from_str(url);
        let n: usize = self.urls.len();
        let mut i: usize = 0;
        while i < n
            invariant
                n == self.urls.len(),
                *self == *old(self),
                i <= n,
                wanted@ == url@,
                forall|j: int| 0 <= j < i ==> self.order()[j] != url@,
            decreases n - i,
        {
            if self.urls[i] == wanted {
                assert(self.order()[i as int] == url@);
                assert(self@ =~= old(self)@.insert(url@));
                return false;
            }
            i += 1;
        }
        self.urls.push(wanted);
        assert(self.order() =~= old(self).order().push(url@));
        assert(self.order()[n as int] == url@);
        assert forall|u: Seq<char>| self@.contains(u) == old(self)@.insert(url@).contains(u) by {
            if old(self).order().contains(u) {
                let k = choose|k: int| 0 <= k < old(self).order().len() && old(self).order()[k] == u;
                assert(self.order()[k] == u);
            }
        }
        assert(self@ =~= old(self)@.insert(url@));
        true
    }
}

/// A URL that has been claimed is never new again, whatever was claimed in
/// between.
pub proof fn lemma_claimed_stays_claimed(before: Seq<Seq<char>>, later: Seq<Seq<char>>, url: Seq<char>)
    requires
        before.contains(url),
        before.is_prefix_of(later),
    ensures
        later.contains(url),
{
    let i = choose|i: int| 0 <= i < before.len() && before[i] == url;
    assert(later[i] == url);
}

} // verus!
