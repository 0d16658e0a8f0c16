use vstd::prelude::*;

verus! {

/// A key a cache can look up entries by.
///
/// A cache stores one entry per distinct key, where "distinct" means distinct
/// mathematical views: two keys name the same entry exactly when their views
/// are equal, and `key_eq` is the executable test for that.
pub trait CacheKey: View + Sized {
    /// Decides whether two keys name the same cache entry.
    fn key_eq(&self, other: &Self) -> (r: bool)
        ensures
            r == (self@ == other@),
    ;
}

impl<'a> CacheKey for &'a str {
    fn key_eq(&self, other: &Self) -> (r: bool) {
        let n = self.unicode_len();
        if n != other.unicode_len() {
            return false;
        }
        let mut i: usize = 0;
        while i < n
            invariant
                i <= n,
                n == self@.len(),
                n == other@.len(),
                forall|j: int| 0 <= j < i ==> self@[j] == other@[j],
            decreases n - i,
        {
            if self.get_char(i) != other.get_char(i) {
                return false;
            }
            i += 1;
        }
        proof {
            assert(self@ =~= other@);
        }
        true
    }
}

impl CacheKey for String {
    fn key_eq(&self, other: &Self) -> (r: bool) {
        *self == *other
    }
}

impl CacheKey for u64 {
    fn key_eq(&self, other: &Self) -> (r: bool) {
        *self == *other
    }
}

} // verus!
