//! Converts a value into a bag of attributes for the `v-bind="obj"` directive.
use vstd::prelude::*;
use std::fmt::Display;
use vstd::string::to_string_from_display_ensures;

verus! {

/// Converts a value into an ordered list of `(name, value)` attribute pairs.
///
/// This backs the template compiler's `v-bind="obj"` (bulk bind) directive: the
/// bound expression is turned into pairs that are spread onto the element. Keys
/// and values are stringified through [`Display`].
pub trait IntoAttrs: Sized {
    /// The `(name, value)` pairs to set, in order.
    fn into_attrs(self) -> Vec<(String, String)>;
}

impl<K: Display, V: Display> IntoAttrs for Vec<(K, V)> {
    /// Each pair's key and value rendered with `to_string`, in order.
    fn into_attrs(self) -> (r: Vec<(String, String)>)
        ensures
            r@.len() == self@.len(),
            forall|i: int| 0 <= i < r@.len() ==> {
                &&& to_string_from_display_ensures::<K>(&self@[i].0, #[trigger] r@[i].0)
                &&& to_string_from_display_ensures::<V>(&self@[i].1, r@[i].1)
            },
    {
        let ghost orig = self@;
        let n = self.len();
        let mut rest = self;
        let mut r: Vec<(String, String)> = Vec::new();
        let mut k: usize = 0;
        while k < n
            invariant
                k <= n == orig.len(),
                rest@ == orig.skip(k as int),
                r@.len() == k,
                forall|i: int| 0 <= i < k ==> {
                    &&& to_string_from_display_ensures::<K>(&orig[i].0, #[trigger] r@[i].0)
                    &&& to_string_from_display_ensures::<V>(&orig[i].1, r@[i].1)
                },
            decreases n - k,
        {
            let ghost before = rest@;
            let (key, value) = rest.remove(0);
            assert(rest@ =~= orig.skip(k + 1));
            assert(before[0] == orig[k as int]);
            r.push((key.to_string(), value.to_string()));
            k += 1;
        }
        r
    }
}

impl<K: Display, V: Display, const N: usize> IntoAttrs for [(K, V); N] {
    /// Each pair's key and value rendered with `to_string`, in order.
    fn into_attrs(self) -> (r: Vec<(String, String)>)
        ensures
            r@.len() == N,
            forall|i: int| 0 <= i < N ==> {
                &&& to_string_from_display_ensures::<K>(&self@[i].0, #[trigger] r@[i].0)
                &&& to_string_from_display_ensures::<V>(&self@[i].1, r@[i].1)
            },
    {
        let mut r: Vec<(String, String)> = Vec::new();
        let mut k: usize = 0;
        while k < N
            invariant
                k <= N,
                self@.len() == N,
                r@.len() == k,
                forall|i: int| 0 <= i < k ==> {
                    &&& to_string_from_display_ensures::<K>(&self@[i].0, #[trigger] r@[i].0)
                    &&& to_string_from_display_ensures::<V>(&self@[i].1, r@[i].1)
                },
            decreases N - k,
        {
            let pair = &self[k];
            r.push((pair.0.to_string(), pair.1.to_string()));
            k += 1;
        }
        r
    }
}

} // verus!
