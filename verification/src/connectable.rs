//! The construction-time address argument: one URL or several, handed
//! over in whatever shape the caller has them.

use vstd::prelude::*;

verus! {

/// Anything that can supply the list of server URLs a client connects
/// to.
pub trait Connectable {
    /// The URL texts this value supplies, in order.
    spec fn spec_urls(&self) -> Seq<Seq<char>>;

    /// Hand over the URLs.
    fn get_urls(self) -> (r: Vec<String>)
        ensures
            r.deep_view() == self.spec_urls(),
    ;
}

impl Connectable for String {
    open spec fn spec_urls(&self) -> Seq<Seq<char>> {
        seq![self@]
    }

    fn get_urls(self) -> (r: Vec<String>) {
        let ghost u = self@;
        let mut r: Vec<String> = Vec::new();
        r.push(self);
        proof {
            assert(r.deep_view() =~= seq![u]);
        }
        r
    }
}

impl<'a> Connectable for &'a str {
    open spec fn spec_urls(&self) -> Seq<Seq<char>> {
        seq![self@]
    }

    fn get_urls(self) -> (r: Vec<String>) {
        let mut r: Vec<String> = Vec::new();
        r.push(self.to_owned());
        proof {
            assert(r.deep_view() =~= seq![self@]);
        }
        r
    }
}

impl Connectable for Vec<String> {
    open spec fn spec_urls(&self) -> Seq<Seq<char>> {
        self.deep_view()
    }

    fn get_urls(self) -> (r: Vec<String>) {
        self
    }
}

impl<'a> Connectable for Vec<&'a str> {
    open spec fn spec_urls(&self) -> Seq<Seq<char>> {
        self.deep_view()
    }

    fn get_urls(self) -> (r: Vec<String>) {
        let n = self.len();
        let mut r: Vec<String> = Vec::new();
        let mut i: usize = 0;
        while i < n
            invariant
                i <= n,
                n == self@.len(),
                r@.len() == i,
                forall|k: int| 0 <= k < i ==> (#[trigger] r@[k])@ == self@[k]@,
            decreases n - i,
        {
            let u: &str = self[i];
            proof {
                assert(u == self@[i as int]);
            }
            r.push(u.to_owned());
            i = i + 1;
        }
        proof {
            assert(r.deep_view() =~~= self.deep_view());
        }
        r
    }
}

} // verus!
