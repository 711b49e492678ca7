//! Client-side routing: route patterns (static segments, `:param` dynamic
//! segments, `*wildcard` segments) are matched against the current path by
//! the route-recognizer engine.  The router stores each pattern under the
//! index of the route that was added, and resolves the current path to that
//! index plus the parameters the pattern captured.

use vstd::prelude::*;

use crate::recognizer::{Recognizer, no_nul, params_entries, params_pairs, recognition, recognizer_add, recognizer_new, recognizer_recognize, router_entries};

verus! {

/// The value paired with the first occurrence of a key.
pub open spec fn lookup_pair(s: Seq<(String, String)>, key: Seq<char>) -> Option<Seq<char>>
    decreases s,
{
    if s.len() == 0 {
        None
    } else if s[0].0@ == key {
        Some(s[0].1@)
    } else {
        lookup_pair(s.skip(1), key)
    }
}

/// One resolved route: the index of the route whose pattern matched, and
/// the parameters the pattern captured from the path.
pub struct RouteMatch {
    pub handler: usize,
    pub params: Vec<(String, String)>,
}

impl RouteMatch {
    /// Find a captured parameter by name.
    pub fn find<'a>(&'a self, key: &str) -> (r: Option<&'a String>)
        ensures
            match r {
                Some(v) => lookup_pair(self.params@, key@) == Some(v@),
                None => lookup_pair(self.params@, key@) is None,
            },
    {
        let owned_key = key.to_owned();
        proof {
            assert(self.params@.skip(0) =~= self.params@);
        }
        let mut i: usize = 0;
        while i < self.params.len()
            invariant
                0 <= i <= self.params@.len(),
                owned_key@ == key@,
                lookup_pair(self.params@, key@) == lookup_pair(self.params@.skip(i as int), key@),
            decreases self.params@.len() - i,
        {
            if self.params[i].0 == owned_key {
                proof {
                    assert(self.params@.skip(i as int)[0] == self.params@[i as int]);
                }
                return Some(&self.params[i].1);
            }
            proof {
                assert(self.params@.skip(i as int)[0] == self.params@[i as int]);
                assert(self.params@.skip(i as int).skip(1) =~= self.params@.skip(i as int + 1));
            }
            i = i + 1;
        }
        proof {
            assert(self.params@.skip(i as int).len() == 0);
        }
        None
    }
}

/// A client-side router: the patterns added so far, each standing for the
/// route with its index, and the current path.
pub struct Router {
    index_router: Recognizer,
    route_count: usize,
    current_path: String,
}

impl Router {
    /// Every stored entry pairs a pattern with its position — so the
    /// handler a match hands back is always the index of an added route —
    /// and the current path is one the recognizer can take (no U+0000).
    pub closed spec fn inv(self) -> bool {
        &&& router_entries(self.index_router).len() == self.route_count
        &&& forall|i: int|
            0 <= i < self.route_count ==> (#[trigger] router_entries(self.index_router)[i]).1
                == i
        &&& no_nul(self.current_path@)
    }

    /// The (pattern, handler) pairs added so far, in order.
    pub closed spec fn spec_routes(self) -> Seq<(Seq<char>, usize)> {
        router_entries(self.index_router)
    }

    /// The current path.
    pub closed spec fn spec_current(self) -> Seq<char> {
        self.current_path@
    }

    /// How many routes were added.
    pub closed spec fn spec_count(self) -> int {
        self.route_count as int
    }

    /// What recognizing the current path yields.
    pub closed spec fn spec_recognition(self) -> Option<(usize, Seq<(Seq<char>, Seq<char>)>)> {
        recognition(self.index_router, self.current_path@)
    }

    /// A router with no routes, starting at the given path.
    pub fn new(initial_path: String) -> (r: Router)
        requires
            no_nul(initial_path@),
        ensures
            r.inv(),
            r.spec_count() == 0,
            r.spec_routes() =~= Seq::<(Seq<char>, usize)>::empty(),
            r.spec_current() == initial_path@,
    {
        Router {
            index_router: recognizer_new(),
            route_count: 0,
            current_path: initial_path,
        }
    }

    /// Add a route pattern; it stands for the route whose index is
    /// returned.
    pub fn add_route(&mut self, route: &str) -> (idx: usize)
        requires
            old(self).inv(),
            route.is_ascii(),
            no_nul(route@),
            old(self).spec_count() < usize::MAX,
        ensures
            final(self).inv(),
            idx as int == old(self).spec_count(),
            final(self).spec_count() == old(self).spec_count() + 1,
            final(self).spec_routes() == old(self).spec_routes().push((route@, idx)),
            final(self).spec_current() == old(self).spec_current(),
    {
        let idx = self.route_count;
        recognizer_add(&mut self.index_router, route, idx);
        self.route_count = self.route_count + 1;
        idx
    }

    /// Move to a new path.  Pushing the path into the platform's history
    /// and notifying listeners is the platform binding's part.
    pub fn navigate(&mut self, path: &str)
        requires
            old(self).inv(),
            no_nul(path@),
        ensures
            final(self).inv(),
            final(self).spec_current() == path@,
            final(self).spec_routes() == old(self).spec_routes(),
            final(self).spec_count() == old(self).spec_count(),
    {
        self.current_path = path.to_owned();
    }

    /// Record a path change reported from outside, without navigating.
    pub fn set_route(&mut self, path: &str)
        requires
            old(self).inv(),
            no_nul(path@),
        ensures
            final(self).inv(),
            final(self).spec_current() == path@,
            final(self).spec_routes() == old(self).spec_routes(),
            final(self).spec_count() == old(self).spec_count(),
    {
        self.current_path = path.to_owned();
    }

    /// The current path.
    pub fn current_route(&self) -> (r: String)
        ensures
            r@ == self.spec_current(),
    {
        self.current_path.clone()
    }

    /// Resolve the current path: the matched route's index — always the
    /// index of a route that was added — and the captured parameters, or
    /// nothing when no pattern matches.
    pub fn resolve(&self) -> (res: Option<RouteMatch>)
        requires
            self.inv(),
        ensures
            match res {
                Some(m) => {
                    &&& 0 <= m.handler < self.spec_count()
                    &&& self.spec_recognition() matches Some(rec) && rec.0 == m.handler
                        && rec.1.len() == m.params@.len() && (forall|i: int|
                        0 <= i < m.params@.len() ==> ((#[trigger] m.params@[i]).0@,
                        m.params@[i].1@) == rec.1[i])
                },
                None => self.spec_recognition() is None,
            },
    {
        match recognizer_recognize(&self.index_router, self.current_path.as_str()) {
            Some((h, p)) => {
                proof {
                    let i = choose|i: int|
                        0 <= i < router_entries(self.index_router).len() && (#[trigger] router_entries(
                            self.index_router,
                        )[i]).1 == h;
                    assert(router_entries(self.index_router)[i].1 == i);
                }
                let pairs = params_pairs(&p);
                Some(RouteMatch { handler: h, params: pairs })
            },
            None => None,
        }
    }
}

} // verus!
