//! Exact-match dispatch from (method, path, version) to a handler.
use crate::request::HTTPRequest;
use crate::table::{keys_unique, lemma_map_of_absent, lemma_map_of_at, lemma_map_of_update, map_of};
use crate::wire::{Method, Version};
use vstd::prelude::*;

verus! {

/// The key of a route: method, path, version.
pub type RouteKey = (Method, Seq<char>, Version);

/// A table of routes: each distinct (method, path, version) has at most one handler.
///
/// The routes live in a vector searched from the front, so lookup is linear in
/// the number of routes rather than hashed. A `HashMap` keyed by a tuple holding
/// a `String` would carry no contract Verus can use; the vector's meaning as a
/// map (`map_of`) is proved, which makes the match exact by construction.
#[derive(Debug)]
pub struct Router<H> {
    routes: Vec<(Method, String, Version, H)>,
}

impl<H> Router<H> {
    /// The routes as keys and handlers, in the order they were first added.
    pub closed spec fn pairs(&self) -> Seq<(RouteKey, H)> {
        self.routes@.map_values(|e: (Method, String, Version, H)| ((e.0, e.1@, e.2), e.3))
    }

    pub open spec fn wf(&self) -> bool {
        keys_unique(self.pairs())
    }

    pub open spec fn view(&self) -> Map<RouteKey, H> {
        map_of(self.pairs())
    }

    /// A router with no routes.
    pub fn new() -> (r: Router<H>)
        ensures
            r.wf(),
            r@ == Map::<RouteKey, H>::empty(),
    {
        let r = Router { routes: Vec::new() };
        assert(r.pairs() =~= Seq::<(RouteKey, H)>::empty());
        r
    }

    /// The position of the route for this key, if there is one.
    fn position(&self, method: Method, path: &String, version: Version) -> (r: Option<usize>)
        ensures
            r matches Some(i) ==> i < self.pairs().len() && self.pairs()[i as int].0 == (
                method,
                path@,
                version,
            ),
            r is None ==> forall|i: int|
                0 <= i < self.pairs().len() ==> self.pairs()[i].0 != (method, path@, version),
    {
        let mut i: usize = 0;
        while i < self.routes.len()
            invariant
                i <= self.routes.len(),
                forall|j: int| 0 <= j < i ==> self.pairs()[j].0 != (method, path@, version),
            decreases self.routes.len() - i,
        {
            let e = &self.routes[i];
            if e.0 == method && e.2 == version && e.1 == *path {
                return Some(i);
            }
            i += 1;
        }
        None
    }

    /// Registers `handler` for (method, path, version), replacing an earlier one.
    pub fn add_route(&mut self, method: Method, path: &str, version: Version, handler: H)
        requires
            old(self).wf(),
        ensures
            final(self).wf(),
            final(self)@ == old(self)@.insert((method, path@, version), handler),
    {
        let p = path.to_owned();
        match self.position(method, &p, version) {
            Some(i) => {
                let ghost before = self.pairs();
                proof {
                    lemma_map_of_update(before, i as int, handler);
                }
                self.routes.set(i, (method, p, version, handler));
                assert(self.pairs() =~= before.update(i as int, (before[i as int].0, handler)));
            },
            None => {
                let ghost before = self.pairs();
                let ghost e = ((method, p@, version), handler);
                self.routes.push((method, p, version, handler));
                assert(self.pairs() =~= before.push(e));
                assert(self.pairs().drop_last() =~= before);
            },
        }
    }

    /// The handler registered for the request's exact (method, path, version).
    pub fn route(&self, request: &HTTPRequest) -> (r: Option<&H>)
        requires
            self.wf(),
        ensures
            r is Some <==> self@.contains_key((request.method, request.path@, request.version)),
            r matches Some(h) ==> *h == self@[(request.method, request.path@, request.version)],
    {
        match self.position(request.method, &request.path, request.version) {
            Some(i) => {
                proof {
                    lemma_map_of_at(self.pairs(), i as int);
                }
                Some(&self.routes[i].3)
            },
            None => {
                proof {
                    lemma_map_of_absent(self.pairs(), (request.method, request.path@, request.version));
                }
                None
            },
        }
    }
}

} // verus!
