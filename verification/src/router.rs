//! The router: one route table per method, registration, and the dispatch
//! decision.
//!
//! A router is built first — routes, an optional fallback handler and the
//! shared state are configured — and then only read: dispatching borrows the
//! router immutably, so one built router serves arbitrarily many concurrent
//! and fully independent lookups. The handler type `H` is opaque to the
//! router; it only stores handlers and hands the chosen one back.

use vstd::prelude::*;
use crate::params::Params;
use crate::pattern::{
    anon_capture, captures, lemma_prefer_asymmetric, lemma_prefer_irreflexive, lemma_prefer_step,
    pattern_error, pattern_segments, pattern_valid, prefer, prefer_pattern, segs_match, ConfigurationError,
    Pattern, SegModel,
};
use crate::text::{path_segments, seg_views, split_path};

verus! {

/// The HTTP methods routes can be registered under. `Other` stands for every
/// further method; no route is ever registered under it, so dispatching such
/// a request always takes the not-found path.
#[derive(PartialEq, Eq, Structural, Clone, Copy, Debug)]
pub enum Method {
    Get,
    Post,
    Put,
    Delete,
    Patch,
    Other,
}

/// One registered route: a validated pattern and its handler.
pub struct Route<H> {
    pub pattern: Pattern,
    pub handler: H,
}

/// The routes registered under one method, in registration order.
pub struct RouteTable<H> {
    pub routes: Vec<Route<H>>,
}

/// Route `i` of the table matches the path.
pub open spec fn route_matches(pats: Seq<Seq<SegModel>>, path: Seq<Seq<char>>, i: int) -> bool {
    0 <= i < pats.len() && segs_match(pats[i], path)
}

/// Some registered route matches the path.
pub open spec fn some_route_matches(pats: Seq<Seq<SegModel>>, path: Seq<Seq<char>>) -> bool {
    exists|i: int| route_matches(pats, path, i)
}

/// Route `i` is the one dispatch picks: it matches, and every other matching
/// route either ranks below it in the precedence order or ranks equal and
/// was registered later.
pub open spec fn best_route(pats: Seq<Seq<SegModel>>, path: Seq<Seq<char>>, i: int) -> bool {
    route_matches(pats, path, i) && forall|j: int|
        #[trigger] route_matches(pats, path, j) && j != i ==> prefer(pats[i], pats[j]) || (!prefer(
            pats[j],
            pats[i],
        ) && i < j)
}

impl<H> RouteTable<H> {
    /// The registered patterns, in registration order.
    pub open spec fn patterns(self) -> Seq<Seq<SegModel>> {
        self.routes@.map_values(|r: Route<H>| r.pattern@)
    }

    /// The registered handlers, in registration order.
    pub open spec fn handlers(self) -> Seq<H> {
        self.routes@.map_values(|r: Route<H>| r.handler)
    }

    /// Every stored pattern is valid.
    pub open spec fn wf(self) -> bool {
        forall|i: int|
            0 <= i < self.patterns().len() ==> pattern_valid(#[trigger] self.patterns()[i])
    }

    /// An empty table.
    fn empty() -> (r: Self)
        ensures
            r.patterns() == Seq::<Seq<SegModel>>::empty(),
            r.handlers() == Seq::<H>::empty(),
            r.wf(),
    {
        let r = RouteTable { routes: Vec::new() };
        proof {
            assert(r.patterns() =~= Seq::<Seq<SegModel>>::empty());
            assert(r.handlers() =~= Seq::<H>::empty());
        }
        r
    }

    /// Appends a route.
    fn add(&mut self, route: Route<H>)
        requires
            old(self).wf(),
            pattern_valid(route.pattern@),
        ensures
            final(self).wf(),
            final(self).patterns() == old(self).patterns().push(route.pattern@),
            final(self).handlers() == old(self).handlers().push(route.handler),
    {
        let ghost pat = route.pattern@;
        let ghost h = route.handler;
        self.routes.push(route);
        proof {
            assert(self.patterns() =~= old(self).patterns().push(pat));
            assert(self.handlers() =~= old(self).handlers().push(h));
        }
    }

    /// The handler of the route at `index`, if there is such a route.
    fn handler_at(&self, index: usize) -> (r: Option<&H>)
        ensures
            match r {
                Some(h) => index < self.handlers().len() && *h == self.handlers()[index as int],
                None => index >= self.handlers().len(),
            },
    {
        if index < self.routes.len() {
            proof {
                assert(self.handlers()[index as int] == self.routes@[index as int].handler);
            }
            Some(&self.routes[index].handler)
        } else {
            None
        }
    }

    /// Finds the best-matching route for a split path, together with its
    /// captures.
    fn find_match(&self, path: &Vec<String>) -> (r: Option<(usize, Params)>)
        requires
            self.wf(),
        ensures
            match r {
                Some((i, ps)) => best_route(self.patterns(), seg_views(path@), i as int)
                    && ps@.pairs == captures(self.patterns()[i as int], seg_views(path@))
                    && ps@.unnamed == anon_capture(self.patterns()[i as int], seg_views(path@)),
                None => !some_route_matches(self.patterns(), seg_views(path@)),
            },
    {
        let ghost pv = seg_views(path@);
        let ghost pats = self.patterns();
        let mut best: Option<(usize, Params)> = None;
        let mut j: usize = 0;
        while j < self.routes.len()
            invariant
                0 <= j <= self.routes.len(),
                self.wf(),
                pv == seg_views(path@),
                pats == self.patterns(),
                match best {
                    Some((b, ps)) => (b as int) < j && route_matches(pats, pv, b as int)
                        && ps@.pairs == captures(pats[b as int], pv) && ps@.unnamed == anon_capture(
                        pats[b as int],
                        pv,
                    ) && forall|k: int|
                        #[trigger] route_matches(pats, pv, k) && 0 <= k < j ==> !prefer(
                            pats[k],
                            pats[b as int],
                        ) && (!prefer(pats[b as int], pats[k]) ==> b as int <= k),
                    None => forall|k: int| 0 <= k < j ==> !route_matches(pats, pv, k),
                },
            decreases self.routes.len() - j,
        {
            proof {
                assert(pats[j as int] == self.routes@[j as int].pattern@);
                assert(pattern_valid(pats[j as int]));
            }
            let m = self.routes[j].pattern.match_segments(path);
            match m {
                Some(ps) => {
                    let replace: bool = match &best {
                        Some((b, _)) => prefer_pattern(
                            &self.routes[j].pattern,
                            &self.routes[*b].pattern,
                        ),
                        None => true,
                    };
                    if replace {
                        proof {
                            lemma_prefer_irreflexive(pats[j as int]);
                            if let Some((b, _)) = &best {
                                assert forall|k: int|
                                    #[trigger] route_matches(pats, pv, k) && 0 <= k < j + 1 && k
                                        != j implies !prefer(pats[k], pats[j as int]) && (!prefer(
                                    pats[j as int],
                                    pats[k],
                                ) ==> j as int <= k) by {
                                    lemma_prefer_step(pats[j as int], pats[b as int], pats[k]);
                                    lemma_prefer_asymmetric(pats[k], pats[j as int]);
                                }
                            }
                        }
                        best = Some((j, ps));
                    }
                },
                None => {},
            }
            j += 1;
        }
        best
    }
}

/// The router: a route table per method, an optional fallback handler, and
/// the shared application state.
///
/// `State` is attached once at construction and handed unchanged to every
/// request; `H` is the opaque handler type the tables store.
pub struct Router<State, H> {
    pub get_routes: RouteTable<H>,
    pub post_routes: RouteTable<H>,
    pub put_routes: RouteTable<H>,
    pub delete_routes: RouteTable<H>,
    pub patch_routes: RouteTable<H>,
    pub fallback: Option<H>,
    pub state: State,
}

/// The outcome of dispatching one request.
pub enum Dispatch {
    /// The route at `index` in the request method's table is the best match;
    /// its handler is to be invoked with `params`.
    Matched { index: usize, params: Params },
    /// No route of the request's method matched and a fallback handler is
    /// installed: invoke the fallback.
    NotFound,
    /// No route matched and no fallback is installed: answer with the
    /// default not-found response, an empty body under a not-found status.
    Default,
}

impl<State, H> Router<State, H> {
    /// The patterns registered under `m`, in registration order.
    pub open spec fn patterns_of(self, m: Method) -> Seq<Seq<SegModel>> {
        match m {
            Method::Get => self.get_routes.patterns(),
            Method::Post => self.post_routes.patterns(),
            Method::Put => self.put_routes.patterns(),
            Method::Delete => self.delete_routes.patterns(),
            Method::Patch => self.patch_routes.patterns(),
            Method::Other => Seq::empty(),
        }
    }

    /// The handlers registered under `m`, in registration order.
    pub open spec fn handlers_of(self, m: Method) -> Seq<H> {
        match m {
            Method::Get => self.get_routes.handlers(),
            Method::Post => self.post_routes.handlers(),
            Method::Put => self.put_routes.handlers(),
            Method::Delete => self.delete_routes.handlers(),
            Method::Patch => self.patch_routes.handlers(),
            Method::Other => Seq::empty(),
        }
    }

    /// Every stored pattern is valid; established at construction and kept
    /// by every registration.
    pub open spec fn wf(self) -> bool {
        self.get_routes.wf() && self.post_routes.wf() && self.put_routes.wf()
            && self.delete_routes.wf() && self.patch_routes.wf()
    }

    /// A router with no routes and no fallback, carrying `state`. The state
    /// is set exactly once, here; nothing mutates it afterwards.
    pub fn with_state(state: State) -> (r: Router<State, H>)
        ensures
            r.wf(),
            forall|m: Method| #[trigger] r.patterns_of(m) == Seq::<Seq<SegModel>>::empty(),
            forall|m: Method| #[trigger] r.handlers_of(m) == Seq::<H>::empty(),
            r.fallback is None,
            r.state == state,
    {
        let r = Router {
            get_routes: RouteTable::empty(),
            post_routes: RouteTable::empty(),
            put_routes: RouteTable::empty(),
            delete_routes: RouteTable::empty(),
            patch_routes: RouteTable::empty(),
            fallback: None,
            state,
        };
        proof {
            assert forall|m: Method| #[trigger] r.patterns_of(m) =~= Seq::<
                Seq<SegModel>,
            >::empty() by {}
            assert forall|m: Method| #[trigger] r.handlers_of(m) =~= Seq::<H>::empty() by {}
        }
        r
    }

    /// What one registration call does: a malformed pattern is rejected with
    /// its configuration error and changes nothing; a valid one appends the
    /// route under its method and leaves everything else as it was.
    pub open spec fn register_effect(
        pre: Self,
        post: Self,
        m: Method,
        text: Seq<char>,
        h: H,
        r: Result<(), ConfigurationError>,
    ) -> bool {
        match pattern_error(text) {
            Some(e) => r == Err::<(), ConfigurationError>(e) && post == pre,
            None => r is Ok && post.patterns_of(m) == pre.patterns_of(m).push(
                pattern_segments(text),
            ) && post.handlers_of(m) == pre.handlers_of(m).push(h) && (forall|m2: Method|
                m2 != m ==> #[trigger] post.patterns_of(m2) == pre.patterns_of(m2)
                    && post.handlers_of(m2) == pre.handlers_of(m2)) && post.fallback == pre.fallback
                && post.state == pre.state,
        }
    }

    /// Registers `handler` under `m` and `path`.
    fn register(&mut self, m: Method, path: &str, handler: H) -> (r: Result<
        (),
        ConfigurationError,
    >)
        requires
            old(self).wf(),
            m != Method::Other,
        ensures
            final(self).wf(),
            Self::register_effect(*old(self), *final(self), m, path@, handler, r),
    {
        match Pattern::parse(path) {
            Err(e) => Err(e),
            Ok(pattern) => {
                let route = Route { pattern, handler };
                match m {
                    Method::Get => self.get_routes.add(route),
                    Method::Post => self.post_routes.add(route),
                    Method::Put => self.put_routes.add(route),
                    Method::Delete => self.delete_routes.add(route),
                    Method::Patch => self.patch_routes.add(route),
                    Method::Other => {},
                }
                Ok(())
            },
        }
    }

    /// Registers a handler for GET requests under `path`.
    pub fn get(&mut self, path: &str, handler: H) -> (r: Result<(), ConfigurationError>)
        requires
            old(self).wf(),
        ensures
            final(self).wf(),
            Self::register_effect(*old(self), *final(self), Method::Get, path@, handler, r),
    {
        self.register(Method::Get, path, handler)
    }

    /// Registers a handler for POST requests under `path`.
    pub fn post(&mut self, path: &str, handler: H) -> (r: Result<(), ConfigurationError>)
        requires
            old(self).wf(),
        ensures
            final(self).wf(),
            Self::register_effect(*old(self), *final(self), Method::Post, path@, handler, r),
    {
        self.register(Method::Post, path, handler)
    }

    /// Registers a handler for PUT requests under `path`.
    pub fn put(&mut self, path: &str, handler: H) -> (r: Result<(), ConfigurationError>)
        requires
            old(self).wf(),
        ensures
            final(self).wf(),
            Self::register_effect(*old(self), *final(self), Method::Put, path@, handler, r),
    {
        self.register(Method::Put, path, handler)
    }

    /// Registers a handler for DELETE requests under `path`.
    pub fn delete(&mut self, path: &str, handler: H) -> (r: Result<(), ConfigurationError>)
        requires
            old(self).wf(),
        ensures
            final(self).wf(),
            Self::register_effect(*old(self), *final(self), Method::Delete, path@, handler, r),
    {
        self.register(Method::Delete, path, handler)
    }

    /// Registers a handler for PATCH requests under `path`.
    pub fn patch(&mut self, path: &str, handler: H) -> (r: Result<(), ConfigurationError>)
        requires
            old(self).wf(),
        ensures
            final(self).wf(),
            Self::register_effect(*old(self), *final(self), Method::Patch, path@, handler, r),
    {
        self.register(Method::Patch, path, handler)
    }

    /// Installs the fallback handler invoked whenever no route matches; the
    /// last installed one wins. Routes and state stay as they were.
    pub fn not_found(&mut self, handler: H)
        requires
            old(self).wf(),
        ensures
            final(self).wf(),
            final(self).fallback == Some(handler),
            forall|m: Method| #[trigger] final(self).patterns_of(m) == old(self).patterns_of(m),
            forall|m: Method| #[trigger] final(self).handlers_of(m) == old(self).handlers_of(m),
            final(self).state == old(self).state,
    {
        self.fallback = Some(handler);
    }

    /// Decides which handler a request goes to. Only the table of the
    /// request's own method is consulted: a path registered under another
    /// method counts as unmatched. When no route matches, the fallback is
    /// chosen if one is installed, and the default not-found answer
    /// otherwise — dispatch itself never fails.
    pub fn dispatch(&self, method: Method, path: &str) -> (r: Dispatch)
        requires
            self.wf(),
        ensures
            match r {
                Dispatch::Matched { index, params } => {
                    &&& best_route(self.patterns_of(method), path_segments(path@), index as int)
                    &&& params@.pairs == captures(
                        self.patterns_of(method)[index as int],
                        path_segments(path@),
                    )
                    &&& params@.unnamed == anon_capture(
                        self.patterns_of(method)[index as int],
                        path_segments(path@),
                    )
                },
                Dispatch::NotFound => !some_route_matches(
                    self.patterns_of(method),
                    path_segments(path@),
                ) && self.fallback is Some,
                Dispatch::Default => !some_route_matches(
                    self.patterns_of(method),
                    path_segments(path@),
                ) && self.fallback is None,
            },
    {
        let segs = split_path(path);
        let found: Option<(usize, Params)> = match method {
            Method::Get => self.get_routes.find_match(&segs),
            Method::Post => self.post_routes.find_match(&segs),
            Method::Put => self.put_routes.find_match(&segs),
            Method::Delete => self.delete_routes.find_match(&segs),
            Method::Patch => self.patch_routes.find_match(&segs),
            Method::Other => None,
        };
        match found {
            Some((index, params)) => Dispatch::Matched { index, params },
            None => {
                if self.fallback.is_some() {
                    Dispatch::NotFound
                } else {
                    Dispatch::Default
                }
            },
        }
    }

    /// The handler of route `index` under `m`, if there is such a route; a
    /// `Dispatch::Matched` index always is.
    pub fn handler_at(&self, m: Method, index: usize) -> (r: Option<&H>)
        ensures
            match r {
                Some(h) => index < self.handlers_of(m).len() && *h == self.handlers_of(m)[index as int],
                None => index >= self.handlers_of(m).len(),
            },
    {
        match m {
            Method::Get => self.get_routes.handler_at(index),
            Method::Post => self.post_routes.handler_at(index),
            Method::Put => self.put_routes.handler_at(index),
            Method::Delete => self.delete_routes.handler_at(index),
            Method::Patch => self.patch_routes.handler_at(index),
            Method::Other => None,
        }
    }

    /// The installed fallback handler, if any.
    pub fn fallback_handler(&self) -> (r: Option<&H>)
        ensures
            match r {
                Some(h) => self.fallback == Some(*h),
                None => self.fallback is None,
            },
    {
        match &self.fallback {
            Some(h) => Some(h),
            None => None,
        }
    }
}

impl<H> Router<(), H> {
    /// A router with no routes, no fallback and unit state.
    pub fn new() -> (r: Router<(), H>)
        ensures
            r.wf(),
            forall|m: Method| #[trigger] r.patterns_of(m) == Seq::<Seq<SegModel>>::empty(),
            forall|m: Method| #[trigger] r.handlers_of(m) == Seq::<H>::empty(),
            r.fallback is None,
    {
        Router::with_state(())
    }
}

impl<H> Default for Router<(), H> {
    /// Same as `Router::new`.
    fn default() -> (r: Router<(), H>)
        ensures
            r.wf(),
            forall|m: Method| #[trigger] r.patterns_of(m) == Seq::<Seq<SegModel>>::empty(),
            forall|m: Method| #[trigger] r.handlers_of(m) == Seq::<H>::empty(),
            r.fallback is None,
    {
        Router::new()
    }
}

/// The precedence order is deterministic: for one method and path there is
/// at most one best route, so equal routers always dispatch a request the
/// same way.
pub proof fn lemma_best_route_unique(
    pats: Seq<Seq<SegModel>>,
    path: Seq<Seq<char>>,
    i: int,
    j: int,
)
    requires
        best_route(pats, path, i),
        best_route(pats, path, j),
    ensures
        i == j,
{
    if i != j {
        assert(route_matches(pats, path, i));
        assert(route_matches(pats, path, j));
        lemma_prefer_asymmetric(pats[i], pats[j]);
    }
}

/// A request whose method and path satisfy exactly one registered route is
/// dispatched to that route: with no ambiguous overlap, the sole matching
/// route is the best one, so `dispatch` hands back its handler index and its
/// captures.
pub proof fn lemma_sole_match_is_best(pats: Seq<Seq<SegModel>>, path: Seq<Seq<char>>, i: int)
    requires
        route_matches(pats, path, i),
        forall|j: int| #[trigger] route_matches(pats, path, j) ==> j == i,
    ensures
        best_route(pats, path, i),
{
}

} // verus!
