use keiro::{Dispatch, MakeRouterService, Method, Params, Router};

fn matched(d: Dispatch) -> (usize, Params) {
    match d {
        Dispatch::Matched { index, params } => (index, params),
        Dispatch::NotFound => panic!("expected a match, got the fallback"),
        Dispatch::Default => panic!("expected a match, got the default answer"),
    }
}

#[test]
fn named_params_are_captured() {
    let mut r: Router<(), u64> = Router::new();
    r.get("/hello/:user1/from/:user2", 1).unwrap();
    let (index, params) = matched(r.dispatch(Method::Get, "/hello/alice/from/bob"));
    assert_eq!(params.find("user1"), Some("alice"));
    assert_eq!(params.find("user2"), Some("bob"));
    assert_eq!(params.find("user3"), None);
    assert_eq!(r.handler_at(Method::Get, index), Some(&1));
}

#[test]
fn named_wildcard_captures_joined_remainder() {
    let mut r: Router<(), u64> = Router::new();
    r.get("/hi/*path", 2).unwrap();
    let (_, params) = matched(r.dispatch(Method::Get, "/hi/a/b/c"));
    assert_eq!(params.find("path"), Some("a/b/c"));
}

#[test]
fn anonymous_wildcard_contributes_no_named_capture() {
    let mut r: Router<(), u64> = Router::new();
    r.get("/files/*", 3).unwrap();
    let (_, params) = matched(r.dispatch(Method::Get, "/files/a/b"));
    assert_eq!(params.len(), 0);
    assert_eq!(params.find("path"), None);
    assert_eq!(params.unnamed_remainder(), Some("a/b"));
}

#[test]
fn wildcard_needs_a_nonempty_remainder() {
    let mut r: Router<(), u64> = Router::new();
    r.get("/hi/*path", 4).unwrap();
    assert!(matches!(r.dispatch(Method::Get, "/hi"), Dispatch::Default));
    assert!(matches!(r.dispatch(Method::Get, "/hi/"), Dispatch::Default));
}

#[test]
fn methods_are_dispatched_separately() {
    let mut r: Router<(), u64> = Router::new();
    r.get("/", 5).unwrap();
    assert!(matches!(r.dispatch(Method::Post, "/"), Dispatch::Default));
    let (index, _) = matched(r.dispatch(Method::Get, "/"));
    assert_eq!(r.handler_at(Method::Get, index), Some(&5));
    assert!(matches!(r.dispatch(Method::Other, "/"), Dispatch::Default));
}

#[test]
fn each_method_reaches_its_own_handler() {
    let mut r: Router<(), u64> = Router::new();
    r.get("/x", 1).unwrap();
    r.post("/x", 2).unwrap();
    r.put("/x", 3).unwrap();
    r.delete("/x", 4).unwrap();
    r.patch("/x", 5).unwrap();
    for (m, h) in [
        (Method::Get, 1u64),
        (Method::Post, 2),
        (Method::Put, 3),
        (Method::Delete, 4),
        (Method::Patch, 5),
    ] {
        let (index, _) = matched(r.dispatch(m, "/x"));
        assert_eq!(r.handler_at(m, index), Some(&h));
    }
}

#[test]
fn fallback_handler_takes_unmatched_requests() {
    let mut r: Router<(), u64> = Router::new();
    r.get("/", 6).unwrap();
    r.not_found(9);
    assert!(matches!(r.dispatch(Method::Get, "/missing"), Dispatch::NotFound));
    assert!(matches!(r.dispatch(Method::Post, "/"), Dispatch::NotFound));
    assert_eq!(r.fallback_handler(), Some(&9));
    // A matching request still goes to its route.
    let (index, _) = matched(r.dispatch(Method::Get, "/"));
    assert_eq!(r.handler_at(Method::Get, index), Some(&6));
}

#[test]
fn last_installed_fallback_wins() {
    let mut r: Router<(), u64> = Router::new();
    r.not_found(1);
    r.not_found(2);
    assert_eq!(r.fallback_handler(), Some(&2));
}

#[test]
fn default_answer_without_fallback() {
    let mut r: Router<(), u64> = Router::new();
    r.get("/", 7).unwrap();
    assert!(matches!(r.dispatch(Method::Get, "/missing"), Dispatch::Default));
}

#[test]
fn state_is_observed_unchanged() {
    let mut r: Router<String, u64> = Router::with_state("giraffate".to_string());
    r.get("/", 1).unwrap();
    r.get("/a/:x", 2).unwrap();
    r.not_found(3);
    let _ = matched(r.dispatch(Method::Get, "/a/b"));
    assert_eq!(r.state, "giraffate");
}

#[test]
fn literal_route_beats_param_route() {
    let mut r: Router<(), u64> = Router::new();
    r.get("/posts/:id", 1).unwrap();
    r.get("/posts/new", 2).unwrap();
    let (index, params) = matched(r.dispatch(Method::Get, "/posts/new"));
    assert_eq!(r.handler_at(Method::Get, index), Some(&2));
    assert_eq!(params.len(), 0);
    let (index, params) = matched(r.dispatch(Method::Get, "/posts/7"));
    assert_eq!(r.handler_at(Method::Get, index), Some(&1));
    assert_eq!(params.find("id"), Some("7"));
}

#[test]
fn param_route_beats_wildcard_route() {
    let mut r: Router<(), u64> = Router::new();
    r.get("/a/*w", 1).unwrap();
    r.get("/a/:x", 2).unwrap();
    let (index, params) = matched(r.dispatch(Method::Get, "/a/b"));
    assert_eq!(r.handler_at(Method::Get, index), Some(&2));
    assert_eq!(params.find("x"), Some("b"));
    // Two segments leave only the wildcard.
    let (index, params) = matched(r.dispatch(Method::Get, "/a/b/c"));
    assert_eq!(r.handler_at(Method::Get, index), Some(&1));
    assert_eq!(params.find("w"), Some("b/c"));
}

#[test]
fn shorter_pattern_beats_wildcard_extension() {
    let mut r: Router<(), u64> = Router::new();
    r.get("/a/:x/*rest", 1).unwrap();
    r.get("/a/:x", 2).unwrap();
    let (index, _) = matched(r.dispatch(Method::Get, "/a/b"));
    assert_eq!(r.handler_at(Method::Get, index), Some(&2));
    let (index, _) = matched(r.dispatch(Method::Get, "/a/b/c"));
    assert_eq!(r.handler_at(Method::Get, index), Some(&1));
}

#[test]
fn registration_order_breaks_remaining_ties() {
    let mut r: Router<(), u64> = Router::new();
    r.get("/a/:x", 1).unwrap();
    r.get("/a/:y", 2).unwrap();
    let (index, params) = matched(r.dispatch(Method::Get, "/a/z"));
    assert_eq!(index, 0);
    assert_eq!(r.handler_at(Method::Get, index), Some(&1));
    assert_eq!(params.find("x"), Some("z"));
}

#[test]
fn rejected_registration_changes_nothing() {
    let mut r: Router<(), u64> = Router::new();
    assert!(r.get("/a/*w/b", 1).is_err());
    assert!(r.get("/a/:x/:x", 2).is_err());
    assert!(matches!(r.dispatch(Method::Get, "/a/x/b"), Dispatch::Default));
}

#[test]
fn delimiters_collapse_in_paths() {
    let mut r: Router<(), u64> = Router::new();
    r.get("/hello", 1).unwrap();
    let (index, _) = matched(r.dispatch(Method::Get, "/hello/"));
    assert_eq!(r.handler_at(Method::Get, index), Some(&1));
    let (index, _) = matched(r.dispatch(Method::Get, "//hello"));
    assert_eq!(r.handler_at(Method::Get, index), Some(&1));
}

#[test]
fn independent_dispatches_share_nothing() {
    let mut r: Router<(), u64> = Router::new();
    r.get("/u/:name", 1).unwrap();
    let (_, first) = matched(r.dispatch(Method::Get, "/u/ada"));
    let (_, second) = matched(r.dispatch(Method::Get, "/u/bob"));
    // Each dispatch carries its own captures; an earlier one is unaffected
    // by a later one, in either order.
    assert_eq!(first.find("name"), Some("ada"));
    assert_eq!(second.find("name"), Some("bob"));
    let (_, again) = matched(r.dispatch(Method::Get, "/u/ada"));
    assert_eq!(again.find("name"), Some("ada"));
}

#[test]
fn handlers_may_be_heterogeneous_closures() {
    type Handler = Box<dyn Fn(&Params) -> String>;
    let mut r: Router<(), Handler> = Router::new();
    let greeting = "hello".to_string();
    r.get("/hello/:user", Box::new(move |p: &Params| {
        format!("{} {}", greeting, p.find("user").unwrap())
    }))
    .unwrap();
    r.get("/", Box::new(|_: &Params| "index".to_string())).unwrap();
    let (index, params) = matched(r.dispatch(Method::Get, "/hello/ada"));
    let handler = r.handler_at(Method::Get, index).unwrap();
    assert_eq!(handler(&params), "hello ada");
}

#[test]
fn make_service_wraps_the_inner_service() {
    let svc = MakeRouterService::new(41u64);
    assert_eq!(svc.inner, 41);
}

#[test]
fn empty_params_find_nothing() {
    let p = Params::empty();
    assert_eq!(p.find("anything"), None);
    assert_eq!(p.unnamed_remainder(), None);
    assert_eq!(p.len(), 0);
}

#[test]
fn default_router_is_empty() {
    let r: Router<(), u64> = Router::default();
    assert!(matches!(r.dispatch(Method::Get, "/"), Dispatch::Default));
}
