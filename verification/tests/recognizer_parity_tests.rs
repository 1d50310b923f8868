//! The matcher agrees with the `route-recognizer` engine on the common
//! routing cases: plain literals, named parameters, and named wildcards.

use keiro::{Dispatch, Method, Params, Router};
use route_recognizer::Router as RecRouter;

fn keiro_match(pattern: &str, path: &str) -> Option<(u64, Params)> {
    let mut r: Router<(), u64> = Router::new();
    r.get(pattern, 1).unwrap();
    match r.dispatch(Method::Get, path) {
        Dispatch::Matched { index, params } => {
            Some((*r.handler_at(Method::Get, index).unwrap(), params))
        }
        _ => None,
    }
}

fn recognizer_match(pattern: &str, path: &str) -> Option<route_recognizer::Params> {
    let mut r: RecRouter<u64> = RecRouter::new();
    r.add(pattern, 1);
    r.recognize(path).ok().map(|m| m.params().clone())
}

fn both_agree(pattern: &str, path: &str, names: &[&str]) {
    let ours = keiro_match(pattern, path);
    let theirs = recognizer_match(pattern, path);
    match (&ours, &theirs) {
        (Some((_, ps)), Some(rec)) => {
            for name in names {
                assert_eq!(ps.find(name), rec.find(name), "capture {:?} differs", name);
            }
        }
        (None, None) => {}
        _ => panic!(
            "match outcome differs for {:?} against {:?}: ours = {}, theirs = {}",
            pattern,
            path,
            ours.is_some(),
            theirs.is_some()
        ),
    }
}

#[test]
fn literal_routes_agree() {
    both_agree("/thomas", "/thomas", &[]);
    both_agree("/thomas", "/tom", &[]);
    both_agree("/", "/", &[]);
    both_agree("/a/b/c", "/a/b/c", &[]);
    both_agree("/a/b/c", "/a/b", &[]);
}

#[test]
fn param_routes_agree() {
    both_agree("/posts/:id", "/posts/17", &["id"]);
    both_agree("/hello/:user1/from/:user2", "/hello/alice/from/bob", &["user1", "user2"]);
    both_agree("/posts/:id", "/posts", &["id"]);
    both_agree("/posts/:id", "/posts/1/2", &["id"]);
}

#[test]
fn wildcard_routes_agree() {
    both_agree("/hi/*path", "/hi/a/b/c", &["path"]);
    both_agree("/hi/*path", "/hi/x", &["path"]);
    both_agree("/hi/*path", "/hi", &["path"]);
}
