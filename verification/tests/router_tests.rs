use plaster::router::Router;

#[test]
fn basic_route_resolves_to_its_handler() {
    let mut router = Router::new("/".to_string());
    let idx = router.add_route("/route1");
    assert_eq!(idx, 0);

    router.navigate("/route1");
    assert_eq!(router.current_route(), "/route1");
    let m = router.resolve().expect("the path must match");
    assert_eq!(m.handler, 0);
    assert!(m.params.is_empty());
}

#[test]
fn route_with_param_captures_it() {
    let mut router = Router::new("/".to_string());
    router.add_route("/route1/:param");

    router.navigate("/route1/hello");
    let m = router.resolve().expect("the path must match");
    assert_eq!(m.handler, 0);
    assert_eq!(m.find("param").map(|s| s.as_str()), Some("hello"));
    assert_eq!(m.find("missing"), None);
}

#[test]
fn several_routes_resolve_to_distinct_handlers() {
    let mut router = Router::new("/".to_string());
    let a = router.add_route("/users");
    let b = router.add_route("/users/:id");
    let c = router.add_route("/about");
    assert_eq!((a, b, c), (0, 1, 2));

    router.set_route("/about");
    assert_eq!(router.resolve().expect("must match").handler, 2);

    router.set_route("/users/42");
    let m = router.resolve().expect("must match");
    assert_eq!(m.handler, 1);
    assert_eq!(m.find("id").map(|s| s.as_str()), Some("42"));

    router.set_route("/nowhere");
    assert!(router.resolve().is_none());
}

#[test]
fn wildcard_route_captures_the_rest() {
    let mut router = Router::new("/".to_string());
    router.add_route("/files/*path");
    router.navigate("/files/a/b/c");
    let m = router.resolve().expect("must match");
    assert_eq!(m.handler, 0);
    assert_eq!(m.find("path").map(|s| s.as_str()), Some("a/b/c"));
}
