use better_routes::ast::Method;
use better_routes::method_helper::{HandlerFn, ModelImpl};
use better_routes::router::{EffectiveRejection, Outcome, Router};
use better_routes::routes;
use better_routes::CompileError;

fn bv(s: &str) -> Vec<u8> {
    s.as_bytes().to_vec()
}

fn build(src: &str) -> Result<Router, CompileError> {
    routes(&bv(src), &Vec::new())
}

fn must_build(src: &str) -> Router {
    match build(src) {
        Ok(r) => r,
        Err(_) => panic!("declaration should build"),
    }
}

fn status(r: &Router, method: Method, path: &str) -> &'static str {
    match r.dispatch(method, &bv(path)) {
        Outcome::NotFound => "not_found",
        Outcome::MethodNotAllowed => "method_not_allowed",
        Outcome::Invoke { .. } => "ok",
        Outcome::Rejected(_) => "rejected",
    }
}

#[test]
fn test_all() {
    // Declarations that must build.
    assert!(build("\"/\" => Home { get => index },").is_ok());
    assert!(build("state => AppState, \"/:id\" => Product { get => get_product, post => create_product }").is_ok());
    let with_impl = routes(
        &bv("state => FooState, \"/:id\" => Foo"),
        &vec![ModelImpl {
            model: bv("Foo"),
            fns: vec![HandlerFn {
                name: bv("handle_get"),
                is_async: true,
                binds_model: true,
                markers: vec![bv("get")],
            }],
        }],
    );
    assert!(with_impl.is_ok());

    // Declarations that must be refused.
    assert!(build("\"about\" => About { get => about }").is_err());
    assert!(build("\"\" => Home { get => index }").is_err());
    assert!(build("state => S, state => S, \"/\" => Home { get => index }").is_err());
    assert!(build("\"/\" => Home { }").is_err());
    // An implicit-form route whose model has no handler implementation.
    assert!(build("\"/:id\" => Foo").is_err());
    // A marked handler that cannot suspend.
    let not_async = routes(
        &bv("\"/:id\" => Foo"),
        &vec![ModelImpl {
            model: bv("Foo"),
            fns: vec![HandlerFn {
                name: bv("handle_get"),
                is_async: false,
                binds_model: true,
                markers: vec![bv("get")],
            }],
        }],
    );
    assert!(not_async.is_err());
    // A marked handler whose first parameter does not bind the model.
    let no_self = routes(
        &bv("\"/:id\" => Foo"),
        &vec![ModelImpl {
            model: bv("Foo"),
            fns: vec![HandlerFn {
                name: bv("handle_get"),
                is_async: true,
                binds_model: false,
                markers: vec![bv("get")],
            }],
        }],
    );
    assert!(no_self.is_err());
}

#[test]
fn should_only_allow_get_request() {
    let router = must_build("\"/\" => HomePath { get => home },");
    assert_eq!(status(&router, Method::Get, "/"), "ok");
    assert_eq!(status(&router, Method::Post, "/"), "method_not_allowed");
    assert_eq!(status(&router, Method::Put, "/"), "method_not_allowed");
    assert_eq!(status(&router, Method::Delete, "/"), "method_not_allowed");
    assert_eq!(status(&router, Method::Patch, "/"), "method_not_allowed");
}

#[test]
fn should_only_allow_post_request() {
    let router = must_build("\"/\" => HomePath { post => home },");
    assert_eq!(status(&router, Method::Get, "/"), "method_not_allowed");
    assert_eq!(status(&router, Method::Post, "/"), "ok");
    assert_eq!(status(&router, Method::Put, "/"), "method_not_allowed");
    assert_eq!(status(&router, Method::Delete, "/"), "method_not_allowed");
    assert_eq!(status(&router, Method::Patch, "/"), "method_not_allowed");
}

#[test]
fn should_only_allow_put_request() {
    let router = must_build("\"/\" => HomePath { put => home },");
    assert_eq!(status(&router, Method::Get, "/"), "method_not_allowed");
    assert_eq!(status(&router, Method::Post, "/"), "method_not_allowed");
    assert_eq!(status(&router, Method::Put, "/"), "ok");
    assert_eq!(status(&router, Method::Delete, "/"), "method_not_allowed");
    assert_eq!(status(&router, Method::Patch, "/"), "method_not_allowed");
}

#[test]
fn should_only_allow_del_request() {
    let router = must_build("\"/\" => HomePath { delete => home },");
    assert_eq!(status(&router, Method::Get, "/"), "method_not_allowed");
    assert_eq!(status(&router, Method::Post, "/"), "method_not_allowed");
    assert_eq!(status(&router, Method::Put, "/"), "method_not_allowed");
    assert_eq!(status(&router, Method::Delete, "/"), "ok");
    assert_eq!(status(&router, Method::Patch, "/"), "method_not_allowed");
}

#[test]
fn should_only_allow_patch_request() {
    let router = must_build("\"/\" => HomePath { patch => home },");
    assert_eq!(status(&router, Method::Get, "/"), "method_not_allowed");
    assert_eq!(status(&router, Method::Post, "/"), "method_not_allowed");
    assert_eq!(status(&router, Method::Put, "/"), "method_not_allowed");
    assert_eq!(status(&router, Method::Delete, "/"), "method_not_allowed");
    assert_eq!(status(&router, Method::Patch, "/"), "ok");
}

#[test]
fn should_reject_with_global_rejection() {
    let router = must_build(
        "rejection => GlobalRejection, \"/:id\" => HomePath { post => home },",
    );
    assert_eq!(status(&router, Method::Get, "/123"), "method_not_allowed");
    assert_eq!(status(&router, Method::Post, "/123"), "ok");
    // A capture value that fails extraction is recovered into the global
    // rejection, never dropped.
    match router.dispatch(Method::Post, &bv("/%zz")) {
        Outcome::Rejected(rv) => {
            match rv.rejection {
                EffectiveRejection::Named(name) => assert_eq!(name, bv("GlobalRejection")),
                EffectiveRejection::HostDefault => panic!("expected the declared rejection"),
            }
            assert_eq!(rv.param, bv("id"));
        }
        _ => panic!("malformed capture must be rejected"),
    }
    assert_eq!(status(&router, Method::Put, "/123"), "method_not_allowed");
    assert_eq!(status(&router, Method::Delete, "/123"), "method_not_allowed");
    assert_eq!(status(&router, Method::Patch, "/123"), "method_not_allowed");
}

#[test]
fn should_reject_with_route_specific_rejection() {
    let router = must_build(
        "rejection => GlobalRejection, \
         \"/:id\" => HomePath { post => home }, \
         \"/user/:id\" => rejection UserRejection => UserPath { post => user }",
    );
    assert_eq!(status(&router, Method::Post, "/123"), "ok");
    match router.dispatch(Method::Post, &bv("/%zz")) {
        Outcome::Rejected(rv) => match rv.rejection {
            EffectiveRejection::Named(name) => assert_eq!(name, bv("GlobalRejection")),
            EffectiveRejection::HostDefault => panic!("expected the global rejection"),
        },
        _ => panic!("malformed capture must be rejected"),
    }
    assert_eq!(status(&router, Method::Post, "/user/123"), "ok");
    match router.dispatch(Method::Post, &bv("/user/%zz")) {
        Outcome::Rejected(rv) => match rv.rejection {
            EffectiveRejection::Named(name) => assert_eq!(name, bv("UserRejection")),
            EffectiveRejection::HostDefault => panic!("expected the route's own rejection"),
        },
        _ => panic!("malformed capture must be rejected"),
    }
}

#[test]
fn should_capture_wildcard() {
    let router = must_build("\"/*other\" => HomePath { post => home }");
    match router.dispatch(Method::Post, &bv("/hello/world")) {
        Outcome::Invoke { handler, params } => {
            assert_eq!(handler, bv("home"));
            assert_eq!(params.len(), 1);
            assert_eq!(params[0].name, bv("other"));
            assert_eq!(params[0].value, bv("hello/world"));
        }
        _ => panic!("wildcard route must match"),
    }
}

#[test]
fn all() {
    let router = must_build(
        "\"/:id/*rest\" => Home { get => get_som, post => get_som }, \
         \"/about\" => About { get => get_about },",
    );
    // The literal route wins over the capture route for its exact path.
    match router.dispatch(Method::Get, &bv("/about")) {
        Outcome::Invoke { handler, params } => {
            assert_eq!(handler, bv("get_about"));
            assert!(params.is_empty());
        }
        _ => panic!("/about must dispatch to the literal route"),
    }
    match router.dispatch(Method::Get, &bv("/7/a/b")) {
        Outcome::Invoke { handler, params } => {
            assert_eq!(handler, bv("get_som"));
            assert_eq!(params.len(), 2);
            assert_eq!(params[0].name, bv("id"));
            assert_eq!(params[0].value, bv("7"));
            assert_eq!(params[1].name, bv("rest"));
            assert_eq!(params[1].value, bv("a/b"));
        }
        _ => panic!("capture route must match"),
    }
}
