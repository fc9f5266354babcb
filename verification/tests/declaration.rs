use better_routes::ast::Method;
use better_routes::lexer::ParseErrorKind;
use better_routes::method_helper::{HandlerFn, MethodHelper, ModelImpl};
use better_routes::router::{EffectiveRejection, Outcome};
use better_routes::routes;
use better_routes::validate::{Routes, SemanticError};
use better_routes::CompileError;

fn bv(s: &str) -> Vec<u8> {
    s.as_bytes().to_vec()
}

fn parse_err(src: &str) -> (ParseErrorKind, usize) {
    match Routes::parse(&bv(src)) {
        Err(CompileError::Syntax(e)) => (e.kind, e.off),
        Err(CompileError::Semantic(_)) => panic!("expected a syntax error"),
        Ok(_) => panic!("expected the declaration to be refused"),
    }
}

fn semantic_err(src: &str) -> SemanticError {
    match Routes::parse(&bv(src)) {
        Err(CompileError::Semantic(e)) => e,
        Err(CompileError::Syntax(_)) => panic!("expected a semantic error"),
        Ok(_) => panic!("expected the declaration to be refused"),
    }
}

#[test]
fn syntax_errors_point_at_the_fault() {
    assert_eq!(parse_err("@"), (ParseErrorKind::IllegalByte, 0));
    assert_eq!(parse_err("\"/x"), (ParseErrorKind::UnterminatedString, 0));
    assert_eq!(parse_err("foo => X"), (ParseErrorKind::ExpectedClause, 0));
    assert_eq!(parse_err("state X"), (ParseErrorKind::ExpectedFatArrow, 6));
    assert_eq!(parse_err("state =>"), (ParseErrorKind::ExpectedIdent, 8));
    assert_eq!(parse_err("state => ,"), (ParseErrorKind::ExpectedIdent, 9));
    assert_eq!(
        parse_err("\"/\" => M { get => h } \"/x\" => N { get => h }"),
        (ParseErrorKind::ExpectedComma, 22)
    );
    assert_eq!(
        parse_err("\"/\" => M { fetch => h }"),
        (ParseErrorKind::ExpectedHandler, 11)
    );
    assert_eq!(
        parse_err("\"/\" => M { get => h"),
        (ParseErrorKind::UnexpectedEnd, 19)
    );
    assert_eq!(parse_err("\"\" => M { get => h }"), (ParseErrorKind::EmptyPath, 0));
    assert_eq!(
        parse_err("\"nope\" => M { get => h }"),
        (ParseErrorKind::PathNoLeadingSlash, 0)
    );
}

#[test]
fn duplicate_state_rejected_in_any_order() {
    let cases = [
        "state => A, state => B, \"/\" => M { get => h }",
        "state => A, \"/\" => M { get => h }, state => B",
        "\"/\" => M { get => h }, state => A, state => B",
        "rejection => R, state => A, \"/\" => M { get => h }, state => B",
    ];
    for src in cases.iter() {
        match semantic_err(src) {
            SemanticError::DuplicateState { .. } => {}
            _ => panic!("expected the duplicate state to be refused"),
        }
    }
}

#[test]
fn duplicate_rejection_rejected_in_any_order() {
    let cases = [
        "rejection => A, rejection => B, \"/\" => M { get => h }",
        "rejection => A, \"/\" => M { get => h }, rejection => B",
        "state => S, \"/\" => M { get => h }, rejection => A, rejection => B",
    ];
    for src in cases.iter() {
        match semantic_err(src) {
            SemanticError::DuplicateRejection { .. } => {}
            _ => panic!("expected the duplicate rejection to be refused"),
        }
    }
}

#[test]
fn duplicate_method_names_route_and_method() {
    match semantic_err("\"/a\" => M { get => h, post => p, get => h2 }") {
        SemanticError::DuplicateMethod { path, method, .. } => {
            assert_eq!(path, bv("/a"));
            assert!(matches!(method, Method::Get));
        }
        _ => panic!("expected the duplicate method to be refused"),
    }
}

#[test]
fn empty_handler_block_rejected() {
    match semantic_err("\"/a\" => M { }") {
        SemanticError::NoHandlers { model, .. } => assert_eq!(model, bv("M")),
        _ => panic!("expected the empty handler block to be refused"),
    }
}

#[test]
fn globals_without_routes_rejected() {
    match semantic_err("state => S,") {
        SemanticError::NoRoutes { .. } => {}
        _ => panic!("globals alone are a mistake"),
    }
    match semantic_err("rejection => R") {
        SemanticError::NoRoutes { .. } => {}
        _ => panic!("globals alone are a mistake"),
    }
    assert!(Routes::parse(&bv("")).is_ok());
}

#[test]
fn trailing_commas_and_whitespace_accepted() {
    let rt = match Routes::parse(&bv(" state => S ,\n \"/a\" => M { get => h , } ,\n")) {
        Ok(rt) => rt,
        Err(_) => panic!("trailing commas are permitted"),
    };
    assert_eq!(rt.state, Some(bv("S")));
    assert_eq!(rt.rejection, None);
    assert_eq!(rt.routes.len(), 1);
    assert_eq!(rt.routes[0].path, bv("/a"));
    assert_eq!(rt.routes[0].model, bv("M"));
}

#[test]
fn model_impl_resolves_marked_methods() {
    let helper = match MethodHelper::parse(&ModelImpl {
        model: bv("Todo"),
        fns: vec![
            HandlerFn {
                name: bv("show"),
                is_async: true,
                binds_model: true,
                markers: vec![bv("tracing"), bv("get")],
            },
            HandlerFn {
                name: bv("update"),
                is_async: true,
                binds_model: true,
                markers: vec![bv("put")],
            },
            HandlerFn {
                name: bv("helper_fn"),
                is_async: false,
                binds_model: false,
                markers: vec![bv("inline")],
            },
        ],
    }) {
        Ok(h) => h,
        Err(_) => panic!("a well-formed implementation block resolves"),
    };
    assert_eq!(helper.model, bv("Todo"));
    let methods = helper.methods();
    assert_eq!(methods.len(), 2);
    assert!(matches!(methods[0], Method::Get));
    assert!(matches!(methods[1], Method::Put));
    assert_eq!(helper.handlers.get, Some(bv("show")));
    assert_eq!(helper.handlers.put, Some(bv("update")));
    assert_eq!(helper.handlers.post, None);
    assert_eq!(helper.handlers.patch, None);
    assert_eq!(helper.handlers.delete, None);
}

#[test]
fn model_impl_rejects_bad_handlers() {
    match MethodHelper::parse(&ModelImpl {
        model: bv("Todo"),
        fns: vec![HandlerFn {
            name: bv("show"),
            is_async: false,
            binds_model: true,
            markers: vec![bv("get")],
        }],
    }) {
        Err(SemanticError::HandlerNotAsync { model, name }) => {
            assert_eq!(model, bv("Todo"));
            assert_eq!(name, bv("show"));
        }
        _ => panic!("a handler that cannot suspend is rejected"),
    }
    match MethodHelper::parse(&ModelImpl {
        model: bv("Todo"),
        fns: vec![HandlerFn {
            name: bv("show"),
            is_async: true,
            binds_model: false,
            markers: vec![bv("get")],
        }],
    }) {
        Err(SemanticError::HandlerDoesNotBindModel { model, name }) => {
            assert_eq!(model, bv("Todo"));
            assert_eq!(name, bv("show"));
        }
        _ => panic!("a handler that does not bind the model is rejected"),
    }
}

#[test]
fn surface_is_uniform_but_only_declared_methods_wired() {
    let helper = match MethodHelper::parse(&ModelImpl {
        model: bv("Todo"),
        fns: vec![HandlerFn {
            name: bv("show"),
            is_async: true,
            binds_model: true,
            markers: vec![bv("get")],
        }],
    }) {
        Ok(h) => h,
        Err(_) => panic!("resolves"),
    };
    let surface = helper.surface();
    match surface.get {
        better_routes::table::HandlerSlot::Declared(h) => assert_eq!(h, bv("show")),
        _ => panic!("the declared method keeps its handler"),
    }
    assert!(matches!(
        surface.post,
        better_routes::table::HandlerSlot::Synthesized
    ));
    assert!(matches!(
        surface.put,
        better_routes::table::HandlerSlot::Synthesized
    ));
    assert!(matches!(
        surface.patch,
        better_routes::table::HandlerSlot::Synthesized
    ));
    assert!(matches!(
        surface.delete,
        better_routes::table::HandlerSlot::Synthesized
    ));
    // The synthesized entries exist only for surface uniformity; the wired
    // table leaves those methods absent.
    assert!(helper.handlers.post.is_none());
    assert!(helper.handlers.delete.is_none());
}

#[test]
fn implicit_route_wires_declared_methods_only() {
    let router = match routes(
        &bv("\"/todo/:id\" => Todo"),
        &vec![ModelImpl {
            model: bv("Todo"),
            fns: vec![HandlerFn {
                name: bv("show"),
                is_async: true,
                binds_model: true,
                markers: vec![bv("get")],
            }],
        }],
    ) {
        Ok(r) => r,
        Err(_) => panic!("the implicit form builds"),
    };
    match router.dispatch(Method::Get, &bv("/todo/4")) {
        Outcome::Invoke { handler, params } => {
            assert_eq!(handler, bv("show"));
            assert_eq!(params.len(), 1);
            assert_eq!(params[0].value, bv("4"));
        }
        _ => panic!("the declared method is wired"),
    }
    assert!(matches!(
        router.dispatch(Method::Post, &bv("/todo/4")),
        Outcome::MethodNotAllowed
    ));
}

#[test]
fn model_with_zero_handlers_rejected() {
    let built = routes(
        &bv("\"/todo/:id\" => Todo"),
        &vec![ModelImpl {
            model: bv("Todo"),
            fns: vec![HandlerFn {
                name: bv("helper_fn"),
                is_async: false,
                binds_model: false,
                markers: Vec::new(),
            }],
        }],
    );
    match built {
        Err(CompileError::Semantic(SemanticError::NoHandlers { model, .. })) => {
            assert_eq!(model, bv("Todo"))
        }
        _ => panic!("a model with no declared handler has nothing to wire"),
    }
}

#[test]
fn literal_route_beats_capture_route() {
    let first = "\"/x/:id\" => Item { get => by_id }, \"/x/about\" => About { get => about }";
    let second = "\"/x/about\" => About { get => about }, \"/x/:id\" => Item { get => by_id }";
    for src in [first, second].iter() {
        let router = match routes(&bv(src), &Vec::new()) {
            Ok(r) => r,
            Err(_) => panic!("both routes build"),
        };
        match router.dispatch(Method::Get, &bv("/x/about")) {
            Outcome::Invoke { handler, .. } => assert_eq!(handler, bv("about")),
            _ => panic!("/x/about must dispatch to the literal route"),
        }
        match router.dispatch(Method::Get, &bv("/x/7")) {
            Outcome::Invoke { handler, params } => {
                assert_eq!(handler, bv("by_id"));
                assert_eq!(params[0].name, bv("id"));
                assert_eq!(params[0].value, bv("7"));
            }
            _ => panic!("other paths still reach the capture route"),
        }
    }
}

#[test]
fn unknown_path_is_not_found() {
    let router = match routes(&bv("\"/a\" => M { get => h }"), &Vec::new()) {
        Ok(r) => r,
        Err(_) => panic!("builds"),
    };
    assert!(matches!(
        router.dispatch(Method::Get, &bv("/b")),
        Outcome::NotFound
    ));
    assert!(matches!(
        router.dispatch(Method::Get, &bv("/a/b")),
        Outcome::NotFound
    ));
}

#[test]
fn default_rejection_is_the_host_default() {
    let router = match routes(&bv("\"/:id\" => M { get => h }"), &Vec::new()) {
        Ok(r) => r,
        Err(_) => panic!("builds"),
    };
    match router.dispatch(Method::Get, &bv("/%2")) {
        Outcome::Rejected(rv) => {
            assert!(matches!(rv.rejection, EffectiveRejection::HostDefault));
            assert_eq!(rv.param, bv("id"));
        }
        _ => panic!("a malformed capture is rejected"),
    }
}

#[test]
fn captured_values_are_percent_decoded() {
    let router = match routes(&bv("\"/:name\" => M { get => h }"), &Vec::new()) {
        Ok(r) => r,
        Err(_) => panic!("builds"),
    };
    match router.dispatch(Method::Get, &bv("/a%20b")) {
        Outcome::Invoke { params, .. } => assert_eq!(params[0].value, bv("a b")),
        _ => panic!("the encoded path matches"),
    }
}

#[test]
fn rendered_path_round_trips_through_dispatch() {
    let router = match routes(&bv("\"/files/:name\" => F { get => h }"), &Vec::new()) {
        Ok(r) => r,
        Err(_) => panic!("builds"),
    };
    let segs = match better_routes::path::parse_path(&bv("/files/:name")) {
        Ok(s) => s,
        Err(_) => panic!("template parses"),
    };
    let value = bv("a/b c%");
    let rendered = match better_routes::render::render_path(&segs, &vec![value.clone()]) {
        Some(p) => p,
        None => panic!("one value per capture"),
    };
    assert_eq!(rendered, bv("/files/a%2Fb%20c%25"));
    match router.dispatch(Method::Get, &rendered) {
        Outcome::Invoke { params, .. } => {
            assert_eq!(params.len(), 1);
            assert_eq!(params[0].name, bv("name"));
            assert_eq!(params[0].value, value);
        }
        _ => panic!("a rendered path must dispatch back to its route"),
    }
}

#[test]
fn wildcard_takes_possibly_empty_remainder() {
    let router = match routes(&bv("\"/*rest\" => M { get => h }"), &Vec::new()) {
        Ok(r) => r,
        Err(_) => panic!("builds"),
    };
    match router.dispatch(Method::Get, &bv("/")) {
        Outcome::Invoke { params, .. } => {
            assert_eq!(params[0].name, bv("rest"));
            assert_eq!(params[0].value, bv(""));
        }
        _ => panic!("the wildcard takes the remainder after the leading slash"),
    }
    match router.dispatch(Method::Get, &bv("/a/b/c")) {
        Outcome::Invoke { params, .. } => assert_eq!(params[0].value, bv("a/b/c")),
        _ => panic!("the wildcard takes the whole remainder"),
    }
}

#[test]
fn state_type_carried_through() {
    let router = match routes(
        &bv("state => AppState, \"/\" => M { get => h }"),
        &Vec::new(),
    ) {
        Ok(r) => r,
        Err(_) => panic!("builds"),
    };
    assert_eq!(router.state, Some(bv("AppState")));
    let stateless = match routes(&bv("\"/\" => M { get => h }"), &Vec::new()) {
        Ok(r) => r,
        Err(_) => panic!("builds"),
    };
    assert_eq!(stateless.state, None);
}
