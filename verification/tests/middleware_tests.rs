use awpak_rs::services::main_service::{
    advance_post, advance_pre, after_endpoint, error_io, next_applicable, pipeline_start,
    PipelineState,
};
use awpak_rs::services::middleware::{
    initialize_middlewares, middleware_applicable, Middleware, MiddlewareExecOrder,
};

fn pre_mw(order: usize) -> Middleware {
    Middleware::new(None, order, None, MiddlewareExecOrder::PRE)
}

#[test]
fn test_middleware_order_regardless_of_registration() {
    // Orders 5, 1, 10 registered in that order run as 1, 5, 10.
    let tables = initialize_middlewares(vec![pre_mw(5), pre_mw(1), pre_mw(10)]);
    let orders: Vec<usize> = tables.pre.iter().map(|m| m.order).collect();
    assert_eq!(orders, vec![1, 5, 10]);

    // The same three registered in another order still run as 1, 5, 10.
    let tables = initialize_middlewares(vec![pre_mw(10), pre_mw(5), pre_mw(1)]);
    let orders: Vec<usize> = tables.pre.iter().map(|m| m.order).collect();
    assert_eq!(orders, vec![1, 5, 10]);
}

#[test]
fn test_middleware_phase_split() {
    let tables = initialize_middlewares(vec![
        Middleware::new(None, 2, None, MiddlewareExecOrder::POST),
        pre_mw(1),
        Middleware::new(None, 1, None, MiddlewareExecOrder::POST),
    ]);
    assert_eq!(tables.pre.len(), 1);
    assert_eq!(tables.post.len(), 2);
    assert_eq!(tables.post[0].order, 1);
    assert_eq!(tables.post[1].order, 2);
}

#[test]
fn test_method_filter() {
    let m = Middleware::new(None, 1, Some("get".to_string()), MiddlewareExecOrder::PRE);
    assert!(middleware_applicable(&m, "GET", "/a"));
    assert!(!middleware_applicable(&m, "POST", "/a"));
}

#[test]
fn test_url_filter_regex() {
    let m = Middleware::new(
        Some("^/api".to_string()),
        1,
        None,
        MiddlewareExecOrder::PRE,
    );
    assert!(middleware_applicable(&m, "get", "/api/users"));
    assert!(!middleware_applicable(&m, "get", "/web/users"));

    // a pattern that does not compile applies to nothing
    let bad = Middleware::new(Some("(".to_string()), 1, None, MiddlewareExecOrder::PRE);
    assert!(!middleware_applicable(&bad, "get", "/api"));
}

#[test]
fn test_cancellation_skips_router_and_handler() {
    let tables = initialize_middlewares(vec![pre_mw(1), pre_mw(2)]);

    let start = pipeline_start(&tables.pre, "get", "/a");
    assert_eq!(start, PipelineState::RunPre(0));

    // the first middleware cancels: the pipeline goes straight to response
    // assembly, never to the router or the handler
    let after_cancel = advance_pre(&tables.pre, 0, true, "get", "/a");
    assert_eq!(after_cancel, PipelineState::Respond);
    assert_ne!(after_cancel, PipelineState::RunEndpoint);

    // without cancellation it walks forward and then routes
    let next = advance_pre(&tables.pre, 0, false, "get", "/a");
    assert_eq!(next, PipelineState::RunPre(1));
    let done = advance_pre(&tables.pre, 1, false, "get", "/a");
    assert_eq!(done, PipelineState::RunEndpoint);
}

#[test]
fn test_post_phase_walks_and_cancels() {
    let tables = initialize_middlewares(vec![
        Middleware::new(None, 1, None, MiddlewareExecOrder::POST),
        Middleware::new(None, 2, None, MiddlewareExecOrder::POST),
    ]);

    let first = after_endpoint(&tables.post, "get", "/a");
    assert_eq!(first, PipelineState::RunPost(0));

    let second = advance_post(&tables.post, 0, false, "get", "/a");
    assert_eq!(second, PipelineState::RunPost(1));

    let done = advance_post(&tables.post, 1, false, "get", "/a");
    assert_eq!(done, PipelineState::Respond);

    let cancelled = advance_post(&tables.post, 0, true, "get", "/a");
    assert_eq!(cancelled, PipelineState::Respond);
}

#[test]
fn test_next_applicable_skips_filtered() {
    let table = vec![
        Middleware::new(None, 1, Some("post".to_string()), MiddlewareExecOrder::PRE),
        pre_mw(2),
    ];
    assert_eq!(next_applicable(&table, 0, "get", "/a"), Some(1));
    assert_eq!(next_applicable(&table, 2, "get", "/a"), None);
}

#[test]
fn test_error_io_shape() {
    let e = awpak_rs::services::error::Error::EndpointNotFound("x".to_string());
    let io = error_io(&e);
    assert_eq!(io.response.status, 404);

    let e = awpak_rs::services::error::Error::EndpointExecution("x".to_string());
    let io = error_io(&e);
    assert_eq!(io.response.status, 500);
    match &io.response.body {
        Some(awpak_rs::parser::value::JsonValue::Str(s)) => assert_eq!(s, "Server Error"),
        _ => panic!("expected the generic error body"),
    }
}
