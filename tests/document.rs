use route_docs::document::{body, cookie, header, parameter, query, response};
use route_docs::types::{integer, object, string};
use route_docs::{DocumentedBody, DocumentedResponse, DocumentedType, InternalDocumentedType, Method, RouteDocumentation};

#[test]
fn default_record_is_post_at_root() {
    let r = RouteDocumentation::default();
    assert_eq!(r.path, "/");
    assert_eq!(r.method, Method::Post);
    assert!(r.parameters.is_empty());
    assert!(r.headers.is_empty());
    assert!(r.responses.is_empty());
    assert!(r.description.is_none());
}

#[test]
fn second_header_of_same_name_is_ignored() {
    let mut r = RouteDocumentation::default();
    r.header(header("X-Trace").description("first"));
    r.header(header("X-Trace").description("second").required(false));
    assert_eq!(r.headers.len(), 1);
    assert_eq!(r.headers[0].description.as_deref(), Some("first"));
    assert!(r.headers[0].required);
}

#[test]
fn second_cookie_of_same_name_is_ignored() {
    let mut r = RouteDocumentation::default();
    r.cookie(cookie("session").required(false));
    r.cookie(cookie("session").description("other"));
    r.cookie(cookie("theme"));
    assert_eq!(r.cookies.len(), 2);
    assert!(!r.cookies[0].required);
    assert!(r.cookies[0].description.is_none());
    assert_eq!(r.cookies[1].name, "theme");
}

#[test]
fn second_response_of_same_status_is_ignored() {
    let mut r = RouteDocumentation::default();
    r.response(response(200, None).description("ok"));
    r.response(response(200, Some(body(string()))).description("replaced?"));
    assert_eq!(r.responses.len(), 1);
    assert_eq!(r.responses[0].description, "ok");
    assert!(r.responses[0].body.is_empty());
}

#[test]
fn second_body_of_same_mime_is_ignored() {
    let mut r = RouteDocumentation::default();
    r.body(body(integer()).mime("application/json"));
    r.body(body(string()).mime("application/json"));
    r.body(body(string()));
    assert_eq!(r.bodies.len(), 2);
    assert!(matches!(r.bodies[0].body, DocumentedType::Primitive { ty: InternalDocumentedType::Integer, .. }));
    assert_eq!(r.bodies[1].mime, None);
}

#[test]
fn response_builder_keeps_first_body_and_header() {
    let resp = DocumentedResponse::default()
        .status(201)
        .header(header("Location"))
        .header(header("Location").required(false))
        .body(DocumentedBody::default())
        .body(body(string()));
    assert_eq!(resp.status, 201);
    assert_eq!(resp.headers.len(), 1);
    assert!(resp.headers[0].required);
    assert_eq!(resp.body.len(), 1);
    assert!(matches!(resp.body[0].body, DocumentedType::Object { .. }));
}

#[test]
fn parameter_appends_placeholder_and_parameter() {
    let mut r = RouteDocumentation::default();
    r.parameter(parameter("id", integer()));
    assert_eq!(r.path, "/{0}");
    r.push_path("posts");
    r.parameter(parameter("post", string()).description("post id"));
    assert_eq!(r.path, "/{0}/posts/{1}");
    assert_eq!(r.parameters.len(), 2);
    assert_eq!(r.parameters[1].description.as_deref(), Some("post id"));
}

#[test]
fn pretty_path_names_the_placeholders() {
    let mut r = RouteDocumentation::default();
    r.push_path("users");
    r.parameter(parameter("id", integer()));
    r.push_path("posts");
    r.parameter(parameter("post", string()));
    assert_eq!(r.pretty_path(), "/users/{id}/posts/{post}");
    // The template itself is untouched, and the derivation repeats.
    assert_eq!(r.path, "/users/{0}/posts/{1}");
    assert_eq!(r.pretty_path(), "/users/{id}/posts/{post}");
}

#[test]
fn pretty_path_with_many_parameters() {
    let mut r = RouteDocumentation::default();
    for i in 0..12 {
        r.parameter(parameter(&format!("p{}", i), integer()));
    }
    assert!(r.path.ends_with("/{10}/{11}"));
    let pretty = r.pretty_path();
    assert!(pretty.starts_with("/{p0}/{p1}/"));
    assert!(pretty.ends_with("/{p10}/{p11}"));
    assert_eq!(pretty.matches('{').count(), 12);
}

#[test]
fn pretty_path_leaves_unknown_placeholders() {
    let mut r = RouteDocumentation::default();
    r.parameter(parameter("id", integer()));
    r.path.push_str("/{7}");
    assert_eq!(r.pretty_path(), "/{id}/{7}");
}

#[test]
fn push_path_adds_one_separator() {
    let mut r = RouteDocumentation::default();
    r.push_path("a");
    r.push_path("b");
    assert_eq!(r.path, "/a/b");
    let mut e = RouteDocumentation::default();
    e.path = String::new();
    e.push_path("x");
    assert_eq!(e.path, "/x");
}

#[test]
fn description_replaces_and_tags_accumulate() {
    let mut r = RouteDocumentation::default();
    r.description("one");
    r.description("two");
    r.tag("a");
    r.tag("b");
    assert_eq!(r.description.as_deref(), Some("two"));
    assert_eq!(r.tags, vec!["a".to_string(), "b".to_string()]);
}

#[test]
fn queries_keep_their_order() {
    let mut r = RouteDocumentation::default();
    r.query(query("page", integer()));
    r.query(query("page", integer()).required(false));
    assert_eq!(r.queries.len(), 2);
    assert!(!r.queries[1].required);
}

#[test]
fn clone_copies_everything() {
    let mut r = RouteDocumentation::default();
    r.parameter(parameter("id", route_docs::types::map(object(vec![("n".to_string(), integer())]))));
    r.header(header("h"));
    let c = r.clone();
    assert_eq!(c.path, r.path);
    assert_eq!(c.parameters.len(), 1);
    assert_eq!(c.headers[0].name, "h");
}
