use route_docs::document::{body, header, response};
use route_docs::filters::cookie;
use route_docs::types::{integer, object, string};
use route_docs::{
    and, any, describe, description, document, explicit, mapped, or, param, segment, tag, tail,
    DocumentedType, Filter, InternalDocumentedType, Method, RouteDocumentation,
};

fn users(method: Method) -> impl Filter {
    and(document(method), document(segment("users")))
}

#[test]
fn any_documents_nothing() {
    let routes = describe(&any());
    assert_eq!(routes.len(), 1);
    assert_eq!(routes[0].path, "/");
    assert_eq!(routes[0].method, Method::Post);
}

#[test]
fn capture_header_and_response_make_one_route() {
    let name_object = object(vec![("name".to_string(), string())]);
    let tree = and(
        document(Method::Get),
        and(
            param::<i32>("id", "the user"),
            and(document(header("X-Trace")), document(response(200, Some(body(name_object))))),
        ),
    );
    let routes = describe(&tree);
    assert_eq!(routes.len(), 1);
    let r = &routes[0];
    assert_eq!(r.method, Method::Get);
    assert_eq!(r.path, "/{0}");
    assert_eq!(r.pretty_path(), "/{id}");
    assert_eq!(r.parameters.len(), 1);
    assert_eq!(r.parameters[0].name, "id");
    assert_eq!(r.parameters[0].description.as_deref(), Some("the user"));
    assert!(matches!(
        r.parameters[0].type_,
        DocumentedType::Primitive { ty: InternalDocumentedType::Integer, .. }
    ));
    assert_eq!(r.headers.len(), 1);
    assert_eq!(r.headers[0].name, "X-Trace");
    assert!(r.headers[0].required);
    assert_eq!(r.responses.len(), 1);
    assert_eq!(r.responses[0].status, 200);
    assert_eq!(r.responses[0].body.len(), 1);
    match &r.responses[0].body[0].body {
        DocumentedType::Object { properties, .. } => {
            assert_eq!(properties.len(), 1);
            assert_eq!(properties[0].0, "name");
            assert!(matches!(
                properties[0].1,
                DocumentedType::Primitive { ty: InternalDocumentedType::String, .. }
            ));
        }
        other => panic!("expected an object body, got {:?}", other),
    }
}

#[test]
fn alternatives_make_one_route_each() {
    let routes = describe(&or(users(Method::Get), users(Method::Post)));
    assert_eq!(routes.len(), 2);
    assert_eq!(routes[0].method, Method::Get);
    assert_eq!(routes[1].method, Method::Post);
    assert_eq!(routes[0].path, "/users");
    assert_eq!(routes[1].path, "/users");
}

#[test]
fn branches_do_not_see_each_other() {
    let tree = or(document(tag("left")), document(tag("right")));
    let routes = describe(&tree);
    assert_eq!(routes[0].tags, vec!["left".to_string()]);
    assert_eq!(routes[1].tags, vec!["right".to_string()]);
}

#[test]
fn sequence_multiplies_and_alternatives_add() {
    let two = or(document(tag("a")), document(tag("b")));
    let three = or(document(tag("c")), or(document(tag("d")), document(tag("e"))));
    let product = and(two, three);
    let routes = describe(&product);
    assert_eq!(routes.len(), 6);
    assert_eq!(routes[0].tags, vec!["a".to_string(), "c".to_string()]);
    assert_eq!(routes[5].tags, vec!["b".to_string(), "e".to_string()]);
    let two = or(document(tag("a")), document(tag("b")));
    let three = or(document(tag("c")), or(document(tag("d")), document(tag("e"))));
    assert_eq!(describe(&or(two, three)).len(), 5);
}

#[test]
fn placeholders_match_parameters() {
    let tree = and(
        param::<u64>("user", "user id"),
        and(document(segment("files")), tail("rest", "file path")),
    );
    let routes = describe(&tree);
    assert_eq!(routes.len(), 1);
    let r = &routes[0];
    assert_eq!(r.path, "/{0}/files/{1}");
    let pretty = r.pretty_path();
    assert_eq!(pretty, "/{user}/files/{rest}");
    assert_eq!(pretty.matches('{').count(), r.parameters.len());
    assert!(matches!(
        r.parameters[1].type_,
        DocumentedType::Primitive { ty: InternalDocumentedType::String, .. }
    ));
}

#[test]
fn explicit_documentation_applies_once() {
    let f = explicit(any(), (description("Lists users.\nMore text."), tag("users")));
    let routes = describe(&f);
    assert_eq!(routes.len(), 1);
    assert_eq!(routes[0].description.as_deref(), Some("Lists users.\nMore text."));
    assert_eq!(routes[0].tags, vec!["users".to_string()]);
}

#[test]
fn explicit_documentation_does_not_ask_the_inner_filter() {
    let inner = document(tag("inner"));
    let f = explicit(inner, tag("outer"));
    let routes = describe(&f);
    assert_eq!(routes.len(), 1);
    assert_eq!(routes[0].tags, vec!["outer".to_string()]);
}

#[test]
fn mapping_to_plain_output_passes_records_through() {
    let f = mapped(or(document(tag("x")), document(tag("y"))), ());
    let routes = describe(&f);
    assert_eq!(routes.len(), 2);
    assert!(routes[0].responses.is_empty());
}

#[test]
fn mapping_to_a_reply_adds_its_response() {
    let reply = response(201, None).description("created");
    let f = mapped(or(document(tag("x")), document(tag("y"))), reply);
    let routes = describe(&f);
    assert_eq!(routes.len(), 2);
    for r in &routes {
        assert_eq!(r.responses.len(), 1);
        assert_eq!(r.responses[0].status, 201);
        assert_eq!(r.responses[0].description, "created");
    }
}

#[test]
fn required_cookie_documents_cookie_and_bad_request() {
    let routes = describe(&cookie::cookie("session"));
    assert_eq!(routes.len(), 1);
    let r = &routes[0];
    assert_eq!(r.cookies.len(), 1);
    assert_eq!(r.cookies[0].name, "session");
    assert!(r.cookies[0].required);
    assert_eq!(r.responses.len(), 1);
    assert_eq!(r.responses[0].status, 400);
    assert_eq!(r.responses[0].description, "Bad Response");
}

#[test]
fn optional_cookie_is_not_required() {
    let routes = describe(&cookie::optional("theme"));
    assert_eq!(routes[0].cookies.len(), 1);
    assert!(!routes[0].cookies[0].required);
    assert!(routes[0].responses.is_empty());
}

#[test]
fn describe_works_from_a_given_record() {
    let mut start = RouteDocumentation::default();
    start.push_path("api");
    let out = users(Method::Delete).describe(start);
    assert_eq!(out.len(), 1);
    assert_eq!(out[0].path, "/api/users");
    assert_eq!(out[0].method, Method::Delete);
}

#[test]
fn mapped_extraction_applies_the_callback() {
    let ok: Result<u32, String> = Ok(2);
    assert_eq!(route_docs::filter::map_extracted(ok, |x| x * 10), Ok((20,)));
    let rejected: Result<u32, String> = Err("missing".to_string());
    assert_eq!(route_docs::filter::map_extracted(rejected, |x| x * 10), Err("missing".to_string()));
}
