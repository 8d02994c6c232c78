use route_docs::document::{body, cookie, header, parameter, query, response};
use route_docs::openapi::SchemaData;
use route_docs::types::{array, boolean, float, integer, object, one_of, string};
use route_docs::{
    documented_type_to_openapi, operation_for, to_openapi, DocumentedType, Method,
    ParameterLocation, RouteDocumentation, Schema, ToDocumentedType,
};

fn data(s: &Schema) -> &SchemaData {
    match s {
        Schema::Boolean { data }
        | Schema::Number { data }
        | Schema::Integer { data }
        | Schema::String { data }
        | Schema::Array { data, .. }
        | Schema::Object { data, .. }
        | Schema::OneOf { data, .. } => data,
    }
}

fn route(method: Method, segment: &str) -> RouteDocumentation {
    let mut r = RouteDocumentation::default();
    r.method = method;
    r.push_path(segment);
    r
}

#[test]
fn integer_converts_to_integer_not_nullable() {
    let s = documented_type_to_openapi(&integer());
    assert!(matches!(s, Schema::Integer { .. }));
    assert!(!data(&s).nullable);
    assert!(data(&s).description.is_none());
}

#[test]
fn scalars_convert_to_their_kinds() {
    assert!(matches!(documented_type_to_openapi(&boolean()), Schema::Boolean { .. }));
    assert!(matches!(documented_type_to_openapi(&float()), Schema::Number { .. }));
    assert!(matches!(documented_type_to_openapi(&string()), Schema::String { .. }));
}

#[test]
fn overlays_are_copied() {
    let t = string()
        .description("a name")
        .nullable(true)
        .example(serde_json::Value::String("bob".to_string()));
    let s = documented_type_to_openapi(&t);
    assert!(data(&s).nullable);
    assert_eq!(data(&s).description.as_deref(), Some("a name"));
    assert_eq!(data(&s).example, Some(serde_json::Value::String("bob".to_string())));
}

#[test]
fn composites_convert_recursively() {
    let t = object(vec![
        ("tags".to_string(), array(string())),
        ("extra".to_string(), route_docs::types::map(integer())),
        ("either".to_string(), one_of(vec![integer(), boolean()])),
    ]);
    let s = documented_type_to_openapi(&t);
    match s {
        Schema::Object { properties, additional_properties, .. } => {
            assert!(additional_properties.is_none());
            assert_eq!(properties.len(), 3);
            assert_eq!(properties[0].0, "tags");
            match &properties[0].1 {
                Schema::Array { items, .. } => assert!(matches!(**items, Schema::String { .. })),
                other => panic!("expected an array, got {:?}", other),
            }
            match &properties[1].1 {
                Schema::Object { properties, additional_properties, .. } => {
                    assert!(properties.is_empty());
                    assert!(matches!(additional_properties.as_deref(), Some(Schema::Integer { .. })));
                }
                other => panic!("expected a map object, got {:?}", other),
            }
            match &properties[2].1 {
                Schema::OneOf { one_of, .. } => {
                    assert_eq!(one_of.len(), 2);
                    assert!(matches!(one_of[1], Schema::Boolean { .. }));
                }
                other => panic!("expected one-of, got {:?}", other),
            }
        }
        other => panic!("expected an object, got {:?}", other),
    }
}

#[test]
fn native_types_document_themselves() {
    assert!(matches!(
        <Vec<u8> as ToDocumentedType>::document(),
        DocumentedType::Array { .. }
    ));
    assert!(matches!(
        <std::collections::HashMap<String, String> as ToDocumentedType>::document(),
        DocumentedType::Dictionary { .. }
    ));
    assert!(matches!(<isize as ToDocumentedType>::document(), DocumentedType::Primitive { .. }));
    assert!(matches!(<&str as ToDocumentedType>::document(), DocumentedType::Primitive { .. }));
}

#[test]
fn same_path_and_method_keeps_the_first() {
    let mut a = route(Method::Get, "users");
    a.description("first");
    let mut b = route(Method::Get, "users");
    b.description("second");
    b.tag("late");
    let doc = to_openapi(vec![a, b]);
    assert_eq!(doc.paths.len(), 1);
    assert_eq!(doc.paths[0].path, "/users");
    let op = doc.paths[0].item.get.as_ref().unwrap();
    assert_eq!(op.description.as_deref(), Some("first"));
    assert!(op.tags.is_empty());
    assert!(doc.paths[0].item.post.is_none());
}

#[test]
fn methods_of_one_path_share_an_entry() {
    let a = route(Method::Get, "users");
    let b = route(Method::Post, "users");
    let c = route(Method::Delete, "items");
    let doc = to_openapi(vec![a, b, c]);
    assert_eq!(doc.openapi, "3.0.0");
    assert_eq!(doc.paths.len(), 2);
    assert_eq!(doc.paths[0].path, "/users");
    assert!(doc.paths[0].item.get.is_some());
    assert!(doc.paths[0].item.post.is_some());
    assert_eq!(doc.paths[1].path, "/items");
    assert!(doc.paths[1].item.delete.is_some());
    assert!(doc.paths[1].item.get.is_none());
}

#[test]
fn paths_are_grouped_by_pretty_path() {
    let mut a = RouteDocumentation::default();
    a.parameter(parameter("id", integer()));
    a.method = Method::Get;
    let mut b = RouteDocumentation::default();
    b.parameter(parameter("id", integer()));
    b.method = Method::Put;
    let doc = to_openapi(vec![a, b]);
    assert_eq!(doc.paths.len(), 1);
    assert_eq!(doc.paths[0].path, "/{id}");
    assert!(doc.paths[0].item.put.is_some());
}

#[test]
fn responses_come_out_in_ascending_status() {
    let mut r = route(Method::Get, "x");
    r.response(response(404, None).description("missing"));
    r.response(response(200, None).description("found"));
    r.response(response(301, None));
    let op = operation_for(&r);
    let statuses: Vec<u16> = op.responses.iter().map(|x| x.status).collect();
    assert_eq!(statuses, vec![200, 301, 404]);
    assert_eq!(op.responses[0].description, "found");
}

#[test]
fn summary_is_the_first_line() {
    let mut r = route(Method::Get, "x");
    r.description("Short.\r\nLonger text.");
    let op = operation_for(&r);
    assert_eq!(op.summary.as_deref(), Some("Short."));
    assert_eq!(op.description.as_deref(), Some("Short.\r\nLonger text."));
    let mut one = route(Method::Get, "x");
    one.description("Only line");
    assert_eq!(operation_for(&one).summary.as_deref(), Some("Only line"));
    let mut empty = route(Method::Get, "x");
    empty.description("");
    assert_eq!(operation_for(&empty).summary, None);
    assert_eq!(operation_for(&route(Method::Get, "x")).summary, None);
}

#[test]
fn request_body_is_required_when_declared() {
    let mut r = route(Method::Post, "x");
    assert!(!operation_for(&r).request_body.required);
    r.body(body(string()));
    r.body(body(integer()).mime("application/json"));
    let op = operation_for(&r);
    assert!(op.request_body.required);
    assert_eq!(op.request_body.content.len(), 2);
    assert_eq!(op.request_body.content[0].mime, "*/*");
    assert_eq!(op.request_body.content[1].mime, "application/json");
    assert!(matches!(op.request_body.content[1].schema, Schema::Integer { .. }));
}

#[test]
fn parameters_are_listed_by_location() {
    let mut r = route(Method::Get, "x");
    r.cookie(cookie("c"));
    r.query(query("q", integer()).required(false));
    r.header(header("h").description("a header"));
    r.parameter(parameter("p", integer()));
    let op = operation_for(&r);
    let locations: Vec<ParameterLocation> = op.parameters.iter().map(|p| p.location).collect();
    assert_eq!(
        locations,
        vec![ParameterLocation::Path, ParameterLocation::Header, ParameterLocation::Query, ParameterLocation::Cookie]
    );
    assert!(op.parameters.iter().all(|p| !p.deprecated));
    assert!(matches!(op.parameters[0].schema, Schema::Integer { .. }));
    assert!(matches!(op.parameters[2].schema, Schema::Integer { .. }));
    assert!(matches!(op.parameters[1].schema, Schema::String { .. }));
    assert!(!op.parameters[2].required);
    assert_eq!(op.parameters[1].description.as_deref(), Some("a header"));
}

#[test]
fn response_headers_and_content_convert() {
    let mut r = route(Method::Get, "x");
    let resp = response(200, Some(body(integer()).mime("text/plain"))).header(header("ETag").required(false));
    r.response(resp);
    let op = operation_for(&r);
    let out = &op.responses[0];
    assert_eq!(out.headers.len(), 1);
    assert_eq!(out.headers[0].name, "ETag");
    assert!(!out.headers[0].required);
    assert_eq!(out.content[0].mime, "text/plain");
}

#[test]
fn no_routes_no_paths() {
    let doc = to_openapi(Vec::new());
    assert!(doc.paths.is_empty());
    assert_eq!(doc.openapi, "3.0.0");
}

#[test]
fn first_response_of_a_status_is_kept() {
    let mut r = route(Method::Get, "x");
    r.responses.push(response(404, None).description("first"));
    r.responses.push(response(200, None).description("ok"));
    r.responses.push(response(404, None).description("second"));
    let op = operation_for(&r);
    let statuses: Vec<u16> = op.responses.iter().map(|x| x.status).collect();
    assert_eq!(statuses, vec![200, 404]);
    assert_eq!(op.responses[1].description, "first");
}

#[test]
fn first_record_wins_among_many() {
    let mut a = route(Method::Get, "x");
    a.description("a");
    let mut b = route(Method::Post, "x");
    b.description("b");
    let mut c = route(Method::Get, "x");
    c.description("c");
    let mut d = route(Method::Post, "y");
    d.description("d");
    let doc = to_openapi(vec![a, b, c, d]);
    assert_eq!(doc.paths.len(), 2);
    assert_eq!(doc.paths[0].item.get.as_ref().unwrap().description.as_deref(), Some("a"));
    assert_eq!(doc.paths[0].item.post.as_ref().unwrap().description.as_deref(), Some("b"));
    assert_eq!(doc.paths[1].item.post.as_ref().unwrap().description.as_deref(), Some("d"));
}

#[test]
fn nested_overlays_are_carried() {
    let t = array(integer().nullable(true)).description("list");
    match documented_type_to_openapi(&t) {
        Schema::Array { data, items } => {
            assert!(!data.nullable);
            assert_eq!(data.description.as_deref(), Some("list"));
            assert!(matches!(*items, Schema::Integer { ref data } if data.nullable));
        }
        other => panic!("expected an array, got {:?}", other),
    }
}
