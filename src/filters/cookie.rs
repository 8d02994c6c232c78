//! Cookie filters, as they document a route.

use vstd::prelude::*;
use crate::document::{DocumentedCookie, DocumentedResponse, FieldView, ResponseView};
use crate::filter::{Any, ExplicitDocumentation, explicit, any};

verus! {

/// The response documented for a request that lacks a required cookie.
fn missing_cookie_response() -> (r: DocumentedResponse)
    ensures
        r@ == (ResponseView {
            body: Seq::empty(),
            description: "Bad Response"@,
            headers: Seq::empty(),
            status: 400,
        }),
{
    DocumentedResponse::default().status(400).description("Bad Response")
}

/// A filter that requires the cookie `name`: the route documents the cookie
/// as required, and a 400 response for requests without it.
pub fn cookie(name: &str) -> (r: ExplicitDocumentation<Any, (DocumentedResponse, DocumentedCookie)>)
    ensures
        r.describe.0@ == (ResponseView {
            body: Seq::empty(),
            description: "Bad Response"@,
            headers: Seq::empty(),
            status: 400,
        }),
        r.describe.1@ == (FieldView { name: name@, description: None, required: true }),
{
    let doc = DocumentedCookie { name: name.to_string(), description: None, required: true };
    explicit(any(), (missing_cookie_response(), doc))
}

/// A filter that reads the cookie `name` if it is there: the route
/// documents the cookie as optional.
pub fn optional(name: &str) -> (r: ExplicitDocumentation<Any, DocumentedCookie>)
    ensures
        r.describe@ == (FieldView { name: name@, description: None, required: false }),
{
    let doc = DocumentedCookie { name: name.to_string(), description: None, required: false };
    explicit(any(), doc)
}

} // verus!
