//! Route documentation for composable request filters: every filter
//! describes what it contributes to the routes it takes part in, the
//! combinators compose those descriptions, and the records convert into an
//! API description document.

pub mod document;
pub mod filter;
pub mod filters;
pub mod openapi;
pub mod text;
pub mod types;

pub use document::{
    body, cookie, header, parameter, query, response, DocumentedBody, DocumentedCookie,
    DocumentedHeader, DocumentedParameter, DocumentedQuery, DocumentedResponse, Method,
    RouteDocumentation,
};
pub use filter::{
    and, any, describe, description, document, explicit, mapped, or, param, segment, tag, tail, And,
    Any, Description, Documentable, DocumentedReply, ExplicitDocumentation, Filter, Mapped, Or,
    Segment, Tag,
};
pub use openapi::{
    documented_type_to_openapi, operation_for, to_openapi, OpenApi, Operation, Parameter,
    ParameterLocation, PathEntry, PathItem, Schema,
};
pub use types::{
    array, boolean, float, integer, object, one_of, string, DocumentedType,
    InternalDocumentedType, ToDocumentedType,
};
