//! The API description document and the conversion of route documentation
//! records into it.

use vstd::prelude::*;
use crate::document::{RouteDocumentation, DocumentedBody, DocumentedResponse, Method, RouteView, ParamView, FieldView, BodyView, ResponseView, views};
use crate::types::{DocumentedType, InternalDocumentedType, TypeView, Overlay, copy_text, copy_example};

verus! {

/// The overlays of a schema node.
#[derive(Debug)]
pub struct SchemaData {
    pub description: Option<String>,
    pub example: Option<serde_json::Value>,
    pub nullable: bool,
}

/// The view of a schema node's overlays.
pub struct DataView {
    pub description: Option<Seq<char>>,
    pub example: Option<serde_json::Value>,
    pub nullable: bool,
}

impl View for SchemaData {
    type V = DataView;

    open spec fn view(&self) -> DataView {
        DataView {
            description: crate::types::text_view(self.description),
            example: self.example,
            nullable: self.nullable,
        }
    }
}

/// A schema node of the API description.
#[derive(Debug)]
pub enum Schema {
    Boolean { data: SchemaData },
    Number { data: SchemaData },
    Integer { data: SchemaData },
    String { data: SchemaData },
    Array { data: SchemaData, items: Box<Schema> },
    Object {
        data: SchemaData,
        properties: Vec<(String, Schema)>,
        additional_properties: Option<Box<Schema>>,
    },
    OneOf { data: SchemaData, one_of: Vec<Schema> },
}

/// The view of a schema node.
pub enum SchemaView {
    Boolean { data: DataView },
    Number { data: DataView },
    Integer { data: DataView },
    String { data: DataView },
    Array { data: DataView, items: Box<SchemaView> },
    Object {
        data: DataView,
        properties: Seq<(Seq<char>, SchemaView)>,
        additional_properties: Option<Box<SchemaView>>,
    },
    OneOf { data: DataView, one_of: Seq<SchemaView> },
}

impl SchemaView {
    pub open spec fn data(self) -> DataView {
        match self {
            SchemaView::Boolean { data } => data,
            SchemaView::Number { data } => data,
            SchemaView::Integer { data } => data,
            SchemaView::String { data } => data,
            SchemaView::Array { data, .. } => data,
            SchemaView::Object { data, .. } => data,
            SchemaView::OneOf { data, .. } => data,
        }
    }

    /// The scalar kind of a primitive node.
    pub open spec fn scalar_kind(self) -> Option<InternalDocumentedType> {
        match self {
            SchemaView::Boolean { .. } => Some(InternalDocumentedType::Boolean),
            SchemaView::Number { .. } => Some(InternalDocumentedType::Float),
            SchemaView::Integer { .. } => Some(InternalDocumentedType::Integer),
            SchemaView::String { .. } => Some(InternalDocumentedType::String),
            _ => None,
        }
    }

    /// A plain string schema with no overlays.
    pub open spec fn plain_string() -> SchemaView {
        SchemaView::String { data: DataView { description: None, example: None, nullable: false } }
    }
}

pub open spec fn schema_view(s: Schema) -> SchemaView
    decreases s,
{
    match s {
        Schema::Boolean { data } => SchemaView::Boolean { data: data@ },
        Schema::Number { data } => SchemaView::Number { data: data@ },
        Schema::Integer { data } => SchemaView::Integer { data: data@ },
        Schema::String { data } => SchemaView::String { data: data@ },
        Schema::Array { data, items } => SchemaView::Array { data: data@, items: Box::new(schema_view(*items)) },
        Schema::Object { data, properties, additional_properties } => SchemaView::Object {
            data: data@,
            properties: Seq::new(
                properties.len() as nat,
                |i: int|
                    if 0 <= i < properties.len() {
                        (properties[i].0@, schema_view(properties[i].1))
                    } else {
                        (Seq::empty(), SchemaView::plain_string())
                    },
            ),
            additional_properties: match additional_properties {
                Some(b) => Some(Box::new(schema_view(*b))),
                None => None,
            },
        },
        Schema::OneOf { data, one_of } => SchemaView::OneOf {
            data: data@,
            one_of: Seq::new(
                one_of.len() as nat,
                |i: int|
                    if 0 <= i < one_of.len() {
                        schema_view(one_of[i])
                    } else {
                        SchemaView::plain_string()
                    },
            ),
        },
    }
}

impl View for Schema {
    type V = SchemaView;

    open spec fn view(&self) -> SchemaView {
        schema_view(*self)
    }
}

/// The overlays of a descriptor as a schema carries them: nullability
/// defaults to false.
pub open spec fn data_for(meta: Overlay) -> DataView {
    DataView {
        description: meta.description,
        example: meta.example,
        nullable: match meta.nullable {
            Some(b) => b,
            None => false,
        },
    }
}

/// The schema node a descriptor converts to.
pub open spec fn schema_for(t: TypeView) -> SchemaView
    decreases t,
{
    match t {
        TypeView::Array { ty, meta } => SchemaView::Array { data: data_for(meta), items: Box::new(schema_for(*ty)) },
        TypeView::Dictionary { value_type, meta } => SchemaView::Object {
            data: data_for(meta),
            properties: Seq::empty(),
            additional_properties: Some(Box::new(schema_for(*value_type))),
        },
        TypeView::Object { properties, meta } => SchemaView::Object {
            data: data_for(meta),
            properties: Seq::new(
                properties.len(),
                |i: int|
                    if 0 <= i < properties.len() {
                        (properties[i].0, schema_for(properties[i].1))
                    } else {
                        (Seq::empty(), SchemaView::plain_string())
                    },
            ),
            additional_properties: None,
        },
        TypeView::OneOf { variants, meta } => SchemaView::OneOf {
            data: data_for(meta),
            one_of: Seq::new(
                variants.len(),
                |i: int|
                    if 0 <= i < variants.len() {
                        schema_for(variants[i])
                    } else {
                        SchemaView::plain_string()
                    },
            ),
        },
        TypeView::Primitive { ty, meta } => match ty {
            InternalDocumentedType::Boolean => SchemaView::Boolean { data: data_for(meta) },
            InternalDocumentedType::Float => SchemaView::Number { data: data_for(meta) },
            InternalDocumentedType::Integer => SchemaView::Integer { data: data_for(meta) },
            InternalDocumentedType::String => SchemaView::String { data: data_for(meta) },
        },
    }
}

fn data_from(description: &Option<String>, example: &Option<serde_json::Value>, nullable: &Option<bool>) -> (r: SchemaData)
    ensures
        r@ == data_for(crate::types::overlay_of(*description, *example, *nullable)),
{
    SchemaData {
        description: copy_text(description),
        example: copy_example(example),
        nullable: match nullable {
            Some(b) => *b,
            None => false,
        },
    }
}

/// Converts a descriptor, recursively, to the schema node it stands for.
pub fn documented_type_to_openapi(t: &DocumentedType) -> (r: Schema)
    ensures
        r@ == schema_for(t@),
    decreases t,
{
    match t {
        DocumentedType::Array { ty, description, example, nullable } => {
            proof {
                assert(decreases_to!(*t => t->Array_ty));
            }
            let items = documented_type_to_openapi(ty);
            Schema::Array { data: data_from(description, example, nullable), items: Box::new(items) }
        },
        DocumentedType::Dictionary { value_type, description, example, nullable } => {
            proof {
                assert(decreases_to!(*t => t->Dictionary_value_type));
            }
            let inner = documented_type_to_openapi(value_type);
            let r = Schema::Object {
                data: data_from(description, example, nullable),
                properties: Vec::new(),
                additional_properties: Some(Box::new(inner)),
            };
            proof {
                if let SchemaView::Object { properties: a, .. } = r@ {
                    assert(a =~= Seq::empty());
                }
            }
            r
        },
        DocumentedType::Object { properties, description, example, nullable } => {
            let mut out: Vec<(String, Schema)> = Vec::new();
            let mut i: usize = 0;
            while i < properties.len()
                invariant
                    i <= properties.len(),
                    *t == (DocumentedType::Object {
                        properties: *properties,
                        description: *description,
                        example: *example,
                        nullable: *nullable,
                    }),
                    out.len() == i,
                    forall|k: int|
                        0 <= k < i ==> (#[trigger] out@[k]).0@ == properties@[k].0@ && schema_view(
                            out@[k].1,
                        ) == schema_for(crate::types::type_view(properties@[k].1)),
                decreases properties.len() - i,
            {
                proof {
                    broadcast use vstd::std_specs::vec::axiom_vec_index_decreases;

                    assert(decreases_to!(*properties => properties[i as int]));
                    assert(decreases_to!(properties[i as int] => properties[i as int].1));
                    assert(decreases_to!(*t => t->properties));
                    assert(decreases_to!(*t => properties[i as int].1));
                }
                let name = properties[i].0.clone();
                let v = documented_type_to_openapi(&properties[i].1);
                out.push((name, v));
                i = i + 1;
            }
            let r = Schema::Object {
                data: data_from(description, example, nullable),
                properties: out,
                additional_properties: None,
            };
            proof {
                if let SchemaView::Object { properties: a, .. } = r@ {
                    if let SchemaView::Object { properties: b, .. } = schema_for(t@) {
                        assert(a =~= b);
                    }
                }
            }
            r
        },
        DocumentedType::OneOf { variants, description, example, nullable } => {
            let mut out: Vec<Schema> = Vec::new();
            let mut i: usize = 0;
            while i < variants.len()
                invariant
                    i <= variants.len(),
                    *t == (DocumentedType::OneOf {
                        variants: *variants,
                        description: *description,
                        example: *example,
                        nullable: *nullable,
                    }),
                    out.len() == i,
                    forall|k: int|
                        0 <= k < i ==> schema_view(#[trigger] out@[k]) == schema_for(
                            crate::types::type_view(variants@[k]),
                        ),
                decreases variants.len() - i,
            {
                proof {
                    broadcast use vstd::std_specs::vec::axiom_vec_index_decreases;

                    assert(decreases_to!(*variants => variants[i as int]));
                    assert(decreases_to!(*t => t->variants));
                    assert(decreases_to!(*t => variants[i as int]));
                }
                let v = documented_type_to_openapi(&variants[i]);
                out.push(v);
                i = i + 1;
            }
            let r = Schema::OneOf { data: data_from(description, example, nullable), one_of: out };
            proof {
                if let SchemaView::OneOf { one_of: a, .. } = r@ {
                    if let SchemaView::OneOf { one_of: b, .. } = schema_for(t@) {
                        assert(a =~= b);
                    }
                }
            }
            r
        },
        DocumentedType::Primitive { ty, description, example, nullable } => {
            let data = data_from(description, example, nullable);
            match ty {
                InternalDocumentedType::Boolean => Schema::Boolean { data },
                InternalDocumentedType::Float => Schema::Number { data },
                InternalDocumentedType::Integer => Schema::Integer { data },
                InternalDocumentedType::String => Schema::String { data },
            }
        },
    }
}

/// Converting a scalar descriptor and reading back the kind of the schema
/// node gives the descriptor's kind; nullability that was never set reads
/// as false.
pub proof fn lemma_scalar_round_trip(kind: InternalDocumentedType, t: TypeView)
    requires
        t == TypeView::scalar(kind),
    ensures
        schema_for(t).scalar_kind() == Some(kind),
        !schema_for(t).data().nullable,
{
}


/// Where a parameter of an operation is read from.
#[derive(Debug, Clone, Copy, PartialEq, Eq, Structural)]
pub enum ParameterLocation {
    Path,
    Header,
    Query,
    Cookie,
}

/// A parameter of an operation.
#[derive(Debug)]
pub struct Parameter {
    pub location: ParameterLocation,
    pub name: String,
    pub description: Option<String>,
    pub required: bool,
    pub deprecated: bool,
    pub schema: Schema,
}

pub struct ParameterView {
    pub location: ParameterLocation,
    pub name: Seq<char>,
    pub description: Option<Seq<char>>,
    pub required: bool,
    pub deprecated: bool,
    pub schema: SchemaView,
}

impl View for Parameter {
    type V = ParameterView;

    open spec fn view(&self) -> ParameterView {
        ParameterView {
            location: self.location,
            name: self.name@,
            description: crate::types::text_view(self.description),
            required: self.required,
            deprecated: self.deprecated,
            schema: self.schema@,
        }
    }
}

/// A header of a response.
#[derive(Debug)]
pub struct Header {
    pub name: String,
    pub description: Option<String>,
    pub required: bool,
    pub schema: Schema,
}

pub struct HeaderView {
    pub name: Seq<char>,
    pub description: Option<Seq<char>>,
    pub required: bool,
    pub schema: SchemaView,
}

impl View for Header {
    type V = HeaderView;

    open spec fn view(&self) -> HeaderView {
        HeaderView {
            name: self.name@,
            description: crate::types::text_view(self.description),
            required: self.required,
            schema: self.schema@,
        }
    }
}

/// A schema under the media type it is sent as.
#[derive(Debug)]
pub struct MediaType {
    pub mime: String,
    pub schema: Schema,
}

pub struct MediaView {
    pub mime: Seq<char>,
    pub schema: SchemaView,
}

impl View for MediaType {
    type V = MediaView;

    open spec fn view(&self) -> MediaView {
        MediaView { mime: self.mime@, schema: self.schema@ }
    }
}

/// The request body of an operation.
#[derive(Debug)]
pub struct RequestBody {
    pub required: bool,
    pub content: Vec<MediaType>,
}

pub struct RequestBodyView {
    pub required: bool,
    pub content: Seq<MediaView>,
}

impl View for RequestBody {
    type V = RequestBodyView;

    open spec fn view(&self) -> RequestBodyView {
        RequestBodyView { required: self.required, content: crate::document::views(self.content@) }
    }
}

/// A response of an operation.
#[derive(Debug)]
pub struct Response {
    pub status: u16,
    pub description: String,
    pub headers: Vec<Header>,
    pub content: Vec<MediaType>,
}

pub struct ResponseObjectView {
    pub status: u16,
    pub description: Seq<char>,
    pub headers: Seq<HeaderView>,
    pub content: Seq<MediaView>,
}

impl View for Response {
    type V = ResponseObjectView;

    open spec fn view(&self) -> ResponseObjectView {
        ResponseObjectView {
            status: self.status,
            description: self.description@,
            headers: crate::document::views(self.headers@),
            content: crate::document::views(self.content@),
        }
    }
}

/// One operation: a route under one method.
#[derive(Debug)]
pub struct Operation {
    pub tags: Vec<String>,
    pub summary: Option<String>,
    pub description: Option<String>,
    pub parameters: Vec<Parameter>,
    pub request_body: RequestBody,
    pub responses: Vec<Response>,
}

pub struct OperationView {
    pub tags: Seq<Seq<char>>,
    pub summary: Option<Seq<char>>,
    pub description: Option<Seq<char>>,
    pub parameters: Seq<ParameterView>,
    pub request_body: RequestBodyView,
    pub responses: Seq<ResponseObjectView>,
}

impl View for Operation {
    type V = OperationView;

    open spec fn view(&self) -> OperationView {
        OperationView {
            tags: crate::document::views(self.tags@),
            summary: crate::types::text_view(self.summary),
            description: crate::types::text_view(self.description),
            parameters: crate::document::views(self.parameters@),
            request_body: self.request_body@,
            responses: crate::document::views(self.responses@),
        }
    }
}

pub open spec fn operation_view(o: Option<Operation>) -> Option<OperationView> {
    match o {
        Some(op) => Some(op@),
        None => None,
    }
}

/// The operations of one path, by method.
#[derive(Debug)]
pub struct PathItem {
    pub get: Option<Operation>,
    pub put: Option<Operation>,
    pub post: Option<Operation>,
    pub delete: Option<Operation>,
    pub options: Option<Operation>,
    pub head: Option<Operation>,
    pub patch: Option<Operation>,
    pub trace: Option<Operation>,
}

pub struct PathItemView {
    pub get: Option<OperationView>,
    pub put: Option<OperationView>,
    pub post: Option<OperationView>,
    pub delete: Option<OperationView>,
    pub options: Option<OperationView>,
    pub head: Option<OperationView>,
    pub patch: Option<OperationView>,
    pub trace: Option<OperationView>,
}

impl View for PathItem {
    type V = PathItemView;

    open spec fn view(&self) -> PathItemView {
        PathItemView {
            get: operation_view(self.get),
            put: operation_view(self.put),
            post: operation_view(self.post),
            delete: operation_view(self.delete),
            options: operation_view(self.options),
            head: operation_view(self.head),
            patch: operation_view(self.patch),
            trace: operation_view(self.trace),
        }
    }
}

impl PathItemView {
    pub open spec fn empty() -> PathItemView {
        PathItemView {
            get: None,
            put: None,
            post: None,
            delete: None,
            options: None,
            head: None,
            patch: None,
            trace: None,
        }
    }

    /// The operation recorded under `method`.
    pub open spec fn operation(self, method: Method) -> Option<OperationView> {
        match method {
            Method::Get => self.get,
            Method::Post => self.post,
            Method::Put => self.put,
            Method::Delete => self.delete,
            Method::Head => self.head,
            Method::Options => self.options,
            Method::Patch => self.patch,
            Method::Trace => self.trace,
        }
    }

    /// The item with `op` recorded under `method`, unless an operation is
    /// already recorded there.
    pub open spec fn with_first(self, method: Method, op: OperationView) -> PathItemView {
        if self.operation(method) is Some {
            self
        } else {
            match method {
                Method::Get => PathItemView { get: Some(op), ..self },
                Method::Post => PathItemView { post: Some(op), ..self },
                Method::Put => PathItemView { put: Some(op), ..self },
                Method::Delete => PathItemView { delete: Some(op), ..self },
                Method::Head => PathItemView { head: Some(op), ..self },
                Method::Options => PathItemView { options: Some(op), ..self },
                Method::Patch => PathItemView { patch: Some(op), ..self },
                Method::Trace => PathItemView { trace: Some(op), ..self },
            }
        }
    }
}

/// A path and its item.
#[derive(Debug)]
pub struct PathEntry {
    pub path: String,
    pub item: PathItem,
}

pub struct PathEntryView {
    pub path: Seq<char>,
    pub item: PathItemView,
}

impl View for PathEntry {
    type V = PathEntryView;

    open spec fn view(&self) -> PathEntryView {
        PathEntryView { path: self.path@, item: self.item@ }
    }
}

/// The API description document.
#[derive(Debug)]
pub struct OpenApi {
    pub openapi: String,
    pub paths: Vec<PathEntry>,
}

pub struct OpenApiView {
    pub openapi: Seq<char>,
    pub paths: Seq<PathEntryView>,
}

impl View for OpenApi {
    type V = OpenApiView;

    open spec fn view(&self) -> OpenApiView {
        OpenApiView { openapi: self.openapi@, paths: crate::document::views(self.paths@) }
    }
}


/// The ordered set of paths met so far, held in an `IndexMap`.
#[verifier::external_type_specification]
#[verifier::external_body]
#[verifier::reject_recursive_types(K)]
#[verifier::reject_recursive_types(V)]
#[verifier::reject_recursive_types(S)]
pub struct ExIndexMap<K, V, S>(indexmap::IndexMap<K, V, S>);

/// The keys of a path index, in insertion order.
pub uninterp spec fn path_keys(m: indexmap::IndexMap<String, ()>) -> Seq<Seq<char>>;

/// Relies on `IndexMap::new`: a new map holds no key.
#[verifier::external_body]
fn path_index_new() -> (r: indexmap::IndexMap<String, ()>)
    ensures
        path_keys(r) == Seq::<Seq<char>>::empty(),
{
    indexmap::IndexMap::new()
}

/// Relies on `IndexMap::get_index_of`: the position of the key equal to
/// `key`, if there is one.
#[verifier::external_body]
fn path_index_of(m: &indexmap::IndexMap<String, ()>, key: &String) -> (r: Option<usize>)
    ensures
        match r {
            Some(i) => i < path_keys(*m).len() && path_keys(*m)[i as int] == key@,
            None => !path_keys(*m).contains(key@),
        },
{
    m.get_index_of(key)
}

/// Relies on `IndexMap::insert`: a new key goes last; a key already there
/// keeps its place.
#[verifier::external_body]
fn path_index_insert(m: &mut indexmap::IndexMap<String, ()>, key: String)
    ensures
        path_keys(*final(m)) == if path_keys(*old(m)).contains(key@) {
            path_keys(*old(m))
        } else {
            path_keys(*old(m)).push(key@)
        },
{
    m.insert(key, ());
}

/// The media type a body without one is listed under.
pub open spec fn any_mime() -> Seq<char> {
    seq!['*', '/', '*']
}

pub open spec fn media_for(b: BodyView) -> MediaView {
    MediaView {
        mime: match b.mime {
            Some(m) => m,
            None => any_mime(),
        },
        schema: schema_for(b.body),
    }
}

pub open spec fn path_parameter(p: ParamView) -> ParameterView {
    ParameterView {
        location: ParameterLocation::Path,
        name: p.name,
        description: p.description,
        required: p.required,
        deprecated: false,
        schema: schema_for(p.ty),
    }
}

pub open spec fn query_parameter(q: ParamView) -> ParameterView {
    ParameterView {
        location: ParameterLocation::Query,
        name: q.name,
        description: q.description,
        required: q.required,
        deprecated: false,
        schema: schema_for(q.ty),
    }
}

pub open spec fn field_parameter(location: ParameterLocation, f: FieldView) -> ParameterView {
    ParameterView {
        location,
        name: f.name,
        description: f.description,
        required: f.required,
        deprecated: false,
        schema: SchemaView::plain_string(),
    }
}

/// Path parameters, then headers, queries and cookies.
pub open spec fn parameters_for(r: RouteView) -> Seq<ParameterView> {
    r.parameters.map_values(|p: ParamView| path_parameter(p))
        + r.headers.map_values(|f: FieldView| field_parameter(ParameterLocation::Header, f))
        + r.queries.map_values(|q: ParamView| query_parameter(q))
        + r.cookies.map_values(|f: FieldView| field_parameter(ParameterLocation::Cookie, f))
}

pub open spec fn response_header(f: FieldView) -> HeaderView {
    HeaderView {
        name: f.name,
        description: f.description,
        required: f.required,
        schema: SchemaView::plain_string(),
    }
}

pub open spec fn response_for(r: ResponseView) -> ResponseObjectView {
    ResponseObjectView {
        status: r.status,
        description: r.description,
        headers: r.headers.map_values(|f: FieldView| response_header(f)),
        content: r.body.map_values(|b: BodyView| media_for(b)),
    }
}

/// `sorted` with `r` placed before the first response of a greater status,
/// unless a response of the same status is already there: the first
/// response of each status stays.
pub open spec fn insert_by_status(sorted: Seq<ResponseObjectView>, r: ResponseObjectView) -> Seq<ResponseObjectView>
    decreases sorted.len(),
{
    if sorted.len() == 0 {
        seq![r]
    } else if r.status < sorted[0].status {
        seq![r] + sorted
    } else if r.status == sorted[0].status {
        sorted
    } else {
        seq![sorted[0]] + insert_by_status(sorted.drop_first(), r)
    }
}

/// The first response of each status, in ascending order of status.
pub open spec fn sort_by_status(rs: Seq<ResponseObjectView>) -> Seq<ResponseObjectView>
    decreases rs.len(),
{
    if rs.len() == 0 {
        Seq::empty()
    } else {
        insert_by_status(sort_by_status(rs.drop_last()), rs.last())
    }
}

/// Statuses strictly increase along `rs`.
pub open spec fn ascending(rs: Seq<ResponseObjectView>) -> bool {
    forall|i: int, j: int| 0 <= i < j < rs.len() ==> (#[trigger] rs[i]).status < (#[trigger] rs[j]).status
}

/// Whether a response of `status` is among `rs`.
pub open spec fn has_status(rs: Seq<ResponseObjectView>, status: u16) -> bool {
    exists|i: int| 0 <= i < rs.len() && (#[trigger] rs[i]).status == status
}

/// No response before position `j` has the status of the one at `j`.
pub open spec fn first_of_status(rs: Seq<ResponseObjectView>, j: int) -> bool {
    forall|k: int| 0 <= k < j ==> (#[trigger] rs[k]).status != rs[j].status
}

/// The position of the first line feed in `d`, or its length.
pub open spec fn line_end(d: Seq<char>) -> nat
    decreases d.len(),
{
    if d.len() == 0 {
        0
    } else if d[0] == '\n' {
        0
    } else {
        1 + line_end(d.drop_first())
    }
}

/// The first line of a text: up to the first line feed, less a carriage
/// return just before it; an empty text has none.
pub open spec fn first_line(d: Seq<char>) -> Option<Seq<char>> {
    if d.len() == 0 {
        None
    } else {
        let k = line_end(d);
        let line = d.take(k as int);
        if k < d.len() && k > 0 && line.last() == '\r' {
            Some(line.drop_last())
        } else {
            Some(line)
        }
    }
}

pub open spec fn summary_of(description: Option<Seq<char>>) -> Option<Seq<char>> {
    match description {
        Some(d) => first_line(d),
        None => None,
    }
}

/// The operation a record converts to.
pub open spec fn operation_of(r: RouteView) -> OperationView {
    OperationView {
        tags: r.tags,
        summary: summary_of(r.description),
        description: r.description,
        parameters: parameters_for(r),
        request_body: RequestBodyView {
            required: r.bodies.len() > 0,
            content: r.bodies.map_values(|b: BodyView| media_for(b)),
        },
        responses: sort_by_status(r.responses.map_values(|x: ResponseView| response_for(x))),
    }
}

/// The position of the first entry for `path`.
pub open spec fn path_index(doc: Seq<PathEntryView>, path: Seq<char>) -> Option<int>
    decreases doc.len(),
{
    if doc.len() == 0 {
        None
    } else if doc[0].path == path {
        Some(0)
    } else {
        match path_index(doc.drop_first(), path) {
            Some(i) => Some(i + 1),
            None => None,
        }
    }
}

/// `doc` after the record `r` is folded in: its operation goes under its
/// pretty path and method, unless an operation is already there.
pub open spec fn add_route(doc: Seq<PathEntryView>, r: RouteView) -> Seq<PathEntryView> {
    let p = r.pretty_path();
    match path_index(doc, p) {
        Some(i) => doc.update(i, PathEntryView { path: p, item: doc[i].item.with_first(r.method, operation_of(r)) }),
        None => doc.push(PathEntryView { path: p, item: PathItemView::empty().with_first(r.method, operation_of(r)) }),
    }
}

/// The paths of the document, folding the records in order.
pub open spec fn paths_of(routes: Seq<RouteView>) -> Seq<PathEntryView>
    decreases routes.len(),
{
    if routes.len() == 0 {
        Seq::empty()
    } else {
        add_route(paths_of(routes.drop_last()), routes.last())
    }
}

pub open spec fn version() -> Seq<char> {
    seq!['3', '.', '0', '.', '0']
}

/// The document the records convert to.
pub open spec fn openapi_of(routes: Seq<RouteView>) -> OpenApiView {
    OpenApiView { openapi: version(), paths: paths_of(routes) }
}


fn plain_string() -> (r: Schema)
    ensures
        r@ == SchemaView::plain_string(),
{
    Schema::String { data: SchemaData { description: None, example: None, nullable: false } }
}

fn any_mime_text() -> (r: String)
    ensures
        r@ == any_mime(),
{
    proof {
        reveal_strlit("*/*");
    }
    let r = String::from_str("*/*");
    assert(r@ =~= any_mime());
    r
}

fn media_types(bodies: &Vec<DocumentedBody>) -> (r: Vec<MediaType>)
    ensures
        views(r@) == views(bodies@).map_values(|b: BodyView| media_for(b)),
{
    let mut out: Vec<MediaType> = Vec::new();
    let mut i: usize = 0;
    while i < bodies.len()
        invariant
            i <= bodies.len(),
            out.len() == i,
            forall|k: int| 0 <= k < i ==> (#[trigger] out@[k])@ == media_for(bodies@[k]@),
        decreases bodies.len() - i,
    {
        let b = &bodies[i];
        let mime = match &b.mime {
            Some(m) => m.clone(),
            None => any_mime_text(),
        };
        let schema = documented_type_to_openapi(&b.body);
        out.push(MediaType { mime, schema });
        i = i + 1;
    }
    assert(views(out@) =~= views(bodies@).map_values(|b: BodyView| media_for(b)));
    out
}

fn parameters_of(route: &RouteDocumentation) -> (r: Vec<Parameter>)
    ensures
        views(r@) == parameters_for(route@),
{
    let ghost v = route@;
    let mut out: Vec<Parameter> = Vec::new();
    let mut i: usize = 0;
    while i < route.parameters.len()
        invariant
            v == route@,
            i <= route.parameters.len(),
            views(out@) == v.parameters.take(i as int).map_values(|p: ParamView| path_parameter(p)),
        decreases route.parameters.len() - i,
    {
        let p = &route.parameters[i];
        let x = Parameter {
            location: ParameterLocation::Path,
            name: p.name.clone(),
            description: copy_text(&p.description),
            required: p.required,
            deprecated: false,
            schema: documented_type_to_openapi(&p.type_),
        };
        proof {
            crate::document::lemma_views_push(out@, x);
            assert(v.parameters[i as int] == p@);
        }
        out.push(x);
        i = i + 1;
        assert(views(out@) =~= v.parameters.take(i as int).map_values(|p: ParamView| path_parameter(p)));
    }
    assert(v.parameters.take(i as int) =~= v.parameters);
    let ghost a = views(out@);
    let mut j: usize = 0;
    while j < route.headers.len()
        invariant
            v == route@,
            j <= route.headers.len(),
            views(out@) == a + v.headers.take(j as int).map_values(|f: FieldView| field_parameter(ParameterLocation::Header, f)),
        decreases route.headers.len() - j,
    {
        let h = &route.headers[j];
        let x = Parameter {
            location: ParameterLocation::Header,
            name: h.name.clone(),
            description: copy_text(&h.description),
            required: h.required,
            deprecated: false,
            schema: plain_string(),
        };
        proof {
            crate::document::lemma_views_push(out@, x);
            assert(v.headers[j as int] == h@);
        }
        out.push(x);
        j = j + 1;
        assert(views(out@) =~= a + v.headers.take(j as int).map_values(|f: FieldView| field_parameter(ParameterLocation::Header, f)));
    }
    assert(v.headers.take(j as int) =~= v.headers);
    let ghost b = views(out@);
    let mut k: usize = 0;
    while k < route.queries.len()
        invariant
            v == route@,
            k <= route.queries.len(),
            views(out@) == b + v.queries.take(k as int).map_values(|q: ParamView| query_parameter(q)),
        decreases route.queries.len() - k,
    {
        let q = &route.queries[k];
        let x = Parameter {
            location: ParameterLocation::Query,
            name: q.name.clone(),
            description: copy_text(&q.description),
            required: q.required,
            deprecated: false,
            schema: documented_type_to_openapi(&q.type_),
        };
        proof {
            crate::document::lemma_views_push(out@, x);
            assert(v.queries[k as int] == q@);
        }
        out.push(x);
        k = k + 1;
        assert(views(out@) =~= b + v.queries.take(k as int).map_values(|q: ParamView| query_parameter(q)));
    }
    assert(v.queries.take(k as int) =~= v.queries);
    let ghost c = views(out@);
    let mut m: usize = 0;
    while m < route.cookies.len()
        invariant
            v == route@,
            m <= route.cookies.len(),
            views(out@) == c + v.cookies.take(m as int).map_values(|f: FieldView| field_parameter(ParameterLocation::Cookie, f)),
        decreases route.cookies.len() - m,
    {
        let h = &route.cookies[m];
        let x = Parameter {
            location: ParameterLocation::Cookie,
            name: h.name.clone(),
            description: copy_text(&h.description),
            required: h.required,
            deprecated: false,
            schema: plain_string(),
        };
        proof {
            crate::document::lemma_views_push(out@, x);
            assert(v.cookies[m as int] == h@);
        }
        out.push(x);
        m = m + 1;
        assert(views(out@) =~= c + v.cookies.take(m as int).map_values(|f: FieldView| field_parameter(ParameterLocation::Cookie, f)));
    }
    assert(v.cookies.take(m as int) =~= v.cookies);
    out
}

fn response_object(r: &DocumentedResponse) -> (o: Response)
    ensures
        o@ == response_for(r@),
{
    let mut headers: Vec<Header> = Vec::new();
    let mut i: usize = 0;
    while i < r.headers.len()
        invariant
            i <= r.headers.len(),
            headers.len() == i,
            forall|k: int| 0 <= k < i ==> (#[trigger] headers@[k])@ == response_header(r.headers@[k]@),
        decreases r.headers.len() - i,
    {
        let h = &r.headers[i];
        headers.push(Header {
            name: h.name.clone(),
            description: copy_text(&h.description),
            required: h.required,
            schema: plain_string(),
        });
        i = i + 1;
    }
    let content = media_types(&r.body);
    let o = Response { status: r.status, description: r.description.clone(), headers, content };
    assert(o@.headers =~= response_for(r@).headers);
    o
}

proof fn lemma_insert_at(sorted: Seq<ResponseObjectView>, r: ResponseObjectView, p: int)
    requires
        0 <= p <= sorted.len(),
        forall|k: int| 0 <= k < p ==> (#[trigger] sorted[k]).status < r.status,
        p < sorted.len() ==> r.status < sorted[p].status,
    ensures
        insert_by_status(sorted, r) == sorted.insert(p, r),
    decreases sorted.len(),
{
    if sorted.len() == 0 {
        assert(sorted.insert(p, r) =~= seq![r]);
    } else if p == 0 {
        assert(sorted.insert(p, r) =~= seq![r] + sorted);
    } else {
        lemma_insert_at(sorted.drop_first(), r, p - 1);
        assert(sorted.insert(p, r) =~= seq![sorted[0]] + sorted.drop_first().insert(p - 1, r));
    }
}

proof fn lemma_insert_present(sorted: Seq<ResponseObjectView>, r: ResponseObjectView, p: int)
    requires
        0 <= p < sorted.len(),
        forall|k: int| 0 <= k < p ==> (#[trigger] sorted[k]).status < r.status,
        sorted[p].status == r.status,
    ensures
        insert_by_status(sorted, r) == sorted,
    decreases sorted.len(),
{
    if p > 0 {
        lemma_insert_present(sorted.drop_first(), r, p - 1);
        assert(sorted =~= seq![sorted[0]] + sorted.drop_first());
    }
}

fn sorted_responses(rs: &Vec<DocumentedResponse>) -> (r: Vec<Response>)
    ensures
        views(r@) == sort_by_status(views(rs@).map_values(|x: ResponseView| response_for(x))),
{
    let ghost all = views(rs@).map_values(|x: ResponseView| response_for(x));
    let mut out: Vec<Response> = Vec::new();
    let mut i: usize = 0;
    assert(all.take(0) =~= Seq::<ResponseObjectView>::empty());
    assert(views(out@) =~= Seq::<ResponseObjectView>::empty());
    while i < rs.len()
        invariant
            i <= rs.len(),
            all == views(rs@).map_values(|x: ResponseView| response_for(x)),
            views(out@) == sort_by_status(all.take(i as int)),
        decreases rs.len() - i,
    {
        let o = response_object(&rs[i]);
        let mut p: usize = 0;
        while p < out.len() && out[p].status < o.status
            invariant
                p <= out.len(),
                forall|k: int| 0 <= k < p ==> (#[trigger] out@[k]).status < o.status,
            decreases out.len() - p,
        {
            p = p + 1;
        }
        let present = p < out.len() && out[p].status == o.status;
        proof {
            let sorted = views(out@);
            assert forall|k: int| 0 <= k < p implies (#[trigger] sorted[k]).status < o@.status by {
                assert(sorted[k] == out@[k]@);
            }
            if p < out.len() {
                assert(sorted[p as int] == out@[p as int]@);
            }
            if present {
                lemma_insert_present(sorted, o@, p as int);
            } else {
                lemma_insert_at(sorted, o@, p as int);
                assert(views(out@.insert(p as int, o)) =~= sorted.insert(p as int, o@));
            }
            assert(all.take(i + 1).drop_last() =~= all.take(i as int));
            assert(all[i as int] == o@);
        }
        if !present {
            out.insert(p, o);
        }
        i = i + 1;
    }
    assert(all.take(i as int) =~= all);
    out
}

fn line_end_of(d: &str) -> (k: usize)
    ensures
        k == line_end(d@),
        k <= d@.len(),
{
    let n = d.unicode_len();
    let mut k: usize = 0;
    while k < n && d.get_char(k) != '\n'
        invariant
            n == d@.len(),
            k <= n,
            forall|j: int| 0 <= j < k ==> d@[j] != '\n',
        decreases n - k,
    {
        k = k + 1;
    }
    proof {
        lemma_line_end(d@, k as nat);
    }
    k
}

proof fn lemma_line_end(d: Seq<char>, k: nat)
    requires
        k <= d.len(),
        forall|j: int| 0 <= j < k ==> d[j] != '\n',
        k == d.len() || d[k as int] == '\n',
    ensures
        line_end(d) == k,
    decreases d.len(),
{
    if d.len() > 0 && k > 0 {
        lemma_line_end(d.drop_first(), (k - 1) as nat);
    }
}

fn summary(description: &Option<String>) -> (r: Option<String>)
    ensures
        crate::types::text_view(r) == summary_of(crate::types::text_view(*description)),
{
    match description {
        None => None,
        Some(d) => {
            let text = d.as_str();
            let n = text.unicode_len();
            if n == 0 {
                return None;
            }
            let k = line_end_of(text);
            let line = text.substring_char(0, k);
            if k < n && k > 0 && text.get_char(k - 1) == '\r' {
                let trimmed = text.substring_char(0, k - 1);
                assert(trimmed@ =~= line@.drop_last());
                Some(trimmed.to_string())
            } else {
                assert(line@ =~= d@.take(k as int));
                Some(line.to_string())
            }
        },
    }
}

/// Converts one record to the operation it documents.
pub fn operation_for(route: &RouteDocumentation) -> (r: Operation)
    ensures
        r@ == operation_of(route@),
{
    let tags = route.tags.clone();
    let parameters = parameters_of(route);
    let content = media_types(&route.bodies);
    let responses = sorted_responses(&route.responses);
    let r = Operation {
        tags,
        summary: summary(&route.description),
        description: copy_text(&route.description),
        parameters,
        request_body: RequestBody { required: route.bodies.len() > 0, content },
        responses,
    };
    proof {
        assert(views(tags@) =~= views(route.tags@));
    }
    r
}

fn set_first(item: &mut PathItem, method: Method, op: Operation)
    ensures
        final(item)@ == old(item)@.with_first(method, op@),
{
    match method {
        Method::Get => if item.get.is_none() { item.get = Some(op); },
        Method::Post => if item.post.is_none() { item.post = Some(op); },
        Method::Put => if item.put.is_none() { item.put = Some(op); },
        Method::Delete => if item.delete.is_none() { item.delete = Some(op); },
        Method::Head => if item.head.is_none() { item.head = Some(op); },
        Method::Options => if item.options.is_none() { item.options = Some(op); },
        Method::Patch => if item.patch.is_none() { item.patch = Some(op); },
        Method::Trace => if item.trace.is_none() { item.trace = Some(op); },
    }
}

fn empty_item() -> (r: PathItem)
    ensures
        r@ == PathItemView::empty(),
{
    PathItem { get: None, put: None, post: None, delete: None, options: None, head: None, patch: None, trace: None }
}


pub open spec fn unique_paths(doc: Seq<PathEntryView>) -> bool {
    forall|a: int, b: int| 0 <= a < b < doc.len() ==> (#[trigger] doc[a]).path != (#[trigger] doc[b]).path
}

proof fn lemma_path_index_found(doc: Seq<PathEntryView>, path: Seq<char>, j: int)
    requires
        unique_paths(doc),
        0 <= j < doc.len(),
        doc[j].path == path,
    ensures
        path_index(doc, path) == Some(j),
    decreases doc.len(),
{
    if j > 0 {
        assert(doc[0].path != path);
        let rest = doc.drop_first();
        assert forall|a: int, b: int| 0 <= a < b < rest.len() implies (#[trigger] rest[a]).path != (#[trigger] rest[b]).path by {
            assert(rest[a] == doc[a + 1] && rest[b] == doc[b + 1]);
        }
        lemma_path_index_found(rest, path, j - 1);
    }
}

proof fn lemma_path_index_absent(doc: Seq<PathEntryView>, path: Seq<char>)
    requires
        forall|k: int| 0 <= k < doc.len() ==> (#[trigger] doc[k]).path != path,
    ensures
        path_index(doc, path) == None::<int>,
    decreases doc.len(),
{
    if doc.len() > 0 {
        let rest = doc.drop_first();
        assert forall|k: int| 0 <= k < rest.len() implies (#[trigger] rest[k]).path != path by {
            assert(rest[k] == doc[k + 1]);
        }
        lemma_path_index_absent(rest, path);
    }
}

/// Folds the records, in order, into one API description document: one
/// entry per pretty path in order of first appearance, and under each
/// method the operation of the first record for it.
pub fn to_openapi(routes: Vec<RouteDocumentation>) -> (r: OpenApi)
    ensures
        r@ == openapi_of(views(routes@)),
{
    let ghost rv = views(routes@);
    let mut index = path_index_new();
    let mut paths: Vec<PathEntry> = Vec::new();
    let mut i: usize = 0;
    assert(paths_of(rv.take(0)) =~= Seq::<PathEntryView>::empty()) by {
        assert(rv.take(0) =~= Seq::<RouteView>::empty());
    }
    assert(views(paths@) =~= Seq::<PathEntryView>::empty());
    while i < routes.len()
        invariant
            i <= routes.len(),
            rv == views(routes@),
            views(paths@) == paths_of(rv.take(i as int)),
            unique_paths(views(paths@)),
            path_keys(index).len() == paths.len(),
            forall|k: int| 0 <= k < paths.len() ==> path_keys(index)[k] == (#[trigger] paths@[k]).path@,
        decreases routes.len() - i,
    {
        let route = &routes[i];
        let path = route.pretty_path();
        let op = operation_for(route);
        let ghost doc = views(paths@);
        proof {
            assert(rv.take(i + 1).drop_last() =~= rv.take(i as int));
            assert(rv[i as int] == route@);
        }
        match path_index_of(&index, &path) {
            Some(j) => {
                proof {
                    assert(doc[j as int].path == path@);
                    lemma_path_index_found(doc, path@, j as int);
                }
                set_first(&mut paths[j].item, route.method, op);
                proof {
                    assert(views(paths@) =~= doc.update(j as int, PathEntryView {
                        path: path@,
                        item: doc[j as int].item.with_first(route@.method, operation_of(route@)),
                    }));
                }
            },
            None => {
                proof {
                    assert forall|k: int| 0 <= k < doc.len() implies (#[trigger] doc[k]).path != path@ by {
                        assert(doc[k].path == path_keys(index)[k]);
                    }
                    lemma_path_index_absent(doc, path@);
                }
                let mut item = empty_item();
                set_first(&mut item, route.method, op);
                path_index_insert(&mut index, path.clone());
                let entry = PathEntry { path, item };
                proof {
                    crate::document::lemma_views_push(paths@, entry);
                }
                paths.push(entry);
            },
        }
        i = i + 1;
    }
    assert(rv.take(i as int) =~= rv);
    proof {
        reveal_strlit("3.0.0");
    }
    let openapi = String::from_str("3.0.0");
    assert(openapi@ =~= version());
    OpenApi { openapi, paths }
}


proof fn lemma_insert_by_status(sorted: Seq<ResponseObjectView>, r: ResponseObjectView)
    requires
        ascending(sorted),
    ensures
        ascending(insert_by_status(sorted, r)),
        has_status(sorted, r.status) ==> insert_by_status(sorted, r) == sorted,
        !has_status(sorted, r.status) ==> forall|y: ResponseObjectView|
            #[trigger] insert_by_status(sorted, r).contains(y) <==> (sorted.contains(y) || y == r),
    decreases sorted.len(),
{
    let out = insert_by_status(sorted, r);
    if sorted.len() == 0 {
        assert(out.contains(r)) by {
            assert(out[0] == r);
        }
    } else if r.status < sorted[0].status {
        assert(!has_status(sorted, r.status)) by {
            assert forall|i: int| 0 <= i < sorted.len() implies (#[trigger] sorted[i]).status != r.status by {
                if i > 0 {
                    assert(sorted[0].status < sorted[i].status);
                }
            }
        }
        assert forall|i: int, j: int| 0 <= i < j < out.len() implies (#[trigger] out[i]).status < (
        #[trigger] out[j]).status by {
            assert(out[j] == sorted[j - 1]);
            if i > 0 {
                assert(out[i] == sorted[i - 1]);
            } else if j > 1 {
                assert(sorted[0].status < sorted[j - 1].status);
            }
        }
        assert forall|y: ResponseObjectView| #[trigger] out.contains(y) <==> (sorted.contains(y) || y == r) by {
            if out.contains(y) {
                let k = choose|k: int| 0 <= k < out.len() && out[k] == y;
                if k > 0 {
                    assert(sorted[k - 1] == y);
                }
            }
            if sorted.contains(y) {
                let k = choose|k: int| 0 <= k < sorted.len() && sorted[k] == y;
                assert(out[k + 1] == y);
            }
            if y == r {
                assert(out[0] == y);
            }
        }
    } else if r.status == sorted[0].status {
        assert(has_status(sorted, r.status)) by {
            assert(sorted[0].status == r.status);
        }
    } else {
        let rest = sorted.drop_first();
        assert(ascending(rest)) by {
            assert forall|i: int, j: int| 0 <= i < j < rest.len() implies (#[trigger] rest[i]).status
                < (#[trigger] rest[j]).status by {
                assert(rest[i] == sorted[i + 1] && rest[j] == sorted[j + 1]);
            }
        }
        lemma_insert_by_status(rest, r);
        let tail = insert_by_status(rest, r);
        assert(out == seq![sorted[0]] + tail);
        assert(has_status(sorted, r.status) == has_status(rest, r.status)) by {
            if has_status(sorted, r.status) {
                let k = choose|k: int| 0 <= k < sorted.len() && (#[trigger] sorted[k]).status == r.status;
                assert(rest[k - 1] == sorted[k]);
            }
            if has_status(rest, r.status) {
                let k = choose|k: int| 0 <= k < rest.len() && (#[trigger] rest[k]).status == r.status;
                assert(sorted[k + 1] == rest[k]);
            }
        }
        assert forall|k: int| 0 <= k < tail.len() implies sorted[0].status < (#[trigger] tail[k]).status by {
            assert(tail.contains(tail[k]));
            if tail[k] != r {
                assert(rest.contains(tail[k]));
                let m = choose|m: int| 0 <= m < rest.len() && rest[m] == tail[k];
                assert(sorted[m + 1] == rest[m]);
            }
        }
        assert forall|i: int, j: int| 0 <= i < j < out.len() implies (#[trigger] out[i]).status < (
        #[trigger] out[j]).status by {
            assert(out[j] == tail[j - 1]);
            if i > 0 {
                assert(out[i] == tail[i - 1]);
            }
        }
        if !has_status(sorted, r.status) {
            assert forall|y: ResponseObjectView| #[trigger] out.contains(y) <==> (sorted.contains(y) || y == r) by {
                if out.contains(y) {
                    let k = choose|k: int| 0 <= k < out.len() && out[k] == y;
                    if k == 0 {
                        assert(sorted[0] == y);
                    } else {
                        assert(tail[k - 1] == y);
                        assert(tail.contains(y));
                        if rest.contains(y) {
                            let m = choose|m: int| 0 <= m < rest.len() && rest[m] == y;
                            assert(sorted[m + 1] == y);
                        }
                    }
                }
                if sorted.contains(y) {
                    let k = choose|k: int| 0 <= k < sorted.len() && sorted[k] == y;
                    if k == 0 {
                        assert(out[0] == y);
                    } else {
                        assert(rest[k - 1] == y);
                        assert(rest.contains(y));
                        assert(tail.contains(y));
                        let m = choose|m: int| 0 <= m < tail.len() && tail[m] == y;
                        assert(out[m + 1] == y);
                    }
                }
                if y == r {
                    assert(tail.contains(y));
                    let m = choose|m: int| 0 <= m < tail.len() && tail[m] == y;
                    assert(out[m + 1] == y);
                }
            }
        }
    }
}

/// Responses come out in strictly ascending order of status; every status
/// that was added appears, and each response that appears is the first one
/// added with its status.
pub proof fn lemma_responses_ascending(rs: Seq<ResponseObjectView>)
    ensures
        ascending(sort_by_status(rs)),
        forall|j: int| 0 <= j < rs.len() ==> has_status(sort_by_status(rs), (#[trigger] rs[j]).status),
        forall|i: int|
            0 <= i < sort_by_status(rs).len() ==> exists|j: int|
                0 <= j < rs.len() && rs[j] == #[trigger] sort_by_status(rs)[i] && first_of_status(rs, j),
    decreases rs.len(),
{
    if rs.len() > 0 {
        let prev = rs.drop_last();
        let r = rs.last();
        let sorted = sort_by_status(prev);
        let out = sort_by_status(rs);
        lemma_responses_ascending(prev);
        lemma_insert_by_status(sorted, r);
        assert(out == insert_by_status(sorted, r));
        assert forall|j: int| 0 <= j < rs.len() implies has_status(out, (#[trigger] rs[j]).status) by {
            if has_status(sorted, r.status) {
                if j < rs.len() - 1 {
                    assert(prev[j] == rs[j]);
                }
            } else {
                if j < rs.len() - 1 {
                    assert(prev[j] == rs[j]);
                    assert(has_status(sorted, prev[j].status));
                    let k = choose|k: int| 0 <= k < sorted.len() && (#[trigger] sorted[k]).status == prev[j].status;
                    assert(sorted.contains(sorted[k]));
                    assert(out.contains(sorted[k]));
                } else {
                    assert(out.contains(r));
                }
            }
        }
        assert forall|i: int| 0 <= i < out.len() implies exists|j: int|
            0 <= j < rs.len() && rs[j] == #[trigger] out[i] && first_of_status(rs, j) by {
            let y = out[i];
            let from_prev = if has_status(sorted, r.status) {
                true
            } else {
                assert(out.contains(y));
                sorted.contains(y)
            };
            if from_prev {
                let k = if has_status(sorted, r.status) {
                    i
                } else {
                    choose|k: int| 0 <= k < sorted.len() && sorted[k] == y
                };
                assert(sorted[k] == y);
                let j = choose|j: int| 0 <= j < prev.len() && prev[j] == #[trigger] sorted[k] && first_of_status(prev, j);
                assert(rs[j] == y);
                assert forall|m: int| 0 <= m < j implies (#[trigger] rs[m]).status != rs[j].status by {
                    assert(rs[m] == prev[m]);
                }
            } else {
                assert(y == r);
                let j = rs.len() - 1;
                assert(rs[j] == y);
                assert forall|m: int| 0 <= m < j implies (#[trigger] rs[m]).status != rs[j].status by {
                    assert(rs[m] == prev[m]);
                    if rs[m].status == r.status {
                        assert(has_status(sorted, prev[m].status));
                    }
                }
            }
        }
    }
}

/// Two records of the same pretty path and method make one operation, the
/// first record's.
pub proof fn lemma_first_record_wins(a: RouteView, b: RouteView)
    requires
        a.pretty_path() == b.pretty_path(),
        a.method == b.method,
    ensures
        paths_of(seq![a, b]) == seq![
            PathEntryView {
                path: a.pretty_path(),
                item: PathItemView::empty().with_first(a.method, operation_of(a)),
            },
        ],
        paths_of(seq![a, b])[0].item.operation(a.method) == Some(operation_of(a)),
{
    let one = seq![a];
    let two = seq![a, b];
    assert(two.drop_last() =~= one);
    assert(one.drop_last() =~= Seq::<RouteView>::empty());
    let first = paths_of(one);
    assert(paths_of(Seq::<RouteView>::empty()) == Seq::<PathEntryView>::empty());
    assert(path_index(Seq::<PathEntryView>::empty(), a.pretty_path()) == None::<int>);
    assert(first == add_route(Seq::<PathEntryView>::empty(), a));
    assert(Seq::<PathEntryView>::empty().push(PathEntryView {
        path: a.pretty_path(),
        item: PathItemView::empty().with_first(a.method, operation_of(a)),
    }) =~= seq![
        PathEntryView { path: a.pretty_path(), item: PathItemView::empty().with_first(a.method, operation_of(a)) },
    ]);
    assert(first =~= seq![
        PathEntryView { path: a.pretty_path(), item: PathItemView::empty().with_first(a.method, operation_of(a)) },
    ]);
    assert(path_index(first, b.pretty_path()) == Some(0int));
    assert(paths_of(two) =~= first);
}


/// Every converted node carries its descriptor's overlays: nullability as
/// it was set, false when it never was; description and example unchanged.
/// Children convert by the same function, so this holds at every node.
pub proof fn lemma_overlays_carried(t: TypeView)
    ensures
        schema_for(t).data() == data_for(t.meta()),
        schema_for(t).data().nullable == (t.meta().nullable == Some(true)),
        schema_for(t).data().description == t.meta().description,
        schema_for(t).data().example == t.meta().example,
{
}

/// The operation a document records under `path` and `method`, if any.
pub open spec fn slot(doc: Seq<PathEntryView>, path: Seq<char>, method: Method) -> Option<OperationView> {
    match path_index(doc, path) {
        Some(k) => doc[k].item.operation(method),
        None => None,
    }
}

/// The operation of the first of `routes` with pretty path `path` and
/// method `method`, if any.
pub open spec fn first_operation(routes: Seq<RouteView>, path: Seq<char>, method: Method) -> Option<OperationView>
    decreases routes.len(),
{
    if routes.len() == 0 {
        None
    } else {
        match first_operation(routes.drop_last(), path, method) {
            Some(o) => Some(o),
            None => if routes.last().pretty_path() == path && routes.last().method == method {
                Some(operation_of(routes.last()))
            } else {
                None
            },
        }
    }
}

proof fn lemma_path_index_bound(doc: Seq<PathEntryView>, path: Seq<char>)
    ensures
        path_index(doc, path) matches Some(k) ==> 0 <= k < doc.len() && doc[k].path == path,
    decreases doc.len(),
{
    if doc.len() > 0 && doc[0].path != path {
        lemma_path_index_bound(doc.drop_first(), path);
    }
}

proof fn lemma_path_index_same_paths(doc: Seq<PathEntryView>, other: Seq<PathEntryView>, path: Seq<char>)
    requires
        doc.len() == other.len(),
        forall|i: int| 0 <= i < doc.len() ==> (#[trigger] doc[i]).path == other[i].path,
    ensures
        path_index(doc, path) == path_index(other, path),
    decreases doc.len(),
{
    if doc.len() > 0 {
        assert(doc[0].path == other[0].path);
        lemma_path_index_same_paths(doc.drop_first(), other.drop_first(), path);
    }
}

proof fn lemma_path_index_push(doc: Seq<PathEntryView>, e: PathEntryView, path: Seq<char>)
    requires
        path_index(doc, e.path) == None::<int>,
    ensures
        path_index(doc.push(e), path) == if path == e.path {
            Some(doc.len() as int)
        } else {
            path_index(doc, path)
        },
    decreases doc.len(),
{
    let pushed = doc.push(e);
    assert(pushed[0] == if doc.len() == 0 { e } else { doc[0] });
    if doc.len() == 0 {
        assert(pushed.drop_first() =~= Seq::<PathEntryView>::empty());
        assert(path_index(Seq::<PathEntryView>::empty(), path) == None::<int>);
    } else {
        assert(pushed.drop_first() =~= doc.drop_first().push(e));
        assert(doc[0].path != e.path);
        assert(path_index(doc.drop_first(), e.path) == None::<int>);
        lemma_path_index_push(doc.drop_first(), e, path);
    }
}

proof fn lemma_slot(routes: Seq<RouteView>, path: Seq<char>, method: Method)
    ensures
        slot(paths_of(routes), path, method) == first_operation(routes, path, method),
    decreases routes.len(),
{
    if routes.len() > 0 {
        let prev = routes.drop_last();
        let r = routes.last();
        let doc = paths_of(prev);
        let p = r.pretty_path();
        let out = paths_of(routes);
        lemma_slot(prev, path, method);
        lemma_path_index_bound(doc, p);
        lemma_path_index_bound(doc, path);
        assert(out == add_route(doc, r));
        match path_index(doc, p) {
            Some(k) => {
                let e = PathEntryView { path: p, item: doc[k].item.with_first(r.method, operation_of(r)) };
                assert(out == doc.update(k, e));
                lemma_path_index_same_paths(out, doc, path);
            },
            None => {
                let e = PathEntryView { path: p, item: PathItemView::empty().with_first(r.method, operation_of(r)) };
                assert(out == doc.push(e));
                lemma_path_index_push(doc, e, path);
            },
        }
    }
}

proof fn lemma_first_operation_none(routes: Seq<RouteView>, path: Seq<char>, method: Method)
    requires
        forall|j: int|
            0 <= j < routes.len() ==> !((#[trigger] routes[j]).pretty_path() == path && routes[j].method == method),
    ensures
        first_operation(routes, path, method) == None::<OperationView>,
    decreases routes.len(),
{
    if routes.len() > 0 {
        let prev = routes.drop_last();
        assert forall|j: int| 0 <= j < prev.len() implies !((#[trigger] prev[j]).pretty_path() == path
            && prev[j].method == method) by {
            assert(prev[j] == routes[j]);
        }
        lemma_first_operation_none(prev, path, method);
        assert(routes.last() == routes[routes.len() - 1]);
    }
}

proof fn lemma_first_operation(routes: Seq<RouteView>, i: int)
    requires
        0 <= i < routes.len(),
        forall|j: int|
            0 <= j < i ==> !((#[trigger] routes[j]).pretty_path() == routes[i].pretty_path()
                && routes[j].method == routes[i].method),
    ensures
        first_operation(routes, routes[i].pretty_path(), routes[i].method) == Some(operation_of(routes[i])),
    decreases routes.len(),
{
    let prev = routes.drop_last();
    if i == routes.len() - 1 {
        assert forall|j: int| 0 <= j < prev.len() implies !((#[trigger] prev[j]).pretty_path()
            == routes[i].pretty_path() && prev[j].method == routes[i].method) by {
            assert(prev[j] == routes[j]);
        }
        lemma_first_operation_none(prev, routes[i].pretty_path(), routes[i].method);
    } else {
        assert(prev[i] == routes[i]);
        assert forall|j: int| 0 <= j < i implies !((#[trigger] prev[j]).pretty_path() == prev[i].pretty_path()
            && prev[j].method == prev[i].method) by {
            assert(prev[j] == routes[j]);
        }
        lemma_first_operation(prev, i);
    }
}

/// Under a record's pretty path and method, the document holds the
/// operation of the first record with that pretty path and method; records
/// after it with the same pair leave no trace there.
pub proof fn lemma_first_record_kept(routes: Seq<RouteView>, i: int)
    requires
        0 <= i < routes.len(),
        forall|j: int|
            0 <= j < i ==> !((#[trigger] routes[j]).pretty_path() == routes[i].pretty_path()
                && routes[j].method == routes[i].method),
    ensures
        path_index(paths_of(routes), routes[i].pretty_path()) matches Some(k) && paths_of(routes)[k].path
            == routes[i].pretty_path() && paths_of(routes)[k].item.operation(routes[i].method) == Some(
            operation_of(routes[i]),
        ),
{
    lemma_slot(routes, routes[i].pretty_path(), routes[i].method);
    lemma_first_operation(routes, i);
    lemma_path_index_bound(paths_of(routes), routes[i].pretty_path());
}

} // verus!
