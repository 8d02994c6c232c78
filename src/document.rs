//! The route documentation record and the entries it collects.

use vstd::prelude::*;
use crate::text::{brace_count, reads_placeholders, pretty_of, pushed, placeholder, placeholder_index, placeholder_text, occurs_at};
use crate::text::{lemma_pushed_braces, lemma_placeholder_one_brace, lemma_placeholder_index_prefix};
use crate::types::{DocumentedType, TypeView, Overlay, text_view, copy_text, object};

verus! {

/// The HTTP methods a route can be documented under.
#[derive(Debug, Clone, Copy, PartialEq, Eq, Structural)]
pub enum Method {
    Get,
    Post,
    Put,
    Delete,
    Head,
    Options,
    Patch,
    Trace,
}

/// The view of a cookie or header entry.
pub struct FieldView {
    pub name: Seq<char>,
    pub description: Option<Seq<char>>,
    pub required: bool,
}

/// The view of a path parameter or query entry.
pub struct ParamView {
    pub name: Seq<char>,
    pub description: Option<Seq<char>>,
    pub ty: TypeView,
    pub required: bool,
}

/// The view of a body entry.
pub struct BodyView {
    pub body: TypeView,
    pub mime: Option<Seq<char>>,
}

/// The view of a response entry.
pub struct ResponseView {
    pub body: Seq<BodyView>,
    pub description: Seq<char>,
    pub headers: Seq<FieldView>,
    pub status: u16,
}

/// The view of a route documentation record.
pub struct RouteView {
    pub bodies: Seq<BodyView>,
    pub cookies: Seq<FieldView>,
    pub description: Option<Seq<char>>,
    pub headers: Seq<FieldView>,
    pub method: Method,
    pub parameters: Seq<ParamView>,
    pub path: Seq<char>,
    pub queries: Seq<ParamView>,
    pub responses: Seq<ResponseView>,
    pub tags: Seq<Seq<char>>,
}

/// The views of the elements of `s`, in order.
pub open spec fn views<T: View>(s: Seq<T>) -> Seq<T::V> {
    s.map_values(|x: T| x@)
}

/// Whether an entry named `name` is among `s`.
pub open spec fn has_field(s: Seq<FieldView>, name: Seq<char>) -> bool {
    exists|i: int| 0 <= i < s.len() && (#[trigger] s[i]).name == name
}

/// `s` with `f` added unless an entry of the same name is already there.
pub open spec fn insert_field(s: Seq<FieldView>, f: FieldView) -> Seq<FieldView> {
    if has_field(s, f.name) {
        s
    } else {
        s.push(f)
    }
}

/// Whether a body of media type `mime` is among `s`.
pub open spec fn has_body(s: Seq<BodyView>, mime: Option<Seq<char>>) -> bool {
    exists|i: int| 0 <= i < s.len() && (#[trigger] s[i]).mime == mime
}

/// `s` with `b` added unless a body of the same media type is already there.
pub open spec fn insert_body(s: Seq<BodyView>, b: BodyView) -> Seq<BodyView> {
    if has_body(s, b.mime) {
        s
    } else {
        s.push(b)
    }
}

/// Whether a response of `status` is among `s`.
pub open spec fn has_response(s: Seq<ResponseView>, status: u16) -> bool {
    exists|i: int| 0 <= i < s.len() && (#[trigger] s[i]).status == status
}

/// `s` with `r` added unless a response of the same status is already there.
pub open spec fn insert_response(s: Seq<ResponseView>, r: ResponseView) -> Seq<ResponseView> {
    if has_response(s, r.status) {
        s
    } else {
        s.push(r)
    }
}

pub open spec fn unique_fields(s: Seq<FieldView>) -> bool {
    forall|i: int, j: int| 0 <= i < j < s.len() ==> (#[trigger] s[i]).name != (#[trigger] s[j]).name
}

pub open spec fn unique_bodies(s: Seq<BodyView>) -> bool {
    forall|i: int, j: int| 0 <= i < j < s.len() ==> (#[trigger] s[i]).mime != (#[trigger] s[j]).mime
}

pub open spec fn unique_responses(s: Seq<ResponseView>) -> bool {
    forall|i: int, j: int|
        0 <= i < j < s.len() ==> (#[trigger] s[i]).status != (#[trigger] s[j]).status
}

impl ResponseView {
    /// Headers and bodies of a response are sets keyed by name and media type.
    pub open spec fn wf(self) -> bool {
        unique_fields(self.headers) && unique_bodies(self.body)
    }
}

impl RouteView {
    /// The names of the path parameters, in declaration order.
    pub open spec fn names(self) -> Seq<Seq<char>> {
        self.parameters.map_values(|p: ParamView| p.name)
    }

    /// The template with placeholders resolved to parameter names.
    pub open spec fn pretty_path(self) -> Seq<char> {
        pretty_of(self.path, self.names())
    }

    /// The record's invariant: the template's placeholders read `{0}`,
    /// `{1}`, ... in order, one per path parameter, and no other brace
    /// occurs; headers, cookies, bodies and responses are sets keyed by
    /// name, name, media type and status.
    pub open spec fn wf(self) -> bool {
        &&& reads_placeholders(self.path, 0, self.parameters.len())
        &&& unique_fields(self.headers)
        &&& unique_fields(self.cookies)
        &&& unique_bodies(self.bodies)
        &&& unique_responses(self.responses)
        &&& forall|i: int| 0 <= i < self.responses.len() ==> (#[trigger] self.responses[i]).wf()
    }

    /// The record that `describe` starts from.
    pub open spec fn empty() -> RouteView {
        RouteView {
            bodies: Seq::empty(),
            cookies: Seq::empty(),
            description: None,
            headers: Seq::empty(),
            method: Method::Post,
            parameters: Seq::empty(),
            path: seq!['/'],
            queries: Seq::empty(),
            responses: Seq::empty(),
            tags: Seq::empty(),
        }
    }
}

/// A cookie that a route reads; entries are keyed by name.
#[derive(Debug)]
pub struct DocumentedCookie {
    pub name: String,
    pub description: Option<String>,
    pub required: bool,
}

impl View for DocumentedCookie {
    type V = FieldView;

    open spec fn view(&self) -> FieldView {
        FieldView { name: self.name@, description: text_view(self.description), required: self.required }
    }
}

impl Clone for DocumentedCookie {
    fn clone(&self) -> (r: Self)
        ensures
            r@ == self@,
    {
        DocumentedCookie { name: self.name.clone(), description: copy_text(&self.description), required: self.required }
    }
}

/// A required cookie named `name`, with no description.
pub fn cookie(name: &str) -> (r: DocumentedCookie)
    ensures
        r@ == (FieldView { name: name@, description: None, required: true }),
{
    DocumentedCookie { name: name.to_string(), description: None, required: true }
}

impl DocumentedCookie {
    pub fn description(self, description: &str) -> (r: Self)
        ensures
            r@ == (FieldView { description: Some(description@), ..self@ }),
    {
        DocumentedCookie { description: Some(description.to_string()), ..self }
    }

    pub fn required(self, required: bool) -> (r: Self)
        ensures
            r@ == (FieldView { required, ..self@ }),
    {
        DocumentedCookie { required, ..self }
    }
}

/// A header that a route reads or a response carries; entries are keyed by name.
#[derive(Debug)]
pub struct DocumentedHeader {
    pub name: String,
    pub description: Option<String>,
    pub required: bool,
}

impl View for DocumentedHeader {
    type V = FieldView;

    open spec fn view(&self) -> FieldView {
        FieldView { name: self.name@, description: text_view(self.description), required: self.required }
    }
}

impl Clone for DocumentedHeader {
    fn clone(&self) -> (r: Self)
        ensures
            r@ == self@,
    {
        DocumentedHeader { name: self.name.clone(), description: copy_text(&self.description), required: self.required }
    }
}

/// A required header named `name`, with no description.
pub fn header(name: &str) -> (r: DocumentedHeader)
    ensures
        r@ == (FieldView { name: name@, description: None, required: true }),
{
    DocumentedHeader { name: name.to_string(), description: None, required: true }
}

impl DocumentedHeader {
    pub fn description(self, description: &str) -> (r: Self)
        ensures
            r@ == (FieldView { description: Some(description@), ..self@ }),
    {
        DocumentedHeader { description: Some(description.to_string()), ..self }
    }

    pub fn required(self, required: bool) -> (r: Self)
        ensures
            r@ == (FieldView { required, ..self@ }),
    {
        DocumentedHeader { required, ..self }
    }
}

/// A path parameter; parameters are ordered as they were declared.
#[derive(Debug)]
pub struct DocumentedParameter {
    pub name: String,
    pub description: Option<String>,
    pub type_: DocumentedType,
    pub required: bool,
}

impl View for DocumentedParameter {
    type V = ParamView;

    open spec fn view(&self) -> ParamView {
        ParamView {
            name: self.name@,
            description: text_view(self.description),
            ty: self.type_@,
            required: self.required,
        }
    }
}

impl Clone for DocumentedParameter {
    fn clone(&self) -> (r: Self)
        ensures
            r@ == self@,
    {
        DocumentedParameter {
            name: self.name.clone(),
            description: copy_text(&self.description),
            type_: self.type_.clone(),
            required: self.required,
        }
    }
}

/// A required path parameter named `name` of type `type_`.
pub fn parameter(name: &str, type_: DocumentedType) -> (r: DocumentedParameter)
    ensures
        r@ == (ParamView { name: name@, description: None, ty: type_@, required: true }),
{
    DocumentedParameter { name: name.to_string(), description: None, type_, required: true }
}

impl DocumentedParameter {
    pub fn description(self, description: &str) -> (r: Self)
        ensures
            r@ == (ParamView { description: Some(description@), ..self@ }),
    {
        DocumentedParameter { description: Some(description.to_string()), ..self }
    }

    pub fn required(self, required: bool) -> (r: Self)
        ensures
            r@ == (ParamView { required, ..self@ }),
    {
        DocumentedParameter { required, ..self }
    }
}

/// A query-string entry; queries keep the order they were added in.
#[derive(Debug)]
pub struct DocumentedQuery {
    pub name: String,
    pub description: Option<String>,
    pub type_: DocumentedType,
    pub required: bool,
}

impl View for DocumentedQuery {
    type V = ParamView;

    open spec fn view(&self) -> ParamView {
        ParamView {
            name: self.name@,
            description: text_view(self.description),
            ty: self.type_@,
            required: self.required,
        }
    }
}

impl Clone for DocumentedQuery {
    fn clone(&self) -> (r: Self)
        ensures
            r@ == self@,
    {
        DocumentedQuery {
            name: self.name.clone(),
            description: copy_text(&self.description),
            type_: self.type_.clone(),
            required: self.required,
        }
    }
}

/// A required query entry named `name` of type `type_`.
pub fn query(name: &str, type_: DocumentedType) -> (r: DocumentedQuery)
    ensures
        r@ == (ParamView { name: name@, description: None, ty: type_@, required: true }),
{
    DocumentedQuery { name: name.to_string(), description: None, type_, required: true }
}

impl DocumentedQuery {
    pub fn description(self, description: &str) -> (r: Self)
        ensures
            r@ == (ParamView { description: Some(description@), ..self@ }),
    {
        DocumentedQuery { description: Some(description.to_string()), ..self }
    }

    pub fn required(self, required: bool) -> (r: Self)
        ensures
            r@ == (ParamView { required, ..self@ }),
    {
        DocumentedQuery { required, ..self }
    }
}


fn contains_header(s: &Vec<DocumentedHeader>, name: &String) -> (r: bool)
    ensures
        r == has_field(views(s@), name@),
{
    let mut i: usize = 0;
    while i < s.len()
        invariant
            i <= s.len(),
            forall|k: int| 0 <= k < i ==> s@[k].name@ != name@,
        decreases s.len() - i,
    {
        if s[i].name == *name {
            assert(views(s@)[i as int].name == name@);
            return true;
        }
        i = i + 1;
    }
    assert forall|k: int| 0 <= k < views(s@).len() implies (#[trigger] views(s@)[k]).name != name@ by {
        assert(views(s@)[k] == s@[k]@);
    }
    false
}

fn contains_cookie(s: &Vec<DocumentedCookie>, name: &String) -> (r: bool)
    ensures
        r == has_field(views(s@), name@),
{
    let mut i: usize = 0;
    while i < s.len()
        invariant
            i <= s.len(),
            forall|k: int| 0 <= k < i ==> s@[k].name@ != name@,
        decreases s.len() - i,
    {
        if s[i].name == *name {
            assert(views(s@)[i as int].name == name@);
            return true;
        }
        i = i + 1;
    }
    assert forall|k: int| 0 <= k < views(s@).len() implies (#[trigger] views(s@)[k]).name != name@ by {
        assert(views(s@)[k] == s@[k]@);
    }
    false
}

fn same_text(a: &Option<String>, b: &Option<String>) -> (r: bool)
    ensures
        r == (text_view(*a) == text_view(*b)),
{
    match (a, b) {
        (Some(x), Some(y)) => *x == *y,
        (None, None) => true,
        _ => false,
    }
}

fn contains_body(s: &Vec<DocumentedBody>, mime: &Option<String>) -> (r: bool)
    ensures
        r == has_body(views(s@), text_view(*mime)),
{
    let mut i: usize = 0;
    while i < s.len()
        invariant
            i <= s.len(),
            forall|k: int| 0 <= k < i ==> text_view(s@[k].mime) != text_view(*mime),
        decreases s.len() - i,
    {
        if same_text(&s[i].mime, mime) {
            assert(views(s@)[i as int].mime == text_view(*mime));
            return true;
        }
        i = i + 1;
    }
    assert forall|k: int| 0 <= k < views(s@).len() implies (#[trigger] views(s@)[k]).mime != text_view(*mime) by {
        assert(views(s@)[k] == s@[k]@);
    }
    false
}

fn contains_status(s: &Vec<DocumentedResponse>, status: u16) -> (r: bool)
    ensures
        r == has_response(views(s@), status),
{
    let mut i: usize = 0;
    while i < s.len()
        invariant
            i <= s.len(),
            forall|k: int| 0 <= k < i ==> s@[k].status != status,
        decreases s.len() - i,
    {
        if s[i].status == status {
            assert(views(s@)[i as int].status == status);
            return true;
        }
        i = i + 1;
    }
    assert forall|k: int| 0 <= k < views(s@).len() implies (#[trigger] views(s@)[k]).status != status by {
        assert(views(s@)[k] == s@[k]@);
    }
    false
}

pub(crate) proof fn lemma_views_push<T: View>(s: Seq<T>, x: T)
    ensures
        views(s.push(x)) == views(s).push(x@),
{
    assert(views(s.push(x)) =~= views(s).push(x@));
}

/// A request or response body; entries are keyed by media type.
#[derive(Debug)]
pub struct DocumentedBody {
    pub body: DocumentedType,
    pub mime: Option<String>,
}

impl View for DocumentedBody {
    type V = BodyView;

    open spec fn view(&self) -> BodyView {
        BodyView { body: self.body@, mime: text_view(self.mime) }
    }
}

impl Clone for DocumentedBody {
    fn clone(&self) -> (r: Self)
        ensures
            r@ == self@,
    {
        DocumentedBody { body: self.body.clone(), mime: copy_text(&self.mime) }
    }
}

impl Default for DocumentedBody {
    /// A body of any media type holding an empty object.
    fn default() -> (r: Self)
        ensures
            r@ == (BodyView {
                body: TypeView::Object { properties: Seq::empty(), meta: Overlay::none() },
                mime: None,
            }),
    {
        let fields: Vec<(String, DocumentedType)> = Vec::new();
        let body = object(fields);
        proof {
            assert(crate::types::properties_view(fields@) =~= Seq::empty());
        }
        DocumentedBody { body, mime: None }
    }
}

impl DocumentedBody {
    pub fn body(self, type_: DocumentedType) -> (r: Self)
        ensures
            r@ == (BodyView { body: type_@, ..self@ }),
    {
        DocumentedBody { body: type_, ..self }
    }

    pub fn mime(self, mime: &str) -> (r: Self)
        ensures
            r@ == (BodyView { mime: Some(mime@), ..self@ }),
    {
        DocumentedBody { mime: Some(mime.to_string()), ..self }
    }
}

/// A body of any media type holding `type_`.
pub fn body(type_: DocumentedType) -> (r: DocumentedBody)
    ensures
        r@ == (BodyView { body: type_@, mime: None }),
{
    DocumentedBody::default().body(type_)
}

/// A response a route may give; entries are keyed by status.
#[derive(Debug)]
pub struct DocumentedResponse {
    pub body: Vec<DocumentedBody>,
    pub description: String,
    pub headers: Vec<DocumentedHeader>,
    pub status: u16,
}

impl View for DocumentedResponse {
    type V = ResponseView;

    open spec fn view(&self) -> ResponseView {
        ResponseView {
            body: views(self.body@),
            description: self.description@,
            headers: views(self.headers@),
            status: self.status,
        }
    }
}

impl Clone for DocumentedResponse {
    fn clone(&self) -> (r: Self)
        ensures
            r@ == self@,
    {
        let body = self.body.clone();
        let headers = self.headers.clone();
        proof {
            assert(views(body@) =~= views(self.body@)) by {
                assert forall|i: int| 0 <= i < body@.len() implies body@[i]@ == self.body@[i]@ by {
                    assert(cloned(self.body@[i], body@[i]));
                }
            }
            assert(views(headers@) =~= views(self.headers@)) by {
                assert forall|i: int| 0 <= i < headers@.len() implies headers@[i]@ == self.headers@[i]@ by {
                    assert(cloned(self.headers@[i], headers@[i]));
                }
            }
        }
        DocumentedResponse { body, description: self.description.clone(), headers, status: self.status }
    }
}

impl Default for DocumentedResponse {
    /// A response of status 0 with no description, headers or bodies.
    fn default() -> (r: Self)
        ensures
            r@ == (ResponseView { body: Seq::empty(), description: Seq::empty(), headers: Seq::empty(), status: 0 }),
    {
        let r = DocumentedResponse { body: Vec::new(), description: String::new(), headers: Vec::new(), status: 0 };
        assert(views(r.body@) =~= Seq::empty());
        assert(views(r.headers@) =~= Seq::empty());
        r
    }
}

impl DocumentedResponse {
    pub fn description(self, description: &str) -> (r: Self)
        ensures
            r@ == (ResponseView { description: description@, ..self@ }),
    {
        DocumentedResponse { description: description.to_string(), ..self }
    }

    /// Adds a body unless one of the same media type is already there.
    pub fn body(self, body: DocumentedBody) -> (r: Self)
        ensures
            r@ == (ResponseView { body: insert_body(self@.body, body@), ..self@ }),
    {
        let mut this = self;
        if !contains_body(&this.body, &body.mime) {
            proof { lemma_views_push(this.body@, body); }
            this.body.push(body);
        }
        this
    }

    /// Adds a header unless one of the same name is already there.
    pub fn header(self, header: DocumentedHeader) -> (r: Self)
        ensures
            r@ == (ResponseView { headers: insert_field(self@.headers, header@), ..self@ }),
    {
        let mut this = self;
        if !contains_header(&this.headers, &header.name) {
            proof { lemma_views_push(this.headers@, header); }
            this.headers.push(header);
        }
        this
    }

    pub fn status(self, status: u16) -> (r: Self)
        ensures
            r@ == (ResponseView { status, ..self@ }),
    {
        DocumentedResponse { status, ..self }
    }
}

/// A response of `status` with no description, holding `body` if given.
pub fn response(status: u16, body: Option<DocumentedBody>) -> (r: DocumentedResponse)
    ensures
        r@ == (ResponseView {
            body: match body {
                Some(b) => seq![b@],
                None => Seq::empty(),
            },
            description: Seq::empty(),
            headers: Seq::empty(),
            status,
        }),
{
    let response = DocumentedResponse::default().status(status);
    match body {
        Some(b) => {
            let r = response.body(b);
            assert(r@.body =~= seq![b@]);
            r
        },
        None => response,
    }
}


/// Everything known so far of one (path, method) endpoint under construction.
#[derive(Debug)]
pub struct RouteDocumentation {
    pub bodies: Vec<DocumentedBody>,
    pub cookies: Vec<DocumentedCookie>,
    pub description: Option<String>,
    pub headers: Vec<DocumentedHeader>,
    pub method: Method,
    pub parameters: Vec<DocumentedParameter>,
    pub path: String,
    pub queries: Vec<DocumentedQuery>,
    pub responses: Vec<DocumentedResponse>,
    pub tags: Vec<String>,
}

impl View for RouteDocumentation {
    type V = RouteView;

    open spec fn view(&self) -> RouteView {
        RouteView {
            bodies: views(self.bodies@),
            cookies: views(self.cookies@),
            description: text_view(self.description),
            headers: views(self.headers@),
            method: self.method,
            parameters: views(self.parameters@),
            path: self.path@,
            queries: views(self.queries@),
            responses: views(self.responses@),
            tags: views(self.tags@),
        }
    }
}

proof fn lemma_cloned_views<T: View + Clone>(a: Seq<T>, b: Seq<T>)
    requires
        a.len() == b.len(),
        forall|i: int| 0 <= i < a.len() ==> cloned(a[i], #[trigger] b[i]),
        forall|x: T, y: T| #[trigger] cloned(x, y) ==> x@ == y@,
    ensures
        views(a) == views(b),
{
    assert(views(a) =~= views(b));
}

impl Clone for RouteDocumentation {
    fn clone(&self) -> (r: Self)
        ensures
            r@ == self@,
    {
        let r = RouteDocumentation {
            bodies: self.bodies.clone(),
            cookies: self.cookies.clone(),
            description: copy_text(&self.description),
            headers: self.headers.clone(),
            method: self.method,
            parameters: self.parameters.clone(),
            path: self.path.clone(),
            queries: self.queries.clone(),
            responses: self.responses.clone(),
            tags: self.tags.clone(),
        };
        proof {
            lemma_cloned_views(self.bodies@, r.bodies@);
            lemma_cloned_views(self.cookies@, r.cookies@);
            lemma_cloned_views(self.headers@, r.headers@);
            lemma_cloned_views(self.parameters@, r.parameters@);
            lemma_cloned_views(self.queries@, r.queries@);
            lemma_cloned_views(self.responses@, r.responses@);
            lemma_cloned_views(self.tags@, r.tags@);
        }
        r
    }
}

impl Default for RouteDocumentation {
    /// The record a description starts from: method POST, path `/`, nothing else.
    fn default() -> (r: Self)
        ensures
            r@ == RouteView::empty(),
            r@.wf(),
    {
        proof {
            reveal_strlit("/");
        }
        let r = RouteDocumentation {
            bodies: Vec::new(),
            cookies: Vec::new(),
            description: None,
            headers: Vec::new(),
            method: Method::Post,
            parameters: Vec::new(),
            path: String::from_str("/"),
            queries: Vec::new(),
            responses: Vec::new(),
            tags: Vec::new(),
        };
        proof {
            assert(r@.bodies =~= Seq::empty());
            assert(r@.cookies =~= Seq::empty());
            assert(r@.headers =~= Seq::empty());
            assert(r@.parameters =~= Seq::empty());
            assert(r@.queries =~= Seq::empty());
            assert(r@.responses =~= Seq::empty());
            assert(r@.tags =~= Seq::empty());
            assert(r@.path =~= seq!['/']);
            crate::text::lemma_brace_count_single('/');
            crate::text::lemma_reads_no_brace(seq!['/'], 0);
        }
        r
    }
}

impl RouteDocumentation {
    /// Adds a body unless one of the same media type is already there.
    pub fn body(&mut self, body: DocumentedBody)
        ensures
            final(self)@ == (RouteView { bodies: insert_body(old(self)@.bodies, body@), ..old(self)@ }),
            old(self)@.wf() ==> final(self)@.wf(),
    {
        if !contains_body(&self.bodies, &body.mime) {
            proof { lemma_views_push(self.bodies@, body); }
            self.bodies.push(body);
        }
    }

    /// Adds a cookie unless one of the same name is already there.
    pub fn cookie(&mut self, cookie: DocumentedCookie)
        ensures
            final(self)@ == (RouteView { cookies: insert_field(old(self)@.cookies, cookie@), ..old(self)@ }),
            old(self)@.wf() ==> final(self)@.wf(),
    {
        if !contains_cookie(&self.cookies, &cookie.name) {
            proof { lemma_views_push(self.cookies@, cookie); }
            self.cookies.push(cookie);
        }
    }

    /// Replaces the description.
    pub fn description(&mut self, description: &str)
        ensures
            final(self)@ == (RouteView { description: Some(description@), ..old(self)@ }),
            old(self)@.wf() ==> final(self)@.wf(),
    {
        self.description = Some(description.to_string());
    }

    /// Adds a header unless one of the same name is already there.
    pub fn header(&mut self, header: DocumentedHeader)
        ensures
            final(self)@ == (RouteView { headers: insert_field(old(self)@.headers, header@), ..old(self)@ }),
            old(self)@.wf() ==> final(self)@.wf(),
    {
        if !contains_header(&self.headers, &header.name) {
            proof { lemma_views_push(self.headers@, header); }
            self.headers.push(header);
        }
    }

    /// Declares the next path parameter: appends its placeholder to the
    /// template and the parameter to the list, together.
    pub fn parameter(&mut self, parameter: DocumentedParameter)
        ensures
            final(self)@ == (RouteView {
                path: pushed(old(self)@.path, placeholder(old(self)@.parameters.len())),
                parameters: old(self)@.parameters.push(parameter@),
                ..old(self)@
            }),
            old(self)@.wf() ==> final(self)@.wf(),
    {
        let ph = placeholder_text(self.parameters.len());
        self.push_path(ph.as_str());
        proof {
            lemma_views_push(self.parameters@, parameter);
            lemma_placeholder_one_brace(old(self)@.parameters.len());
            crate::text::lemma_reads_placeholder(old(self)@.parameters.len());
            if old(self)@.wf() {
                crate::text::lemma_reads_pushed(
                    old(self)@.path,
                    placeholder(old(self)@.parameters.len()),
                    old(self)@.parameters.len(),
                    old(self)@.parameters.len() + 1,
                );
            }
        }
        self.parameters.push(parameter);
    }

    /// Appends a segment to the template, with a separating slash unless
    /// the template already ends in one.
    pub fn push_path(&mut self, path: &str)
        ensures
            final(self)@ == (RouteView { path: pushed(old(self)@.path, path@), ..old(self)@ }),
            brace_count(final(self)@.path) == brace_count(old(self)@.path) + brace_count(path@),
    {
        proof {
            reveal_strlit("/");
            lemma_pushed_braces(self.path@, path@);
        }
        let n = self.path.as_str().unicode_len();
        let ends_in_slash = n > 0 && self.path.as_str().get_char(n - 1) == '/';
        if !ends_in_slash {
            self.path.append("/");
            assert(self.path@ =~= old(self)@.path.push('/'));
        }
        self.path.append(path);
    }

    /// Adds a query entry at the end.
    pub fn query(&mut self, query: DocumentedQuery)
        ensures
            final(self)@ == (RouteView { queries: old(self)@.queries.push(query@), ..old(self)@ }),
            old(self)@.wf() ==> final(self)@.wf(),
    {
        proof { lemma_views_push(self.queries@, query); }
        self.queries.push(query);
    }

    /// Adds a response unless one of the same status is already there.
    pub fn response(&mut self, response: DocumentedResponse)
        ensures
            final(self)@ == (RouteView { responses: insert_response(old(self)@.responses, response@), ..old(self)@ }),
            old(self)@.wf() && response@.wf() ==> final(self)@.wf(),
    {
        if !contains_status(&self.responses, response.status) {
            proof { lemma_views_push(self.responses@, response); }
            self.responses.push(response);
        }
    }

    /// Adds a tag at the end.
    pub fn tag(&mut self, tag: &str)
        ensures
            final(self)@ == (RouteView { tags: old(self)@.tags.push(tag@), ..old(self)@ }),
            old(self)@.wf() ==> final(self)@.wf(),
    {
        let t = tag.to_string();
        proof { lemma_views_push(self.tags@, t); }
        self.tags.push(t);
    }

    /// The template with each placeholder replaced by its parameter's name
    /// in braces; the stored template is left as it is.
    pub fn pretty_path(&self) -> (r: String)
        ensures
            r@ == self@.pretty_path(),
    {
        proof {
            reveal_strlit("{");
            reveal_strlit("}");
        }
        let path = self.path.as_str();
        let n = path.unicode_len();
        let ghost names = self@.names();
        let mut out = String::new();
        let mut i: usize = 0;
        assert(out@ + pretty_of(path@.skip(0), names) =~= pretty_of(path@, names)) by {
            assert(path@.skip(0) =~= path@);
        }
        while i < n
            invariant
                n == path@.len(),
                path@ == self.path@,
                names == self@.names(),
                names.len() == self.parameters.len(),
                i <= n,
                out@ + pretty_of(path@.skip(i as int), names) == pretty_of(path@, names),
            decreases n - i,
        {
            let ghost rest = path@.skip(i as int);
            let mut found: Option<usize> = None;
            let mut k: usize = 0;
            while k < self.parameters.len()
                invariant_except_break
                    found == None::<usize>,
                invariant
                    n == path@.len(),
                    i < n,
                    rest == path@.skip(i as int),
                    names == self@.names(),
                    names.len() == self.parameters.len(),
                    k <= self.parameters.len(),
                    placeholder_index(rest, names.len(), 0) == placeholder_index(rest, names.len(), k as nat),
                ensures
                    found == None::<usize> ==> placeholder_index(rest, names.len(), 0) == None::<nat>,
                    found matches Some(j) ==> placeholder_index(rest, names.len(), 0) == Some(j as nat) && j < names.len(),
                decreases self.parameters.len() - k,
            {
                let ph = placeholder_text(k);
                if occurs_at(path, i, ph.as_str()) {
                    assert(placeholder_index(rest, names.len(), k as nat) == Some(k as nat));
                    found = Some(k);
                    break;
                }
                k = k + 1;
            }
            match found {
                Some(j) => {
                    let ph = placeholder_text(j);
                    let len = ph.as_str().unicode_len();
                    let ghost before = out@;
                    proof {
                        lemma_placeholder_index_prefix(rest, names.len(), 0);
                        assert(names[j as int] == self.parameters@[j as int].name@);
                        assert(pretty_of(rest, names) == seq!['{'] + names[j as int] + seq!['}']
                            + pretty_of(rest.skip(len as int), names));
                    }
                    proof {
                        reveal_strlit("{");
                        reveal_strlit("}");
                    }
                    out.append("{");
                    out.append(self.parameters[j].name.as_str());
                    out.append("}");
                    proof {
                        assert(rest.skip(len as int) =~= path@.skip(i + len));
                        assert(out@ =~= before + (seq!['{'] + names[j as int] + seq!['}']));
                        assert(out@ + pretty_of(path@.skip(i + len), names) =~= before + pretty_of(rest, names));
                    }
                    i = i + len;
                },
                None => {
                    let ghost before = out@;
                    proof {
                        assert(placeholder_index(rest, names.len(), names.len()) == None::<nat>);
                        assert(placeholder_index(rest, names.len(), 0) == None::<nat>);
                        assert(rest.len() > 0);
                        assert(pretty_of(rest, names) == seq![rest[0]] + pretty_of(rest.skip(1), names));
                    }
                    out.append(path.substring_char(i, i + 1));
                    proof {
                        assert(rest.skip(1) =~= path@.skip(i + 1));
                        assert(path@.subrange(i as int, i + 1) =~= seq![rest[0]]);
                        assert(out@ + pretty_of(path@.skip(i + 1), names) =~= before + pretty_of(rest, names));
                    }
                    i = i + 1;
                },
            }
        }
        assert(path@.skip(n as int) =~= Seq::<char>::empty());
        assert(out@ =~= out@ + pretty_of(path@.skip(n as int), names));
        out
    }
}


/// The starting record is well formed.
pub proof fn lemma_empty_wf()
    ensures
        RouteView::empty().wf(),
{
    crate::text::lemma_brace_count_single('/');
    crate::text::lemma_reads_no_brace(seq!['/'], 0);
}


/// Headers and cookies are keyed by name, first inserted wins: a second
/// entry of the same name leaves the collection as the first left it.
pub proof fn lemma_first_field_wins(s: Seq<FieldView>, a: FieldView, b: FieldView)
    requires
        a.name == b.name,
    ensures
        insert_field(insert_field(s, a), b) == insert_field(s, a),
        !has_field(s, a.name) ==> insert_field(insert_field(s, a), b) == s.push(a),
{
    assert(has_field(insert_field(s, a), a.name)) by {
        if !has_field(s, a.name) {
            assert(insert_field(s, a)[s.len() as int] == a);
        }
    }
}

/// Bodies are keyed by media type, first inserted wins.
pub proof fn lemma_first_body_wins(s: Seq<BodyView>, a: BodyView, b: BodyView)
    requires
        a.mime == b.mime,
    ensures
        insert_body(insert_body(s, a), b) == insert_body(s, a),
        !has_body(s, a.mime) ==> insert_body(insert_body(s, a), b) == s.push(a),
{
    assert(has_body(insert_body(s, a), a.mime)) by {
        if !has_body(s, a.mime) {
            assert(insert_body(s, a)[s.len() as int] == a);
        }
    }
}

/// Responses are keyed by status, first inserted wins.
pub proof fn lemma_first_response_wins(s: Seq<ResponseView>, a: ResponseView, b: ResponseView)
    requires
        a.status == b.status,
    ensures
        insert_response(insert_response(s, a), b) == insert_response(s, a),
        !has_response(s, a.status) ==> insert_response(insert_response(s, a), b) == s.push(a),
{
    assert(has_response(insert_response(s, a), a.status)) by {
        if !has_response(s, a.status) {
            assert(insert_response(s, a)[s.len() as int] == a);
        }
    }
}

} // verus!
