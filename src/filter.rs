//! Filters as far as documentation goes: the contract every node of a
//! composition tree meets, the combinators, and the collector.

use vstd::prelude::*;
use crate::document::{
    RouteDocumentation, RouteView, ParamView, Method, views, insert_body, insert_field,
    insert_response, DocumentedBody, DocumentedCookie, DocumentedHeader, DocumentedParameter,
    DocumentedQuery, DocumentedResponse, parameter,
};
use crate::text::{brace_count, reads_placeholders, pushed, placeholder, lemma_pretty_keeps_braces};
use crate::types::ToDocumentedType;

verus! {

/// Something that adjusts one route documentation record.
pub trait Documentable {
    /// Whether applying it keeps a record well formed.
    spec fn valid(&self) -> bool;

    /// The record after it has been applied to `route`.
    spec fn documents(&self, route: RouteView) -> RouteView;

    proof fn lemma_documents_wf(&self, route: RouteView)
        requires
            self.valid(),
            route.wf(),
        ensures
            self.documents(route).wf(),
    ;

    fn document(&self, route: &mut RouteDocumentation)
        requires
            self.valid(),
        ensures
            final(route)@ == self.documents(old(route)@),
    ;
}

/// The documentation half of a filter: from a partial record, the records
/// of every syntactic route through it.
pub trait Filter {
    /// Whether its documentation steps keep records well formed.
    spec fn valid(&self) -> bool;

    /// The records it yields from `route`, in order.
    spec fn describes(&self, route: RouteView) -> Seq<RouteView>;

    proof fn lemma_describes_wf(&self, route: RouteView)
        requires
            self.valid(),
            route.wf(),
        ensures
            forall|i: int|
                0 <= i < self.describes(route).len() ==> (#[trigger] self.describes(route)[i]).wf(),
    ;

    fn describe(&self, route: RouteDocumentation) -> (r: Vec<RouteDocumentation>)
        requires
            self.valid(),
            route@.wf(),
        ensures
            views(r@) == self.describes(route@),
    ;
}

/// What the output of a value transformation contributes to the records of
/// the filter it transforms.
pub trait DocumentedReply {
    spec fn valid(&self) -> bool;

    /// The records that one record of the child becomes.
    spec fn replies(&self, route: RouteView) -> Seq<RouteView>;

    proof fn lemma_replies_wf(&self, route: RouteView)
        requires
            self.valid(),
            route.wf(),
        ensures
            forall|i: int|
                0 <= i < self.replies(route).len() ==> (#[trigger] self.replies(route)[i]).wf(),
    ;

    fn document(&self, route: RouteDocumentation) -> (r: Vec<RouteDocumentation>)
        requires
            self.valid(),
            route@.wf(),
        ensures
            views(r@) == self.replies(route@),
    ;
}

impl Documentable for DocumentedResponse {
    open spec fn valid(&self) -> bool {
        self@.wf()
    }

    open spec fn documents(&self, route: RouteView) -> RouteView {
        RouteView { responses: insert_response(route.responses, self@), ..route }
    }

    proof fn lemma_documents_wf(&self, route: RouteView) {
    }

    fn document(&self, route: &mut RouteDocumentation) {
        route.response(self.clone());
    }
}

impl Documentable for DocumentedBody {
    open spec fn valid(&self) -> bool {
        true
    }

    open spec fn documents(&self, route: RouteView) -> RouteView {
        RouteView { bodies: insert_body(route.bodies, self@), ..route }
    }

    proof fn lemma_documents_wf(&self, route: RouteView) {
    }

    fn document(&self, route: &mut RouteDocumentation) {
        route.body(self.clone());
    }
}

impl Documentable for DocumentedHeader {
    open spec fn valid(&self) -> bool {
        true
    }

    open spec fn documents(&self, route: RouteView) -> RouteView {
        RouteView { headers: insert_field(route.headers, self@), ..route }
    }

    proof fn lemma_documents_wf(&self, route: RouteView) {
    }

    fn document(&self, route: &mut RouteDocumentation) {
        route.header(self.clone());
    }
}

impl Documentable for DocumentedCookie {
    open spec fn valid(&self) -> bool {
        true
    }

    open spec fn documents(&self, route: RouteView) -> RouteView {
        RouteView { cookies: insert_field(route.cookies, self@), ..route }
    }

    proof fn lemma_documents_wf(&self, route: RouteView) {
    }

    fn document(&self, route: &mut RouteDocumentation) {
        route.cookie(self.clone());
    }
}

impl Documentable for DocumentedQuery {
    open spec fn valid(&self) -> bool {
        true
    }

    open spec fn documents(&self, route: RouteView) -> RouteView {
        RouteView { queries: route.queries.push(self@), ..route }
    }

    proof fn lemma_documents_wf(&self, route: RouteView) {
    }

    fn document(&self, route: &mut RouteDocumentation) {
        route.query(self.clone());
    }
}

impl Documentable for DocumentedParameter {
    open spec fn valid(&self) -> bool {
        true
    }

    open spec fn documents(&self, route: RouteView) -> RouteView {
        RouteView {
            path: pushed(route.path, placeholder(route.parameters.len())),
            parameters: route.parameters.push(self@),
            ..route
        }
    }

    proof fn lemma_documents_wf(&self, route: RouteView) {
        crate::text::lemma_reads_placeholder(route.parameters.len());
        crate::text::lemma_reads_pushed(
            route.path,
            placeholder(route.parameters.len()),
            route.parameters.len(),
            route.parameters.len() + 1,
        );
    }

    fn document(&self, route: &mut RouteDocumentation) {
        route.parameter(self.clone());
    }
}

impl Documentable for Method {
    open spec fn valid(&self) -> bool {
        true
    }

    open spec fn documents(&self, route: RouteView) -> RouteView {
        RouteView { method: *self, ..route }
    }

    proof fn lemma_documents_wf(&self, route: RouteView) {
    }

    fn document(&self, route: &mut RouteDocumentation) {
        route.method = *self;
    }
}

/// Sets the description of the route.
#[derive(Debug, Clone)]
pub struct Description {
    pub text: String,
}

impl Documentable for Description {
    open spec fn valid(&self) -> bool {
        true
    }

    open spec fn documents(&self, route: RouteView) -> RouteView {
        RouteView { description: Some(self.text@), ..route }
    }

    proof fn lemma_documents_wf(&self, route: RouteView) {
    }

    fn document(&self, route: &mut RouteDocumentation) {
        route.description(self.text.as_str());
    }
}

/// Adds a tag to the route.
#[derive(Debug, Clone)]
pub struct Tag {
    pub text: String,
}

impl Documentable for Tag {
    open spec fn valid(&self) -> bool {
        true
    }

    open spec fn documents(&self, route: RouteView) -> RouteView {
        RouteView { tags: route.tags.push(self.text@), ..route }
    }

    proof fn lemma_documents_wf(&self, route: RouteView) {
    }

    fn document(&self, route: &mut RouteDocumentation) {
        route.tag(self.text.as_str());
    }
}

/// Appends a fixed segment to the route's path template.
#[derive(Debug, Clone)]
pub struct Segment {
    pub text: String,
}

impl Documentable for Segment {
    /// A fixed segment holds no brace: braces mark parameter placeholders.
    open spec fn valid(&self) -> bool {
        brace_count(self.text@) == 0
    }

    open spec fn documents(&self, route: RouteView) -> RouteView {
        RouteView { path: pushed(route.path, self.text@), ..route }
    }

    proof fn lemma_documents_wf(&self, route: RouteView) {
        crate::text::lemma_reads_no_brace(self.text@, route.parameters.len());
        crate::text::lemma_reads_pushed(route.path, self.text@, route.parameters.len(), route.parameters.len());
    }

    fn document(&self, route: &mut RouteDocumentation) {
        route.push_path(self.text.as_str());
    }
}

/// Applies `.0`, then `.1`.
impl<A: Documentable, B: Documentable> Documentable for (A, B) {
    open spec fn valid(&self) -> bool {
        self.0.valid() && self.1.valid()
    }

    open spec fn documents(&self, route: RouteView) -> RouteView {
        self.1.documents(self.0.documents(route))
    }

    proof fn lemma_documents_wf(&self, route: RouteView) {
        self.0.lemma_documents_wf(route);
        self.1.lemma_documents_wf(self.0.documents(route));
    }

    fn document(&self, route: &mut RouteDocumentation) {
        self.0.document(route);
        self.1.document(route);
    }
}

/// Sets the description of the route.
pub fn description(text: &str) -> (r: Description)
    ensures
        r.text@ == text@,
{
    Description { text: text.to_string() }
}

/// Adds a tag to the route.
pub fn tag(text: &str) -> (r: Tag)
    ensures
        r.text@ == text@,
{
    Tag { text: text.to_string() }
}

/// Appends a fixed path segment to the route.
pub fn segment(text: &str) -> (r: Segment)
    ensures
        r.text@ == text@,
{
    Segment { text: text.to_string() }
}


proof fn lemma_views_concat<T: View>(a: Seq<T>, b: Seq<T>)
    ensures
        views(a + b) == views(a) + views(b),
{
    assert(views(a + b) =~= views(a) + views(b));
}

/// One step of a fan-out: the images of the first `i + 1` records are the
/// images of the first `i` followed by the image of record `i`.
proof fn lemma_flat_map_step<A, B>(s: Seq<A>, f: spec_fn(A) -> Seq<B>, i: int)
    requires
        0 <= i < s.len(),
    ensures
        s.take(i + 1).map_values(f).flatten() == s.take(i).map_values(f).flatten() + f(s[i]),
{
    assert(s.take(i + 1).map_values(f) =~= s.take(i).map_values(f).push(f(s[i])));
    s.take(i).map_values(f).lemma_flatten_push(f(s[i]));
}

/// Every element of a flattened sequence comes from one of its parts.
proof fn lemma_flatten_all<A>(s: Seq<Seq<A>>, p: spec_fn(A) -> bool)
    requires
        forall|i: int, j: int| 0 <= i < s.len() && 0 <= j < s[i].len() ==> p(#[trigger] s[i][j]),
    ensures
        forall|k: int| 0 <= k < s.flatten().len() ==> p(#[trigger] s.flatten()[k]),
    decreases s.len(),
{
    if s.len() > 0 {
        lemma_flatten_all(s.drop_first(), p);
        assert forall|k: int| 0 <= k < s.flatten().len() implies p(#[trigger] s.flatten()[k]) by {
            assert(s.flatten() == s.first() + s.drop_first().flatten());
            if k < s.first().len() {
                assert(s[0][k] == s.flatten()[k]);
            } else {
                assert(s.drop_first().flatten()[k - s.first().len()] == s.flatten()[k]);
            }
        }
    }
}

/// When every part has length `k`, the flattened sequence has `s.len() * k` elements.
proof fn lemma_flatten_uniform<A>(s: Seq<Seq<A>>, k: nat)
    requires
        forall|i: int| 0 <= i < s.len() ==> (#[trigger] s[i]).len() == k,
    ensures
        s.flatten().len() == s.len() * k,
    decreases s.len(),
{
    if s.len() > 0 {
        lemma_flatten_uniform(s.drop_first(), k);
        assert(s.flatten() == s.first() + s.drop_first().flatten());
        assert(s.len() * k == k + (s.len() - 1) * k) by (nonlinear_arith);
    }
}

/// The filter that matches every request and documents nothing.
#[derive(Debug, Clone, Copy)]
pub struct Any;

/// The filter that matches every request and documents nothing.
pub fn any() -> (r: Any) {
    Any
}

impl Filter for Any {
    open spec fn valid(&self) -> bool {
        true
    }

    open spec fn describes(&self, route: RouteView) -> Seq<RouteView> {
        seq![route]
    }

    proof fn lemma_describes_wf(&self, route: RouteView) {
    }

    fn describe(&self, route: RouteDocumentation) -> (r: Vec<RouteDocumentation>) {
        let r = vec![route];
        assert(views(r@) =~= seq![route@]);
        r
    }
}

/// A filter whose documentation is given by `describe` alone: the wrapped
/// filter decides the matching, and is not asked for documentation.
#[derive(Debug, Clone, Copy)]
pub struct ExplicitDocumentation<F, D> {
    pub filter: F,
    pub describe: D,
}

/// Attaches `describe` as the documentation of `filter`.
pub fn explicit<F: Filter, D: Documentable>(filter: F, describe: D) -> (r: ExplicitDocumentation<F, D>)
    ensures
        r.filter == filter,
        r.describe == describe,
{
    ExplicitDocumentation { filter, describe }
}

impl<F, D: Documentable> Filter for ExplicitDocumentation<F, D> {
    open spec fn valid(&self) -> bool {
        self.describe.valid()
    }

    /// Exactly one record: the input with the callback applied once.
    open spec fn describes(&self, route: RouteView) -> Seq<RouteView> {
        seq![self.describe.documents(route)]
    }

    proof fn lemma_describes_wf(&self, route: RouteView) {
        self.describe.lemma_documents_wf(route);
    }

    fn describe(&self, route: RouteDocumentation) -> (r: Vec<RouteDocumentation>) {
        let mut route = route;
        self.describe.document(&mut route);
        let r = vec![route];
        assert(views(r@) =~= seq![route@]);
        r
    }
}

/// A filter that matches every request and documents the route with `describe`.
pub fn document<D: Documentable>(describe: D) -> (r: ExplicitDocumentation<Any, D>)
    ensures
        r.describe == describe,
{
    explicit(any(), describe)
}

/// Sequential composition: every record of the left side is carried on
/// through the right side.
#[derive(Debug, Clone, Copy)]
pub struct And<L, R> {
    pub left: L,
    pub right: R,
}

/// Composes `left` and then `right`.
pub fn and<L: Filter, R: Filter>(left: L, right: R) -> (r: And<L, R>)
    ensures
        r.left == left,
        r.right == right,
{
    And { left, right }
}

impl<L: Filter, R: Filter> Filter for And<L, R> {
    open spec fn valid(&self) -> bool {
        self.left.valid() && self.right.valid()
    }

    /// The cross product of both sides: each record of the left side,
    /// continued through the right side, in order.
    open spec fn describes(&self, route: RouteView) -> Seq<RouteView> {
        self.left.describes(route).map_values(|x: RouteView| self.right.describes(x)).flatten()
    }

    proof fn lemma_describes_wf(&self, route: RouteView) {
        let lefts = self.left.describes(route);
        let parts = lefts.map_values(|x: RouteView| self.right.describes(x));
        self.left.lemma_describes_wf(route);
        assert forall|i: int, j: int| 0 <= i < parts.len() && 0 <= j < parts[i].len() implies (
        #[trigger] parts[i][j]).wf() by {
            self.right.lemma_describes_wf(lefts[i]);
        }
        lemma_flatten_all(parts, |x: RouteView| x.wf());
    }

    fn describe(&self, route: RouteDocumentation) -> (r: Vec<RouteDocumentation>) {
        let lefts = self.left.describe(route);
        proof {
            self.left.lemma_describes_wf(route@);
        }
        let ghost ls = views(lefts@);
        let ghost f = |x: RouteView| self.right.describes(x);
        let mut out: Vec<RouteDocumentation> = Vec::new();
        let mut i: usize = 0;
        assert(ls.take(0).map_values(f) =~= Seq::<Seq<RouteView>>::empty());
        assert(views(out@) =~= Seq::<RouteView>::empty());
        while i < lefts.len()
            invariant
                i <= lefts.len(),
                ls == views(lefts@),
                ls == self.left.describes(route@),
                self.valid(),
                route@.wf(),
                f == (|x: RouteView| self.right.describes(x)),
                views(out@) == ls.take(i as int).map_values(f).flatten(),
            decreases lefts.len() - i,
        {
            let x = lefts[i].clone();
            proof {
                assert(ls[i as int] == lefts@[i as int]@);
                self.left.lemma_describes_wf(route@);
                assert(self.left.describes(route@)[i as int].wf());
            }
            let mut ys = self.right.describe(x);
            proof {
                lemma_flat_map_step(ls, f, i as int);
                lemma_views_concat(out@, ys@);
            }
            out.append(&mut ys);
            i = i + 1;
        }
        assert(ls.take(i as int) =~= ls);
        out
    }
}

/// Branching composition: the records of the left side, then those of the right.
#[derive(Debug, Clone, Copy)]
pub struct Or<L, R> {
    pub left: L,
    pub right: R,
}

/// Offers `left` or else `right`.
pub fn or<L: Filter, R: Filter>(left: L, right: R) -> (r: Or<L, R>)
    ensures
        r.left == left,
        r.right == right,
{
    Or { left, right }
}

impl<L: Filter, R: Filter> Filter for Or<L, R> {
    open spec fn valid(&self) -> bool {
        self.left.valid() && self.right.valid()
    }

    /// Each alternative documented on its own copy of the input record.
    open spec fn describes(&self, route: RouteView) -> Seq<RouteView> {
        self.left.describes(route) + self.right.describes(route)
    }

    proof fn lemma_describes_wf(&self, route: RouteView) {
        self.left.lemma_describes_wf(route);
        self.right.lemma_describes_wf(route);
        assert forall|i: int| 0 <= i < self.describes(route).len() implies (#[trigger] self.describes(route)[i]).wf() by {
            if i >= self.left.describes(route).len() {
                assert(self.describes(route)[i] == self.right.describes(route)[i - self.left.describes(route).len()]);
            }
        }
    }

    fn describe(&self, route: RouteDocumentation) -> (r: Vec<RouteDocumentation>) {
        let copy = route.clone();
        let mut out = self.left.describe(copy);
        let mut rest = self.right.describe(route);
        proof {
            lemma_views_concat(out@, rest@);
        }
        out.append(&mut rest);
        out
    }
}

/// Value transformation: the records of the child, each expanded by what
/// the transformation's output documents.
#[derive(Debug, Clone, Copy)]
pub struct Mapped<T, F> {
    pub filter: T,
    pub callback: F,
}

/// Transforms what `filter` extracts with `callback`.
pub fn mapped<T: Filter, F: DocumentedReply>(filter: T, callback: F) -> (r: Mapped<T, F>)
    ensures
        r.filter == filter,
        r.callback == callback,
{
    Mapped { filter, callback }
}

impl<T: Filter, F: DocumentedReply> Filter for Mapped<T, F> {
    open spec fn valid(&self) -> bool {
        self.filter.valid() && self.callback.valid()
    }

    open spec fn describes(&self, route: RouteView) -> Seq<RouteView> {
        self.filter.describes(route).map_values(|x: RouteView| self.callback.replies(x)).flatten()
    }

    proof fn lemma_describes_wf(&self, route: RouteView) {
        let inner = self.filter.describes(route);
        let parts = inner.map_values(|x: RouteView| self.callback.replies(x));
        self.filter.lemma_describes_wf(route);
        assert forall|i: int, j: int| 0 <= i < parts.len() && 0 <= j < parts[i].len() implies (
        #[trigger] parts[i][j]).wf() by {
            self.callback.lemma_replies_wf(inner[i]);
        }
        lemma_flatten_all(parts, |x: RouteView| x.wf());
    }

    fn describe(&self, route: RouteDocumentation) -> (r: Vec<RouteDocumentation>) {
        let inner = self.filter.describe(route);
        proof {
            self.filter.lemma_describes_wf(route@);
        }
        let ghost ls = views(inner@);
        let ghost f = |x: RouteView| self.callback.replies(x);
        let mut out: Vec<RouteDocumentation> = Vec::new();
        let mut i: usize = 0;
        assert(ls.take(0).map_values(f) =~= Seq::<Seq<RouteView>>::empty());
        assert(views(out@) =~= Seq::<RouteView>::empty());
        while i < inner.len()
            invariant
                i <= inner.len(),
                ls == views(inner@),
                ls == self.filter.describes(route@),
                self.valid(),
                route@.wf(),
                f == (|x: RouteView| self.callback.replies(x)),
                views(out@) == ls.take(i as int).map_values(f).flatten(),
            decreases inner.len() - i,
        {
            let x = inner[i].clone();
            proof {
                assert(ls[i as int] == inner@[i as int]@);
                self.filter.lemma_describes_wf(route@);
                assert(self.filter.describes(route@)[i as int].wf());
            }
            let mut ys = self.callback.document(x);
            proof {
                lemma_flat_map_step(ls, f, i as int);
                lemma_views_concat(out@, ys@);
            }
            out.append(&mut ys);
            i = i + 1;
        }
        assert(ls.take(i as int) =~= ls);
        out
    }
}

/// An output that documents nothing: records pass through unchanged.
impl DocumentedReply for () {
    open spec fn valid(&self) -> bool {
        true
    }

    open spec fn replies(&self, route: RouteView) -> Seq<RouteView> {
        seq![route]
    }

    proof fn lemma_replies_wf(&self, route: RouteView) {
    }

    fn document(&self, route: RouteDocumentation) -> (r: Vec<RouteDocumentation>) {
        let r = vec![route];
        assert(views(r@) =~= seq![route@]);
        r
    }
}

/// A reply of a known response: each record gains that response.
impl DocumentedReply for DocumentedResponse {
    open spec fn valid(&self) -> bool {
        self@.wf()
    }

    open spec fn replies(&self, route: RouteView) -> Seq<RouteView> {
        seq![RouteView { responses: insert_response(route.responses, self@), ..route }]
    }

    proof fn lemma_replies_wf(&self, route: RouteView) {
    }

    fn document(&self, route: RouteDocumentation) -> (r: Vec<RouteDocumentation>) {
        let mut route = route;
        route.response(self.clone());
        let r = vec![route];
        assert(views(r@) =~= seq![route@]);
        r
    }
}


/// A record whose template ended up empty, set to the root path.
pub open spec fn rooted(route: RouteView) -> RouteView {
    if route.path.len() == 0 {
        RouteView { path: seq!['/'], ..route }
    } else {
        route
    }
}

/// The records that `describe` collects for `filter`.
pub open spec fn collected<F: Filter>(filter: &F) -> Seq<RouteView> {
    filter.describes(RouteView::empty()).map_values(|x: RouteView| rooted(x))
}

/// Every record of every syntactic route through `filter`, starting from an
/// empty record; a record left with an empty template gets the root path.
pub fn describe<F: Filter>(filter: &F) -> (r: Vec<RouteDocumentation>)
    requires
        filter.valid(),
    ensures
        views(r@) == collected(filter),
        forall|i: int| 0 <= i < r.len() ==> (#[trigger] r@[i])@.wf() && r@[i]@.path.len() > 0,
{
    let routes = filter.describe(RouteDocumentation::default());
    let ghost all = filter.describes(RouteView::empty());
    let mut out: Vec<RouteDocumentation> = Vec::new();
    let mut i: usize = 0;
    while i < routes.len()
        invariant
            i <= routes.len(),
            all == filter.describes(RouteView::empty()),
            views(routes@) == all,
            filter.valid(),
            out.len() == i,
            forall|k: int|
                0 <= k < i ==> (#[trigger] out@[k])@ == rooted(all[k]) && out@[k]@.wf() && out@[k]@.path.len() > 0,
        decreases routes.len() - i,
    {
        let mut x = routes[i].clone();
        proof {
            assert(all[i as int] == routes@[i as int]@);
            crate::document::lemma_empty_wf();
            filter.lemma_describes_wf(RouteView::empty());
        }
        if x.path.as_str().unicode_len() == 0 {
            proof {
                reveal_strlit("/");
                crate::text::lemma_brace_count_single('/');
                assert(reads_placeholders(Seq::<char>::empty(), 0, x@.parameters.len()));
                crate::text::lemma_reads_no_brace(seq!['/'], 0);
            }
            x.path = String::from_str("/");
            assert(x.path@ =~= seq!['/']);
        }
        out.push(x);
        i = i + 1;
    }
    assert(views(out@) =~= collected(filter));
    out
}

/// A path parameter of type `T` named `name`, described by `description`.
pub fn param<T: ToDocumentedType>(name: &str, description: &str) -> (r: ExplicitDocumentation<Any, DocumentedParameter>)
    ensures
        r.describe@ == (ParamView { name: name@, description: Some(description@), ty: T::documented(), required: true }),
{
    explicit(any(), parameter(name, T::document()).description(description))
}

/// The rest of the path, as a string parameter named `name`.
pub fn tail(name: &str, description: &str) -> (r: ExplicitDocumentation<Any, DocumentedParameter>)
    ensures
        r.describe@ == (ParamView {
            name: name@,
            description: Some(description@),
            ty: <String as ToDocumentedType>::documented(),
            required: true,
        }),
{
    explicit(any(), parameter(name, <String as ToDocumentedType>::document()).description(description))
}

/// Each record that `describe` collects for a valid filter, when none of its
/// parameter names holds a brace, has a pretty path with exactly one
/// placeholder per path parameter.
pub proof fn lemma_collected_placeholders<F: Filter>(filter: &F, i: int)
    requires
        filter.valid(),
        0 <= i < collected(filter).len(),
        forall|j: int|
            0 <= j < collected(filter)[i].parameters.len() ==> brace_count(
                (#[trigger] collected(filter)[i].parameters[j]).name,
            ) == 0,
    ensures
        brace_count(collected(filter)[i].pretty_path()) == collected(filter)[i].parameters.len(),
{
    let x = collected(filter)[i];
    let raw = filter.describes(RouteView::empty())[i];
    crate::document::lemma_empty_wf();
    filter.lemma_describes_wf(RouteView::empty());
    assert(raw.wf());
    if raw.path.len() == 0 {
        crate::text::lemma_brace_count_single('/');
        assert(reads_placeholders(Seq::<char>::empty(), 0, raw.parameters.len()));
        crate::text::lemma_reads_no_brace(seq!['/'], 0);
    }
    assert(x.wf());
    crate::text::lemma_reads_braces(x.path, 0, x.parameters.len());
    assert forall|j: int| 0 <= j < x.names().len() implies brace_count(#[trigger] x.names()[j]) == 0 by {
        assert(x.names()[j] == x.parameters[j].name);
    }
    lemma_pretty_keeps_braces(x.path, x.names());
}

/// Sequencing multiplies branches: when the right side yields `k` records
/// from each record of the left side, the sequence yields `k` per left record.
pub proof fn lemma_and_count<L: Filter, R: Filter>(filter: &And<L, R>, route: RouteView, k: nat)
    requires
        forall|i: int|
            0 <= i < filter.left.describes(route).len() ==> (#[trigger] filter.right.describes(
                filter.left.describes(route)[i],
            )).len() == k,
    ensures
        filter.describes(route).len() == filter.left.describes(route).len() * k,
{
    let lefts = filter.left.describes(route);
    let parts = lefts.map_values(|x: RouteView| filter.right.describes(x));
    assert forall|i: int| 0 <= i < parts.len() implies (#[trigger] parts[i]).len() == k by {
        assert(parts[i] == filter.right.describes(lefts[i]));
    }
    lemma_flatten_uniform(parts, k);
}

/// Branching adds branches: the alternatives yield the records of both sides.
pub proof fn lemma_or_count<L: Filter, R: Filter>(filter: &Or<L, R>, route: RouteView)
    ensures
        filter.describes(route).len() == filter.left.describes(route).len() + filter.right.describes(route).len(),
{
}


/// What a mapped filter extracts once its child has finished: the child's
/// value passed through `callback`, or the child's rejection unchanged.
pub fn map_extracted<T, U, E, F: FnOnce(T) -> U>(extracted: Result<T, E>, callback: F) -> (r: Result<(U,), E>)
    requires
        extracted matches Ok(v) ==> callback.requires((v,)),
    ensures
        match extracted {
            Ok(v) => r matches Ok(u) && callback.ensures((v,), u.0),
            Err(e) => r == Err::<(U,), E>(e),
        },
{
    match extracted {
        Ok(v) => Ok((callback(v),)),
        Err(e) => Err(e),
    }
}

} // verus!
