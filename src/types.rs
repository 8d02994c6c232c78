//! Schema descriptors for the data that a route takes or returns.

use vstd::prelude::*;

verus! {

/// An example value attached to a descriptor; carried through unchanged.
#[verifier::external_type_specification]
#[verifier::external_body]
pub struct ExValue(serde_json::Value);

/// Relies on the derived `Clone` of `serde_json::Value`: the copy equals the value it was made from.
pub assume_specification[ <serde_json::Value as Clone>::clone ](v: &serde_json::Value) -> (r:
    serde_json::Value)
    ensures
        r == *v,
;

/// The scalar kinds a primitive descriptor can have.
#[derive(Debug, Clone, Copy, PartialEq, Eq, Structural)]
pub enum InternalDocumentedType {
    Boolean,
    Float,
    Integer,
    String,
}

/// A finite, recursive description of a data shape. Every node carries the
/// same optional overlays: a description, an example value and nullability.
#[derive(Debug)]
#[allow(inconsistent_fields)]
pub enum DocumentedType {
    Array {
        ty: Box<DocumentedType>,
        description: Option<String>,
        example: Option<serde_json::Value>,
        nullable: Option<bool>,
    },
    Dictionary {
        value_type: Box<DocumentedType>,
        description: Option<String>,
        example: Option<serde_json::Value>,
        nullable: Option<bool>,
    },
    Object {
        properties: Vec<(String, DocumentedType)>,
        description: Option<String>,
        example: Option<serde_json::Value>,
        nullable: Option<bool>,
    },
    OneOf {
        variants: Vec<DocumentedType>,
        description: Option<String>,
        example: Option<serde_json::Value>,
        nullable: Option<bool>,
    },
    Primitive {
        ty: InternalDocumentedType,
        description: Option<String>,
        example: Option<serde_json::Value>,
        nullable: Option<bool>,
    },
}

/// The overlays that any descriptor node may carry.
pub struct Overlay {
    pub description: Option<Seq<char>>,
    pub example: Option<serde_json::Value>,
    pub nullable: Option<bool>,
}

impl Overlay {
    pub open spec fn none() -> Overlay {
        Overlay { description: None, example: None, nullable: None }
    }
}

/// The mathematical value of a descriptor.
#[allow(inconsistent_fields)]
pub enum TypeView {
    Array { ty: Box<TypeView>, meta: Overlay },
    Dictionary { value_type: Box<TypeView>, meta: Overlay },
    Object { properties: Seq<(Seq<char>, TypeView)>, meta: Overlay },
    OneOf { variants: Seq<TypeView>, meta: Overlay },
    Primitive { ty: InternalDocumentedType, meta: Overlay },
}

impl TypeView {
    pub open spec fn meta(self) -> Overlay {
        match self {
            TypeView::Array { meta, .. } => meta,
            TypeView::Dictionary { meta, .. } => meta,
            TypeView::Object { meta, .. } => meta,
            TypeView::OneOf { meta, .. } => meta,
            TypeView::Primitive { meta, .. } => meta,
        }
    }

    /// The same node with its overlays replaced.
    pub open spec fn with_meta(self, m: Overlay) -> TypeView {
        match self {
            TypeView::Array { ty, .. } => TypeView::Array { ty, meta: m },
            TypeView::Dictionary { value_type, .. } => TypeView::Dictionary { value_type, meta: m },
            TypeView::Object { properties, .. } => TypeView::Object { properties, meta: m },
            TypeView::OneOf { variants, .. } => TypeView::OneOf { variants, meta: m },
            TypeView::Primitive { ty, .. } => TypeView::Primitive { ty, meta: m },
        }
    }

    pub open spec fn scalar(kind: InternalDocumentedType) -> TypeView {
        TypeView::Primitive { ty: kind, meta: Overlay::none() }
    }
}

pub open spec fn text_view(s: Option<String>) -> Option<Seq<char>> {
    match s {
        Some(t) => Some(t@),
        None => None,
    }
}

pub open spec fn overlay_of(
    description: Option<String>,
    example: Option<serde_json::Value>,
    nullable: Option<bool>,
) -> Overlay {
    Overlay { description: text_view(description), example, nullable }
}

pub open spec fn type_view(t: DocumentedType) -> TypeView
    decreases t,
{
    match t {
        DocumentedType::Array { ty, description, example, nullable } => TypeView::Array {
            ty: Box::new(type_view(*ty)),
            meta: overlay_of(description, example, nullable),
        },
        DocumentedType::Dictionary { value_type, description, example, nullable } =>
            TypeView::Dictionary {
            value_type: Box::new(type_view(*value_type)),
            meta: overlay_of(description, example, nullable),
        },
        DocumentedType::Object { properties, description, example, nullable } => TypeView::Object {
            properties: Seq::new(
                properties.len() as nat,
                |i: int|
                    if 0 <= i < properties.len() {
                        (properties[i].0@, type_view(properties[i].1))
                    } else {
                        (Seq::empty(), TypeView::scalar(InternalDocumentedType::Boolean))
                    },
            ),
            meta: overlay_of(description, example, nullable),
        },
        DocumentedType::OneOf { variants, description, example, nullable } => TypeView::OneOf {
            variants: Seq::new(
                variants.len() as nat,
                |i: int|
                    if 0 <= i < variants.len() {
                        type_view(variants[i])
                    } else {
                        TypeView::scalar(InternalDocumentedType::Boolean)
                    },
            ),
            meta: overlay_of(description, example, nullable),
        },
        DocumentedType::Primitive { ty, description, example, nullable } => TypeView::Primitive {
            ty,
            meta: overlay_of(description, example, nullable),
        },
    }
}

impl View for DocumentedType {
    type V = TypeView;

    open spec fn view(&self) -> TypeView {
        type_view(*self)
    }
}

/// Property names of an object descriptor are distinct: it is a mapping.
pub open spec fn distinct_names(properties: Seq<(String, DocumentedType)>) -> bool {
    forall|i: int, j: int|
        0 <= i < j < properties.len() ==> (#[trigger] properties[i]).0@ != (#[trigger] properties[j]).0@
}

/// An exact copy of an optional text.
pub fn copy_text(s: &Option<String>) -> (r: Option<String>)
    ensures
        r == *s,
{
    match s {
        Some(t) => Some(t.clone()),
        None => None,
    }
}

/// An exact copy of an optional example value.
pub(crate) fn copy_example(v: &Option<serde_json::Value>) -> (r: Option<serde_json::Value>)
    ensures
        r == *v,
{
    match v {
        Some(t) => Some(t.clone()),
        None => None,
    }
}

fn copy_type(t: &DocumentedType) -> (r: DocumentedType)
    ensures
        r@ == t@,
    decreases t,
{
    match t {
        DocumentedType::Array { ty, description, example, nullable } => {
            proof {
                assert(decreases_to!(*t => t->Array_ty));
            }
            let inner = copy_type(ty);
            DocumentedType::Array {
                ty: Box::new(inner),
                description: copy_text(description),
                example: copy_example(example),
                nullable: *nullable,
            }
        },
        DocumentedType::Dictionary { value_type, description, example, nullable } => {
            proof {
                assert(decreases_to!(*t => t->Dictionary_value_type));
            }
            let inner = copy_type(value_type);
            DocumentedType::Dictionary {
                value_type: Box::new(inner),
                description: copy_text(description),
                example: copy_example(example),
                nullable: *nullable,
            }
        },
        DocumentedType::Object { properties, description, example, nullable } => {
            let mut out: Vec<(String, DocumentedType)> = Vec::new();
            let mut i: usize = 0;
            while i < properties.len()
                invariant
                    i <= properties.len(),
                    *t == (DocumentedType::Object {
                        properties: *properties,
                        description: *description,
                        example: *example,
                        nullable: *nullable,
                    }),
                    out.len() == i,
                    forall|k: int|
                        0 <= k < i ==> (#[trigger] out@[k]).0@ == properties@[k].0@ && type_view(
                            out@[k].1,
                        ) == type_view(properties@[k].1),
                decreases properties.len() - i,
            {
                proof {
                    broadcast use vstd::std_specs::vec::axiom_vec_index_decreases;

                    assert(decreases_to!(*properties => properties[i as int]));
                    assert(decreases_to!(properties[i as int] => properties[i as int].1));
                    assert(decreases_to!(*t => t->properties));
                    assert(decreases_to!(*t => properties[i as int].1));
                }
                let name = properties[i].0.clone();
                let v = copy_type(&properties[i].1);
                out.push((name, v));
                i = i + 1;
            }
            let r = DocumentedType::Object {
                properties: out,
                description: copy_text(description),
                example: copy_example(example),
                nullable: *nullable,
            };
            assert(r@ == t@) by {
                if let TypeView::Object { properties: a, .. } = r@ {
                    if let TypeView::Object { properties: b, .. } = t@ {
                        assert(a =~= b);
                    }
                }
            }
            r
        },
        DocumentedType::OneOf { variants, description, example, nullable } => {
            let mut out: Vec<DocumentedType> = Vec::new();
            let mut i: usize = 0;
            while i < variants.len()
                invariant
                    i <= variants.len(),
                    *t == (DocumentedType::OneOf {
                        variants: *variants,
                        description: *description,
                        example: *example,
                        nullable: *nullable,
                    }),
                    out.len() == i,
                    forall|k: int|
                        0 <= k < i ==> type_view(#[trigger] out@[k]) == type_view(variants@[k]),
                decreases variants.len() - i,
            {
                proof {
                    broadcast use vstd::std_specs::vec::axiom_vec_index_decreases;

                    assert(decreases_to!(*variants => variants[i as int]));
                    assert(decreases_to!(*t => t->variants));
                    assert(decreases_to!(*t => variants[i as int]));
                }
                let v = copy_type(&variants[i]);
                out.push(v);
                i = i + 1;
            }
            let r = DocumentedType::OneOf {
                variants: out,
                description: copy_text(description),
                example: copy_example(example),
                nullable: *nullable,
            };
            assert(r@ == t@) by {
                if let TypeView::OneOf { variants: a, .. } = r@ {
                    if let TypeView::OneOf { variants: b, .. } = t@ {
                        assert(a =~= b);
                    }
                }
            }
            r
        },
        DocumentedType::Primitive { ty, description, example, nullable } => {
            DocumentedType::Primitive {
                ty: *ty,
                description: copy_text(description),
                example: copy_example(example),
                nullable: *nullable,
            }
        },
    }
}

impl Clone for DocumentedType {
    fn clone(&self) -> (r: Self)
        ensures
            r@ == self@,
    {
        copy_type(self)
    }
}


/// A primitive descriptor of the given kind with no overlays.
fn scalar(kind: InternalDocumentedType) -> (r: DocumentedType)
    ensures
        r@ == TypeView::scalar(kind),
{
    DocumentedType::Primitive { ty: kind, description: None, example: None, nullable: None }
}

/// A boolean descriptor.
pub fn boolean() -> (r: DocumentedType)
    ensures
        r@ == TypeView::scalar(InternalDocumentedType::Boolean),
{
    scalar(InternalDocumentedType::Boolean)
}

/// A floating-point number descriptor.
pub fn float() -> (r: DocumentedType)
    ensures
        r@ == TypeView::scalar(InternalDocumentedType::Float),
{
    scalar(InternalDocumentedType::Float)
}

/// An integer descriptor.
pub fn integer() -> (r: DocumentedType)
    ensures
        r@ == TypeView::scalar(InternalDocumentedType::Integer),
{
    scalar(InternalDocumentedType::Integer)
}

/// A string descriptor.
pub fn string() -> (r: DocumentedType)
    ensures
        r@ == TypeView::scalar(InternalDocumentedType::String),
{
    scalar(InternalDocumentedType::String)
}

/// The view of a list of named properties.
pub open spec fn properties_view(fields: Seq<(String, DocumentedType)>) -> Seq<(Seq<char>, TypeView)> {
    fields.map_values(|p: (String, DocumentedType)| (p.0@, p.1@))
}

/// An object descriptor with the given named properties.
pub fn object(fields: Vec<(String, DocumentedType)>) -> (r: DocumentedType)
    requires
        distinct_names(fields@),
    ensures
        r@ == (TypeView::Object { properties: properties_view(fields@), meta: Overlay::none() }),
{
    let r = DocumentedType::Object { properties: fields, description: None, example: None, nullable: None };
    proof {
        if let TypeView::Object { properties, .. } = r@ {
            assert(properties =~= properties_view(fields@));
        }
    }
    r
}

/// An array descriptor whose items have type `ty`.
pub fn array(ty: DocumentedType) -> (r: DocumentedType)
    ensures
        r@ == (TypeView::Array { ty: Box::new(ty@), meta: Overlay::none() }),
{
    DocumentedType::Array { ty: Box::new(ty), description: None, example: None, nullable: None }
}

/// A descriptor that matches exactly one of `variants`.
pub fn one_of(variants: Vec<DocumentedType>) -> (r: DocumentedType)
    ensures
        r@ == (TypeView::OneOf {
            variants: variants@.map_values(|v: DocumentedType| v@),
            meta: Overlay::none(),
        }),
{
    let r = DocumentedType::OneOf { variants, description: None, example: None, nullable: None };
    proof {
        if let TypeView::OneOf { variants: vs, .. } = r@ {
            assert(vs =~= variants@.map_values(|v: DocumentedType| v@));
        }
    }
    r
}

/// A string-keyed map descriptor whose values have type `value_type`.
pub fn map(value_type: DocumentedType) -> (r: DocumentedType)
    ensures
        r@ == (TypeView::Dictionary { value_type: Box::new(value_type@), meta: Overlay::none() }),
{
    DocumentedType::Dictionary { value_type: Box::new(value_type), description: None, example: None, nullable: None }
}

impl DocumentedType {
    /// Sets the description overlay, whatever the kind of node.
    pub fn description(self, description: &str) -> (r: Self)
        ensures
            r@ == self@.with_meta(Overlay { description: Some(description@), ..self@.meta() }),
    {
        let d = Some(description.to_string());
        match self {
            DocumentedType::Array { ty, example, nullable, .. } => DocumentedType::Array { ty, description: d, example, nullable },
            DocumentedType::Dictionary { value_type, example, nullable, .. } => DocumentedType::Dictionary { value_type, description: d, example, nullable },
            DocumentedType::Object { properties, example, nullable, .. } => DocumentedType::Object { properties, description: d, example, nullable },
            DocumentedType::OneOf { variants, example, nullable, .. } => DocumentedType::OneOf { variants, description: d, example, nullable },
            DocumentedType::Primitive { ty, example, nullable, .. } => DocumentedType::Primitive { ty, description: d, example, nullable },
        }
    }

    /// Sets the example overlay, whatever the kind of node.
    pub fn example(self, value: serde_json::Value) -> (r: Self)
        ensures
            r@ == self@.with_meta(Overlay { example: Some(value), ..self@.meta() }),
    {
        let e = Some(value);
        match self {
            DocumentedType::Array { ty, description, nullable, .. } => DocumentedType::Array { ty, description, example: e, nullable },
            DocumentedType::Dictionary { value_type, description, nullable, .. } => DocumentedType::Dictionary { value_type, description, example: e, nullable },
            DocumentedType::Object { properties, description, nullable, .. } => DocumentedType::Object { properties, description, example: e, nullable },
            DocumentedType::OneOf { variants, description, nullable, .. } => DocumentedType::OneOf { variants, description, example: e, nullable },
            DocumentedType::Primitive { ty, description, nullable, .. } => DocumentedType::Primitive { ty, description, example: e, nullable },
        }
    }

    /// Sets the nullability overlay, whatever the kind of node.
    pub fn nullable(self, nullable: bool) -> (r: Self)
        ensures
            r@ == self@.with_meta(Overlay { nullable: Some(nullable), ..self@.meta() }),
    {
        let n = Some(nullable);
        match self {
            DocumentedType::Array { ty, description, example, .. } => DocumentedType::Array { ty, description, example, nullable: n },
            DocumentedType::Dictionary { value_type, description, example, .. } => DocumentedType::Dictionary { value_type, description, example, nullable: n },
            DocumentedType::Object { properties, description, example, .. } => DocumentedType::Object { properties, description, example, nullable: n },
            DocumentedType::OneOf { variants, description, example, .. } => DocumentedType::OneOf { variants, description, example, nullable: n },
            DocumentedType::Primitive { ty, description, example, .. } => DocumentedType::Primitive { ty, description, example, nullable: n },
        }
    }
}

/// A type that knows the descriptor of its own values.
pub trait ToDocumentedType {
    spec fn documented() -> TypeView;

    fn document() -> (r: DocumentedType)
        ensures
            r@ == Self::documented(),
    ;
}

impl ToDocumentedType for u8 {
    open spec fn documented() -> TypeView {
        TypeView::scalar(InternalDocumentedType::Integer)
    }

    fn document() -> (r: DocumentedType) {
        integer()
    }
}

impl ToDocumentedType for u16 {
    open spec fn documented() -> TypeView {
        TypeView::scalar(InternalDocumentedType::Integer)
    }

    fn document() -> (r: DocumentedType) {
        integer()
    }
}

impl ToDocumentedType for u32 {
    open spec fn documented() -> TypeView {
        TypeView::scalar(InternalDocumentedType::Integer)
    }

    fn document() -> (r: DocumentedType) {
        integer()
    }
}

impl ToDocumentedType for u64 {
    open spec fn documented() -> TypeView {
        TypeView::scalar(InternalDocumentedType::Integer)
    }

    fn document() -> (r: DocumentedType) {
        integer()
    }
}

impl ToDocumentedType for u128 {
    open spec fn documented() -> TypeView {
        TypeView::scalar(InternalDocumentedType::Integer)
    }

    fn document() -> (r: DocumentedType) {
        integer()
    }
}

impl ToDocumentedType for usize {
    open spec fn documented() -> TypeView {
        TypeView::scalar(InternalDocumentedType::Integer)
    }

    fn document() -> (r: DocumentedType) {
        integer()
    }
}

impl ToDocumentedType for i8 {
    open spec fn documented() -> TypeView {
        TypeView::scalar(InternalDocumentedType::Integer)
    }

    fn document() -> (r: DocumentedType) {
        integer()
    }
}

impl ToDocumentedType for i16 {
    open spec fn documented() -> TypeView {
        TypeView::scalar(InternalDocumentedType::Integer)
    }

    fn document() -> (r: DocumentedType) {
        integer()
    }
}

impl ToDocumentedType for i32 {
    open spec fn documented() -> TypeView {
        TypeView::scalar(InternalDocumentedType::Integer)
    }

    fn document() -> (r: DocumentedType) {
        integer()
    }
}

impl ToDocumentedType for i64 {
    open spec fn documented() -> TypeView {
        TypeView::scalar(InternalDocumentedType::Integer)
    }

    fn document() -> (r: DocumentedType) {
        integer()
    }
}

impl ToDocumentedType for i128 {
    open spec fn documented() -> TypeView {
        TypeView::scalar(InternalDocumentedType::Integer)
    }

    fn document() -> (r: DocumentedType) {
        integer()
    }
}

impl ToDocumentedType for isize {
    open spec fn documented() -> TypeView {
        TypeView::scalar(InternalDocumentedType::Integer)
    }

    fn document() -> (r: DocumentedType) {
        integer()
    }
}

impl ToDocumentedType for String {
    open spec fn documented() -> TypeView {
        TypeView::scalar(InternalDocumentedType::String)
    }

    fn document() -> (r: DocumentedType) {
        string()
    }
}

impl<'a> ToDocumentedType for &'a str {
    open spec fn documented() -> TypeView {
        TypeView::scalar(InternalDocumentedType::String)
    }

    fn document() -> (r: DocumentedType) {
        string()
    }
}

impl<T: ToDocumentedType> ToDocumentedType for Vec<T> {
    open spec fn documented() -> TypeView {
        TypeView::Array { ty: Box::new(T::documented()), meta: Overlay::none() }
    }

    fn document() -> (r: DocumentedType) {
        array(T::document())
    }
}

impl<K, V: ToDocumentedType> ToDocumentedType for std::collections::HashMap<K, V> {
    open spec fn documented() -> TypeView {
        TypeView::Dictionary { value_type: Box::new(V::documented()), meta: Overlay::none() }
    }

    fn document() -> (r: DocumentedType) {
        map(V::document())
    }
}

} // verus!
