//! The Varlink interface definition language: its data model, the parser, and the helpers the
//! derive code uses to inline flattened fields.
use vstd::prelude::*;
use vstd::utf8::encode_utf8;

pub mod flatten;
pub mod parse;
pub mod wellformed;

verus! {

/// The abstract value of a type: names and comments as their UTF-8 bytes.
pub enum SType {
    Bool,
    Int,
    Float,
    Str,
    ForeignObject,
    Any,
    Custom(Seq<u8>),
    Optional(Box<SType>),
    Array(Box<SType>),
    Dict(Box<SType>),
    Object(Seq<SField>),
    Enum(Seq<SVariant>),
}

/// The abstract value of a field or parameter.
pub struct SField {
    pub name: Seq<u8>,
    pub ty: SType,
    pub comments: Seq<Seq<u8>>,
}

/// The abstract value of an enum variant.
pub struct SVariant {
    pub name: Seq<u8>,
    pub comments: Seq<Seq<u8>>,
}

/// The abstract value of a method.
pub struct SMethod {
    pub name: Seq<u8>,
    pub inputs: Seq<SField>,
    pub outputs: Seq<SField>,
    pub comments: Seq<Seq<u8>>,
}

/// The abstract value of an error.
pub struct SError {
    pub name: Seq<u8>,
    pub fields: Seq<SField>,
    pub comments: Seq<Seq<u8>>,
}

/// The abstract value of a named custom type.
pub enum SCustom {
    Object { name: Seq<u8>, fields: Seq<SField>, comments: Seq<Seq<u8>> },
    Enum { name: Seq<u8>, variants: Seq<SVariant>, comments: Seq<Seq<u8>> },
}

/// The abstract value of an interface.
pub struct SInterface {
    pub name: Seq<u8>,
    pub methods: Seq<SMethod>,
    pub custom_types: Seq<SCustom>,
    pub errors: Seq<SError>,
    pub comments: Seq<Seq<u8>>,
}

/// A comment attached to an item.
#[derive(Debug, PartialEq, Eq)]
pub struct Comment {
    pub content: String,
}

/// A Varlink type.
#[derive(Debug, PartialEq, Eq)]
pub enum Type {
    Bool,
    Int,
    Float,
    String,
    ForeignObject,
    Any,
    /// A custom type, referred to by its name.
    Custom(String),
    Optional(Box<Type>),
    Array(Box<Type>),
    /// A map from strings to the inner type.
    Dict(Box<Type>),
    /// An inline struct.
    Object(Vec<Field>),
    /// An inline enum.
    Enum(Vec<EnumVariant>),
}

/// A struct field or a method parameter.
#[derive(Debug, PartialEq, Eq)]
pub struct Field {
    pub name: String,
    pub ty: Type,
    pub comments: Vec<Comment>,
}

/// Method parameters are fields.
pub type Parameter = Field;

/// A variant of an enum.
#[derive(Debug, PartialEq, Eq)]
pub struct EnumVariant {
    pub name: String,
    pub comments: Vec<Comment>,
}

/// A method of an interface.
#[derive(Debug, PartialEq, Eq)]
pub struct Method {
    pub name: String,
    pub inputs: Vec<Field>,
    pub outputs: Vec<Field>,
    pub comments: Vec<Comment>,
}

/// An error an interface can reply with.
#[derive(Debug, PartialEq, Eq)]
pub struct Error {
    pub name: String,
    pub fields: Vec<Field>,
    pub comments: Vec<Comment>,
}

/// A named struct type.
#[derive(Debug, PartialEq, Eq)]
pub struct CustomObject {
    pub name: String,
    pub fields: Vec<Field>,
    pub comments: Vec<Comment>,
}

/// A named enum type.
#[derive(Debug, PartialEq, Eq)]
pub struct CustomEnum {
    pub name: String,
    pub variants: Vec<EnumVariant>,
    pub comments: Vec<Comment>,
}

/// A named custom type: a struct or an enum.
#[derive(Debug, PartialEq, Eq)]
pub enum CustomType {
    Object(CustomObject),
    Enum(CustomEnum),
}

/// A Varlink interface.
#[derive(Debug, PartialEq, Eq)]
pub struct Interface {
    pub name: crate::names::InterfaceName,
    pub methods: Vec<Method>,
    pub custom_types: Vec<CustomType>,
    pub errors: Vec<Error>,
    pub comments: Vec<Comment>,
}

/// The UTF-8 bytes of a string.
pub open spec fn text(s: &String) -> Seq<u8> {
    encode_utf8(s@)
}

pub open spec fn comments_view(cs: Seq<Comment>) -> Seq<Seq<u8>>
    decreases cs.len(),
{
    if cs.len() == 0 {
        Seq::empty()
    } else {
        comments_view(cs.drop_last()).push(text(&cs.last().content))
    }
}

pub open spec fn type_view(t: &Type) -> SType
    decreases t,
{
    match t {
        Type::Bool => SType::Bool,
        Type::Int => SType::Int,
        Type::Float => SType::Float,
        Type::String => SType::Str,
        Type::ForeignObject => SType::ForeignObject,
        Type::Any => SType::Any,
        Type::Custom(n) => SType::Custom(text(n)),
        Type::Optional(b) => SType::Optional(Box::new(type_view(&**b))),
        Type::Array(b) => SType::Array(Box::new(type_view(&**b))),
        Type::Dict(b) => SType::Dict(Box::new(type_view(&**b))),
        Type::Object(fs) => SType::Object(fields_view(fs@)),
        Type::Enum(vs) => SType::Enum(variants_view(vs@)),
    }
}

pub open spec fn fields_view(fs: Seq<Field>) -> Seq<SField>
    decreases fs,
{
    if fs.len() == 0 {
        Seq::empty()
    } else {
        fields_view(fs.drop_last()).push(field_view(&fs.last()))
    }
}

pub open spec fn field_view(f: &Field) -> SField
    decreases f,
{
    SField { name: text(&f.name), ty: type_view(&f.ty), comments: comments_view(f.comments@) }
}

pub open spec fn variant_view(v: &EnumVariant) -> SVariant {
    SVariant { name: text(&v.name), comments: comments_view(v.comments@) }
}

pub open spec fn variants_view(vs: Seq<EnumVariant>) -> Seq<SVariant>
    decreases vs.len(),
{
    if vs.len() == 0 {
        Seq::empty()
    } else {
        variants_view(vs.drop_last()).push(variant_view(&vs.last()))
    }
}

pub open spec fn method_view(m: &Method) -> SMethod {
    SMethod {
        name: text(&m.name),
        inputs: fields_view(m.inputs@),
        outputs: fields_view(m.outputs@),
        comments: comments_view(m.comments@),
    }
}

pub open spec fn methods_view(ms: Seq<Method>) -> Seq<SMethod>
    decreases ms.len(),
{
    if ms.len() == 0 {
        Seq::empty()
    } else {
        methods_view(ms.drop_last()).push(method_view(&ms.last()))
    }
}

pub open spec fn error_view(e: &Error) -> SError {
    SError { name: text(&e.name), fields: fields_view(e.fields@), comments: comments_view(e.comments@) }
}

pub open spec fn errors_view(es: Seq<Error>) -> Seq<SError>
    decreases es.len(),
{
    if es.len() == 0 {
        Seq::empty()
    } else {
        errors_view(es.drop_last()).push(error_view(&es.last()))
    }
}

pub open spec fn custom_view(c: &CustomType) -> SCustom {
    match c {
        CustomType::Object(o) => SCustom::Object {
            name: text(&o.name),
            fields: fields_view(o.fields@),
            comments: comments_view(o.comments@),
        },
        CustomType::Enum(e) => SCustom::Enum {
            name: text(&e.name),
            variants: variants_view(e.variants@),
            comments: comments_view(e.comments@),
        },
    }
}

pub open spec fn customs_view(cs: Seq<CustomType>) -> Seq<SCustom>
    decreases cs.len(),
{
    if cs.len() == 0 {
        Seq::empty()
    } else {
        customs_view(cs.drop_last()).push(custom_view(&cs.last()))
    }
}

pub open spec fn interface_view(i: &Interface) -> SInterface {
    SInterface {
        name: encode_utf8(i.name@),
        methods: methods_view(i.methods@),
        custom_types: customs_view(i.custom_types@),
        errors: errors_view(i.errors@),
        comments: comments_view(i.comments@),
    }
}

impl Comment {
    /// A comment with the given text.
    pub fn new(content: &str) -> (r: Comment)
        ensures
            text(&r.content) == encode_utf8(content@),
    {
        Comment { content: String::from_str(content) }
    }

    /// The comment's text.
    pub fn content(&self) -> (r: &str)
        ensures
            r@ == self.content@,
    {
        self.content.as_str()
    }
}

impl Field {
    /// A field named `name` of type `ty`.
    pub fn new(name: &str, ty: Type, comments: Vec<Comment>) -> (r: Field)
        ensures
            field_view(&r) == (SField { name: encode_utf8(name@), ty: type_view(&ty), comments: comments_view(comments@) }),
    {
        Field { name: String::from_str(name), ty, comments }
    }

    /// The field's name.
    pub fn name(&self) -> (r: &str)
        ensures
            encode_utf8(r@) == field_view(self).name,
    {
        self.name.as_str()
    }

    /// The field's type.
    pub fn ty(&self) -> (r: &Type)
        ensures
            type_view(r) == field_view(self).ty,
    {
        &self.ty
    }

    /// The comments preceding the field.
    pub fn comments(&self) -> (r: &Vec<Comment>)
        ensures
            comments_view(r@) == field_view(self).comments,
    {
        &self.comments
    }
}

impl EnumVariant {
    /// A variant named `name`.
    pub fn new(name: &str, comments: Vec<Comment>) -> (r: EnumVariant)
        ensures
            variant_view(&r) == (SVariant { name: encode_utf8(name@), comments: comments_view(comments@) }),
    {
        EnumVariant { name: String::from_str(name), comments }
    }

    /// The variant's name.
    pub fn name(&self) -> (r: &str)
        ensures
            encode_utf8(r@) == variant_view(self).name,
    {
        self.name.as_str()
    }
}

impl Method {
    /// The method's name.
    pub fn name(&self) -> (r: &str)
        ensures
            encode_utf8(r@) == method_view(self).name,
    {
        self.name.as_str()
    }

    /// The method's input parameters.
    pub fn inputs(&self) -> (r: &Vec<Field>)
        ensures
            fields_view(r@) == method_view(self).inputs,
    {
        &self.inputs
    }

    /// The method's output parameters.
    pub fn outputs(&self) -> (r: &Vec<Field>)
        ensures
            fields_view(r@) == method_view(self).outputs,
    {
        &self.outputs
    }
}

impl Error {
    /// The error's name.
    pub fn name(&self) -> (r: &str)
        ensures
            encode_utf8(r@) == error_view(self).name,
    {
        self.name.as_str()
    }

    /// The error's fields.
    pub fn fields(&self) -> (r: &Vec<Field>)
        ensures
            fields_view(r@) == error_view(self).fields,
    {
        &self.fields
    }
}

impl Interface {
    /// The interface's name.
    pub fn name(&self) -> (r: &str)
        ensures
            encode_utf8(r@) == interface_view(self).name,
    {
        self.name.as_str()
    }

    /// The interface's methods, in definition order.
    pub fn methods(&self) -> (r: &Vec<Method>)
        ensures
            methods_view(r@) == interface_view(self).methods,
    {
        &self.methods
    }

    /// The interface's custom types, in definition order.
    pub fn custom_types(&self) -> (r: &Vec<CustomType>)
        ensures
            customs_view(r@) == interface_view(self).custom_types,
    {
        &self.custom_types
    }

    /// The interface's errors, in definition order.
    pub fn errors(&self) -> (r: &Vec<Error>)
        ensures
            errors_view(r@) == interface_view(self).errors,
    {
        &self.errors
    }

    /// The comments preceding the interface.
    pub fn comments(&self) -> (r: &Vec<Comment>)
        ensures
            comments_view(r@) == interface_view(self).comments,
    {
        &self.comments
    }
}

} // verus!
