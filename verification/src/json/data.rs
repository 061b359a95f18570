//! Locations, tokens and the schema tree, each with its mathematical view.

use vstd::prelude::*;

verus! {

/// A span of the schema text, in byte offsets.
#[derive(Debug, PartialEq, Eq, Clone, Copy, Structural)]
pub struct Location {
    pub start: usize,
    pub end: usize,
}

/// What a token is. Identifiers carry their text, quotes and escapes resolved.
#[derive(Debug, PartialEq, Eq)]
pub enum TokenKind {
    Identifier(String),
    Colon,
    Comma,
    LeftBrace,
    RightBrace,
    LessThan,
    GreaterThan,
    VerticalBar,
    EOF,
}

/// The view of a [`TokenKind`]: the same variants over character sequences.
pub enum TokenKindView {
    Identifier(Seq<char>),
    Colon,
    Comma,
    LeftBrace,
    RightBrace,
    LessThan,
    GreaterThan,
    VerticalBar,
    EOF,
}

impl View for TokenKind {
    type V = TokenKindView;

    open spec fn view(&self) -> TokenKindView {
        match self {
            TokenKind::Identifier(text) => TokenKindView::Identifier(text@),
            TokenKind::Colon => TokenKindView::Colon,
            TokenKind::Comma => TokenKindView::Comma,
            TokenKind::LeftBrace => TokenKindView::LeftBrace,
            TokenKind::RightBrace => TokenKindView::RightBrace,
            TokenKind::LessThan => TokenKindView::LessThan,
            TokenKind::GreaterThan => TokenKindView::GreaterThan,
            TokenKind::VerticalBar => TokenKindView::VerticalBar,
            TokenKind::EOF => TokenKindView::EOF,
        }
    }
}

impl Clone for TokenKind {
    fn clone(&self) -> (copy: TokenKind)
        ensures
            copy@ == self@,
    {
        match self {
            TokenKind::Identifier(text) => TokenKind::Identifier(text.clone()),
            TokenKind::Colon => TokenKind::Colon,
            TokenKind::Comma => TokenKind::Comma,
            TokenKind::LeftBrace => TokenKind::LeftBrace,
            TokenKind::RightBrace => TokenKind::RightBrace,
            TokenKind::LessThan => TokenKind::LessThan,
            TokenKind::GreaterThan => TokenKind::GreaterThan,
            TokenKind::VerticalBar => TokenKind::VerticalBar,
            TokenKind::EOF => TokenKind::EOF,
        }
    }
}

impl TokenKind {
    /// Whether two kinds are the same, identifiers compared by their text.
    pub fn same(&self, other: &TokenKind) -> (b: bool)
        ensures
            b == (self@ == other@),
    {
        match (self, other) {
            (TokenKind::Identifier(a), TokenKind::Identifier(b)) => *a == *b,
            (TokenKind::Colon, TokenKind::Colon) => true,
            (TokenKind::Comma, TokenKind::Comma) => true,
            (TokenKind::LeftBrace, TokenKind::LeftBrace) => true,
            (TokenKind::RightBrace, TokenKind::RightBrace) => true,
            (TokenKind::LessThan, TokenKind::LessThan) => true,
            (TokenKind::GreaterThan, TokenKind::GreaterThan) => true,
            (TokenKind::VerticalBar, TokenKind::VerticalBar) => true,
            (TokenKind::EOF, TokenKind::EOF) => true,
            _ => false,
        }
    }
}

/// A token and the span of the text it was read from.
#[derive(Debug, PartialEq, Eq)]
pub struct Token {
    pub kind: TokenKind,
    pub location: Location,
}

pub struct TokenView {
    pub kind: TokenKindView,
    pub location: Location,
}

impl View for Token {
    type V = TokenView;

    open spec fn view(&self) -> TokenView {
        TokenView { kind: self.kind@, location: self.location }
    }
}

/// The views of a sequence of tokens, in order.
pub open spec fn tokens_view(tokens: Seq<Token>) -> Seq<TokenView> {
    Seq::new(tokens.len(), |i: int| tokens[i]@)
}

/// One alternative of a union: a primitive type, an object or an array.
#[derive(Debug, PartialEq, Eq)]
pub enum Type {
    Null,
    String,
    Number,
    Boolean,
    Object(Box<Object>),
    Array(Box<Array>),
}

/// A named field and the union of types its value may have.
#[derive(Debug, PartialEq, Eq)]
pub struct Property {
    pub name: String,
    pub types: Vec<Type>,
}

/// An object schema: its declared properties, in order.
#[derive(Debug, PartialEq, Eq)]
pub struct Object {
    pub properties: Vec<Property>,
}

/// An array schema: the union of types each element may have.
#[derive(Debug, PartialEq, Eq)]
pub struct Array {
    pub types: Vec<Type>,
}

/// The root of a schema.
#[derive(Debug, PartialEq, Eq)]
pub enum Value {
    Object(Object),
    Array(Array),
    Types(Vec<Type>),
}

/// The view of a [`Type`]. An object is the sequence of its properties, an
/// array the sequence of its element types.
pub enum TypeView {
    Null,
    String,
    Number,
    Boolean,
    Object(Seq<PropertyView>),
    Array(Seq<TypeView>),
}

pub struct PropertyView {
    pub name: Seq<char>,
    pub types: Seq<TypeView>,
}

pub enum ValueView {
    Object(Seq<PropertyView>),
    Array(Seq<TypeView>),
    Types(Seq<TypeView>),
}

/// The view of one type.
pub open spec fn type_view(t: Type) -> TypeView
    decreases t,
{
    match t {
        Type::Null => TypeView::Null,
        Type::String => TypeView::String,
        Type::Number => TypeView::Number,
        Type::Boolean => TypeView::Boolean,
        Type::Object(object) => TypeView::Object(properties_view(object.properties@)),
        Type::Array(array) => TypeView::Array(types_view(array.types@)),
    }
}

/// The views of a sequence of types, in order.
pub open spec fn types_view(types: Seq<Type>) -> Seq<TypeView>
    decreases types,
{
    Seq::new(
        types.len(),
        |i: int|
            if 0 <= i < types.len() {
                type_view(types[i])
            } else {
                TypeView::Null
            },
    )
}

/// The view of one property.
pub open spec fn property_view(property: Property) -> PropertyView
    decreases property,
{
    PropertyView { name: property.name@, types: types_view(property.types@) }
}

/// The views of a sequence of properties, in order.
pub open spec fn properties_view(properties: Seq<Property>) -> Seq<PropertyView>
    decreases properties,
{
    Seq::new(
        properties.len(),
        |i: int|
            if 0 <= i < properties.len() {
                property_view(properties[i])
            } else {
                PropertyView { name: Seq::empty(), types: Seq::empty() }
            },
    )
}

impl View for Type {
    type V = TypeView;

    open spec fn view(&self) -> TypeView {
        type_view(*self)
    }
}

impl View for Property {
    type V = PropertyView;

    open spec fn view(&self) -> PropertyView {
        property_view(*self)
    }
}

impl View for Object {
    type V = Seq<PropertyView>;

    open spec fn view(&self) -> Seq<PropertyView> {
        properties_view(self.properties@)
    }
}

impl View for Array {
    type V = Seq<TypeView>;

    open spec fn view(&self) -> Seq<TypeView> {
        types_view(self.types@)
    }
}

impl View for Value {
    type V = ValueView;

    open spec fn view(&self) -> ValueView {
        match self {
            Value::Object(object) => ValueView::Object(object@),
            Value::Array(array) => ValueView::Array(array@),
            Value::Types(types) => ValueView::Types(types_view(types@)),
        }
    }
}

/// The name by which a type is shown: `object` and `array` for the composite
/// ones, the keyword for a primitive.
pub open spec fn shown_name(t: TypeView) -> Seq<char> {
    match t {
        TypeView::Null => "null"@,
        TypeView::String => "string"@,
        TypeView::Number => "number"@,
        TypeView::Boolean => "boolean"@,
        TypeView::Object(_) => "object"@,
        TypeView::Array(_) => "array"@,
    }
}

impl Type {
    /// The name by which this type is shown.
    pub fn to_string(&self) -> (name: String)
        ensures
            name@ == shown_name(self@),
    {
        match self {
            Type::Null => "null".to_owned(),
            Type::String => "string".to_owned(),
            Type::Number => "number".to_owned(),
            Type::Boolean => "boolean".to_owned(),
            Type::Object(_) => "object".to_owned(),
            Type::Array(_) => "array".to_owned(),
        }
    }
}

impl Property {
    pub fn new(name: String, types: Vec<Type>) -> (property: Property)
        ensures
            property.name == name,
            property.types == types,
            property@ == (PropertyView { name: name@, types: types_view(types@) }),
    {
        Property { name, types }
    }
}

impl Object {
    pub fn new() -> (object: Object)
        ensures
            object.properties@ == Seq::<Property>::empty(),
            object@ == Seq::<PropertyView>::empty(),
    {
        Object { properties: Vec::new() }
    }
}

impl Array {
    pub fn new(types: Vec<Type>) -> (array: Array)
        ensures
            array.types == types,
            array@ == types_view(types@),
    {
        Array { types }
    }
}

} // verus!
