//! Builds the schema tree from tokens, by recursive descent with one token of
//! lookahead.
//!
//! ```text
//! schema    = value EOF
//! value     = object | array | union
//! object    = "{" { property [ "," ] } "}"
//! property  = identifier ":" union
//! array     = "Array" "<" union ">"
//! union     = type { "|" type }
//! type      = object | array | "null" | "string" | "number" | "boolean"
//! ```

use super::data::{
    tokens_view, types_view, Array, Object, Property, PropertyView, Value, ValueView, Token,
    TokenKind, TokenKindView, TokenView, Type, TypeView,
};
use super::error::{SchemaError, SchemaErrorView, SchemaErrors};
use super::lexer::{
    ends_with_eof, identifier_marks, lemma_tokens_end_with_eof, tokens_of, Lexer,
};
use crate::text::str_eq;
use vstd::prelude::*;

verus! {

/// What a parsing step gives: the thing parsed and the position of the token
/// after it, or the fault that stops the parser.
pub type Parsed<T> = Result<(T, int), SchemaErrorView>;

/// The kind of the token at `pos`; past the end there is only `EOF`.
pub open spec fn kind_at(tokens: Seq<TokenView>, pos: int) -> TokenKindView {
    if 0 <= pos < tokens.len() {
        tokens[pos].kind
    } else {
        TokenKindView::EOF
    }
}

/// The fault of finding the token at `pos` where `expected` was required.
pub open spec fn unexpected(
    tokens: Seq<TokenView>,
    pos: int,
    expected: TokenKindView,
) -> SchemaErrorView {
    SchemaErrorView::UnexpectedToken {
        expected_kind: expected,
        location: tokens[pos].location,
        actual_kind: tokens[pos].kind,
    }
}

/// The identifier that opens an array schema.
pub open spec fn array_keyword() -> TokenKindView {
    TokenKindView::Identifier("Array"@)
}

/// The identifier with no text, which stands for "any identifier" in a fault.
pub open spec fn any_identifier() -> TokenKindView {
    TokenKindView::Identifier(Seq::empty())
}

/// The primitive type that a keyword names. Keywords are case-sensitive.
pub open spec fn primitive(text: Seq<char>) -> Option<TypeView> {
    if text == "null"@ {
        Some(TypeView::Null)
    } else if text == "string"@ {
        Some(TypeView::String)
    } else if text == "number"@ {
        Some(TypeView::Number)
    } else if text == "boolean"@ {
        Some(TypeView::Boolean)
    } else {
        None
    }
}

/// One alternative of a union, read at `pos`.
pub open spec fn parse_type(tokens: Seq<TokenView>, pos: int) -> Parsed<TypeView>
    decreases tokens.len() - pos, 3int,
{
    match kind_at(tokens, pos) {
        TokenKindView::LeftBrace => match parse_object(tokens, pos) {
            Ok((properties, next)) => Ok((TypeView::Object(properties), next)),
            Err(error) => Err(error),
        },
        TokenKindView::Identifier(text) => if text == "Array"@ {
            match parse_array(tokens, pos) {
                Ok((types, next)) => Ok((TypeView::Array(types), next)),
                Err(error) => Err(error),
            }
        } else {
            match primitive(text) {
                Some(t) => Ok((t, pos + 1)),
                None => Err(
                    SchemaErrorView::InvalidType { type_: text, location: tokens[pos].location },
                ),
            }
        },
        _ => Err(unexpected(tokens, pos, any_identifier())),
    }
}

/// A union read at `pos`, after the alternatives `types`: one more type, and
/// then another for each `|` that follows.
///
/// The parser only moves forward ([`lemma_parse_union_advances`]), so the test
/// on `next` that stands before the recursion holds of every result; it is
/// there for the definition's sake.
pub open spec fn parse_union(tokens: Seq<TokenView>, pos: int, types: Seq<TypeView>) -> Parsed<
    Seq<TypeView>,
>
    decreases tokens.len() - pos, 4int,
{
    match parse_type(tokens, pos) {
        Err(error) => Err(error),
        Ok((t, next)) => if kind_at(tokens, next) is VerticalBar && pos <= next {
            parse_union(tokens, next + 1, types.push(t))
        } else {
            Ok((types.push(t), next))
        },
    }
}

/// An array schema read at `pos`: its element types.
pub open spec fn parse_array(tokens: Seq<TokenView>, pos: int) -> Parsed<Seq<TypeView>>
    decreases tokens.len() - pos, 2int,
{
    if kind_at(tokens, pos) != array_keyword() {
        Err(unexpected(tokens, pos, array_keyword()))
    } else if !(kind_at(tokens, pos + 1) is LessThan) {
        Err(unexpected(tokens, pos + 1, TokenKindView::LessThan))
    } else {
        match parse_union(tokens, pos + 2, Seq::empty()) {
            Err(error) => Err(error),
            Ok((types, next)) => if kind_at(tokens, next) is GreaterThan {
                Ok((types, next + 1))
            } else {
                Err(unexpected(tokens, next, TokenKindView::GreaterThan))
            },
        }
    }
}

/// An object schema read at `pos`: its properties.
pub open spec fn parse_object(tokens: Seq<TokenView>, pos: int) -> Parsed<Seq<PropertyView>>
    decreases tokens.len() - pos, 2int,
{
    if kind_at(tokens, pos) is LeftBrace {
        parse_properties(tokens, pos + 1, Seq::empty())
    } else {
        Err(unexpected(tokens, pos, TokenKindView::LeftBrace))
    }
}

/// The rest of an object schema from `pos` on, after the properties
/// `properties`: up to and with the closing brace. A comma may follow each
/// property.
///
/// As in [`parse_union`], the test on `after` holds of every result
/// ([`lemma_parse_properties_advances`]).
pub open spec fn parse_properties(
    tokens: Seq<TokenView>,
    pos: int,
    properties: Seq<PropertyView>,
) -> Parsed<Seq<PropertyView>>
    decreases tokens.len() - pos, 1int,
{
    match kind_at(tokens, pos) {
        TokenKindView::RightBrace => Ok((properties, pos + 1)),
        TokenKindView::Identifier(name) => if kind_at(tokens, pos + 1) is Colon {
            match parse_union(tokens, pos + 2, Seq::empty()) {
                Err(error) => Err(error),
                Ok((types, next)) => {
                    let after = if kind_at(tokens, next) is Comma {
                        next + 1
                    } else {
                        next
                    };
                    let property = PropertyView { name, types };
                    if pos < after <= tokens.len() {
                        parse_properties(tokens, after, properties.push(property))
                    } else {
                        Ok((properties.push(property), after))
                    }
                },
            }
        } else {
            Err(unexpected(tokens, pos + 1, TokenKindView::Colon))
        },
        _ => Err(unexpected(tokens, pos, any_identifier())),
    }
}

/// The root of a schema read at `pos`: an object where a brace opens it, an
/// array where `Array` does, a union of types otherwise.
pub open spec fn parse_value(tokens: Seq<TokenView>, pos: int) -> Parsed<ValueView> {
    if kind_at(tokens, pos) is LeftBrace {
        match parse_object(tokens, pos) {
            Ok((properties, next)) => Ok((ValueView::Object(properties), next)),
            Err(error) => Err(error),
        }
    } else if kind_at(tokens, pos) == array_keyword() {
        match parse_array(tokens, pos) {
            Ok((types, next)) => Ok((ValueView::Array(types), next)),
            Err(error) => Err(error),
        }
    } else {
        match parse_union(tokens, pos, Seq::empty()) {
            Ok((types, next)) => Ok((ValueView::Types(types), next)),
            Err(error) => Err(error),
        }
    }
}

/// The schema that the tokens from `pos` on spell: a root value, and then
/// nothing but `EOF`.
pub open spec fn parse_schema(tokens: Seq<TokenView>, pos: int) -> Result<
    ValueView,
    SchemaErrorView,
> {
    match parse_value(tokens, pos) {
        Err(error) => Err(error),
        Ok((value, next)) => if kind_at(tokens, next) is EOF {
            Ok(value)
        } else {
            Err(unexpected(tokens, next, TokenKindView::EOF))
        },
    }
}

/// What a parsing step that succeeds ends at: a token after the one it began
/// at, and never after the closing `EOF`.
pub open spec fn advances<T>(parsed: Parsed<T>, tokens: Seq<TokenView>, pos: int) -> bool {
    parsed matches Ok((_, next)) ==> pos < next < tokens.len()
}

/// Reading a type moves forward and stays before the end of the tokens.
pub proof fn lemma_parse_type_advances(tokens: Seq<TokenView>, pos: int)
    requires
        ends_with_eof(tokens),
        0 <= pos < tokens.len(),
    ensures
        advances(parse_type(tokens, pos), tokens, pos),
    decreases tokens.len() - pos, 3int,
{
    match kind_at(tokens, pos) {
        TokenKindView::LeftBrace => {
            lemma_parse_properties_advances(tokens, pos + 1, Seq::empty());
        },
        TokenKindView::Identifier(text) => {
            if text == "Array"@ {
                lemma_parse_array_advances(tokens, pos);
            }
        },
        _ => {},
    }
}

/// Reading a union moves forward and stays before the end of the tokens. It
/// follows that the test before the recursion in [`parse_union`] holds of
/// every result.
pub proof fn lemma_parse_union_advances(tokens: Seq<TokenView>, pos: int, types: Seq<TypeView>)
    requires
        ends_with_eof(tokens),
        0 <= pos < tokens.len(),
    ensures
        advances(parse_union(tokens, pos, types), tokens, pos),
    decreases tokens.len() - pos, 4int,
{
    lemma_parse_type_advances(tokens, pos);
    match parse_type(tokens, pos) {
        Err(_) => {},
        Ok((t, next)) => {
            if kind_at(tokens, next) is VerticalBar {
                lemma_parse_union_advances(tokens, next + 1, types.push(t));
            }
        },
    }
}

/// Reading an array schema moves forward and stays before the end of the
/// tokens.
pub proof fn lemma_parse_array_advances(tokens: Seq<TokenView>, pos: int)
    requires
        ends_with_eof(tokens),
        0 <= pos < tokens.len(),
    ensures
        advances(parse_array(tokens, pos), tokens, pos),
    decreases tokens.len() - pos, 2int,
{
    if kind_at(tokens, pos) == array_keyword() && kind_at(tokens, pos + 1) is LessThan {
        lemma_parse_union_advances(tokens, pos + 2, Seq::empty());
    }
}

/// Reading the properties of an object moves forward and stays before the
/// end of the tokens. It follows that the test before the recursion in
/// [`parse_properties`] holds of every result.
pub proof fn lemma_parse_properties_advances(
    tokens: Seq<TokenView>,
    pos: int,
    properties: Seq<PropertyView>,
)
    requires
        ends_with_eof(tokens),
        0 <= pos < tokens.len(),
    ensures
        advances(parse_properties(tokens, pos, properties), tokens, pos),
    decreases tokens.len() - pos, 1int,
{
    match kind_at(tokens, pos) {
        TokenKindView::Identifier(name) => {
            if kind_at(tokens, pos + 1) is Colon {
                lemma_parse_union_advances(tokens, pos + 2, Seq::empty());
                match parse_union(tokens, pos + 2, Seq::empty()) {
                    Err(_) => {},
                    Ok((types, next)) => {
                        let after = if kind_at(tokens, next) is Comma {
                            next + 1
                        } else {
                            next
                        };
                        lemma_parse_properties_advances(
                            tokens,
                            after,
                            properties.push(PropertyView { name, types }),
                        );
                    },
                }
            }
        },
        _ => {},
    }
}

/// A parser over the tokens of one schema text.
pub struct Parser {
    tokens: Vec<Token>,
    position: usize,
}

impl Parser {
    /// The tokens being parsed.
    pub closed spec fn tokens(&self) -> Seq<TokenView> {
        tokens_view(self.tokens@)
    }

    /// The index of the token that is looked at next.
    pub closed spec fn position(&self) -> int {
        self.position as int
    }

    /// The tokens end with `EOF`, and the parser stands on one of them.
    pub closed spec fn wf(&self) -> bool {
        &&& ends_with_eof(self.tokens())
        &&& self.position < self.tokens@.len()
    }

    /// A parser at the first token of `text`; or the fault that the lexer
    /// found in it.
    pub fn new(text: &str) -> (result: Result<Parser, SchemaErrors>)
        ensures
            match result {
                Ok(parser) => parser.wf() && parser.position() == 0 && tokens_of(text@) == Ok::<
                    Seq<TokenView>,
                    SchemaErrorView,
                >(parser.tokens()),
                Err(errors) => errors@.len() == 1 && tokens_of(text@) == Err::<
                    Seq<TokenView>,
                    SchemaErrorView,
                >(errors@[0]),
            },
    {
        let mut lexer = Lexer::new(text);
        match lexer.token() {
            Ok(tokens) => {
                proof {
                    lemma_tokens_end_with_eof(text@, identifier_marks(text@), 0, Seq::empty());
                }
                Ok(Parser { tokens, position: 0 })
            },
            Err(errors) => Err(errors),
        }
    }

    /// A parser at the first of `tokens`, if they end with `EOF` and hold no
    /// other `EOF`; nothing otherwise.
    pub fn from_tokens(tokens: Vec<Token>) -> (result: Option<Parser>)
        ensures
            match result {
                Some(parser) => ends_with_eof(tokens_view(tokens@)) && parser.wf()
                    && parser.tokens() == tokens_view(tokens@) && parser.position() == 0,
                None => !ends_with_eof(tokens_view(tokens@)),
            },
    {
        let count = tokens.len();
        if count == 0 {
            return None;
        }
        let mut i: usize = 0;
        while i < count
            invariant
                i <= count,
                count == tokens@.len(),
                forall|k: int|
                    0 <= k < i ==> ((#[trigger] tokens_view(tokens@)[k]).kind is EOF <==> k
                        == count - 1),
            decreases count - i,
        {
            let end = matches!(tokens[i].kind, TokenKind::EOF);
            assert(tokens_view(tokens@)[i as int].kind == tokens@[i as int].kind@);
            if end != (i == count - 1) {
                return None;
            }
            i += 1;
        }
        Some(Parser { tokens, position: 0 })
    }

    /// The fault of finding the current token where `expected` was required.
    fn fault(&self, expected: TokenKind) -> (error: SchemaError)
        requires
            self.wf(),
        ensures
            error@ == unexpected(self.tokens(), self.position(), expected@),
    {
        let token = &self.tokens[self.position];
        SchemaError::UnexpectedToken {
            expected_kind: expected,
            location: token.location,
            actual_kind: token.kind.clone(),
        }
    }

    /// Moves to the next token; the last one, `EOF`, is never left.
    fn advance(&mut self)
        requires
            old(self).wf(),
        ensures
            final(self).wf(),
            final(self).tokens() == old(self).tokens(),
            final(self).position() == if kind_at(old(self).tokens(), old(self).position())
                is EOF {
                old(self).position()
            } else {
                old(self).position() + 1
            },
    {
        let last = self.tokens.len() - 1;
        if self.position < last {
            self.position = self.position + 1;
        }
    }

    /// Passes the current token if it is of kind `kind`, and fails otherwise.
    fn expect(&mut self, kind: TokenKind) -> (result: Result<(), SchemaError>)
        requires
            old(self).wf(),
            !(kind@ is EOF),
        ensures
            final(self).wf(),
            final(self).tokens() == old(self).tokens(),
            match result {
                Ok(_) => kind_at(old(self).tokens(), old(self).position()) == kind@
                    && final(self).position() == old(self).position() + 1,
                Err(error) => kind_at(old(self).tokens(), old(self).position()) != kind@
                    && error@ == unexpected(old(self).tokens(), old(self).position(), kind@)
                    && final(self).position() == old(self).position(),
            },
    {
        if self.tokens[self.position].kind.same(&kind) {
            self.advance();
            Ok(())
        } else {
            Err(self.fault(kind))
        }
    }

    /// Passes the current token if it is an identifier, and gives its text.
    fn expect_identifier(&mut self) -> (result: Result<String, SchemaError>)
        requires
            old(self).wf(),
        ensures
            final(self).wf(),
            final(self).tokens() == old(self).tokens(),
            match result {
                Ok(text) => kind_at(old(self).tokens(), old(self).position())
                    == TokenKindView::Identifier(text@) && final(self).position() == old(self).position() + 1,
                Err(error) => !(kind_at(old(self).tokens(), old(self).position()) is Identifier)
                    && error@ == unexpected(
                    old(self).tokens(),
                    old(self).position(),
                    any_identifier(),
                ) && final(self).position() == old(self).position(),
            },
    {
        let found = match &self.tokens[self.position].kind {
            TokenKind::Identifier(text) => Some(text.clone()),
            _ => None,
        };
        match found {
            Some(text) => {
                self.advance();
                Ok(text)
            },
            None => Err(self.fault(TokenKind::Identifier(String::new()))),
        }
    }

    /// Passes the current token if it is of kind `kind`, and says whether it
    /// did.
    fn consume(&mut self, kind: TokenKind) -> (found: bool)
        requires
            old(self).wf(),
            !(kind@ is EOF),
        ensures
            final(self).wf(),
            final(self).tokens() == old(self).tokens(),
            found == (kind_at(old(self).tokens(), old(self).position()) == kind@),
            final(self).position() == if found {
                old(self).position() + 1
            } else {
                old(self).position()
            },
    {
        if self.tokens[self.position].kind.same(&kind) {
            self.advance();
            true
        } else {
            false
        }
    }

    /// Whether the current token is of kind `kind`.
    fn peek(&self, kind: TokenKind) -> (found: bool)
        requires
            self.wf(),
        ensures
            found == (kind_at(self.tokens(), self.position()) == kind@),
    {
        self.tokens[self.position].kind.same(&kind)
    }

    /// Parses one alternative of a union.
    fn expect_type(&mut self) -> (result: Result<Type, SchemaError>)
        requires
            old(self).wf(),
        ensures
            final(self).wf(),
            final(self).tokens() == old(self).tokens(),
            match result {
                Ok(t) => parse_type(old(self).tokens(), old(self).position()) == Ok::<
                    (TypeView, int),
                    SchemaErrorView,
                >((t@, final(self).position())) && old(self).position() < final(self).position(),
                Err(error) => parse_type(old(self).tokens(), old(self).position()) == Err::<
                    (TypeView, int),
                    SchemaErrorView,
                >(error@),
            },
        decreases old(self).tokens@.len() - old(self).position, 3int,
    {
        if self.peek(TokenKind::LeftBrace) {
            let object = self.object()?;
            return Ok(Type::Object(Box::new(object)));
        }
        if self.peek(TokenKind::Identifier("Array".to_owned())) {
            let array = self.array()?;
            return Ok(Type::Array(Box::new(array)));
        }
        let ghost start = self.position as int;
        let location = self.tokens[self.position].location;
        let identifier = self.expect_identifier()?;
        if str_eq(identifier.as_str(), "null") {
            Ok(Type::Null)
        } else if str_eq(identifier.as_str(), "string") {
            Ok(Type::String)
        } else if str_eq(identifier.as_str(), "number") {
            Ok(Type::Number)
        } else if str_eq(identifier.as_str(), "boolean") {
            Ok(Type::Boolean)
        } else {
            Err(SchemaError::InvalidType { type_: identifier, location })
        }
    }

    /// Parses a union of types: one type, and another after each `|`.
    fn union(&mut self) -> (result: Result<Vec<Type>, SchemaError>)
        requires
            old(self).wf(),
        ensures
            final(self).wf(),
            final(self).tokens() == old(self).tokens(),
            match result {
                Ok(types) => parse_union(old(self).tokens(), old(self).position(), Seq::empty())
                    == Ok::<(Seq<TypeView>, int), SchemaErrorView>(
                    (types_view(types@), final(self).position()),
                ) && old(self).position() < final(self).position(),
                Err(error) => parse_union(old(self).tokens(), old(self).position(), Seq::empty())
                    == Err::<(Seq<TypeView>, int), SchemaErrorView>(error@),
            },
        decreases old(self).tokens@.len() - old(self).position, 4int,
    {
        let mut types: Vec<Type> = Vec::new();
        assert(types_view(types@) =~= Seq::<TypeView>::empty());
        loop
            invariant
                self.wf(),
                self.tokens() == old(self).tokens(),
                self.tokens@.len() == old(self).tokens@.len(),
                old(self).position <= self.position,
                types@.len() == 0 ==> self.position == old(self).position,
                parse_union(old(self).tokens(), old(self).position(), Seq::empty())
                    == parse_union(self.tokens(), self.position(), types_view(types@)),
            decreases self.tokens@.len() - self.position,
        {
            let ghost before = types_view(types@);
            let t = self.expect_type()?;
            types.push(t);
            assert(types_view(types@) =~= before.push(t@));
            if !self.consume(TokenKind::VerticalBar) {
                return Ok(types);
            }
        }
    }

    /// Parses a whole schema: a root value, and then nothing but `EOF`. On a
    /// fault the parser stays where it was.
    pub fn parse(&mut self) -> (result: Result<Value, SchemaError>)
        requires
            old(self).wf(),
        ensures
            final(self).wf(),
            final(self).tokens() == old(self).tokens(),
            match result {
                Ok(value) => parse_schema(old(self).tokens(), old(self).position()) == Ok::<
                    ValueView,
                    SchemaErrorView,
                >(value@) && kind_at(final(self).tokens(), final(self).position()) is EOF,
                Err(error) => parse_schema(old(self).tokens(), old(self).position()) == Err::<
                    ValueView,
                    SchemaErrorView,
                >(error@) && final(self).position() == old(self).position(),
            },
    {
        let start = self.position;
        match self.value() {
            Err(error) => {
                self.position = start;
                Err(error)
            },
            Ok(value) => {
                if self.peek(TokenKind::EOF) {
                    Ok(value)
                } else {
                    let error = self.fault(TokenKind::EOF);
                    self.position = start;
                    Err(error)
                }
            },
        }
    }

    /// Parses the root of a schema.
    fn value(&mut self) -> (result: Result<Value, SchemaError>)
        requires
            old(self).wf(),
        ensures
            final(self).wf(),
            final(self).tokens() == old(self).tokens(),
            match result {
                Ok(value) => parse_value(old(self).tokens(), old(self).position()) == Ok::<
                    (ValueView, int),
                    SchemaErrorView,
                >((value@, final(self).position())),
                Err(error) => parse_value(old(self).tokens(), old(self).position()) == Err::<
                    (ValueView, int),
                    SchemaErrorView,
                >(error@),
            },
    {
        if self.peek(TokenKind::LeftBrace) {
            Ok(Value::Object(self.object()?))
        } else if self.peek(TokenKind::Identifier("Array".to_owned())) {
            Ok(Value::Array(self.array()?))
        } else {
            Ok(Value::Types(self.union()?))
        }
    }

    /// Parses an array schema.
    fn array(&mut self) -> (result: Result<Array, SchemaError>)
        requires
            old(self).wf(),
        ensures
            final(self).wf(),
            final(self).tokens() == old(self).tokens(),
            match result {
                Ok(array) => parse_array(old(self).tokens(), old(self).position()) == Ok::<
                    (Seq<TypeView>, int),
                    SchemaErrorView,
                >((array@, final(self).position())) && old(self).position() < final(self).position(),
                Err(error) => parse_array(old(self).tokens(), old(self).position()) == Err::<
                    (Seq<TypeView>, int),
                    SchemaErrorView,
                >(error@),
            },
        decreases old(self).tokens@.len() - old(self).position, 2int,
    {
        self.expect(TokenKind::Identifier("Array".to_owned()))?;
        self.expect(TokenKind::LessThan)?;
        let types = self.union()?;
        self.expect(TokenKind::GreaterThan)?;
        Ok(Array::new(types))
    }

    /// Parses an object schema.
    fn object(&mut self) -> (result: Result<Object, SchemaError>)
        requires
            old(self).wf(),
        ensures
            final(self).wf(),
            final(self).tokens() == old(self).tokens(),
            match result {
                Ok(object) => parse_object(old(self).tokens(), old(self).position()) == Ok::<
                    (Seq<PropertyView>, int),
                    SchemaErrorView,
                >((object@, final(self).position())) && old(self).position() < final(self).position(),
                Err(error) => parse_object(old(self).tokens(), old(self).position()) == Err::<
                    (Seq<PropertyView>, int),
                    SchemaErrorView,
                >(error@),
            },
        decreases old(self).tokens@.len() - old(self).position, 2int,
    {
        let mut object = Object::new();
        self.expect(TokenKind::LeftBrace)?;
        loop
            invariant
                self.wf(),
                self.tokens() == old(self).tokens(),
                self.tokens@.len() == old(self).tokens@.len(),
                old(self).position < self.position,
                kind_at(old(self).tokens(), old(self).position()) is LeftBrace,
                parse_object(old(self).tokens(), old(self).position()) == parse_properties(
                    self.tokens(),
                    self.position(),
                    object@,
                ),
            decreases self.tokens@.len() - self.position,
        {
            if self.consume(TokenKind::RightBrace) {
                return Ok(object);
            }
            let ghost before = object@;
            let property = self.property()?;
            object.properties.push(property);
            assert(object@ =~= before.push(property@));
            self.consume(TokenKind::Comma);
        }
    }

    /// Parses one property: a name, a colon and a union of types.
    fn property(&mut self) -> (result: Result<Property, SchemaError>)
        requires
            old(self).wf(),
            old(self).tokens@.len() - old(self).position > 0,
        ensures
            final(self).wf(),
            final(self).tokens() == old(self).tokens(),
            match result {
                Ok(property) => {
                    &&& kind_at(old(self).tokens(), old(self).position())
                        == TokenKindView::Identifier(property@.name)
                    &&& kind_at(old(self).tokens(), old(self).position() + 1) is Colon
                    &&& parse_union(old(self).tokens(), old(self).position() + 2, Seq::empty())
                        == Ok::<(Seq<TypeView>, int), SchemaErrorView>(
                        (property@.types, final(self).position()),
                    )
                    &&& old(self).position() + 2 < final(self).position()
                },
                Err(error) => match kind_at(old(self).tokens(), old(self).position()) {
                    TokenKindView::Identifier(_) => if kind_at(
                        old(self).tokens(),
                        old(self).position() + 1,
                    ) is Colon {
                        parse_union(old(self).tokens(), old(self).position() + 2, Seq::empty())
                            == Err::<(Seq<TypeView>, int), SchemaErrorView>(error@)
                    } else {
                        error@ == unexpected(
                            old(self).tokens(),
                            old(self).position() + 1,
                            TokenKindView::Colon,
                        )
                    },
                    _ => error@ == unexpected(
                        old(self).tokens(),
                        old(self).position(),
                        any_identifier(),
                    ),
                },
            },
        decreases old(self).tokens@.len() - old(self).position, 0int,
    {
        let name = self.expect_identifier()?;
        self.expect(TokenKind::Colon)?;
        let types = self.union()?;
        Ok(Property::new(name, types))
    }
}

} // verus!
