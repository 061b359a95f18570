//! The canonical text of a schema, and the proof that reading it gives the
//! schema back.
//!
//! The canonical text writes every identifier in single quotes, a comma after
//! every property, and no blank.

use super::data::{
    properties_view, types_view, Property, PropertyView, Value, ValueView, TokenKindView, TokenView,
    Type, TypeView,
};
use super::error::SchemaErrorView;
use super::lexer::{
    blank, identifier_marks, next_token, punctuation, quoted, skip_blanks, span, tokens_from,
    tokens_of, Quoted,
};
use super::parser::{
    array_keyword, kind_at, parse_properties, parse_schema, parse_type, parse_union, primitive,
};
use super::schema::schema_of;
use crate::text::{chars_of, push_char};
use vstd::prelude::*;

verus! {

/// Whether `piece` stands in `s` at `pos`.
pub open spec fn holds_at<T>(s: Seq<T>, pos: int, piece: Seq<T>) -> bool {
    &&& 0 <= pos
    &&& pos + piece.len() <= s.len()
    &&& forall|j: int| 0 <= j < piece.len() ==> s[pos + j] == #[trigger] piece[j]
}

/// Two pieces stand one after the other exactly if their concatenation
/// stands there.
pub proof fn lemma_holds_at_concat<T>(s: Seq<T>, pos: int, a: Seq<T>, b: Seq<T>)
    ensures
        holds_at(s, pos, a + b) <==> holds_at(s, pos, a) && holds_at(s, pos + a.len(), b),
{
    if holds_at(s, pos, a + b) {
        assert forall|j: int| 0 <= j < a.len() implies s[pos + j] == #[trigger] a[j] by {
            assert((a + b)[j] == a[j]);
        }
        assert forall|j: int| 0 <= j < b.len() implies s[pos + a.len() + j] == #[trigger] b[j] by {
            assert((a + b)[a.len() + j] == b[j]);
        }
    }
    if holds_at(s, pos, a) && holds_at(s, pos + a.len(), b) {
        assert forall|j: int| 0 <= j < (a + b).len() implies s[pos + j] == #[trigger] (a + b)[j] by {
            if j < a.len() {
                assert(a[j] == (a + b)[j]);
            } else {
                assert(b[j - a.len()] == (a + b)[j]);
            }
        }
    }
}

/// The kinds of a sequence of tokens, in order.
pub open spec fn kinds_of(tokens: Seq<TokenView>) -> Seq<TokenKindView> {
    Seq::new(tokens.len(), |i: int| tokens[i].kind)
}

/// The tokens that spell a type.
pub open spec fn type_tokens(t: TypeView) -> Seq<TokenKindView>
    decreases t, 0int,
{
    match t {
        TypeView::Null => seq![TokenKindView::Identifier("null"@)],
        TypeView::String => seq![TokenKindView::Identifier("string"@)],
        TypeView::Number => seq![TokenKindView::Identifier("number"@)],
        TypeView::Boolean => seq![TokenKindView::Identifier("boolean"@)],
        TypeView::Object(properties) => seq![TokenKindView::LeftBrace] + properties_tokens(
            properties,
            0,
        ) + seq![TokenKindView::RightBrace],
        TypeView::Array(types) => seq![array_keyword(), TokenKindView::LessThan] + union_tokens(
            types,
            0,
        ) + seq![TokenKindView::GreaterThan],
    }
}

/// The tokens that spell the alternatives of a union from index `from` on,
/// with `|` between each two.
pub open spec fn union_tokens(types: Seq<TypeView>, from: int) -> Seq<TokenKindView>
    decreases types, types.len() - from,
{
    if from < 0 || from >= types.len() {
        Seq::empty()
    } else if from + 1 == types.len() {
        type_tokens(types[from])
    } else {
        type_tokens(types[from]) + (seq![TokenKindView::VerticalBar] + union_tokens(
            types,
            from + 1,
        ))
    }
}

/// The tokens that spell the properties from index `from` on, each with a
/// comma behind it.
pub open spec fn properties_tokens(properties: Seq<PropertyView>, from: int) -> Seq<TokenKindView>
    decreases properties, properties.len() - from,
{
    if from < 0 || from >= properties.len() {
        Seq::empty()
    } else {
        seq![TokenKindView::Identifier(properties[from].name), TokenKindView::Colon] + (
        union_tokens(properties[from].types, 0) + (seq![TokenKindView::Comma] + properties_tokens(
            properties,
            from + 1,
        )))
    }
}

/// The tokens that spell a schema, without the closing `EOF`.
pub open spec fn root_tokens(root: ValueView) -> Seq<TokenKindView> {
    match root {
        ValueView::Object(properties) => type_tokens(TypeView::Object(properties)),
        ValueView::Array(types) => type_tokens(TypeView::Array(types)),
        ValueView::Types(types) => union_tokens(types, 0),
    }
}

/// Whether a type can be written down: every union in it has an alternative.
pub open spec fn writable_type(t: TypeView) -> bool
    decreases t, 0int,
{
    match t {
        TypeView::Object(properties) => forall|j: int|
            0 <= j < properties.len() ==> writable_property(#[trigger] properties[j]),
        TypeView::Array(types) => writable_union(types),
        _ => true,
    }
}

/// Whether a property can be written down: its union can.
pub open spec fn writable_property(property: PropertyView) -> bool
    decreases property, 0int,
{
    writable_union(property.types)
}

/// Whether a union can be written down: it has an alternative, and each of
/// its alternatives can be written down.
pub open spec fn writable_union(types: Seq<TypeView>) -> bool
    decreases types, 0int,
{
    &&& types.len() > 0
    &&& forall|i: int| 0 <= i < types.len() ==> writable_type(#[trigger] types[i])
}

/// Whether a schema can be written down. A union at the root does not start
/// with an object or an array: a text that starts with one is an object or an
/// array schema.
pub open spec fn writable(root: ValueView) -> bool {
    match root {
        ValueView::Object(properties) => writable_type(TypeView::Object(properties)),
        ValueView::Array(types) => writable_type(TypeView::Array(types)),
        ValueView::Types(types) => writable_union(types) && !(types[0] is Object) && !(types[0]
            is Array),
    }
}

/// The union of a property of an object that can be written down can be
/// written down.
proof fn lemma_writable_property(properties: Seq<PropertyView>, j: int)
    requires
        writable_type(TypeView::Object(properties)),
        0 <= j < properties.len(),
    ensures
        writable_union(properties[j].types),
{
    let t = TypeView::Object(properties);
    assert(t->Object_0 == properties);
    assert(writable_property(properties[j]));
}

proof fn lemma_keywords_differ()
    ensures
        "null"@ != "Array"@,
        "string"@ != "Array"@,
        "number"@ != "Array"@,
        "boolean"@ != "Array"@,
        primitive("null"@) == Some(TypeView::Null),
        primitive("string"@) == Some(TypeView::String),
        primitive("number"@) == Some(TypeView::Number),
        primitive("boolean"@) == Some(TypeView::Boolean),
{
    reveal_strlit("null");
    reveal_strlit("string");
    reveal_strlit("number");
    reveal_strlit("boolean");
    reveal_strlit("Array");
    assert("null"@.len() == 4);
    assert("string"@.len() == 6);
    assert("number"@.len() == 6);
    assert("boolean"@.len() == 7);
    assert("Array"@.len() == 5);
    assert("string"@[0] == 's');
    assert("number"@[0] == 'n');
}

/// The kind of the token at a position where a piece stands.
proof fn lemma_kind_in_piece(
    tokens: Seq<TokenView>,
    pos: int,
    piece: Seq<TokenKindView>,
    j: int,
)
    requires
        holds_at(kinds_of(tokens), pos, piece),
        0 <= j < piece.len(),
    ensures
        kind_at(tokens, pos + j) == piece[j],
        0 <= pos + j < tokens.len(),
{
    assert(kinds_of(tokens)[pos + j] == piece[j]);
}

/// Reading a type where its tokens stand gives the type and ends behind
/// them.
pub proof fn lemma_parse_type(tokens: Seq<TokenView>, pos: int, t: TypeView)
    requires
        writable_type(t),
        holds_at(kinds_of(tokens), pos, type_tokens(t)),
    ensures
        parse_type(tokens, pos) == Ok::<(TypeView, int), SchemaErrorView>(
            (t, pos + type_tokens(t).len()),
        ),
    decreases t, 0int,
{
    lemma_keywords_differ();
    let kinds = kinds_of(tokens);
    match t {
        TypeView::Object(properties) => {
            let open = seq![TokenKindView::LeftBrace];
            let inner = properties_tokens(properties, 0);
            let close = seq![TokenKindView::RightBrace];
            assert(type_tokens(t) =~= open + (inner + close));
            lemma_holds_at_concat(kinds, pos, open, inner + close);
            lemma_kind_in_piece(tokens, pos, open, 0);
            assert(properties.take(0) =~= Seq::<PropertyView>::empty());
            lemma_parse_properties(tokens, pos + 1, properties, 0);
        },
        TypeView::Array(types) => {
            let open = seq![array_keyword(), TokenKindView::LessThan];
            let inner = union_tokens(types, 0);
            let close = seq![TokenKindView::GreaterThan];
            assert(type_tokens(t) =~= open + (inner + close));
            lemma_holds_at_concat(kinds, pos, open, inner + close);
            lemma_holds_at_concat(kinds, pos + 2, inner, close);
            lemma_kind_in_piece(tokens, pos, open, 0);
            lemma_kind_in_piece(tokens, pos, open, 1);
            lemma_kind_in_piece(tokens, pos + 2 + inner.len(), close, 0);
            assert(types.take(0) =~= Seq::<TypeView>::empty());
            lemma_parse_union(tokens, pos + 2, types, 0);
        },
        _ => {
            lemma_kind_in_piece(tokens, pos, type_tokens(t), 0);
        },
    }
}

/// Reading a union where the tokens of its alternatives from `from` on stand,
/// after the alternatives before `from`, gives the union and ends behind the
/// tokens, if no `|` follows them.
pub proof fn lemma_parse_union(tokens: Seq<TokenView>, pos: int, types: Seq<TypeView>, from: int)
    requires
        writable_union(types),
        0 <= from < types.len(),
        holds_at(kinds_of(tokens), pos, union_tokens(types, from)),
        !(kind_at(tokens, pos + union_tokens(types, from).len()) is VerticalBar),
    ensures
        parse_union(tokens, pos, types.take(from)) == Ok::<(Seq<TypeView>, int), SchemaErrorView>(
            (types, pos + union_tokens(types, from).len()),
        ),
    decreases types, types.len() - from,
{
    let kinds = kinds_of(tokens);
    let first = type_tokens(types[from]);
    assert(types.take(from).push(types[from]) =~= types.take(from + 1));
    if from + 1 == types.len() {
        lemma_parse_type(tokens, pos, types[from]);
        assert(types.take(from + 1) =~= types);
    } else {
        let bar = seq![TokenKindView::VerticalBar];
        let rest = union_tokens(types, from + 1);
        lemma_holds_at_concat(kinds, pos, first, bar + rest);
        lemma_holds_at_concat(kinds, pos + first.len(), bar, rest);
        lemma_parse_type(tokens, pos, types[from]);
        lemma_kind_in_piece(tokens, pos + first.len(), bar, 0);
        lemma_parse_union(tokens, pos + first.len() + 1, types, from + 1);
    }
}

/// Reading the rest of an object where the tokens of its properties from
/// `from` on and the closing brace stand, after the properties before `from`,
/// gives the object and ends behind the brace.
pub proof fn lemma_parse_properties(
    tokens: Seq<TokenView>,
    pos: int,
    properties: Seq<PropertyView>,
    from: int,
)
    requires
        writable_type(TypeView::Object(properties)),
        0 <= from <= properties.len(),
        holds_at(
            kinds_of(tokens),
            pos,
            properties_tokens(properties, from) + seq![TokenKindView::RightBrace],
        ),
    ensures
        parse_properties(tokens, pos, properties.take(from)) == Ok::<
            (Seq<PropertyView>, int),
            SchemaErrorView,
        >((properties, pos + properties_tokens(properties, from).len() + 1)),
    decreases properties, properties.len() - from,
{
    let kinds = kinds_of(tokens);
    let close = seq![TokenKindView::RightBrace];
    if from == properties.len() {
        lemma_kind_in_piece(tokens, pos, properties_tokens(properties, from) + close, 0);
        assert(properties.take(from) =~= properties);
    } else {
        let property = properties[from];
        let head = seq![TokenKindView::Identifier(property.name), TokenKindView::Colon];
        let union = union_tokens(property.types, 0);
        let comma = seq![TokenKindView::Comma];
        let rest = properties_tokens(properties, from + 1);
        assert(properties_tokens(properties, from) + close =~= head + (union + (comma + (rest
            + close))));
        lemma_holds_at_concat(kinds, pos, head, union + (comma + (rest + close)));
        lemma_holds_at_concat(kinds, pos + 2, union, comma + (rest + close));
        lemma_holds_at_concat(kinds, pos + 2 + union.len(), comma, rest + close);
        lemma_kind_in_piece(tokens, pos, head, 0);
        lemma_kind_in_piece(tokens, pos, head, 1);
        lemma_kind_in_piece(tokens, pos + 2 + union.len(), comma, 0);
        lemma_writable_property(properties, from);
        assert(property.types.take(0) =~= Seq::<TypeView>::empty());
        lemma_parse_union(tokens, pos + 2, property.types, 0);
        assert(properties.take(from).push(property) =~= properties.take(from + 1));
        lemma_parse_properties(tokens, pos + 2 + union.len() + 1, properties, from + 1);
    }
}

/// Reading a schema from its tokens and a closing `EOF` gives the schema.
pub proof fn lemma_parse_schema(tokens: Seq<TokenView>, root: ValueView)
    requires
        writable(root),
        kinds_of(tokens) == root_tokens(root).push(TokenKindView::EOF),
    ensures
        parse_schema(tokens, 0) == Ok::<ValueView, SchemaErrorView>(root),
{
    lemma_keywords_differ();
    let kinds = kinds_of(tokens);
    let spelled = root_tokens(root);
    let end = seq![TokenKindView::EOF];
    assert(spelled.push(TokenKindView::EOF) =~= spelled + end);
    assert(holds_at(kinds, 0, spelled + end));
    lemma_holds_at_concat(kinds, 0, spelled, end);
    lemma_kind_in_piece(tokens, spelled.len() as int, end, 0);
    match root {
        ValueView::Object(properties) => {
            lemma_kind_in_piece(tokens, 0, spelled, 0);
            lemma_parse_type(tokens, 0, TypeView::Object(properties));
        },
        ValueView::Array(types) => {
            lemma_kind_in_piece(tokens, 0, spelled, 0);
            lemma_parse_type(tokens, 0, TypeView::Array(types));
        },
        ValueView::Types(types) => {
            assert(types.take(0) =~= Seq::<TypeView>::empty());
            if types.len() > 1 {
                lemma_holds_at_concat(
                    kinds,
                    0,
                    type_tokens(types[0]),
                    seq![TokenKindView::VerticalBar] + union_tokens(types, 1),
                );
            }
            lemma_kind_in_piece(tokens, 0, type_tokens(types[0]), 0);
            lemma_parse_union(tokens, 0, types, 0);
        },
    }
}

/// Whether a text holds no backslash. Only such a text can be the text of an
/// identifier: inside quotes a backslash stands for itself nowhere.
pub open spec fn plain(text: Seq<char>) -> bool {
    forall|i: int| 0 <= i < text.len() ==> #[trigger] text[i] != '\\'
}

/// Whether the tokens can be written down: none is `EOF`, and the text of
/// every identifier is plain.
pub open spec fn lexable(kinds: Seq<TokenKindView>) -> bool {
    forall|i: int|
        0 <= i < kinds.len() ==> match #[trigger] kinds[i] {
            TokenKindView::Identifier(text) => plain(text),
            TokenKindView::EOF => false,
            _ => true,
        }
}

/// The inside of a quoted identifier with the text `text`: every single
/// quote with a backslash before it.
pub open spec fn escaped(text: Seq<char>) -> Seq<char>
    decreases text.len(),
{
    if text.len() == 0 {
        Seq::empty()
    } else if text[0] == '\'' {
        seq!['\\', '\''] + escaped(text.drop_first())
    } else {
        seq![text[0]] + escaped(text.drop_first())
    }
}

/// The canonical text of a token: an identifier in single quotes, a
/// punctuation mark as it is.
pub open spec fn token_text(kind: TokenKindView) -> Seq<char> {
    match kind {
        TokenKindView::Identifier(text) => seq!['\''] + (escaped(text) + seq!['\'']),
        TokenKindView::Colon => seq![':'],
        TokenKindView::Comma => seq![','],
        TokenKindView::LeftBrace => seq!['{'],
        TokenKindView::RightBrace => seq!['}'],
        TokenKindView::LessThan => seq!['<'],
        TokenKindView::GreaterThan => seq!['>'],
        TokenKindView::VerticalBar => seq!['|'],
        TokenKindView::EOF => Seq::empty(),
    }
}

/// The canonical texts of the tokens from index `from` on, one after the
/// other.
pub open spec fn tokens_text(kinds: Seq<TokenKindView>, from: int) -> Seq<char>
    decreases kinds.len() - from,
{
    if from < 0 || from >= kinds.len() {
        Seq::empty()
    } else {
        token_text(kinds[from]) + tokens_text(kinds, from + 1)
    }
}

/// The canonical text of a schema.
pub open spec fn canonical_text(root: ValueView) -> Seq<char> {
    tokens_text(root_tokens(root), 0)
}

/// Reading the inside of a quoted identifier where the escaped text and the
/// closing quote stand gives the text and ends behind the quote.
proof fn lemma_quoted(chars: Seq<char>, pos: int, text: Seq<char>, read: Seq<char>)
    requires
        plain(text),
        holds_at(chars, pos, escaped(text) + seq!['\'']),
    ensures
        quoted(chars, pos, '\'', read) == (Quoted::Closed {
            text: read + text,
            end: pos + escaped(text).len() + 1,
        }),
    decreases text.len(),
{
    let close = seq!['\''];
    if text.len() == 0 {
        assert(chars[pos + 0] == (escaped(text) + close)[0]);
        assert(read + text =~= read);
    } else {
        let rest = text.drop_first();
        assert(plain(rest)) by {
            assert forall|i: int| 0 <= i < rest.len() implies #[trigger] rest[i] != '\\' by {
                assert(rest[i] == text[i + 1]);
            }
        }
        assert(text[0] != '\\');
        assert(read.push(text[0]) + rest =~= read + text);
        if text[0] == '\'' {
            let mark = seq!['\\', '\''];
            assert(escaped(text) + close =~= mark + (escaped(rest) + close));
            lemma_holds_at_concat(chars, pos, mark, escaped(rest) + close);
            assert(chars[pos + 0] == mark[0]);
            assert(chars[pos + 1] == mark[1]);
            lemma_quoted(chars, pos + 2, rest, read.push('\''));
        } else {
            let one = seq![text[0]];
            assert(escaped(text) + close =~= one + (escaped(rest) + close));
            lemma_holds_at_concat(chars, pos, one, escaped(rest) + close);
            assert(chars[pos + 0] == one[0]);
            lemma_quoted(chars, pos + 1, rest, read.push(text[0]));
        }
    }
}

/// Reading a token where its canonical text stands gives the token and ends
/// behind the text.
proof fn lemma_next_token(chars: Seq<char>, marks: Seq<bool>, pos: int, kind: TokenKindView)
    requires
        lexable(seq![kind]),
        holds_at(chars, pos, token_text(kind)),
    ensures
        token_text(kind).len() > 0,
        next_token(chars, marks, pos) == Ok::<(TokenView, int), SchemaErrorView>(
            (
                TokenView { kind, location: span(chars, pos, pos + token_text(kind).len()) },
                pos + token_text(kind).len(),
            ),
        ),
{
    let text = token_text(kind);
    assert(lexable(seq![kind]) ==> seq![kind][0] == kind);
    assert(!(kind is EOF));
    assert(chars[pos + 0] == text[0]);
    assert(!blank(chars[pos]));
    assert(skip_blanks(chars, pos) == pos);
    match kind {
        TokenKindView::Identifier(name) => {
            let open = seq!['\''];
            lemma_holds_at_concat(chars, pos, open, escaped(name) + seq!['\'']);
            lemma_quoted(chars, pos + 1, name, Seq::empty());
            assert(Seq::<char>::empty() + name =~= name);
        },
        _ => {},
    }
}

/// Reading the tokens where the canonical texts of `kinds[from..]` stand and
/// end the text gives, after the tokens read before, tokens of these kinds
/// and the closing `EOF`.
proof fn lemma_tokens_from(
    chars: Seq<char>,
    marks: Seq<bool>,
    pos: int,
    kinds: Seq<TokenKindView>,
    from: int,
    read: Seq<TokenView>,
)
    requires
        lexable(kinds),
        0 <= from <= kinds.len(),
        holds_at(chars, pos, tokens_text(kinds, from)),
        pos + tokens_text(kinds, from).len() == chars.len(),
        kinds_of(read) == kinds.take(from),
    ensures
        tokens_from(chars, marks, pos, read) matches Ok(tokens) && kinds_of(tokens) == kinds.push(
            TokenKindView::EOF,
        ),
    decreases kinds.len() - from,
{
    if from == kinds.len() {
        assert(skip_blanks(chars, pos) == pos);
        let token = TokenView { kind: TokenKindView::EOF, location: span(chars, pos, pos) };
        assert(kinds.take(from) =~= kinds);
        assert(kinds_of(read.push(token)) =~= kinds.push(TokenKindView::EOF));
    } else {
        let kind = kinds[from];
        let text = token_text(kind);
        lemma_holds_at_concat(chars, pos, text, tokens_text(kinds, from + 1));
        assert(lexable(seq![kind])) by {
            assert(seq![kind][0] == kinds[from]);
        }
        lemma_next_token(chars, marks, pos, kind);
        let token = TokenView { kind, location: span(chars, pos, pos + text.len()) };
        assert(kinds_of(read.push(token)) =~= kinds.take(from + 1)) by {
            assert(kinds_of(read).len() == from);
            assert forall|i: int| 0 <= i < from implies kinds_of(read.push(token))[i]
                == kinds.take(from + 1)[i] by {
                assert(kinds_of(read)[i] == kinds.take(from)[i]);
            }
        }
        lemma_tokens_from(chars, marks, pos + text.len(), kinds, from + 1, read.push(token));
    }
}

/// The tokens of the canonical text of writable tokens are these tokens and
/// the closing `EOF`.
pub proof fn lemma_tokens_of_text(kinds: Seq<TokenKindView>)
    requires
        lexable(kinds),
    ensures
        tokens_of(tokens_text(kinds, 0)) matches Ok(tokens) && kinds_of(tokens) == kinds.push(
            TokenKindView::EOF,
        ),
{
    let chars = tokens_text(kinds, 0);
    assert(kinds_of(Seq::<TokenView>::empty()) =~= kinds.take(0));
    lemma_tokens_from(chars, identifier_marks(chars), 0, kinds, 0, Seq::empty());
}

/// Whether every property name in a type is plain.
pub open spec fn plainly_named_type(t: TypeView) -> bool
    decreases t, 0int,
{
    match t {
        TypeView::Object(properties) => forall|j: int|
            0 <= j < properties.len() ==> plainly_named_property(#[trigger] properties[j]),
        TypeView::Array(types) => plainly_named_union(types),
        _ => true,
    }
}

/// Whether the name of a property and every property name in its union are
/// plain.
pub open spec fn plainly_named_property(property: PropertyView) -> bool
    decreases property, 0int,
{
    plain(property.name) && plainly_named_union(property.types)
}

/// Whether every property name in the alternatives of a union is plain.
pub open spec fn plainly_named_union(types: Seq<TypeView>) -> bool
    decreases types, 0int,
{
    forall|i: int| 0 <= i < types.len() ==> plainly_named_type(#[trigger] types[i])
}

/// Whether every property name in a schema is plain.
pub open spec fn plainly_named(root: ValueView) -> bool {
    match root {
        ValueView::Object(properties) => plainly_named_type(TypeView::Object(properties)),
        ValueView::Array(types) => plainly_named_type(TypeView::Array(types)),
        ValueView::Types(types) => plainly_named_union(types),
    }
}

proof fn lemma_keywords_plain()
    ensures
        plain("null"@),
        plain("string"@),
        plain("number"@),
        plain("boolean"@),
        plain("Array"@),
{
    reveal_strlit("null");
    reveal_strlit("string");
    reveal_strlit("number");
    reveal_strlit("boolean");
    reveal_strlit("Array");
}

proof fn lemma_lexable_concat(a: Seq<TokenKindView>, b: Seq<TokenKindView>)
    requires
        lexable(a),
        lexable(b),
    ensures
        lexable(a + b),
{
    assert forall|i: int| 0 <= i < (a + b).len() implies match #[trigger] (a + b)[i] {
        TokenKindView::Identifier(text) => plain(text),
        TokenKindView::EOF => false,
        _ => true,
    } by {
        if i < a.len() {
            assert((a + b)[i] == a[i]);
        } else {
            assert((a + b)[i] == b[i - a.len()]);
        }
    }
}

/// The tokens of a plainly named type can be written down.
proof fn lemma_type_tokens_lexable(t: TypeView)
    requires
        plainly_named_type(t),
    ensures
        lexable(type_tokens(t)),
    decreases t, 0int,
{
    lemma_keywords_plain();
    match t {
        TypeView::Object(properties) => {
            assert(t->Object_0 == properties);
            lemma_properties_tokens_lexable(properties, 0);
            let open = seq![TokenKindView::LeftBrace];
            let close = seq![TokenKindView::RightBrace];
            lemma_lexable_concat(open, properties_tokens(properties, 0));
            lemma_lexable_concat(open + properties_tokens(properties, 0), close);
        },
        TypeView::Array(types) => {
            lemma_union_tokens_lexable(types, 0);
            let open = seq![array_keyword(), TokenKindView::LessThan];
            let close = seq![TokenKindView::GreaterThan];
            lemma_lexable_concat(open, union_tokens(types, 0));
            lemma_lexable_concat(open + union_tokens(types, 0), close);
        },
        _ => {},
    }
}

proof fn lemma_union_tokens_lexable(types: Seq<TypeView>, from: int)
    requires
        plainly_named_union(types),
    ensures
        lexable(union_tokens(types, from)),
    decreases types, types.len() - from,
{
    if 0 <= from < types.len() {
        lemma_type_tokens_lexable(types[from]);
        if from + 1 < types.len() {
            lemma_union_tokens_lexable(types, from + 1);
            let bar = seq![TokenKindView::VerticalBar];
            lemma_lexable_concat(bar, union_tokens(types, from + 1));
            lemma_lexable_concat(type_tokens(types[from]), bar + union_tokens(types, from + 1));
        }
    }
}

proof fn lemma_properties_tokens_lexable(properties: Seq<PropertyView>, from: int)
    requires
        forall|j: int|
            0 <= j < properties.len() ==> plainly_named_property(#[trigger] properties[j]),
    ensures
        lexable(properties_tokens(properties, from)),
    decreases properties, properties.len() - from,
{
    if 0 <= from < properties.len() {
        let property = properties[from];
        assert(plainly_named_property(properties[from]));
        lemma_union_tokens_lexable(property.types, 0);
        lemma_properties_tokens_lexable(properties, from + 1);
        let head = seq![TokenKindView::Identifier(property.name), TokenKindView::Colon];
        let comma = seq![TokenKindView::Comma];
        let rest = properties_tokens(properties, from + 1);
        lemma_lexable_concat(comma, rest);
        lemma_lexable_concat(union_tokens(property.types, 0), comma + rest);
        lemma_lexable_concat(head, union_tokens(property.types, 0) + (comma + rest));
    }
}

/// Reading the canonical text of a schema gives the schema back, if the
/// schema can be written down and is plainly named.
pub proof fn lemma_canonical_text_round_trip(root: ValueView)
    requires
        writable(root),
        plainly_named(root),
    ensures
        schema_of(canonical_text(root)) == Ok::<ValueView, SchemaErrorView>(root),
{
    match root {
        ValueView::Object(properties) => lemma_type_tokens_lexable(TypeView::Object(properties)),
        ValueView::Array(types) => lemma_type_tokens_lexable(TypeView::Array(types)),
        ValueView::Types(types) => lemma_union_tokens_lexable(types, 0),
    }
    lemma_tokens_of_text(root_tokens(root));
    let tokens = tokens_of(canonical_text(root))->Ok_0;
    lemma_parse_schema(tokens, root);
}

/// A type that the parser has read can be written down.
proof fn lemma_parsed_type(tokens: Seq<TokenView>, pos: int)
    ensures
        parse_type(tokens, pos) matches Ok((t, _)) ==> writable_type(t),
    decreases tokens.len() - pos, 3int,
{
    match kind_at(tokens, pos) {
        TokenKindView::LeftBrace => {
            lemma_parsed_properties(tokens, pos + 1, Seq::empty());
        },
        TokenKindView::Identifier(text) => {
            if text == "Array"@ {
                if kind_at(tokens, pos + 1) is LessThan {
                    lemma_parsed_union(tokens, pos + 2, Seq::empty());
                }
            }
        },
        _ => {},
    }
}

/// A union that the parser has read can be written down, if the alternatives
/// read before can; it holds these and at least one more.
proof fn lemma_parsed_union(tokens: Seq<TokenView>, pos: int, read: Seq<TypeView>)
    requires
        forall|i: int| 0 <= i < read.len() ==> writable_type(#[trigger] read[i]),
    ensures
        parse_union(tokens, pos, read) matches Ok((types, _)) ==> {
            &&& writable_union(types)
            &&& types.len() > read.len()
            &&& parse_type(tokens, pos) matches Ok((t, _)) && types[read.len() as int] == t
            &&& types.take(read.len() as int) == read
        },
    decreases tokens.len() - pos, 4int,
{
    lemma_parsed_type(tokens, pos);
    match parse_type(tokens, pos) {
        Err(_) => {},
        Ok((t, next)) => {
            let more = read.push(t);
            assert(more.take(read.len() as int) =~= read);
            if kind_at(tokens, next) is VerticalBar && pos <= next {
                lemma_parsed_union(tokens, next + 1, more);
                match parse_union(tokens, next + 1, more) {
                    Err(_) => {},
                    Ok((types, _)) => {
                        assert(types[read.len() as int] == types.take(more.len() as int)[read.len() as int]);
                        assert(types.take(read.len() as int) =~= types.take(
                            more.len() as int,
                        ).take(read.len() as int));
                    },
                }
            }
        },
    }
}

/// An object that the parser has read can be written down, if the properties
/// read before can.
proof fn lemma_parsed_properties(tokens: Seq<TokenView>, pos: int, read: Seq<PropertyView>)
    requires
        forall|j: int| 0 <= j < read.len() ==> writable_property(#[trigger] read[j]),
    ensures
        parse_properties(tokens, pos, read) matches Ok((properties, _)) ==> writable_type(
            TypeView::Object(properties),
        ),
    decreases tokens.len() - pos, 1int,
{
    match kind_at(tokens, pos) {
        TokenKindView::Identifier(name) => {
            if kind_at(tokens, pos + 1) is Colon {
                lemma_parsed_union(tokens, pos + 2, Seq::empty());
                match parse_union(tokens, pos + 2, Seq::empty()) {
                    Err(_) => {},
                    Ok((types, next)) => {
                        let after = if kind_at(tokens, next) is Comma {
                            next + 1
                        } else {
                            next
                        };
                        let property = PropertyView { name, types };
                        assert(writable_property(property));
                        if pos < after <= tokens.len() {
                            lemma_parsed_properties(tokens, after, read.push(property));
                        }
                    },
                }
            }
        },
        _ => {},
    }
}

/// A schema that the parser has read can be written down.
pub proof fn lemma_parsed_schema_is_writable(tokens: Seq<TokenView>, pos: int)
    ensures
        parse_schema(tokens, pos) matches Ok(root) ==> writable(root),
{
    lemma_keywords_differ();
    if kind_at(tokens, pos) is LeftBrace {
        lemma_parsed_type(tokens, pos);
    } else if kind_at(tokens, pos) == array_keyword() {
        lemma_parsed_type(tokens, pos);
    } else {
        lemma_parsed_union(tokens, pos, Seq::empty());
    }
}

/// Writing a schema that was read from a text in its canonical form and
/// reading that again gives the same schema, if its property names are
/// plain.
pub proof fn lemma_schema_round_trip(text: Seq<char>, root: ValueView)
    requires
        schema_of(text) == Ok::<ValueView, SchemaErrorView>(root),
        plainly_named(root),
    ensures
        schema_of(canonical_text(root)) == Ok::<ValueView, SchemaErrorView>(root),
{
    lemma_parsed_schema_is_writable(tokens_of(text)->Ok_0, 0);
    lemma_canonical_text_round_trip(root);
}

/// The canonical text of all the tokens.
pub open spec fn text_of(kinds: Seq<TokenKindView>) -> Seq<char> {
    tokens_text(kinds, 0)
}

proof fn lemma_tokens_text_shift(a: Seq<TokenKindView>, b: Seq<TokenKindView>, from: int)
    requires
        0 <= from <= a.len(),
    ensures
        tokens_text(a + b, from) == tokens_text(a, from) + tokens_text(b, 0),
    decreases a.len() - from,
{
    if from == a.len() {
        lemma_tokens_text_tail(a, b, 0);
        assert(Seq::<char>::empty() + tokens_text(b, 0) =~= tokens_text(b, 0));
    } else {
        lemma_tokens_text_shift(a, b, from + 1);
        assert((a + b)[from] == a[from]);
        assert(token_text(a[from]) + (tokens_text(a, from + 1) + tokens_text(b, 0))
            =~= token_text(a[from]) + tokens_text(a, from + 1) + tokens_text(b, 0));
    }
}

proof fn lemma_tokens_text_tail(a: Seq<TokenKindView>, b: Seq<TokenKindView>, from: int)
    requires
        0 <= from <= b.len(),
    ensures
        tokens_text(a + b, a.len() + from) == tokens_text(b, from),
    decreases b.len() - from,
{
    if from < b.len() {
        lemma_tokens_text_tail(a, b, from + 1);
        assert((a + b)[a.len() + from] == b[from]);
    }
}

/// The text of tokens written one after the other is the texts of both, one
/// after the other.
proof fn lemma_text_of_concat(a: Seq<TokenKindView>, b: Seq<TokenKindView>)
    ensures
        text_of(a + b) == text_of(a) + text_of(b),
{
    lemma_tokens_text_shift(a, b, 0);
}

proof fn lemma_text_of_one(kind: TokenKindView)
    ensures
        text_of(seq![kind]) == token_text(kind),
{
    reveal_with_fuel(tokens_text, 2);
    assert(token_text(kind) + Seq::<char>::empty() =~= token_text(kind));
}

proof fn lemma_escaped_push(text: Seq<char>, c: char)
    ensures
        escaped(text.push(c)) == escaped(text) + if c == '\'' {
            seq!['\\', '\'']
        } else {
            seq![c]
        },
    decreases text.len(),
{
    let last = if c == '\'' {
        seq!['\\', '\'']
    } else {
        seq![c]
    };
    if text.len() == 0 {
        assert(text.push(c).drop_first() =~= Seq::<char>::empty());
        assert(escaped(text.push(c)) =~= last) by {
            reveal_with_fuel(escaped, 2);
        }
        assert(escaped(text) + last =~= last);
    } else {
        assert(text.push(c).drop_first() =~= text.drop_first().push(c));
        lemma_escaped_push(text.drop_first(), c);
        let first = if text[0] == '\'' {
            seq!['\\', '\'']
        } else {
            seq![text[0]]
        };
        assert(first + (escaped(text.drop_first()) + last) =~= first + escaped(text.drop_first())
            + last);
    }
}

/// Appends the canonical text of the identifier `text`.
fn write_identifier(text: &str, out: &mut String)
    ensures
        final(out)@ == old(out)@ + token_text(TokenKindView::Identifier(text@)),
{
    let chars = chars_of(text);
    push_char(out, '\'');
    let mut i: usize = 0;
    assert(chars@.take(0) =~= Seq::<char>::empty());
    assert(old(out)@.push('\'') =~= old(out)@ + seq!['\''] + escaped(chars@.take(0)));
    while i < chars.len()
        invariant
            i <= chars@.len(),
            out@ == old(out)@ + seq!['\''] + escaped(chars@.take(i as int)),
        decreases chars@.len() - i,
    {
        let c = chars[i];
        let ghost before = out@;
        proof {
            lemma_escaped_push(chars@.take(i as int), c);
            assert(chars@.take(i as int).push(c) =~= chars@.take(i + 1));
        }
        if c == '\'' {
            push_char(out, '\\');
            push_char(out, '\'');
            assert(before.push('\\').push('\'') =~= before + seq!['\\', '\'']);
        } else {
            push_char(out, c);
            assert(before.push(c) =~= before + seq![c]);
        }
        assert(out@ =~= old(out)@ + seq!['\''] + escaped(chars@.take(i + 1)));
        i += 1;
    }
    assert(chars@.take(chars@.len() as int) =~= chars@);
    let ghost before = out@;
    push_char(out, '\'');
    assert(before.push('\'') =~= old(out)@ + (seq!['\''] + (escaped(text@) + seq!['\''])));
}

/// Appends a punctuation mark: the canonical text of its token.
fn write_mark(mark: char, kind: Ghost<TokenKindView>, out: &mut String)
    requires
        token_text(kind@) == seq![mark],
    ensures
        final(out)@ == old(out)@ + token_text(kind@),
{
    push_char(out, mark);
    assert(old(out)@.push(mark) =~= old(out)@ + seq![mark]);
}

/// Appends the canonical text of a type.
fn write_type(t: &Type, out: &mut String)
    ensures
        final(out)@ == old(out)@ + text_of(type_tokens(t@)),
    decreases t, 0int,
{
    proof {
        lemma_text_of_one(TokenKindView::Identifier("null"@));
        lemma_text_of_one(TokenKindView::Identifier("string"@));
        lemma_text_of_one(TokenKindView::Identifier("number"@));
        lemma_text_of_one(TokenKindView::Identifier("boolean"@));
    }
    match t {
        Type::Null => write_identifier("null", out),
        Type::String => write_identifier("string", out),
        Type::Number => write_identifier("number", out),
        Type::Boolean => write_identifier("boolean", out),
        Type::Object(object) => {
            let ghost properties = properties_view(object.properties@);
            let ghost open = seq![TokenKindView::LeftBrace];
            let ghost inner = properties_tokens(properties, 0);
            let ghost close = seq![TokenKindView::RightBrace];
            proof {
                lemma_text_of_one(TokenKindView::LeftBrace);
                lemma_text_of_one(TokenKindView::RightBrace);
                lemma_text_of_concat(open, inner);
                lemma_text_of_concat(open + inner, close);
            }
            write_mark('{', Ghost(TokenKindView::LeftBrace), out);
            write_properties(&object.properties, 0, out);
            write_mark('}', Ghost(TokenKindView::RightBrace), out);
            assert(out@ =~= old(out)@ + text_of(open + inner + close));
        },
        Type::Array(array) => {
            let ghost types = types_view(array.types@);
            let ghost name = seq![array_keyword()];
            let ghost less = seq![TokenKindView::LessThan];
            let ghost inner = union_tokens(types, 0);
            let ghost close = seq![TokenKindView::GreaterThan];
            proof {
                lemma_text_of_one(array_keyword());
                lemma_text_of_one(TokenKindView::LessThan);
                lemma_text_of_one(TokenKindView::GreaterThan);
                lemma_text_of_concat(name, less);
                lemma_text_of_concat(name + less, inner);
                lemma_text_of_concat(name + less + inner, close);
                assert(name + less =~= seq![array_keyword(), TokenKindView::LessThan]);
            }
            write_identifier("Array", out);
            write_mark('<', Ghost(TokenKindView::LessThan), out);
            write_union(&array.types, 0, out);
            write_mark('>', Ghost(TokenKindView::GreaterThan), out);
            assert(out@ =~= old(out)@ + text_of(name + less + inner + close));
        },
    }
}

/// Appends the canonical text of the alternatives of a union from index
/// `from` on.
fn write_union(types: &Vec<Type>, from: usize, out: &mut String)
    ensures
        final(out)@ == old(out)@ + text_of(union_tokens(types_view(types@), from as int)),
    decreases types@, types@.len() - from,
{
    if from >= types.len() {
        assert(old(out)@ + Seq::<char>::empty() =~= old(out)@);
        return ;
    }
    let ghost views = types_view(types@);
    let ghost first = type_tokens(views[from as int]);
    assert(views[from as int] == types@[from as int]@);
    write_type(&types[from], out);
    if from + 1 < types.len() {
        let ghost bar = seq![TokenKindView::VerticalBar];
        let ghost rest = union_tokens(views, from + 1);
        proof {
            lemma_text_of_one(TokenKindView::VerticalBar);
            lemma_text_of_concat(bar, rest);
            lemma_text_of_concat(first, bar + rest);
        }
        write_mark('|', Ghost(TokenKindView::VerticalBar), out);
        write_union(types, from + 1, out);
        assert(out@ =~= old(out)@ + text_of(first + (bar + rest)));
    }
}

/// Appends the canonical text of the properties from index `from` on.
fn write_properties(properties: &Vec<Property>, from: usize, out: &mut String)
    ensures
        final(out)@ == old(out)@ + text_of(
            properties_tokens(properties_view(properties@), from as int),
        ),
    decreases properties@, properties@.len() - from,
{
    if from >= properties.len() {
        assert(old(out)@ + Seq::<char>::empty() =~= old(out)@);
        return ;
    }
    let ghost views = properties_view(properties@);
    let property = &properties[from];
    assert(views[from as int] == property@);
    let ghost name = seq![TokenKindView::Identifier(property@.name)];
    let ghost colon = seq![TokenKindView::Colon];
    let ghost union = union_tokens(property@.types, 0);
    let ghost comma = seq![TokenKindView::Comma];
    let ghost rest = properties_tokens(views, from + 1);
    proof {
        lemma_text_of_one(TokenKindView::Identifier(property@.name));
        lemma_text_of_one(TokenKindView::Colon);
        lemma_text_of_one(TokenKindView::Comma);
        lemma_text_of_concat(comma, rest);
        lemma_text_of_concat(union, comma + rest);
        lemma_text_of_concat(name, colon);
        lemma_text_of_concat(name + colon, union + (comma + rest));
        assert(name + colon =~= seq![
            TokenKindView::Identifier(property@.name),
            TokenKindView::Colon,
        ]);
    }
    write_identifier(property.name.as_str(), out);
    write_mark(':', Ghost(TokenKindView::Colon), out);
    write_union(&property.types, 0, out);
    write_mark(',', Ghost(TokenKindView::Comma), out);
    write_properties(properties, from + 1, out);
    assert(out@ =~= old(out)@ + text_of((name + colon) + (union + (comma + rest))));
}

impl Value {
    /// The canonical text of the schema. Reading it gives the schema back
    /// ([`lemma_canonical_text_round_trip`]).
    pub fn to_text(&self) -> (text: String)
        ensures
            text@ == canonical_text(self@),
    {
        let mut text = String::new();
        match self {
            Value::Object(object) => {
                let ghost open = seq![TokenKindView::LeftBrace];
                let ghost inner = properties_tokens(object@, 0);
                let ghost close = seq![TokenKindView::RightBrace];
                proof {
                    lemma_text_of_one(TokenKindView::LeftBrace);
                    lemma_text_of_one(TokenKindView::RightBrace);
                    lemma_text_of_concat(open, inner);
                    lemma_text_of_concat(open + inner, close);
                }
                write_mark('{', Ghost(TokenKindView::LeftBrace), &mut text);
                write_properties(&object.properties, 0, &mut text);
                write_mark('}', Ghost(TokenKindView::RightBrace), &mut text);
                assert(text@ =~= text_of(open + inner + close));
            },
            Value::Array(array) => {
                let ghost name = seq![array_keyword()];
                let ghost less = seq![TokenKindView::LessThan];
                let ghost inner = union_tokens(array@, 0);
                let ghost close = seq![TokenKindView::GreaterThan];
                proof {
                    lemma_text_of_one(array_keyword());
                    lemma_text_of_one(TokenKindView::LessThan);
                    lemma_text_of_one(TokenKindView::GreaterThan);
                    lemma_text_of_concat(name, less);
                    lemma_text_of_concat(name + less, inner);
                    lemma_text_of_concat(name + less + inner, close);
                    assert(name + less =~= seq![array_keyword(), TokenKindView::LessThan]);
                }
                write_identifier("Array", &mut text);
                write_mark('<', Ghost(TokenKindView::LessThan), &mut text);
                write_union(&array.types, 0, &mut text);
                write_mark('>', Ghost(TokenKindView::GreaterThan), &mut text);
                assert(text@ =~= text_of(name + less + inner + close));
            },
            Value::Types(types) => {
                write_union(types, 0, &mut text);
                assert(Seq::<char>::empty() + text_of(union_tokens(types_view(types@), 0))
                    =~= text_of(union_tokens(types_view(types@), 0)));
            },
        }
        text
    }
}

} // verus!
