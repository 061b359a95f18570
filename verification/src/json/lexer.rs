//! Turns schema text into tokens.

use super::data::{tokens_view, Location, Token, TokenKind, TokenKindView, TokenView};
use super::error::{SchemaError, SchemaErrorView, SchemaErrors};
use crate::text::{
    alphanumeric, byte_offset, char_string, char_width, chars_of, is_alphanumeric,
    lemma_byte_offset_monotonic, lemma_byte_offset_step, lemma_byte_offset_zero, marked,
    push_char, string_of,
};
use vstd::prelude::*;
use vstd::utf8::encode_utf8;

verus! {

/// Whether `c` may stand in a bare identifier.
pub open spec fn identifier_char(c: char) -> bool {
    alphanumeric(c) || c == '_'
}

/// For each character of `chars`, whether it may stand in a bare identifier.
pub open spec fn identifier_marks(chars: Seq<char>) -> Seq<bool> {
    Seq::new(chars.len(), |i: int| identifier_char(chars[i]))
}

/// Whether `c` is skipped between tokens.
pub open spec fn blank(c: char) -> bool {
    c == ' ' || c == '\n'
}

/// The index of the first character at or after `pos` that is not blank.
pub open spec fn skip_blanks(chars: Seq<char>, pos: int) -> int
    decreases chars.len() - pos,
{
    if 0 <= pos < chars.len() && blank(chars[pos]) {
        skip_blanks(chars, pos + 1)
    } else {
        pos
    }
}

/// The index at which the run of identifier characters that covers `pos`
/// ends: the first character at or after `pos` that `marks` does not mark as
/// one.
pub open spec fn identifier_end(chars: Seq<char>, marks: Seq<bool>, pos: int) -> int
    decreases chars.len() - pos,
{
    if 0 <= pos < chars.len() && marked(marks, pos) {
        identifier_end(chars, marks, pos + 1)
    } else {
        pos
    }
}

/// How the reading of a quoted identifier ends.
pub enum Quoted {
    /// The closing quote was found; `end` is the index after it.
    Closed { text: Seq<char>, end: int },
    /// A backslash stood before `found`, which is not the quote; `end` is the
    /// index after `found`.
    BadEscape { found: char, end: int },
    /// The text ended before the closing quote.
    Unterminated,
}

/// Reads the inside of a quoted identifier from `pos` on, with `text` read so
/// far. A backslash before the quote character stands for that character.
pub open spec fn quoted(chars: Seq<char>, pos: int, quote: char, text: Seq<char>) -> Quoted
    decreases chars.len() - pos,
{
    if pos < 0 || pos >= chars.len() {
        Quoted::Unterminated
    } else if chars[pos] == quote {
        Quoted::Closed { text, end: pos + 1 }
    } else if chars[pos] == '\\' {
        if pos + 1 >= chars.len() {
            Quoted::Unterminated
        } else if chars[pos + 1] == quote {
            quoted(chars, pos + 2, quote, text.push(quote))
        } else {
            Quoted::BadEscape { found: chars[pos + 1], end: pos + 2 }
        }
    } else {
        quoted(chars, pos + 1, quote, text.push(chars[pos]))
    }
}

/// The span of the characters `chars[from..to]`, in bytes.
pub open spec fn span(chars: Seq<char>, from: int, to: int) -> Location {
    Location { start: byte_offset(chars, from) as usize, end: byte_offset(chars, to) as usize }
}

/// The token of a single punctuation character, if `c` is one.
pub open spec fn punctuation(c: char) -> Option<TokenKindView> {
    if c == '{' {
        Some(TokenKindView::LeftBrace)
    } else if c == '}' {
        Some(TokenKindView::RightBrace)
    } else if c == ':' {
        Some(TokenKindView::Colon)
    } else if c == ',' {
        Some(TokenKindView::Comma)
    } else if c == '<' {
        Some(TokenKindView::LessThan)
    } else if c == '>' {
        Some(TokenKindView::GreaterThan)
    } else if c == '|' {
        Some(TokenKindView::VerticalBar)
    } else {
        None
    }
}

/// What is read at `pos`: a token, with the index at which the next one is
/// looked for, or the fault that stops the lexer. `marks` marks the
/// characters that may stand in a bare identifier.
pub open spec fn next_token(chars: Seq<char>, marks: Seq<bool>, pos: int) -> Result<
    (TokenView, int),
    SchemaErrorView,
> {
    let start = skip_blanks(chars, pos);
    if start < 0 || start >= chars.len() {
        Ok((TokenView { kind: TokenKindView::EOF, location: span(chars, start, start) }, start))
    } else {
        let c = chars[start];
        if punctuation(c) is Some {
            Ok((TokenView { kind: punctuation(c)->0, location: span(chars, start, start + 1) }, start + 1))
        } else if c == '\'' || c == '"' {
            match quoted(chars, start + 1, c, Seq::empty()) {
                Quoted::Closed { text, end } => Ok(
                    (
                        TokenView {
                            kind: TokenKindView::Identifier(text),
                            location: span(chars, start, end),
                        },
                        end,
                    ),
                ),
                Quoted::BadEscape { found, end } => Err(
                    SchemaErrorView::UnexpectedCharacter {
                        text: seq![found],
                        location: span(chars, start, end),
                    },
                ),
                Quoted::Unterminated => Err(
                    SchemaErrorView::UnterminatedString {
                        location: span(chars, start, chars.len() as int),
                    },
                ),
            }
        } else if marked(marks, start) {
            let end = identifier_end(chars, marks, start + 1);
            Ok(
                (
                    TokenView {
                        kind: TokenKindView::Identifier(chars.subrange(start, end)),
                        location: span(chars, start, end),
                    },
                    end,
                ),
            )
        } else {
            Err(
                SchemaErrorView::UnexpectedCharacter {
                    text: seq![c],
                    location: span(chars, start, start + 1),
                },
            )
        }
    }
}

/// The tokens read from `pos` to the end of the text, after `read`: they end
/// with the one `EOF` token. The first fault is the result instead.
///
/// A token that is not `EOF` ends after `pos` and inside the text
/// ([`lemma_next_token_advances`]), so the test on `next` only serves the
/// definition: it holds of no token.
pub open spec fn tokens_from(
    chars: Seq<char>,
    marks: Seq<bool>,
    pos: int,
    read: Seq<TokenView>,
) -> Result<Seq<TokenView>, SchemaErrorView>
    decreases chars.len() - pos,
{
    match next_token(chars, marks, pos) {
        Err(error) => Err(error),
        Ok((token, next)) => {
            if token.kind is EOF || next <= pos || next > chars.len() {
                Ok(read.push(token))
            } else {
                tokens_from(chars, marks, next, read.push(token))
            }
        },
    }
}

/// The tokens of a whole schema text.
pub open spec fn tokens_of(chars: Seq<char>) -> Result<Seq<TokenView>, SchemaErrorView> {
    tokens_from(chars, identifier_marks(chars), 0, Seq::empty())
}

/// The tokens are not empty and `EOF` is their last token and no other.
pub open spec fn ends_with_eof(tokens: Seq<TokenView>) -> bool {
    &&& tokens.len() > 0
    &&& forall|i: int|
        0 <= i < tokens.len() ==> ((#[trigger] tokens[i]).kind is EOF <==> i == tokens.len() - 1)
}

/// The tokens of a text end with `EOF`, and hold no other `EOF`.
pub proof fn lemma_tokens_end_with_eof(
    chars: Seq<char>,
    marks: Seq<bool>,
    pos: int,
    read: Seq<TokenView>,
)
    requires
        0 <= pos <= chars.len(),
        forall|i: int| 0 <= i < read.len() ==> !((#[trigger] read[i]).kind is EOF),
    ensures
        tokens_from(chars, marks, pos, read) matches Ok(tokens) ==> ends_with_eof(tokens),
    decreases chars.len() - pos,
{
    lemma_next_token_advances(chars, marks, pos);
    match next_token(chars, marks, pos) {
        Err(_) => {},
        Ok((token, next)) => {
            if !(token.kind is EOF) {
                lemma_tokens_end_with_eof(chars, marks, next, read.push(token));
            }
        },
    }
}

/// Skipping blanks moves forward, stays inside the text and stops at a
/// character that is not blank.
pub proof fn lemma_skip_blanks(chars: Seq<char>, pos: int)
    requires
        0 <= pos <= chars.len(),
    ensures
        pos <= skip_blanks(chars, pos) <= chars.len(),
        skip_blanks(chars, pos) < chars.len() ==> !blank(chars[skip_blanks(chars, pos)]),
    decreases chars.len() - pos,
{
    if pos < chars.len() && blank(chars[pos]) {
        lemma_skip_blanks(chars, pos + 1);
    }
}

/// A token that is not `EOF` ends after the position it was looked for at, so
/// the lexer always moves on.
pub proof fn lemma_next_token_advances(chars: Seq<char>, marks: Seq<bool>, pos: int)
    requires
        0 <= pos <= chars.len(),
    ensures
        next_token(chars, marks, pos) matches Ok((token, next)) ==> pos <= next <= chars.len() && (
        token.kind is EOF || pos < next),
{
    lemma_skip_blanks(chars, pos);
    let start = skip_blanks(chars, pos);
    if start < chars.len() {
        let c = chars[start];
        if punctuation(c) is Some {
        } else if c == '\'' || c == '"' {
            lemma_quoted_end(chars, start + 1, c, Seq::empty());
        } else if marked(marks, start) {
            lemma_identifier_end(chars, marks, start + 1);
        }
    }
}

proof fn lemma_quoted_end(chars: Seq<char>, pos: int, quote: char, text: Seq<char>)
    requires
        0 <= pos <= chars.len(),
    ensures
        quoted(chars, pos, quote, text) matches Quoted::Closed { end, .. } ==> pos < end
            <= chars.len(),
        quoted(chars, pos, quote, text) matches Quoted::BadEscape { end, .. } ==> pos < end
            <= chars.len(),
    decreases chars.len() - pos,
{
    if pos >= chars.len() {
    } else if chars[pos] == quote {
    } else if chars[pos] == '\\' {
        if pos + 1 < chars.len() && chars[pos + 1] == quote {
            lemma_quoted_end(chars, pos + 2, quote, text.push(quote));
        }
    } else {
        lemma_quoted_end(chars, pos + 1, quote, text.push(chars[pos]));
    }
}

proof fn lemma_identifier_end(chars: Seq<char>, marks: Seq<bool>, pos: int)
    requires
        0 <= pos <= chars.len(),
    ensures
        pos <= identifier_end(chars, marks, pos) <= chars.len(),
    decreases chars.len() - pos,
{
    if pos < chars.len() && marked(marks, pos) {
        lemma_identifier_end(chars, marks, pos + 1);
    }
}

/// A reader of tokens over one schema text.
pub struct Lexer {
    chars: Vec<char>,
    marks: Vec<bool>,
    position: usize,
    offset: usize,
}

/// How the exec scan of a quoted identifier ends; the usize fields are the
/// index and the byte offset of the end.
enum QuotedScan {
    Closed(String, usize, usize),
    BadEscape(char, usize, usize),
    Unterminated,
}

impl Lexer {
    /// The text being read.
    pub closed spec fn source(&self) -> Seq<char> {
        self.chars@
    }

    /// For each character of the text, whether the lexer takes it for one
    /// that may stand in a bare identifier.
    pub closed spec fn marks(&self) -> Seq<bool> {
        self.marks@
    }

    /// The index of the character at which the next token is looked for.
    pub closed spec fn position(&self) -> int {
        self.position as int
    }

    /// The lexer stands inside its text and knows its byte offset.
    pub closed spec fn wf(&self) -> bool {
        &&& self.position <= self.chars@.len()
        &&& self.offset == byte_offset(self.chars@, self.position as int)
        &&& encode_utf8(self.chars@).len() <= usize::MAX
    }

    /// A lexer at the start of `source`, which takes for identifier
    /// characters the alphanumeric ones and the underscore.
    pub fn new(source: &str) -> (lexer: Lexer)
        ensures
            lexer.wf(),
            lexer.source() == source@,
            lexer.marks() == identifier_marks(source@),
            lexer.position() == 0,
    {
        let chars = chars_of(source);
        let mut marks: Vec<bool> = Vec::new();
        let mut i: usize = 0;
        while i < chars.len()
            invariant
                i <= chars@.len(),
                marks@.len() == i,
                forall|k: int| 0 <= k < i ==> marks@[k] == identifier_char(chars@[k]),
            decreases chars@.len() - i,
        {
            marks.push(Self::is_identifier(chars[i]));
            i += 1;
        }
        assert(marks@ =~= identifier_marks(chars@));
        proof {
            lemma_byte_offset_zero(chars@);
        }
        Lexer { chars, marks, position: 0, offset: 0 }
    }

    /// A lexer at the start of `source` that takes for identifier characters
    /// those that `marks` marks, index by index.
    pub fn with_marks(source: &str, marks: Vec<bool>) -> (lexer: Lexer)
        ensures
            lexer.wf(),
            lexer.source() == source@,
            lexer.marks() == marks@,
            lexer.position() == 0,
    {
        let chars = chars_of(source);
        proof {
            lemma_byte_offset_zero(chars@);
        }
        Lexer { chars, marks, position: 0, offset: 0 }
    }

    /// All the tokens from the current position to the end of the text, the
    /// last of them `EOF`; or the first fault, alone in its list.
    pub fn token(&mut self) -> (result: Result<Vec<Token>, SchemaErrors>)
        requires
            old(self).wf(),
        ensures
            final(self).wf(),
            final(self).source() == old(self).source(),
            final(self).marks() == old(self).marks(),
            match result {
                Ok(tokens) => tokens_from(
                    old(self).source(),
                    old(self).marks(),
                    old(self).position(),
                    Seq::empty(),
                ) == Ok::<Seq<TokenView>, SchemaErrorView>(tokens_view(tokens@)),
                Err(errors) => errors@.len() == 1 && tokens_from(
                    old(self).source(),
                    old(self).marks(),
                    old(self).position(),
                    Seq::empty(),
                ) == Err::<Seq<TokenView>, SchemaErrorView>(errors@[0]),
            },
    {
        let mut tokens: Vec<Token> = Vec::new();
        assert(tokens_view(tokens@) =~= Seq::<TokenView>::empty());
        loop
            invariant
                self.wf(),
                self.chars@ == old(self).chars@,
                self.marks@ == old(self).marks@,
                tokens_from(
                    old(self).chars@,
                    old(self).marks@,
                    old(self).position as int,
                    Seq::empty(),
                ) == tokens_from(
                    self.chars@,
                    self.marks@,
                    self.position as int,
                    tokens_view(tokens@),
                ),
            decreases self.chars@.len() - self.position,
        {
            let ghost before = self.position as int;
            let ghost read = tokens_view(tokens@);
            proof {
                lemma_next_token_advances(self.chars@, self.marks@, before);
            }
            match self.read_next_token() {
                Err(error) => {
                    return Err(SchemaErrors::from(error));
                },
                Ok(token) => {
                    let done = matches!(token.kind, TokenKind::EOF);
                    tokens.push(token);
                    assert(tokens_view(tokens@) =~= read.push(token@));
                    if done {
                        return Ok(tokens);
                    }
                },
            }
        }
    }

    /// Whether `c` may stand in a bare identifier.
    fn is_identifier(c: char) -> (b: bool)
        ensures
            b == identifier_char(c),
    {
        is_alphanumeric(c) || c == '_'
    }

    /// Whether the lexer takes the character at index `i` for one that may
    /// stand in a bare identifier.
    fn is_marked(&self, i: usize) -> (b: bool)
        ensures
            b == marked(self.marks@, i as int),
    {
        i < self.marks.len() && self.marks[i]
    }

    /// The index and the byte offset of the first character at or after
    /// `pos` that is not blank.
    fn skip(&self, pos: usize, offset: usize) -> (end: (usize, usize))
        requires
            self.wf(),
            pos <= self.chars@.len(),
            offset == byte_offset(self.chars@, pos as int),
        ensures
            end.0 == skip_blanks(self.chars@, pos as int),
            pos <= end.0 <= self.chars@.len(),
            end.1 == byte_offset(self.chars@, end.0 as int),
    {
        let mut i: usize = pos;
        let mut at: usize = offset;
        while i < self.chars.len() && (self.chars[i] == ' ' || self.chars[i] == '\n')
            invariant
                self.wf(),
                pos <= i <= self.chars@.len(),
                at == byte_offset(self.chars@, i as int),
                skip_blanks(self.chars@, pos as int) == skip_blanks(self.chars@, i as int),
            decreases self.chars@.len() - i,
        {
            proof {
                lemma_byte_offset_step(self.chars@, i as int);
                lemma_byte_offset_monotonic(self.chars@, i + 1, self.chars@.len() as int);
            }
            at = at + char_width(self.chars[i]);
            i = i + 1;
        }
        (i, at)
    }

    /// The index and the byte offset of the end of the run of identifier
    /// characters from `pos` on.
    fn scan_identifier(&self, pos: usize, offset: usize) -> (end: (usize, usize))
        requires
            self.wf(),
            pos <= self.chars@.len(),
            offset == byte_offset(self.chars@, pos as int),
        ensures
            end.0 == identifier_end(self.chars@, self.marks@, pos as int),
            pos <= end.0 <= self.chars@.len(),
            end.1 == byte_offset(self.chars@, end.0 as int),
    {
        let mut i: usize = pos;
        let mut at: usize = offset;
        while i < self.chars.len() && self.is_marked(i)
            invariant
                self.wf(),
                pos <= i <= self.chars@.len(),
                at == byte_offset(self.chars@, i as int),
                identifier_end(self.chars@, self.marks@, pos as int) == identifier_end(
                    self.chars@,
                    self.marks@,
                    i as int,
                ),
            decreases self.chars@.len() - i,
        {
            proof {
                lemma_byte_offset_step(self.chars@, i as int);
                lemma_byte_offset_monotonic(self.chars@, i + 1, self.chars@.len() as int);
            }
            at = at + char_width(self.chars[i]);
            i = i + 1;
        }
        (i, at)
    }

    /// Reads the inside of a quoted identifier from `pos` on.
    fn scan_quoted(&self, pos: usize, offset: usize, quote: char) -> (scan: QuotedScan)
        requires
            self.wf(),
            pos <= self.chars@.len(),
            offset == byte_offset(self.chars@, pos as int),
            quote != '\\',
        ensures
            match scan {
                QuotedScan::Closed(text, end, at) => quoted(
                    self.chars@,
                    pos as int,
                    quote,
                    Seq::empty(),
                ) == (Quoted::Closed { text: text@, end: end as int }) && pos < end
                    <= self.chars@.len() && at == byte_offset(self.chars@, end as int),
                QuotedScan::BadEscape(found, end, at) => quoted(
                    self.chars@,
                    pos as int,
                    quote,
                    Seq::empty(),
                ) == (Quoted::BadEscape { found, end: end as int }) && pos < end
                    <= self.chars@.len() && at == byte_offset(self.chars@, end as int),
                QuotedScan::Unterminated => quoted(self.chars@, pos as int, quote, Seq::empty())
                    == Quoted::Unterminated,
            },
    {
        let mut text = String::new();
        let mut i: usize = pos;
        let mut at: usize = offset;
        loop
            invariant
                self.wf(),
                quote != '\\',
                pos <= i <= self.chars@.len(),
                at == byte_offset(self.chars@, i as int),
                quoted(self.chars@, pos as int, quote, Seq::empty()) == quoted(
                    self.chars@,
                    i as int,
                    quote,
                    text@,
                ),
            decreases self.chars@.len() - i,
        {
            if i >= self.chars.len() {
                return QuotedScan::Unterminated;
            }
            let c = self.chars[i];
            proof {
                lemma_byte_offset_step(self.chars@, i as int);
                lemma_byte_offset_monotonic(self.chars@, i + 1, self.chars@.len() as int);
            }
            let after = at + char_width(c);
            if c == quote {
                return QuotedScan::Closed(text, i + 1, after);
            } else if c == '\\' {
                if i + 1 >= self.chars.len() {
                    return QuotedScan::Unterminated;
                }
                let escaped = self.chars[i + 1];
                proof {
                    lemma_byte_offset_step(self.chars@, i + 1);
                    lemma_byte_offset_monotonic(self.chars@, i + 2, self.chars@.len() as int);
                }
                let beyond = after + char_width(escaped);
                if escaped == quote {
                    push_char(&mut text, quote);
                    i = i + 2;
                    at = beyond;
                } else {
                    return QuotedScan::BadEscape(escaped, i + 2, beyond);
                }
            } else {
                push_char(&mut text, c);
                i = i + 1;
                at = after;
            }
        }
    }

    /// Reads one token and moves behind it. On a fault the lexer stays where
    /// it was.
    pub fn read_next_token(&mut self) -> (result: Result<Token, SchemaError>)
        requires
            old(self).wf(),
        ensures
            final(self).wf(),
            final(self).source() == old(self).source(),
            final(self).marks() == old(self).marks(),
            match result {
                Ok(token) => next_token(
                    old(self).source(),
                    old(self).marks(),
                    old(self).position(),
                ) == Ok::<(TokenView, int), SchemaErrorView>((token@, final(self).position())),
                Err(error) => next_token(
                    old(self).source(),
                    old(self).marks(),
                    old(self).position(),
                ) == Err::<(TokenView, int), SchemaErrorView>(error@) && final(self).position()
                    == old(self).position(),
            },
    {
        let (start, start_at) = self.skip(self.position, self.offset);
        if start >= self.chars.len() {
            self.position = start;
            self.offset = start_at;
            return Ok(
                Token { kind: TokenKind::EOF, location: Location { start: start_at, end: start_at } },
            );
        }
        let c = self.chars[start];
        proof {
            lemma_byte_offset_step(self.chars@, start as int);
            lemma_byte_offset_monotonic(self.chars@, start + 1, self.chars@.len() as int);
        }
        let next_at = start_at + char_width(c);
        let single = match c {
            '{' => Some(TokenKind::LeftBrace),
            '}' => Some(TokenKind::RightBrace),
            ':' => Some(TokenKind::Colon),
            ',' => Some(TokenKind::Comma),
            '<' => Some(TokenKind::LessThan),
            '>' => Some(TokenKind::GreaterThan),
            '|' => Some(TokenKind::VerticalBar),
            _ => None,
        };
        if let Some(kind) = single {
            self.position = start + 1;
            self.offset = next_at;
            return Ok(Token { kind, location: Location { start: start_at, end: next_at } });
        }
        if c == '\'' || c == '"' {
            match self.scan_quoted(start + 1, next_at, c) {
                QuotedScan::Closed(text, end, end_at) => {
                    self.position = end;
                    self.offset = end_at;
                    Ok(
                        Token {
                            kind: TokenKind::Identifier(text),
                            location: Location { start: start_at, end: end_at },
                        },
                    )
                },
                QuotedScan::BadEscape(found, _end, end_at) => Err(
                    SchemaError::UnexpectedCharacter {
                        text: char_string(found),
                        location: Location { start: start_at, end: end_at },
                    },
                ),
                QuotedScan::Unterminated => {
                    let ghost len = self.chars@.len() as int;
                    proof {
                        lemma_byte_offset_monotonic(self.chars@, len, len);
                    }
                    let end_at = self.byte_length(start + 1, next_at);
                    Err(
                        SchemaError::UnterminatedString {
                            location: Location { start: start_at, end: end_at },
                        },
                    )
                },
            }
        } else if self.is_marked(start) {
            let (end, end_at) = self.scan_identifier(start + 1, next_at);
            let text = string_of(&self.chars, start, end);
            self.position = end;
            self.offset = end_at;
            Ok(
                Token {
                    kind: TokenKind::Identifier(text),
                    location: Location { start: start_at, end: end_at },
                },
            )
        } else {
            Err(
                SchemaError::UnexpectedCharacter {
                    text: char_string(c),
                    location: Location { start: start_at, end: next_at },
                },
            )
        }
    }

    /// The byte offset of the end of the text, counted on from `pos`.
    fn byte_length(&self, pos: usize, offset: usize) -> (end: usize)
        requires
            self.wf(),
            pos <= self.chars@.len(),
            offset == byte_offset(self.chars@, pos as int),
        ensures
            end == byte_offset(self.chars@, self.chars@.len() as int),
    {
        let mut i: usize = pos;
        let mut at: usize = offset;
        while i < self.chars.len()
            invariant
                self.wf(),
                pos <= i <= self.chars@.len(),
                at == byte_offset(self.chars@, i as int),
            decreases self.chars@.len() - i,
        {
            proof {
                lemma_byte_offset_step(self.chars@, i as int);
                lemma_byte_offset_monotonic(self.chars@, i + 1, self.chars@.len() as int);
            }
            at = at + char_width(self.chars[i]);
            i = i + 1;
        }
        at
    }

    /// The byte offset of the current position.
    pub fn offset(&self) -> (offset: usize)
        requires
            self.wf(),
        ensures
            offset == byte_offset(self.source(), self.position()),
    {
        self.offset
    }
}

} // verus!
