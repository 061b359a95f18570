//! One term of a TSV schema: a field's name and the types its value may have.

use super::error::{SchemaError, SchemaErrorView, ValidateLineError, ValidateLineErrorView};
use super::literal::{is_float, is_integer, parses_as_float, parses_as_integer};
use crate::text::{
    chars_of, join, joined, lowercase, split, split_at, str_eq, strings_view, to_lowercase,
};
use vstd::prelude::*;

verus! {

/// A primitive type of the TSV dialect.
#[derive(Debug, PartialEq, Eq, Clone, Copy, Structural)]
pub enum Type {
    Integer,
    Float,
    String,
    Boolean,
    Null,
}

/// A named field whose value must be of one of the listed types.
#[derive(Debug, PartialEq, Eq)]
pub struct Term {
    pub name: String,
    pub types: Vec<Type>,
}

pub struct TermView {
    pub name: Seq<char>,
    pub types: Seq<Type>,
}

impl View for Term {
    type V = TermView;

    open spec fn view(&self) -> TermView {
        TermView { name: self.name@, types: self.types@ }
    }
}

/// The keyword of a type.
pub open spec fn keyword(t: Type) -> Seq<char> {
    match t {
        Type::Integer => "integer"@,
        Type::Float => "float"@,
        Type::String => "string"@,
        Type::Boolean => "boolean"@,
        Type::Null => "null"@,
    }
}

/// The type that a keyword in lower case names.
pub open spec fn type_of(word: Seq<char>) -> Option<Type> {
    if word == "integer"@ {
        Some(Type::Integer)
    } else if word == "float"@ {
        Some(Type::Float)
    } else if word == "string"@ {
        Some(Type::String)
    } else if word == "boolean"@ {
        Some(Type::Boolean)
    } else if word == "null"@ {
        Some(Type::Null)
    } else {
        None
    }
}

/// The types that the first `n` words name; or the fault of the first word
/// among them that names none.
pub open spec fn types_of(words: Seq<Seq<char>>, n: int) -> Result<Seq<Type>, SchemaErrorView>
    decreases n,
{
    if n <= 0 || n > words.len() {
        Ok(Seq::empty())
    } else {
        match types_of(words, n - 1) {
            Err(error) => Err(error),
            Ok(types) => match type_of(words[n - 1]) {
                Some(t) => Ok(types.push(t)),
                None => Err(SchemaErrorView::InvalidType { type_: words[n - 1] }),
            },
        }
    }
}

/// The types that a text in lower case spells: keywords with `|` between
/// them; or the fault of the first word that names no type.
pub open spec fn union_of(lowered: Seq<char>) -> Result<Seq<Type>, SchemaErrorView> {
    let words = split(lowered, '|');
    types_of(words, words.len() as int)
}

/// The term that a text spells: a name, one colon, and type keywords in any
/// case with `|` between them.
pub open spec fn term_of(text: Seq<char>) -> Result<TermView, SchemaErrorView> {
    let inputs = split(text, ':');
    if inputs.len() != 2 {
        Err(SchemaErrorView::InvalidSyntax { text })
    } else {
        match union_of(lowercase(inputs[1])) {
            Ok(types) => Ok(TermView { name: inputs[0], types }),
            Err(error) => Err(error),
        }
    }
}

/// Whether a text in lower case is a boolean word: `true` or `false`.
pub open spec fn boolean_word(lowered: Seq<char>) -> bool {
    lowered == "true"@ || lowered == "false"@
}

/// Whether a value is of a type: a string always; an integer and a float by
/// the way they are written; a boolean if it is `true` or `false` in any
/// case; null if it is the placeholder `_`.
pub open spec fn accepts(t: Type, value: Seq<char>) -> bool {
    match t {
        Type::Integer => is_integer(value),
        Type::Float => is_float(value),
        Type::String => true,
        Type::Boolean => boolean_word(lowercase(value)),
        Type::Null => value == "_"@,
    }
}

/// Whether a value is of one of the types.
pub open spec fn accepts_any(types: Seq<Type>, value: Seq<char>) -> bool {
    exists|i: int| 0 <= i < types.len() && accepts(#[trigger] types[i], value)
}

/// The keywords of the types, in order.
pub open spec fn keywords(types: Seq<Type>) -> Seq<Seq<char>> {
    Seq::new(types.len(), |i: int| keyword(types[i]))
}

/// What holding a value against a term gives: nothing, or the failure that
/// names all the term's types.
pub open spec fn term_outcome(term: TermView, value: Seq<char>) -> Option<ValidateLineErrorView> {
    if accepts_any(term.types, value) {
        None
    } else {
        Some(
            ValidateLineErrorView::DataTypeMismatch {
                type_: joined(keywords(term.types), " | "@),
                value,
            },
        )
    }
}

impl Type {
    /// The keyword of this type.
    pub fn to_string(&self) -> (name: String)
        ensures
            name@ == keyword(*self),
    {
        match self {
            Type::Integer => "integer".to_owned(),
            Type::Float => "float".to_owned(),
            Type::String => "string".to_owned(),
            Type::Boolean => "boolean".to_owned(),
            Type::Null => "null".to_owned(),
        }
    }

    /// The type that `word` names, a keyword in lower case.
    fn from_keyword(word: &str) -> (found: Option<Type>)
        ensures
            found == type_of(word@),
    {
        if str_eq(word, "integer") {
            Some(Type::Integer)
        } else if str_eq(word, "float") {
            Some(Type::Float)
        } else if str_eq(word, "string") {
            Some(Type::String)
        } else if str_eq(word, "boolean") {
            Some(Type::Boolean)
        } else if str_eq(word, "null") {
            Some(Type::Null)
        } else {
            None
        }
    }

    /// Whether `lowered`, a text in lower case, is `true` or `false`.
    pub fn is_boolean_word(lowered: &str) -> (b: bool)
        ensures
            b == boolean_word(lowered@),
    {
        str_eq(lowered, "true") || str_eq(lowered, "false")
    }

    /// Whether `value` is of this type.
    pub fn accepts(&self, value: &str) -> (b: bool)
        ensures
            b == accepts(*self, value@),
    {
        match self {
            Type::Integer => parses_as_integer(value),
            Type::Float => parses_as_float(value),
            Type::String => true,
            Type::Boolean => {
                let lowered = to_lowercase(value);
                Type::is_boolean_word(lowered.as_str())
            },
            Type::Null => str_eq(value, "_"),
        }
    }
}

impl Term {
    pub fn new(name: &str, types: Vec<Type>) -> (term: Term)
        ensures
            term@ == (TermView { name: name@, types: types@ }),
    {
        Term { name: name.to_owned(), types }
    }

    /// Reads the types of a term from their text in lower case: keywords
    /// with `|` between them. The first word that names no type is the fault.
    pub fn read_types(lowered: &str) -> (result: Result<Vec<Type>, SchemaError>)
        ensures
            match result {
                Ok(types) => union_of(lowered@) == Ok::<Seq<Type>, SchemaErrorView>(types@),
                Err(error) => union_of(lowered@) == Err::<Seq<Type>, SchemaErrorView>(error@),
            },
    {
        let chars = chars_of(lowered);
        let words = split_at(&chars, '|');
        let mut types: Vec<Type> = Vec::new();
        let mut i: usize = 0;
        while i < words.len()
            invariant
                i <= words@.len(),
                strings_view(words@) == split(lowered@, '|'),
                types_of(strings_view(words@), i as int) == Ok::<Seq<Type>, SchemaErrorView>(
                    types@,
                ),
            decreases words@.len() - i,
        {
            assert(strings_view(words@)[i as int] == words@[i as int]@);
            match Type::from_keyword(words[i].as_str()) {
                Some(t) => {
                    types.push(t);
                },
                None => {
                    proof {
                        lemma_types_of_fails(strings_view(words@), i + 1, words@.len() as int);
                    }
                    return Err(SchemaError::InvalidType { type_: words[i].clone() });
                },
            }
            i += 1;
        }
        Ok(types)
    }

    /// Reads a term from its text.
    pub fn from_text(text: &str) -> (result: Result<Term, SchemaError>)
        ensures
            match result {
                Ok(term) => term_of(text@) == Ok::<TermView, SchemaErrorView>(term@),
                Err(error) => term_of(text@) == Err::<TermView, SchemaErrorView>(error@),
            },
    {
        let chars = chars_of(text);
        let inputs = split_at(&chars, ':');
        if inputs.len() != 2 {
            return Err(SchemaError::InvalidSyntax { text: text.to_owned() });
        }
        assert(strings_view(inputs@)[0] == inputs@[0]@);
        assert(strings_view(inputs@)[1] == inputs@[1]@);
        let lowered = to_lowercase(inputs[1].as_str());
        match Term::read_types(lowered.as_str()) {
            Ok(types) => Ok(Term { name: inputs[0].clone(), types }),
            Err(error) => Err(error),
        }
    }

    /// The keywords of the term's types, joined by ` | `.
    fn expected(&self) -> (text: String)
        ensures
            text@ == joined(keywords(self.types@), " | "@),
    {
        let mut shown: Vec<String> = Vec::new();
        let mut i: usize = 0;
        while i < self.types.len()
            invariant
                i <= self.types@.len(),
                shown@.len() == i,
                forall|k: int| 0 <= k < i ==> (#[trigger] shown@[k])@ == keyword(self.types@[k]),
            decreases self.types@.len() - i,
        {
            shown.push(self.types[i].to_string());
            i += 1;
        }
        assert(strings_view(shown@) =~= keywords(self.types@));
        join(&shown, " | ")
    }

    /// Holds a value against the term: it passes if it is of one of the
    /// term's types.
    pub fn validate(&self, value: &str) -> (result: Result<(), ValidateLineError>)
        ensures
            match result {
                Ok(_) => term_outcome(self@, value@) is None,
                Err(error) => term_outcome(self@, value@) == Some(error@),
            },
    {
        let mut i: usize = 0;
        while i < self.types.len()
            invariant
                i <= self.types@.len(),
                forall|j: int| 0 <= j < i ==> !accepts(#[trigger] self.types@[j], value@),
            decreases self.types@.len() - i,
        {
            if self.types[i].accepts(value) {
                return Ok(());
            }
            i += 1;
        }
        Err(ValidateLineError::DataTypeMismatch { type_: self.expected(), value: value.to_owned() })
    }
}

/// Once a word names no type, the fault stays the result however many words
/// follow.
proof fn lemma_types_of_fails(words: Seq<Seq<char>>, n: int, m: int)
    requires
        0 < n <= m <= words.len(),
        types_of(words, n) is Err,
    ensures
        types_of(words, m) == types_of(words, n),
    decreases m - n,
{
    if n < m {
        lemma_types_of_fails(words, n, m - 1);
    }
}

} // verus!
