//! A TSV schema: the terms that the values of a line are held against, one
//! by one and in order.

use super::error::{
    SchemaError, SchemaErrorView, SchemaErrors, ValidateLineError, ValidateLineErrorView,
    ValidateLineErrors, ValidationError, ValidationErrorView, ValidationErrors,
};
use super::term::{term_of, term_outcome, Term, TermView};
use crate::text::{chars_of, fields, fields_of, strings_view};
use vstd::prelude::*;

verus! {

/// The views of a sequence of terms, in order.
pub open spec fn terms_view(terms: Seq<Term>) -> Seq<TermView> {
    Seq::new(terms.len(), |i: int| terms[i]@)
}

/// The terms that the first `n` words spell; or the fault of the first word
/// among them that spells none.
pub open spec fn terms_of(words: Seq<Seq<char>>, n: int) -> Result<Seq<TermView>, SchemaErrorView>
    decreases n,
{
    if n <= 0 || n > words.len() {
        Ok(Seq::empty())
    } else {
        match terms_of(words, n - 1) {
            Err(error) => Err(error),
            Ok(terms) => match term_of(words[n - 1]) {
                Ok(term) => Ok(terms.push(term)),
                Err(error) => Err(error),
            },
        }
    }
}

/// The schema that the words spell, one term each. A faulty word stops the
/// reading: the fault of the first one is the result, alone in its list,
/// whatever follows it.
pub open spec fn schema_of_words(words: Seq<Seq<char>>) -> Result<
    Seq<TermView>,
    Seq<SchemaErrorView>,
> {
    match terms_of(words, words.len() as int) {
        Ok(terms) => Ok(terms),
        Err(error) => Err(seq![error]),
    }
}

/// The schema that a text spells: the terms of its fields, up to the first
/// faulty one.
pub open spec fn schema_of(text: Seq<char>) -> Result<Seq<TermView>, Seq<SchemaErrorView>> {
    schema_of_words(fields(text))
}

/// Once a word spells no term, the fault stays the result however many words
/// follow.
proof fn lemma_terms_of_fails(words: Seq<Seq<char>>, n: int, m: int)
    requires
        0 < n <= m <= words.len(),
        terms_of(words, n) is Err,
    ensures
        terms_of(words, m) == terms_of(words, n),
    decreases m - n,
{
    if n < m {
        lemma_terms_of_fails(words, n, m - 1);
    }
}

/// The failures of the first `n` values, each held against the term at its
/// position.
pub open spec fn values_errors(terms: Seq<TermView>, values: Seq<Seq<char>>, n: int) -> Seq<
    ValidateLineErrorView,
>
    decreases n,
{
    if n <= 0 || n > values.len() || n > terms.len() {
        Seq::empty()
    } else {
        match term_outcome(terms[n - 1], values[n - 1]) {
            None => values_errors(terms, values, n - 1),
            Some(error) => values_errors(terms, values, n - 1).push(error),
        }
    }
}

/// The failures of the values of a line: the one failure of the count where
/// there are not as many values as terms, and else those of the values, each
/// against the term at its position.
pub open spec fn fields_errors(terms: Seq<TermView>, values: Seq<Seq<char>>) -> Seq<
    ValidateLineErrorView,
> {
    if values.len() != terms.len() {
        seq![
            ValidateLineErrorView::FieldNumberMismatch {
                expected: terms.len() as usize,
                found: values.len() as usize,
            },
        ]
    } else {
        values_errors(terms, values, values.len() as int)
    }
}

/// The failures of a line: those of its fields.
pub open spec fn line_errors(terms: Seq<TermView>, line: Seq<char>) -> Seq<ValidateLineErrorView> {
    fields_errors(terms, fields(line))
}

/// The failures of the failing ones among the first `n` lines, each with its
/// line and its number, counted from 1.
pub open spec fn lines_errors(terms: Seq<TermView>, lines: Seq<Seq<char>>, n: int) -> Seq<
    ValidationErrorView,
>
    decreases n,
{
    if n <= 0 || n > lines.len() {
        Seq::empty()
    } else {
        let errors = line_errors(terms, lines[n - 1]);
        if errors.len() == 0 {
            lines_errors(terms, lines, n - 1)
        } else {
            lines_errors(terms, lines, n - 1).push(
                ValidationErrorView { line_text: lines[n - 1], line_number: n as usize, errors },
            )
        }
    }
}

/// A schema of the TSV dialect.
#[derive(Debug, PartialEq, Eq)]
pub struct Schema {
    pub terms: Vec<Term>,
}

impl View for Schema {
    type V = Seq<TermView>;

    open spec fn view(&self) -> Seq<TermView> {
        terms_view(self.terms@)
    }
}

impl Schema {
    /// The schema without terms.
    pub fn new() -> (schema: Schema)
        ensures
            schema@ == Seq::<TermView>::empty(),
    {
        let schema = Schema { terms: Vec::new() };
        assert(schema@ =~= Seq::<TermView>::empty());
        schema
    }

    /// Appends a term.
    pub fn add_term(&mut self, term: Term)
        ensures
            final(self)@ == old(self)@.push(term@),
    {
        self.terms.push(term);
        assert(self@ =~= old(self)@.push(term@));
    }

    /// Reads a schema from the texts of its terms. The reading stops at the
    /// first faulty term and reports that one alone.
    pub fn from_words(words: &Vec<String>) -> (result: Result<Schema, SchemaErrors>)
        ensures
            match result {
                Ok(schema) => schema_of_words(strings_view(words@)) == Ok::<
                    Seq<TermView>,
                    Seq<SchemaErrorView>,
                >(schema@),
                Err(errors) => schema_of_words(strings_view(words@)) == Err::<
                    Seq<TermView>,
                    Seq<SchemaErrorView>,
                >(errors@),
            },
    {
        let mut schema = Schema::new();
        let mut i: usize = 0;
        while i < words.len()
            invariant
                i <= words@.len(),
                terms_of(strings_view(words@), i as int) == Ok::<Seq<TermView>, SchemaErrorView>(
                    schema@,
                ),
            decreases words@.len() - i,
        {
            assert(strings_view(words@)[i as int] == words@[i as int]@);
            match Term::from_text(words[i].as_str()) {
                Ok(term) => schema.add_term(term),
                Err(error) => {
                    proof {
                        lemma_terms_of_fails(strings_view(words@), i + 1, words@.len() as int);
                    }
                    let mut list: Vec<SchemaError> = Vec::new();
                    list.push(error);
                    let errors = SchemaErrors(list);
                    assert(errors@ =~= seq![error@]);
                    return Err(errors);
                },
            }
            i += 1;
        }
        Ok(schema)
    }

    /// Reads a schema from its text: terms with white space between them.
    /// The reading stops at the first faulty term and reports that one alone.
    pub fn from_text(text: &str) -> (result: Result<Schema, SchemaErrors>)
        ensures
            match result {
                Ok(schema) => schema_of(text@) == Ok::<Seq<TermView>, Seq<SchemaErrorView>>(
                    schema@,
                ),
                Err(errors) => schema_of(text@) == Err::<Seq<TermView>, Seq<SchemaErrorView>>(
                    errors@,
                ),
            },
    {
        let chars = chars_of(text);
        let words = fields_of(&chars);
        Schema::from_words(&words)
    }

    /// Holds the values of a line against the terms, one by one. Another
    /// number of values than there are terms is the one failure.
    pub fn validate_values(&self, values: &Vec<String>) -> (result: Result<
        (),
        ValidateLineErrors,
    >)
        ensures
            match result {
                Ok(_) => fields_errors(self@, strings_view(values@)).len() == 0,
                Err(errors) => errors@.len() > 0 && errors@ == fields_errors(
                    self@,
                    strings_view(values@),
                ),
            },
    {
        if values.len() != self.terms.len() {
            let mut list: Vec<ValidateLineError> = Vec::new();
            let error = ValidateLineError::FieldNumberMismatch {
                expected: self.terms.len(),
                found: values.len(),
            };
            list.push(error);
            let errors = ValidateLineErrors(list);
            assert(errors@ =~= seq![error@]);
            return Err(errors);
        }
        let mut errors = ValidateLineErrors(Vec::new());
        assert(errors@ =~= Seq::<ValidateLineErrorView>::empty());
        let mut i: usize = 0;
        while i < values.len()
            invariant
                i <= values@.len(),
                values@.len() == self.terms@.len(),
                errors@ == values_errors(self@, strings_view(values@), i as int),
            decreases values@.len() - i,
        {
            assert(strings_view(values@)[i as int] == values@[i as int]@);
            assert(self@[i as int] == self.terms@[i as int]@);
            match self.terms[i].validate(values[i].as_str()) {
                Ok(_) => {},
                Err(error) => {
                    let ghost before = errors@;
                    errors.0.push(error);
                    assert(errors@ =~= before.push(error@));
                },
            }
            i += 1;
        }
        if errors.0.is_empty() {
            Ok(())
        } else {
            Err(errors)
        }
    }

    /// Holds the fields of a line against the terms, one by one. A line with
    /// another number of fields than there are terms fails on that alone.
    pub fn validate_line(&self, line: String) -> (result: Result<(), ValidateLineErrors>)
        ensures
            match result {
                Ok(_) => line_errors(self@, line@).len() == 0,
                Err(errors) => errors@.len() > 0 && errors@ == line_errors(self@, line@),
            },
    {
        let chars = chars_of(line.as_str());
        let values = fields_of(&chars);
        self.validate_values(&values)
    }

    /// Holds every line against the schema and gathers the failures of the
    /// failing lines.
    pub fn validate(&self, lines: &Vec<String>) -> (result: Result<(), ValidationErrors>)
        ensures
            match result {
                Ok(_) => lines_errors(self@, strings_view(lines@), lines@.len() as int).len()
                    == 0,
                Err(errors) => errors@.len() > 0 && errors@ == lines_errors(
                    self@,
                    strings_view(lines@),
                    lines@.len() as int,
                ),
            },
    {
        let mut errors = ValidationErrors(Vec::new());
        assert(errors@ =~= Seq::<ValidationErrorView>::empty());
        let mut i: usize = 0;
        while i < lines.len()
            invariant
                i <= lines@.len(),
                errors@ == lines_errors(self@, strings_view(lines@), i as int),
            decreases lines@.len() - i,
        {
            assert(strings_view(lines@)[i as int] == lines@[i as int]@);
            match self.validate_line(lines[i].clone()) {
                Ok(_) => {},
                Err(line_errors) => {
                    let ghost before = errors@;
                    let error = ValidationError {
                        line_number: i + 1,
                        line_text: lines[i].clone(),
                        errors: line_errors,
                    };
                    errors.0.push(error);
                    assert(errors@ =~= before.push(error@));
                },
            }
            i += 1;
        }
        if errors.0.is_empty() {
            Ok(())
        } else {
            Err(errors)
        }
    }
}

} // verus!
