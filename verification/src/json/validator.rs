//! Holds a decoded document against a schema and collects every failure.

use super::data::{
    shown_name, types_view, Array, Object, Property, PropertyView, Value, ValueView, Type, TypeView,
};
use super::document::{
    document_of, documents_view, error_message, find, json_decoded, json_message,
    lemma_lookup_from, lookup, members_view, parse_json, Content, ContentView, Document,
    DocumentView, Member, MemberView,
};
use super::error::{ValidationError, ValidationErrorView, ValidationErrors};
use crate::text::{join, joined, strings_view};
use vstd::prelude::*;

verus! {

/// Whether a document has the outer shape that a type asks for: the same
/// primitive kind, an object for an object, an array for an array.
pub open spec fn shape_matches(t: TypeView, document: DocumentView) -> bool {
    match t {
        TypeView::Null => document.content is Null,
        TypeView::String => document.content is String,
        TypeView::Number => document.content is Number,
        TypeView::Boolean => document.content is Bool,
        TypeView::Object(_) => document.content is Object,
        TypeView::Array(_) => document.content is Array,
    }
}

/// Whether a document satisfies a type: it has the shape, an object holds
/// every declared property with a value that satisfies the property's union,
/// and every element of an array satisfies the union of element types.
pub open spec fn satisfies(t: TypeView, document: DocumentView) -> bool
    decreases t, 0int,
{
    match t {
        TypeView::Object(properties) => document.content matches ContentView::Object(members)
            && forall|j: int|
            0 <= j < properties.len() ==> property_satisfied(#[trigger] properties[j], members),
        TypeView::Array(types) => document.content matches ContentView::Array(items)
            && forall|k: int| 0 <= k < items.len() ==> satisfies_any(types, #[trigger] items[k]),
        _ => shape_matches(t, document),
    }
}

/// Whether an object's entries hold the property with a value that satisfies
/// its union.
pub open spec fn property_satisfied(property: PropertyView, members: Seq<MemberView>) -> bool
    decreases property, 0int,
{
    lookup(members, property.name) matches Some(value) && satisfies_any(property.types, value)
}

/// Whether a document satisfies a union: at least one of its alternatives.
pub open spec fn satisfies_any(types: Seq<TypeView>, document: DocumentView) -> bool
    decreases types, 0int,
{
    exists|i: int| 0 <= i < types.len() && satisfies(#[trigger] types[i], document)
}

/// Whether a document satisfies a schema.
pub open spec fn conforms(schema: ValueView, document: DocumentView) -> bool {
    match schema {
        ValueView::Object(properties) => satisfies(TypeView::Object(properties), document),
        ValueView::Array(types) => satisfies(TypeView::Array(types), document),
        ValueView::Types(types) => satisfies_any(types, document),
    }
}

/// The failure of a document to be of the types named in `expected`.
pub open spec fn mismatch(expected: Seq<char>, document: DocumentView) -> ValidationErrorView {
    ValidationErrorView::DataTypeMismatch { types: expected, value: document.text }
}

/// The names of the alternatives of a union, in order.
pub open spec fn names(types: Seq<TypeView>) -> Seq<Seq<char>> {
    Seq::new(types.len(), |i: int| shown_name(types[i]))
}

/// The index of the first alternative at or after `from` whose shape the
/// document has; the number of alternatives if there is none.
pub open spec fn first_shape_match(types: Seq<TypeView>, document: DocumentView, from: int) -> int
    decreases types.len() - from,
{
    if from < 0 || from >= types.len() {
        types.len() as int
    } else if shape_matches(types[from], document) {
        from
    } else {
        first_shape_match(types, document, from + 1)
    }
}

/// The failures inside a document that has the shape of the type: those of
/// the properties of an object, those of the elements of an array, none for a
/// primitive.
pub open spec fn type_errors(t: TypeView, document: DocumentView) -> Seq<ValidationErrorView>
    decreases t, 0int,
{
    match t {
        TypeView::Object(properties) => match document.content {
            ContentView::Object(members) => object_errors(
                properties,
                members,
                properties.len() as int,
            ),
            _ => Seq::empty(),
        },
        TypeView::Array(types) => match document.content {
            ContentView::Array(items) => array_errors(types, items, items.len() as int),
            _ => Seq::empty(),
        },
        _ => Seq::empty(),
    }
}

/// The failures of the first `n` declared properties, in the order of
/// declaration. No property is skipped because an earlier one failed.
pub open spec fn object_errors(
    properties: Seq<PropertyView>,
    members: Seq<MemberView>,
    n: int,
) -> Seq<ValidationErrorView>
    decreases properties, n,
{
    if n <= 0 || n > properties.len() {
        Seq::empty()
    } else {
        object_errors(properties, members, n - 1) + property_errors(properties[n - 1], members)
    }
}

/// The failures of one property: that it is missing, or those of its value
/// against the property's union.
pub open spec fn property_errors(property: PropertyView, members: Seq<MemberView>) -> Seq<
    ValidationErrorView,
>
    decreases property, 0int,
{
    match lookup(members, property.name) {
        None => seq![ValidationErrorView::PropertyNotFound { name: property.name }],
        Some(value) => union_errors(property.types, value),
    }
}

/// The failures of the first `n` elements of an array, in order.
pub open spec fn array_errors(types: Seq<TypeView>, items: Seq<DocumentView>, n: int) -> Seq<
    ValidationErrorView,
>
    decreases types, n + 1,
{
    if n <= 0 || n > items.len() {
        Seq::empty()
    } else {
        array_errors(types, items, n - 1) + union_errors(types, items[n - 1])
    }
}

/// The failures of a document against a union. There are none if it
/// satisfies an alternative. Otherwise, if an alternative has the document's
/// shape, they are the failures inside the document against the first such
/// alternative. Otherwise it is the one failure that names all alternatives.
pub open spec fn union_errors(types: Seq<TypeView>, document: DocumentView) -> Seq<
    ValidationErrorView,
>
    decreases types, 0int,
{
    if satisfies_any(types, document) {
        Seq::empty()
    } else {
        let first = first_shape_match(types, document, 0);
        if 0 <= first < types.len() {
            type_errors(types[first], document)
        } else {
            seq![mismatch(joined(names(types), " or "@), document)]
        }
    }
}

/// The failures of a document against a single type: those inside it where
/// it has the shape, the one failure that names the type where it has not.
pub open spec fn single_errors(t: TypeView, document: DocumentView) -> Seq<ValidationErrorView> {
    if shape_matches(t, document) {
        type_errors(t, document)
    } else {
        seq![mismatch(shown_name(t), document)]
    }
}

/// The failures of a document against a schema.
pub open spec fn root_errors(schema: ValueView, document: DocumentView) -> Seq<
    ValidationErrorView,
> {
    match schema {
        ValueView::Object(properties) => single_errors(TypeView::Object(properties), document),
        ValueView::Array(types) => single_errors(TypeView::Array(types), document),
        ValueView::Types(types) => union_errors(types, document),
    }
}

/// An alternative before the first one with the document's shape has not
/// that shape; the first one has it.
pub proof fn lemma_first_shape_match(types: Seq<TypeView>, document: DocumentView, from: int)
    requires
        0 <= from <= types.len(),
    ensures
        from <= first_shape_match(types, document, from) <= types.len(),
        forall|j: int|
            from <= j < first_shape_match(types, document, from) ==> !shape_matches(
                #[trigger] types[j],
                document,
            ),
        first_shape_match(types, document, from) < types.len() ==> shape_matches(
            types[first_shape_match(types, document, from)],
            document,
        ),
    decreases types.len() - from,
{
    if from < types.len() && !shape_matches(types[from], document) {
        lemma_first_shape_match(types, document, from + 1);
    }
}

/// A document of the right shape fails nowhere inside exactly if it
/// satisfies the type.
pub proof fn lemma_type_errors(t: TypeView, document: DocumentView)
    requires
        shape_matches(t, document),
    ensures
        type_errors(t, document).len() == 0 <==> satisfies(t, document),
    decreases t, 0int,
{
    match t {
        TypeView::Object(properties) => {
            let members = document.content->Object_0;
            lemma_object_errors(properties, members, properties.len() as int);
        },
        TypeView::Array(types) => {
            let items = document.content->Array_0;
            lemma_array_errors(types, items, items.len() as int);
        },
        _ => {},
    }
}

/// The first `n` properties fail nowhere exactly if each is satisfied.
pub proof fn lemma_object_errors(
    properties: Seq<PropertyView>,
    members: Seq<MemberView>,
    n: int,
)
    requires
        0 <= n <= properties.len(),
    ensures
        object_errors(properties, members, n).len() == 0 <==> forall|j: int|
            0 <= j < n ==> property_satisfied(#[trigger] properties[j], members),
    decreases properties, n,
{
    if n > 0 {
        lemma_object_errors(properties, members, n - 1);
        let property = properties[n - 1];
        match lookup(members, property.name) {
            None => {},
            Some(value) => {
                lemma_union_errors(property.types, value);
            },
        }
        assert(property_errors(property, members).len() == 0 <==> property_satisfied(
            property,
            members,
        ));
    }
}

/// The first `n` elements fail nowhere exactly if each satisfies the union.
pub proof fn lemma_array_errors(types: Seq<TypeView>, items: Seq<DocumentView>, n: int)
    requires
        0 <= n <= items.len(),
    ensures
        array_errors(types, items, n).len() == 0 <==> forall|k: int|
            0 <= k < n ==> satisfies_any(types, #[trigger] items[k]),
    decreases types, n + 1,
{
    if n > 0 {
        lemma_array_errors(types, items, n - 1);
        lemma_union_errors(types, items[n - 1]);
    }
}

/// A document fails a union nowhere exactly if it satisfies an alternative.
pub proof fn lemma_union_errors(types: Seq<TypeView>, document: DocumentView)
    ensures
        union_errors(types, document).len() == 0 <==> satisfies_any(types, document),
    decreases types, 0int,
{
    if !satisfies_any(types, document) {
        lemma_first_shape_match(types, document, 0);
        let first = first_shape_match(types, document, 0);
        if first < types.len() {
            lemma_type_errors(types[first], document);
        }
    }
}

/// A document fails a schema nowhere exactly if it conforms to it.
pub proof fn lemma_root_errors(schema: ValueView, document: DocumentView)
    ensures
        root_errors(schema, document).len() == 0 <==> conforms(schema, document),
{
    match schema {
        ValueView::Object(properties) => {
            if shape_matches(TypeView::Object(properties), document) {
                lemma_type_errors(TypeView::Object(properties), document);
            }
        },
        ValueView::Array(types) => {
            if shape_matches(TypeView::Array(types), document) {
                lemma_type_errors(TypeView::Array(types), document);
            }
        },
        ValueView::Types(types) => {
            lemma_union_errors(types, document);
        },
    }
}

/// A value that satisfies one alternative of a union passes the union,
/// whatever it is held to be by the other alternatives.
pub proof fn lemma_one_alternative_suffices(types: Seq<TypeView>, document: DocumentView, i: int)
    requires
        0 <= i < types.len(),
        satisfies(types[i], document),
    ensures
        satisfies_any(types, document),
        union_errors(types, document) == Seq::<ValidationErrorView>::empty(),
{
}

/// A declared property that the object does not hold is reported by name
/// among the failures of the properties up to and with it.
pub proof fn lemma_missing_property_reported(
    properties: Seq<PropertyView>,
    members: Seq<MemberView>,
    j: int,
    n: int,
)
    requires
        0 <= j < n <= properties.len(),
        lookup(members, properties[j].name) is None,
    ensures
        object_errors(properties, members, n).contains(
            ValidationErrorView::PropertyNotFound { name: properties[j].name },
        ),
    decreases n,
{
    let missing = ValidationErrorView::PropertyNotFound { name: properties[j].name };
    let before = object_errors(properties, members, n - 1);
    let last = property_errors(properties[n - 1], members);
    if j == n - 1 {
        assert((before + last)[before.len() as int] == missing);
    } else {
        lemma_missing_property_reported(properties, members, j, n - 1);
        let at = choose|at: int| 0 <= at < before.len() && before[at] == missing;
        assert((before + last)[at] == missing);
    }
}

/// Whether none of the entries has the key.
pub open spec fn lacks(members: Seq<MemberView>, key: Seq<char>) -> bool {
    forall|i: int| 0 <= i < members.len() ==> (#[trigger] members[i]).key != key
}

/// An object document that lacks a property declared by an object schema
/// fails with `PropertyNotFound` for that property's name, wherever in the
/// schema the property is declared.
pub proof fn lemma_missing_property(
    properties: Seq<PropertyView>,
    document: DocumentView,
    name: Seq<char>,
)
    requires
        document.content matches ContentView::Object(members) && lacks(members, name),
        exists|j: int| 0 <= j < properties.len() && (#[trigger] properties[j]).name == name,
    ensures
        root_errors(ValueView::Object(properties), document).contains(
            ValidationErrorView::PropertyNotFound { name },
        ),
        !conforms(ValueView::Object(properties), document),
{
    let members = document.content->Object_0;
    let j = choose|j: int| 0 <= j < properties.len() && (#[trigger] properties[j]).name == name;
    lemma_lookup_from(members, name, 0);
    lemma_missing_property_reported(properties, members, j, properties.len() as int);
    lemma_root_errors(ValueView::Object(properties), document);
}

/// Two object schemas that declare the same properties, in whatever order,
/// both report a property that the document lacks.
pub proof fn lemma_missing_property_any_order(
    first: Seq<PropertyView>,
    second: Seq<PropertyView>,
    document: DocumentView,
    name: Seq<char>,
)
    requires
        forall|property: PropertyView| first.contains(property) <==> second.contains(property),
        document.content matches ContentView::Object(members) && lacks(members, name),
        exists|j: int| 0 <= j < first.len() && (#[trigger] first[j]).name == name,
    ensures
        root_errors(ValueView::Object(first), document).contains(
            ValidationErrorView::PropertyNotFound { name },
        ),
        root_errors(ValueView::Object(second), document).contains(
            ValidationErrorView::PropertyNotFound { name },
        ),
{
    let j = choose|j: int| 0 <= j < first.len() && (#[trigger] first[j]).name == name;
    assert(first.contains(first[j]));
    assert(second.contains(first[j]));
    let k = choose|k: int| 0 <= k < second.len() && second[k] == first[j];
    assert(second[k].name == name);
    lemma_missing_property(first, document, name);
    lemma_missing_property(second, document, name);
}

/// `PropertyNotFound` for each of the first `n` properties that the object
/// does not hold, in the order of declaration.
pub open spec fn missing_errors(
    properties: Seq<PropertyView>,
    members: Seq<MemberView>,
    n: int,
) -> Seq<ValidationErrorView>
    decreases n,
{
    if n <= 0 || n > properties.len() {
        Seq::empty()
    } else if lookup(members, properties[n - 1].name) is None {
        missing_errors(properties, members, n - 1).push(
            ValidationErrorView::PropertyNotFound { name: properties[n - 1].name },
        )
    } else {
        missing_errors(properties, members, n - 1)
    }
}

/// Where every declared property that the object holds has a value that
/// satisfies its union, the failures are `PropertyNotFound` for exactly the
/// properties that the object does not hold, in the order of declaration.
/// (A value that fails inside adds its own failures, also of this kind.)
pub proof fn lemma_only_missing_properties(
    properties: Seq<PropertyView>,
    members: Seq<MemberView>,
    n: int,
)
    requires
        0 <= n <= properties.len(),
        forall|j: int|
            0 <= j < n ==> (lookup(members, (#[trigger] properties[j]).name) matches Some(value)
                ==> satisfies_any(properties[j].types, value)),
    ensures
        object_errors(properties, members, n) == missing_errors(properties, members, n),
    decreases n,
{
    if n > 0 {
        lemma_only_missing_properties(properties, members, n - 1);
        let property = properties[n - 1];
        let before = object_errors(properties, members, n - 1);
        assert(object_errors(properties, members, n) == before + property_errors(
            property,
            members,
        ));
        match lookup(members, property.name) {
            None => {
                let missing = ValidationErrorView::PropertyNotFound { name: property.name };
                assert(before + seq![missing] =~= before.push(missing));
            },
            Some(value) => {
                assert(satisfies_any(properties[n - 1].types, value));
                lemma_union_errors(property.types, value);
                assert(union_errors(property.types, value) =~= Seq::<ValidationErrorView>::empty());
                assert(before + Seq::<ValidationErrorView>::empty() =~= before);
            },
        }
    }
}

/// The validator of documents against schemas.
pub struct Validator;

impl Validator {
    /// Decodes `text` as JSON and holds the document against `schema`. A text
    /// that does not decode gives the one failure `ParseFaild`.
    pub fn validate(schema: &Value, text: &str) -> (result: Result<bool, ValidationErrors>)
        ensures
            match json_decoded(text@) {
                Ok(document) => match result {
                    Ok(valid) => valid && conforms(schema@, document),
                    Err(errors) => !conforms(schema@, document) && errors@ == root_errors(
                        schema@,
                        document,
                    ),
                },
                Err(message) => result matches Err(errors) && errors@
                    == seq![ValidationErrorView::ParseFaild(message)],
            },
    {
        match parse_json(text) {
            Ok(value) => {
                let document = document_of(&value);
                Self::value(schema, &document)
            },
            Err(error) => Err(ValidationErrors::from(ValidationError::from(error))),
        }
    }

    /// Holds a decoded document against `schema`: success if it conforms, and
    /// otherwise every failure, in the order of the schema's declarations.
    pub fn value(schema: &Value, document: &Document) -> (result: Result<bool, ValidationErrors>)
        ensures
            match result {
                Ok(valid) => valid && conforms(schema@, document@),
                Err(errors) => !conforms(schema@, document@) && errors@.len() > 0 && errors@
                    == root_errors(schema@, document@),
            },
    {
        proof {
            lemma_root_errors(schema@, document@);
        }
        match schema {
            Value::Object(object) => match &document.content {
                Content::Object(members) => Self::object(object, members),
                _ => Err(ValidationErrors::from(Self::type_mismatch("object", document))),
            },
            Value::Array(array) => match &document.content {
                Content::Array(items) => Self::array(array, items),
                _ => Err(ValidationErrors::from(Self::type_mismatch("array", document))),
            },
            Value::Types(types) => Self::types(types, document),
        }
    }

    /// The failures of an object's entries against an object schema.
    fn object(schema: &Object, members: &Vec<Member>) -> (result: Result<bool, ValidationErrors>)
        ensures
            match result {
                Ok(valid) => valid && object_errors(
                    schema@,
                    members_view(members@),
                    schema@.len() as int,
                ).len() == 0,
                Err(errors) => errors@.len() > 0 && errors@ == object_errors(
                    schema@,
                    members_view(members@),
                    schema@.len() as int,
                ),
            },
        decreases schema,
    {
        let mut errors = ValidationErrors::new();
        let mut j: usize = 0;
        while j < schema.properties.len()
            invariant
                j <= schema.properties@.len(),
                schema@.len() == schema.properties@.len(),
                errors@ == object_errors(schema@, members_view(members@), j as int),
            decreases schema.properties@.len() - j,
        {
            let property = &schema.properties[j];
            let ghost before = errors@;
            assert(schema@[j as int] == property@);
            assert(object_errors(schema@, members_view(members@), j + 1) == before
                + property_errors(property@, members_view(members@)));
            match find(members, property.name.as_str()) {
                Some(value) => {
                    assert(property_errors(property@, members_view(members@)) == union_errors(
                        property@.types,
                        value@,
                    ));
                    match Self::property(property, value) {
                        Ok(_) => {
                            assert(before + Seq::<ValidationErrorView>::empty() =~= before);
                        },
                        Err(found) => errors.extend(found),
                    }
                },
                None => {
                    let missing = ValidationError::PropertyNotFound { name: property.name.clone() };
                    errors.push(missing);
                    assert(before.push(missing@) =~= before + seq![missing@]);
                },
            }
            j += 1;
        }
        if errors.is_empty() {
            Ok(true)
        } else {
            Err(errors)
        }
    }

    /// The failures of an array's elements against an array schema.
    fn array(schema: &Array, items: &Vec<Document>) -> (result: Result<bool, ValidationErrors>)
        ensures
            match result {
                Ok(valid) => valid && array_errors(
                    schema@,
                    documents_view(items@),
                    items@.len() as int,
                ).len() == 0,
                Err(errors) => errors@.len() > 0 && errors@ == array_errors(
                    schema@,
                    documents_view(items@),
                    items@.len() as int,
                ),
            },
        decreases schema,
    {
        let mut errors = ValidationErrors::new();
        let mut k: usize = 0;
        while k < items.len()
            invariant
                k <= items@.len(),
                errors@ == array_errors(schema@, documents_view(items@), k as int),
            decreases items@.len() - k,
        {
            match Self::types(&schema.types, &items[k]) {
                Ok(_) => {
                    assert(errors@ + Seq::<ValidationErrorView>::empty() =~= errors@);
                },
                Err(found) => errors.extend(found),
            }
            k += 1;
        }
        if errors.is_empty() {
            Ok(true)
        } else {
            Err(errors)
        }
    }

    /// The failures of a property's value against the property's union.
    fn property(schema: &Property, value: &Document) -> (result: Result<bool, ValidationErrors>)
        ensures
            match result {
                Ok(valid) => valid && union_errors(schema@.types, value@).len() == 0,
                Err(errors) => errors@.len() > 0 && errors@ == union_errors(
                    schema@.types,
                    value@,
                ),
            },
        decreases schema,
    {
        Self::types(&schema.types, value)
    }

    /// The names of the alternatives, joined by ` or `.
    fn expected(schema: &Vec<Type>) -> (text: String)
        ensures
            text@ == joined(names(types_view(schema@)), " or "@),
    {
        let mut shown: Vec<String> = Vec::new();
        let mut i: usize = 0;
        while i < schema.len()
            invariant
                i <= schema@.len(),
                shown@.len() == i,
                forall|k: int| 0 <= k < i ==> (#[trigger] shown@[k])@ == shown_name(schema@[k]@),
            decreases schema@.len() - i,
        {
            shown.push(schema[i].to_string());
            i += 1;
        }
        assert(strings_view(shown@) =~= names(types_view(schema@)));
        join(&shown, " or ")
    }

    /// The failures of a document against a union of types.
    fn types(schema: &Vec<Type>, value: &Document) -> (result: Result<bool, ValidationErrors>)
        ensures
            match result {
                Ok(valid) => valid && union_errors(types_view(schema@), value@).len() == 0,
                Err(errors) => errors@.len() > 0 && errors@ == union_errors(
                    types_view(schema@),
                    value@,
                ),
            },
        decreases schema@,
    {
        let ghost types = types_view(schema@);
        let mut first: Option<ValidationErrors> = None;
        let mut i: usize = 0;
        while i < schema.len()
            invariant
                i <= schema@.len(),
                types == types_view(schema@),
                forall|j: int| 0 <= j < i ==> !satisfies(#[trigger] types[j], value@),
                first is None ==> first_shape_match(types, value@, 0) == first_shape_match(
                    types,
                    value@,
                    i as int,
                ),
                first matches Some(errors) ==> {
                    let k = first_shape_match(types, value@, 0);
                    0 <= k < i && errors@ == type_errors(types[k], value@) && errors@.len() > 0
                },
            decreases schema@.len() - i,
        {
            let alternative = &schema[i];
            assert(types[i as int] == alternative@);
            if Self::has_shape(alternative, value) {
                proof {
                    lemma_type_errors(alternative@, value@);
                }
                match Self::type_(alternative, value) {
                    Ok(_) => {
                        proof {
                            lemma_union_errors(types, value@);
                        }
                        return Ok(true);
                    },
                    Err(found) => {
                        if first.is_none() {
                            first = Some(found);
                        }
                    },
                }
            }
            i += 1;
        }
        proof {
            lemma_union_errors(types, value@);
        }
        match first {
            Some(errors) => Err(errors),
            None => {
                let error = ValidationError::DataTypeMismatch {
                    types: Self::expected(schema),
                    value: value.text.clone(),
                };
                Err(ValidationErrors::from(error))
            },
        }
    }

    /// Whether the document has the shape that the type asks for.
    fn has_shape(schema: &Type, value: &Document) -> (b: bool)
        ensures
            b == shape_matches(schema@, value@),
    {
        match (schema, &value.content) {
            (Type::Null, Content::Null) => true,
            (Type::String, Content::String) => true,
            (Type::Number, Content::Number) => true,
            (Type::Boolean, Content::Bool) => true,
            (Type::Object(_), Content::Object(_)) => true,
            (Type::Array(_), Content::Array(_)) => true,
            _ => false,
        }
    }

    /// The failures of a document against a single type.
    fn type_(schema: &Type, value: &Document) -> (result: Result<bool, ValidationErrors>)
        ensures
            match result {
                Ok(valid) => valid && single_errors(schema@, value@).len() == 0,
                Err(errors) => errors@.len() > 0 && errors@ == single_errors(schema@, value@),
            },
        decreases schema,
    {
        match schema {
            Type::Null => match &value.content {
                Content::Null => Ok(true),
                _ => Err(ValidationErrors::from(Self::type_mismatch("null", value))),
            },
            Type::String => match &value.content {
                Content::String => Ok(true),
                _ => Err(ValidationErrors::from(Self::type_mismatch("string", value))),
            },
            Type::Number => match &value.content {
                Content::Number => Ok(true),
                _ => Err(ValidationErrors::from(Self::type_mismatch("number", value))),
            },
            Type::Boolean => match &value.content {
                Content::Bool => Ok(true),
                _ => Err(ValidationErrors::from(Self::type_mismatch("boolean", value))),
            },
            Type::Object(object) => match &value.content {
                Content::Object(members) => Self::object(object, members),
                _ => Err(ValidationErrors::from(Self::type_mismatch("object", value))),
            },
            Type::Array(array) => match &value.content {
                Content::Array(items) => Self::array(array, items),
                _ => Err(ValidationErrors::from(Self::type_mismatch("array", value))),
            },
        }
    }

    /// The failure of `value` to be of the types named in `types`.
    fn type_mismatch(types: &str, value: &Document) -> (error: ValidationError)
        ensures
            error@ == mismatch(types@, value@),
    {
        ValidationError::DataTypeMismatch { types: types.to_owned(), value: value.text.clone() }
    }
}

impl ValidationError {
    /// The failure that reports a JSON text that does not decode, with the
    /// decoder's message.
    pub fn from(error: serde_json::Error) -> (failure: ValidationError)
        ensures
            failure@ == ValidationErrorView::ParseFaild(json_message(error)),
    {
        ValidationError::ParseFaild(error_message(&error))
    }
}

} // verus!
