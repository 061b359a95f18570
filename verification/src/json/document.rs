//! Decoded JSON documents: what the validator reads of a document, held as
//! plain values, and the decoding of JSON text into them by `serde_json`.

use serde_json::Error as JsonError;
use serde_json::Value as JsonValue;
use vstd::prelude::*;

verus! {

/// A decoded JSON value: its shape, what it holds, and its compact JSON text.
#[derive(Debug, PartialEq, Eq)]
pub struct Document {
    /// The value written as compact JSON.
    pub text: String,
    pub content: Content,
}

/// The shape of a decoded JSON value, with what an array and an object hold.
#[derive(Debug, PartialEq, Eq)]
pub enum Content {
    Null,
    Bool,
    Number,
    String,
    Array(Vec<Document>),
    Object(Vec<Member>),
}

/// One entry of a decoded JSON object.
#[derive(Debug, PartialEq, Eq)]
pub struct Member {
    pub key: String,
    pub value: Document,
}

pub struct DocumentView {
    pub text: Seq<char>,
    pub content: ContentView,
}

pub enum ContentView {
    Null,
    Bool,
    Number,
    String,
    Array(Seq<DocumentView>),
    Object(Seq<MemberView>),
}

pub struct MemberView {
    pub key: Seq<char>,
    pub value: DocumentView,
}

/// The view of one document.
pub open spec fn document_view(document: Document) -> DocumentView
    decreases document,
{
    DocumentView {
        text: document.text@,
        content: match document.content {
            Content::Null => ContentView::Null,
            Content::Bool => ContentView::Bool,
            Content::Number => ContentView::Number,
            Content::String => ContentView::String,
            Content::Array(items) => ContentView::Array(documents_view(items@)),
            Content::Object(members) => ContentView::Object(members_view(members@)),
        },
    }
}

/// The views of a sequence of documents, in order.
pub open spec fn documents_view(documents: Seq<Document>) -> Seq<DocumentView>
    decreases documents,
{
    Seq::new(
        documents.len(),
        |i: int|
            if 0 <= i < documents.len() {
                document_view(documents[i])
            } else {
                DocumentView { text: Seq::empty(), content: ContentView::Null }
            },
    )
}

/// The views of the entries of an object, in order.
pub open spec fn members_view(members: Seq<Member>) -> Seq<MemberView>
    decreases members,
{
    Seq::new(
        members.len(),
        |i: int|
            if 0 <= i < members.len() {
                MemberView { key: members[i].key@, value: document_view(members[i].value) }
            } else {
                MemberView {
                    key: Seq::empty(),
                    value: DocumentView { text: Seq::empty(), content: ContentView::Null },
                }
            },
    )
}

impl View for Document {
    type V = DocumentView;

    open spec fn view(&self) -> DocumentView {
        document_view(*self)
    }
}

impl View for Member {
    type V = MemberView;

    open spec fn view(&self) -> MemberView {
        MemberView { key: self.key@, value: self.value@ }
    }
}

/// The value of the first entry with key `key` among `members[from..]`.
pub open spec fn lookup_from(members: Seq<MemberView>, key: Seq<char>, from: int) -> Option<
    DocumentView,
>
    decreases members.len() - from,
{
    if from < 0 || from >= members.len() {
        None
    } else if members[from].key == key {
        Some(members[from].value)
    } else {
        lookup_from(members, key, from + 1)
    }
}

/// The value that an object holds under `key`, if it holds one.
pub open spec fn lookup(members: Seq<MemberView>, key: Seq<char>) -> Option<DocumentView> {
    lookup_from(members, key, 0)
}

/// An object holds a value under `key` exactly if one of its entries has that
/// key.
pub proof fn lemma_lookup_from(members: Seq<MemberView>, key: Seq<char>, from: int)
    requires
        0 <= from,
    ensures
        lookup_from(members, key, from) is Some <==> exists|i: int|
            from <= i < members.len() && (#[trigger] members[i]).key == key,
    decreases members.len() - from,
{
    if from < members.len() {
        if members[from].key == key {
        } else {
            lemma_lookup_from(members, key, from + 1);
        }
    }
}

impl Document {
    pub fn new(text: &str, content: Content) -> (document: Document)
        ensures
            document.content == content,
            document.text@ == text@,
    {
        Document { text: text.to_owned(), content }
    }
}

impl Member {
    pub fn new(key: &str, value: Document) -> (member: Member)
        ensures
            member.value == value,
            member.key@ == key@,
    {
        Member { key: key.to_owned(), value }
    }
}

/// The entry of `members` that comes first among those with key `key`.
pub fn find<'a>(members: &'a Vec<Member>, key: &str) -> (found: Option<&'a Document>)
    ensures
        match found {
            Some(document) => lookup(members_view(members@), key@) == Some(document@),
            None => lookup(members_view(members@), key@) is None,
        },
{
    let mut i: usize = 0;
    while i < members.len()
        invariant
            i <= members@.len(),
            lookup(members_view(members@), key@) == lookup_from(
                members_view(members@),
                key@,
                i as int,
            ),
        decreases members@.len() - i,
    {
        if crate::text::str_eq(members[i].key.as_str(), key) {
            return Some(&members[i].value);
        }
        i += 1;
    }
    None
}

/// What a JSON text decodes to: its document; or, where the text is not one
/// well-formed JSON value, the decoder's message.
pub uninterp spec fn json_decoded(text: Seq<char>) -> Result<DocumentView, Seq<char>>;

/// What a `serde_json::Value` holds, as a document.
pub uninterp spec fn json_document(value: JsonValue) -> DocumentView;

/// The message that a `serde_json::Error` holds.
pub uninterp spec fn json_message(error: JsonError) -> Seq<char>;

/// Trusted: the JSON value type of `serde_json`, opaque to the verifier.
#[verifier::external_type_specification]
#[verifier::external_body]
pub struct ExJsonValue(JsonValue);

/// Trusted: the error type of `serde_json`, opaque to the verifier.
#[verifier::external_type_specification]
#[verifier::external_body]
pub struct ExJsonError(JsonError);

/// Trusted: `serde_json::from_str`, decoding to a `serde_json::Value`. Whether
/// it succeeds, what the value holds and what the error says depend on the
/// text alone, which is what [`json_decoded`] names.
#[verifier::external_body]
pub(crate) fn parse_json(text: &str) -> (result: Result<JsonValue, JsonError>)
    ensures
        match result {
            Ok(value) => json_decoded(text@) == Ok::<DocumentView, Seq<char>>(
                json_document(value),
            ),
            Err(error) => json_decoded(text@) == Err::<DocumentView, Seq<char>>(
                json_message(error),
            ),
        },
{
    serde_json::from_str(text)
}

/// One level of a `serde_json::Value`: its variant, with the elements of an
/// array and the entries of an object still as `serde_json` holds them.
pub enum Level<'a> {
    Null,
    Bool,
    Number,
    String,
    Array(&'a Vec<JsonValue>),
    Object(Vec<(&'a String, &'a JsonValue)>),
}

impl<'a> Level<'a> {
    /// What the level holds, each element and each entry as a document.
    pub open spec fn content(self) -> ContentView {
        match self {
            Level::Null => ContentView::Null,
            Level::Bool => ContentView::Bool,
            Level::Number => ContentView::Number,
            Level::String => ContentView::String,
            Level::Array(items) => ContentView::Array(
                Seq::new(items@.len(), |i: int| json_document(items@[i])),
            ),
            Level::Object(entries) => ContentView::Object(
                Seq::new(
                    entries@.len(),
                    |i: int|
                        MemberView { key: entries@[i].0@, value: json_document(*entries@[i].1) },
                ),
            ),
        }
    }
}

/// Trusted: tells the variants of a `serde_json::Value` apart and hands out
/// what an array and an object hold, the entries of an object in the order of
/// `serde_json::Map::iter`. This is the content that [`json_document`] names.
#[verifier::external_body]
pub(crate) fn json_level<'a>(value: &'a JsonValue) -> (level: Level<'a>)
    ensures
        level.content() == json_document(*value).content,
{
    match value {
        JsonValue::Null => Level::Null,
        JsonValue::Bool(_) => Level::Bool,
        JsonValue::Number(_) => Level::Number,
        JsonValue::String(_) => Level::String,
        JsonValue::Array(items) => Level::Array(items),
        JsonValue::Object(entries) => Level::Object(entries.iter().collect()),
    }
}

/// Trusted: the compact JSON text of a `serde_json::Value`, as its `Display`
/// writes it. This is the text that [`json_document`] names.
#[verifier::external_body]
pub(crate) fn json_text(value: &JsonValue) -> (text: String)
    ensures
        text@ == json_document(*value).text,
{
    value.to_string()
}

/// The document that a `serde_json::Value` holds.
pub fn document_of(value: &JsonValue) -> (document: Document)
    ensures
        document@ == json_document(*value),
    decreases json_document(*value),
{
    let text = json_text(value);
    let content = match json_level(value) {
        Level::Null => Content::Null,
        Level::Bool => Content::Bool,
        Level::Number => Content::Number,
        Level::String => Content::String,
        Level::Array(items) => {
            let ghost views = json_document(*value).content->Array_0;
            let mut documents: Vec<Document> = Vec::new();
            let mut i: usize = 0;
            while i < items.len()
                invariant
                    i <= items@.len(),
                    json_document(*value).content == ContentView::Array(views),
                    views.len() == items@.len(),
                    forall|k: int| 0 <= k < items@.len() ==> views[k] == json_document(items@[k]),
                    documents@.len() == i,
                    forall|k: int| 0 <= k < i ==> (#[trigger] documents@[k])@ == views[k],
                decreases items@.len() - i,
            {
                assert(views[i as int] == json_document(items@[i as int]));
                assert(decreases_to!(views => views[i as int]));
                assert(json_document(*value).content->Array_0 == views);
                let document = document_of(&items[i]);
                documents.push(document);
                i += 1;
            }
            assert(documents_view(documents@) =~= views);
            Content::Array(documents)
        },
        Level::Object(entries) => {
            let ghost views = json_document(*value).content->Object_0;
            let mut members: Vec<Member> = Vec::new();
            let mut i: usize = 0;
            while i < entries.len()
                invariant
                    i <= entries@.len(),
                    json_document(*value).content == ContentView::Object(views),
                    views.len() == entries@.len(),
                    forall|k: int|
                        0 <= k < entries@.len() ==> views[k] == (MemberView {
                            key: entries@[k].0@,
                            value: json_document(*entries@[k].1),
                        }),
                    members@.len() == i,
                    forall|k: int| 0 <= k < i ==> (#[trigger] members@[k])@ == views[k],
                decreases entries@.len() - i,
            {
                assert(views[i as int].value == json_document(*entries@[i as int].1));
                assert(decreases_to!(views => views[i as int]));
                assert(json_document(*value).content->Object_0 == views);
                let key = entries[i].0.clone();
                let member = Member { key, value: document_of(entries[i].1) };
                members.push(member);
                i += 1;
            }
            assert(members_view(members@) =~= views);
            Content::Object(members)
        },
    };
    Document { text, content }
}

/// Trusted: the message of a `serde_json::Error`, as its `Display` writes it;
/// [`json_message`] names it.
#[verifier::external_body]
pub(crate) fn error_message(error: &JsonError) -> (message: String)
    ensures
        message@ == json_message(*error),
{
    error.to_string()
}

} // verus!
