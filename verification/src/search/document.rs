//! What a search reads of the documents of an index.

use vstd::prelude::*;

verus! {

/// A document of the `tantivy` crate.
#[verifier::external_type_specification]
#[verifier::external_body]
pub struct ExTantivyDocument(tantivy::TantivyDocument);

/// A value stored under a field of a document.
#[derive(Debug)]
pub enum FieldValue {
    /// A text.
    Str(String),
    /// An unsigned number.
    U64(u64),
    /// A value of another type.
    Other,
}

/// A stored value, as a value.
pub enum FieldValueView {
    Str(Seq<char>),
    U64(u64),
    Other,
}

impl View for FieldValue {
    type V = FieldValueView;

    open spec fn view(&self) -> FieldValueView {
        match *self {
            FieldValue::Str(s) => FieldValueView::Str(s@),
            FieldValue::U64(n) => FieldValueView::U64(n),
            FieldValue::Other => FieldValueView::Other,
        }
    }
}

/// The values that a document holds, under the numbers of their fields, in the order in which they
/// were added.
pub uninterp spec fn stored_values(doc: tantivy::TantivyDocument) -> Seq<(u32, FieldValueView)>;

/// The first of `values` under `field`.
pub open spec fn first_value(values: Seq<(u32, FieldValueView)>, field: u32) -> Option<FieldValueView>
    decreases values.len(),
{
    if values.len() == 0 {
        None
    } else if values[0].0 == field {
        Some(values[0].1)
    } else {
        first_value(values.drop_first(), field)
    }
}

/// `value`, if there is one, as a value.
pub open spec fn value_view(value: Option<FieldValue>) -> Option<FieldValueView> {
    match value {
        Some(v) => Some(v@),
        None => None,
    }
}

/// The first value under a field: `TantivyDocument::get_first`, which goes through the values in
/// the order in which they were added. Of the types that it can have, texts and unsigned numbers
/// are told apart.
#[verifier::external_body]
pub(crate) fn get_first(doc: &tantivy::TantivyDocument, field: u32) -> (value: Option<FieldValue>)
    ensures
        value_view(value) == first_value(stored_values(*doc), field),
{
    doc.get_first(tantivy::schema::Field::from_field_id(field)).map(
        |v| match v {
            tantivy::schema::OwnedValue::Str(s) => FieldValue::Str(s.clone()),
            tantivy::schema::OwnedValue::U64(n) => FieldValue::U64(*n),
            _ => FieldValue::Other,
        },
    )
}

/// The text that `value` is.
pub open spec fn text_in(value: Option<FieldValueView>) -> Option<Seq<char>> {
    match value {
        Some(FieldValueView::Str(s)) => Some(s),
        _ => None,
    }
}

/// The unsigned number that `value` is.
pub open spec fn number_in(value: Option<FieldValueView>) -> Option<u64> {
    match value {
        Some(FieldValueView::U64(n)) => Some(n),
        _ => None,
    }
}

/// The text that `value` is.
pub fn as_text(value: Option<FieldValue>) -> (text: Option<String>)
    ensures
        match text {
            Some(s) => text_in(value_view(value)) == Some(s@),
            None => text_in(value_view(value)) is None,
        },
{
    match value {
        Some(FieldValue::Str(s)) => Some(s),
        _ => None,
    }
}

/// The unsigned number that `value` is.
pub fn as_number(value: Option<FieldValue>) -> (number: Option<u64>)
    ensures
        number == number_in(value_view(value)),
{
    match value {
        Some(FieldValue::U64(n)) => Some(n),
        _ => None,
    }
}

/// Extracts the text under a field of a document: the first value there, if it is a text.
pub fn extract_text(doc: &tantivy::TantivyDocument, field: u32) -> (text: Option<String>)
    ensures
        match text {
            Some(s) => text_in(first_value(stored_values(*doc), field)) == Some(s@),
            None => text_in(first_value(stored_values(*doc), field)) is None,
        },
{
    as_text(get_first(doc, field))
}

/// Extracts the number under a field of a document: the first value there, if it is an unsigned
/// number.
pub fn extract_u64(doc: &tantivy::TantivyDocument, field: u32) -> (number: Option<u64>)
    ensures
        number == number_in(first_value(stored_values(*doc), field)),
{
    as_number(get_first(doc, field))
}

/// The numbers of the fields that a search reads.
#[derive(Debug, Clone, Copy)]
pub struct SchemaFields {
    pub doc_id: u32,
    pub path: u32,
    pub content: u32,
    pub line_start: u32,
    pub chunk_id: u32,
}

/// What a search reads of a document.
#[derive(Debug)]
pub struct Candidate {
    /// The path of the file.
    pub path: String,
    /// The name of the document in the index.
    pub doc_id: String,
    /// The text that is searched.
    pub content: String,
    /// The number of the first line of the text.
    pub line_start: u64,
    /// The name of the chunk that the document is; empty where it is a whole file.
    pub chunk_id: String,
}

/// What a search reads of a document, as a value.
pub struct CandidateView {
    pub path: Seq<char>,
    pub doc_id: Seq<char>,
    pub content: Seq<char>,
    pub line_start: u64,
    pub chunk_id: Seq<char>,
}

impl View for Candidate {
    type V = CandidateView;

    open spec fn view(&self) -> CandidateView {
        CandidateView {
            path: self.path@,
            doc_id: self.doc_id@,
            content: self.content@,
            line_start: self.line_start,
            chunk_id: self.chunk_id@,
        }
    }
}

/// `text`, or the empty text where there is none.
pub open spec fn or_empty(text: Option<Seq<char>>) -> Seq<char> {
    match text {
        Some(s) => s,
        None => Seq::empty(),
    }
}

/// What a search reads of a document with the given values. A text that is missing is empty; a
/// document that does not say where it starts starts at line 1.
pub open spec fn read_values(values: Seq<(u32, FieldValueView)>, fields: SchemaFields) -> CandidateView {
    CandidateView {
        path: or_empty(text_in(first_value(values, fields.path))),
        doc_id: or_empty(text_in(first_value(values, fields.doc_id))),
        content: or_empty(text_in(first_value(values, fields.content))),
        line_start: match number_in(first_value(values, fields.line_start)) {
            Some(n) => n,
            None => 1,
        },
        chunk_id: or_empty(text_in(first_value(values, fields.chunk_id))),
    }
}

/// `text`, or the empty text where there is none.
pub fn unwrap_text(text: Option<String>) -> (s: String)
    ensures
        s@ == or_empty(
            match text {
                Some(t) => Some(t@),
                None => None,
            },
        ),
{
    match text {
        Some(t) => t,
        None => String::new(),
    }
}

/// Reads of a document what a search needs.
pub fn read_candidate(doc: &tantivy::TantivyDocument, fields: SchemaFields) -> (candidate: Candidate)
    ensures
        candidate@ == read_values(stored_values(*doc), fields),
{
    Candidate {
        path: unwrap_text(extract_text(doc, fields.path)),
        doc_id: unwrap_text(extract_text(doc, fields.doc_id)),
        content: unwrap_text(extract_text(doc, fields.content)),
        line_start: match extract_u64(doc, fields.line_start) {
            Some(n) => n,
            None => 1,
        },
        chunk_id: unwrap_text(extract_text(doc, fields.chunk_id)),
    }
}

// ---------------------------------------------------------------------------------------------
// Laws
// ---------------------------------------------------------------------------------------------

/// The first value under a field is the one before which there is none under that field.
pub proof fn law_first_value_comes_first(values: Seq<(u32, FieldValueView)>, field: u32, i: int)
    requires
        0 <= i <= values.len(),
        forall|j: int| 0 <= j < i ==> (#[trigger] values[j]).0 != field,
    ensures
        i < values.len() && values[i].0 == field ==> first_value(values, field) == Some(values[i].1),
        i == values.len() ==> first_value(values, field) is None,
    decreases i,
{
    if i > 0 {
        let rest = values.drop_first();
        assert(values[0].0 != field);
        assert forall|j: int| 0 <= j < i - 1 implies (#[trigger] rest[j]).0 != field by {
            assert(rest[j] == values[j + 1]);
        }
        law_first_value_comes_first(rest, field, i - 1);
    }
}

/// Of a document, each text is the first value under its own field, or empty where that is missing
/// or no text; the first line is the number under its field, or 1.
pub proof fn law_document_is_read_by_its_fields(values: Seq<(u32, FieldValueView)>, fields: SchemaFields)
    ensures
        ({
            let doc = read_values(values, fields);
            &&& match first_value(values, fields.path) {
                Some(FieldValueView::Str(s)) => doc.path == s,
                _ => doc.path.len() == 0,
            }
            &&& match first_value(values, fields.doc_id) {
                Some(FieldValueView::Str(s)) => doc.doc_id == s,
                _ => doc.doc_id.len() == 0,
            }
            &&& match first_value(values, fields.content) {
                Some(FieldValueView::Str(s)) => doc.content == s,
                _ => doc.content.len() == 0,
            }
            &&& match first_value(values, fields.chunk_id) {
                Some(FieldValueView::Str(s)) => doc.chunk_id == s,
                _ => doc.chunk_id.len() == 0,
            }
            &&& match first_value(values, fields.line_start) {
                Some(FieldValueView::U64(n)) => doc.line_start == n,
                _ => doc.line_start == 1,
            }
        }),
{
}

/// A text and a number are taken for what they are and for nothing else.
pub proof fn law_values_are_taken_by_their_type(value: Option<FieldValueView>)
    ensures
        value matches Some(FieldValueView::Str(s)) ==> text_in(value) == Some(s) && number_in(value) is None,
        value matches Some(FieldValueView::U64(n)) ==> number_in(value) == Some(n) && text_in(value) is None,
        value is None || value == Some(FieldValueView::Other) ==> text_in(value) is None && number_in(value) is None,
        or_empty(None).len() == 0,
        forall|s: Seq<char>| #[trigger] or_empty(Some(s)) == s,
{
}

/// A document as a value holds what its fields hold, and a stored value what it stores.
pub proof fn law_document_holds_its_fields(doc: Candidate, value: FieldValue)
    ensures
        doc@.path == doc.path@,
        doc@.doc_id == doc.doc_id@,
        doc@.content == doc.content@,
        doc@.line_start == doc.line_start,
        doc@.chunk_id == doc.chunk_id@,
        value matches FieldValue::Str(s) ==> value@ == FieldValueView::Str(s@),
        value matches FieldValue::U64(n) ==> value@ == FieldValueView::U64(n),
        value is Other ==> value@ is Other,
        value_view(Some(value)) == Some(value@),
        value_view(None) is None,
{
}

} // verus!
