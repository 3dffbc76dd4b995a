//! The fields of an index.

use vstd::prelude::*;

use crate::error::YgrepError;

verus! {

/// A schema of the `tantivy` crate.
#[verifier::external_type_specification]
#[verifier::external_body]
pub struct ExSchema(tantivy::schema::Schema);

/// What the `tantivy` crate reports of a call that failed.
#[verifier::external_type_specification]
#[verifier::external_body]
pub struct ExTantivyError(tantivy::TantivyError);

/// The fields of a schema: their numbers by their names.
pub uninterp spec fn fields_of(schema: tantivy::schema::Schema) -> Map<Seq<char>, u32>;

/// The number of the field with the given name: `Schema::get_field`, which looks the name up and
/// fails where there is no such field.
#[verifier::external_body]
pub(crate) fn get_field(schema: &tantivy::schema::Schema, name: &str) -> (field: Result<u32, tantivy::TantivyError>)
    ensures
        match field {
            Ok(number) => fields_of(*schema).contains_key(name@) && fields_of(*schema)[name@] == number,
            Err(_) => !fields_of(*schema).contains_key(name@),
        },
{
    schema.get_field(name).map(|field| field.field_id())
}

/// `error` says that an index has no field for the names of documents.
pub open spec fn is_field_missing(error: YgrepError) -> bool {
    error matches YgrepError::Config(message) && message@ == "doc_id field not found in schema"@
}

/// The number of the field that holds the name of a document, from what came of looking it up.
pub fn checked_doc_id_field(found: Result<u32, tantivy::TantivyError>) -> (field: Result<u32, YgrepError>)
    ensures
        match found {
            Ok(number) => field == Ok::<u32, YgrepError>(number),
            Err(_) => field matches Err(error) && is_field_missing(error),
        },
{
    match found {
        Ok(number) => Ok(number),
        Err(_) => Err(YgrepError::Config("doc_id field not found in schema".to_owned())),
    }
}

/// The number of the field that holds the name of a document.
pub fn doc_id_field(schema: &tantivy::schema::Schema) -> (field: Result<u32, YgrepError>)
    ensures
        match field {
            Ok(number) => fields_of(*schema).contains_key("doc_id"@) && fields_of(*schema)["doc_id"@] == number,
            Err(error) => !fields_of(*schema).contains_key("doc_id"@) && is_field_missing(error),
        },
{
    checked_doc_id_field(get_field(schema, "doc_id"))
}

// ---------------------------------------------------------------------------------------------
// Laws
// ---------------------------------------------------------------------------------------------

/// What is reported where an index has no field for the names of documents is just that.
pub proof fn law_missing_field_is_reported(error: YgrepError)
    ensures
        is_field_missing(error) <==> (error matches YgrepError::Config(message) && message@
            == "doc_id field not found in schema"@),
{
}

} // verus!
