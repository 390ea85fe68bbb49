//! Building a schema of field names from raw per-field annotation data.

use crate::aliased_field::{
    descriptor_error, first_bad_descriptor, schema_matches, AliasedFieldError, AliasedFields,
    FieldDescriptor,
};
use crate::parse_fields::parse_fields;
use vstd::prelude::*;

verus! {

/// Normalizes an ordered list of raw field descriptors into an
/// [`AliasedFields`] schema, exactly as [`parse_fields`] does.
pub fn parse_field_names(input: Vec<FieldDescriptor>) -> (r: Result<
    AliasedFields,
    AliasedFieldError,
>)
    ensures
        match first_bad_descriptor(input@) {
            Some(i) => r == Err::<AliasedFields, AliasedFieldError>(descriptor_error(input@[i])),
            None => r matches Ok(s) && schema_matches(s, input@),
        },
{
    parse_fields(input)
}

} // verus!
