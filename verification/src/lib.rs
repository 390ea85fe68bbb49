//! Duplicate-tolerant key-value deserialization.
//!
//! Key-value documents in the wild frequently carry the same logical field
//! more than once — either under one repeated key or under several aliased
//! key names — and may omit fields that should fall back to a default.
//! A schema-bound deserializer that rejects duplicate or missing keys fails
//! on such input at runtime.
//!
//! This crate resolves those documents instead. A record type is described
//! once as an ordered schema of aliased fields ([`AliasedFields`]): each
//! field has a canonical identifier, a list of accepted key names (the
//! identifier first, then declared aliases or renames), and a flag saying
//! whether absence falls back to the field type's default value. From a
//! schema and a duplicate-resolution policy — keep the first occurrence or
//! keep the last — a [`DeserializationPlan`] is generated, whose single
//! forward pass over a document's key-value pairs resolves every field:
//! unknown keys are skipped, duplicates are settled by the policy, absent
//! fields either fall back to their default or fail with a `MissingField`
//! error naming the field.
//!
//! The two entry points, [`deserialize_first_duplicate`] and
//! [`deserialize_last_duplicate`], build the plan for each of the two
//! policies from raw per-field annotation data.

pub mod aliased_field;
pub mod generate_deserialization_impl;
pub mod parse_field_names;
pub mod parse_fields;
pub mod resolution_laws;

pub use aliased_field::{AliasedField, AliasedFieldError, AliasedFields, FieldDescriptor, RawDirective};
pub use generate_deserialization_impl::{
    generate_deserialization_impl, DeserializationPlan, DeserializeError, FieldValue,
    ResolutionPolicy,
};
pub use parse_field_names::parse_field_names;
pub use parse_fields::parse_fields;

use vstd::prelude::*;

verus! {

/// Builds a [`DeserializationPlan`] under the first-occurrence-wins policy
/// from raw per-field annotation data.
///
/// Every descriptor must carry an identifier and only valid directives
/// (`alias`/`rename` with a key name, or `default`); the first offending
/// descriptor's error is returned otherwise. On success the plan's schema
/// lists, per field, the identifier itself followed by the declared alias
/// keys in declaration order.
pub fn deserialize_first_duplicate(descriptors: Vec<FieldDescriptor>) -> (r: Result<
    DeserializationPlan,
    AliasedFieldError,
>)
    ensures
        match aliased_field::first_bad_descriptor(descriptors@) {
            Some(i) => r == Err::<DeserializationPlan, AliasedFieldError>(
                aliased_field::descriptor_error(descriptors@[i]),
            ),
            None => r matches Ok(p) && p.policy == ResolutionPolicy::FirstWins
                && aliased_field::schema_matches(p.fields, descriptors@),
        },
{
    match parse_fields(descriptors) {
        Ok(fields) => Ok(generate_deserialization_impl(fields, ResolutionPolicy::FirstWins)),
        Err(e) => Err(e),
    }
}

/// Builds a [`DeserializationPlan`] under the last-occurrence-wins policy
/// from raw per-field annotation data.
///
/// Accepts and rejects exactly as [`deserialize_first_duplicate`] does; the
/// plans differ only in which duplicate occurrence survives a scan.
pub fn deserialize_last_duplicate(descriptors: Vec<FieldDescriptor>) -> (r: Result<
    DeserializationPlan,
    AliasedFieldError,
>)
    ensures
        match aliased_field::first_bad_descriptor(descriptors@) {
            Some(i) => r == Err::<DeserializationPlan, AliasedFieldError>(
                aliased_field::descriptor_error(descriptors@[i]),
            ),
            None => r matches Ok(p) && p.policy == ResolutionPolicy::LastWins
                && aliased_field::schema_matches(p.fields, descriptors@),
        },
{
    match parse_fields(descriptors) {
        Ok(fields) => Ok(generate_deserialization_impl(fields, ResolutionPolicy::LastWins)),
        Err(e) => Err(e),
    }
}

} // verus!
