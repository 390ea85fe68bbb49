//! Building a whole schema from raw per-field annotation data.

use crate::aliased_field::{
    descriptor_error, descriptor_ok, entry_matches, first_bad_descriptor, schema_matches,
    AliasedField, AliasedFieldError, AliasedFields, FieldDescriptor,
};
use vstd::prelude::*;

verus! {

/// Normalizes an ordered list of raw field descriptors into an
/// [`AliasedFields`] schema.
///
/// Every descriptor must be accepted by [`AliasedField::try_from`]; the
/// first rejected descriptor's error is returned otherwise. On success the
/// schema describes the descriptors' fields in declaration order, each with
/// its identifier first among the accepted keys.
pub fn parse_fields(input: Vec<FieldDescriptor>) -> (r: Result<AliasedFields, AliasedFieldError>)
    ensures
        match first_bad_descriptor(input@) {
            Some(i) => r == Err::<AliasedFields, AliasedFieldError>(descriptor_error(input@[i])),
            None => r matches Ok(s) && schema_matches(s, input@),
        },
{
    let mut entries: Vec<AliasedField> = Vec::new();
    let ghost all = input@;
    let mut remaining = input;
    let ghost mut done: int = 0;

    while remaining.len() > 0
        invariant
            all == input@,
            0 <= done <= all.len(),
            done + remaining@.len() == all.len(),
            remaining@ == all.skip(done),
            entries@.len() == done,
            forall|i: int| 0 <= i < done ==> descriptor_ok(#[trigger] all[i]),
            forall|i: int|
                0 <= i < done ==> entry_matches(
                    #[trigger] entries@[i],
                    all[i].identifier->0,
                    all[i],
                ),
        decreases remaining@.len(),
    {
        let descriptor = remaining.remove(0);
        proof {
            assert(descriptor == all[done]);
            assert(remaining@ =~= all.skip(done + 1));
        }
        match AliasedField::try_from(descriptor) {
            Ok(entry) => {
                entries.push(entry);
            },
            Err(e) => {
                proof {
                    lemma_first_bad_descriptor_is_least(all, done);
                }
                return Err(e);
            },
        }
        proof {
            done = done + 1;
        }
    }
    proof {
        lemma_first_bad_descriptor_none(all);
    }
    let schema = AliasedFields::from_fields(entries);
    proof {
        assert forall|i: int| 0 <= i < all.len() implies {
            &&& (#[trigger] all[i]).identifier is Some
            &&& schema.field_identifiers@[i] == all[i].identifier->0
            &&& schema.names@[i].deep_view() == seq![all[i].identifier->0@]
                + crate::aliased_field::alias_keys(all[i].directives@)
            &&& schema.use_defaults@[i] == crate::aliased_field::any_default(all[i].directives@)
        } by {
            assert(entry_matches(entries@[i], all[i].identifier->0, all[i]));
        }
        assert forall|i: int|
            0 <= i < schema.field_count() implies (#[trigger] schema.names@[i])@.len() >= 1
            && schema.names@[i]@[0]@ == schema.field_identifiers@[i]@ by {
            assert(schema.names@[i].deep_view() == seq![all[i].identifier->0@]
                + crate::aliased_field::alias_keys(all[i].directives@));
            assert(schema.names@[i].deep_view().len() >= 1);
            assert(schema.names@[i]@.len() == schema.names@[i].deep_view().len());
            assert(schema.names@[i].deep_view()[0] == schema.names@[i]@[0]@);
            assert(schema.names@[i].deep_view()[0] == all[i].identifier->0@);
        }
    }
    Ok(schema)
}

/// If every descriptor before `i` is accepted and `ds[i]` is not, then `i`
/// is the first rejected position.
pub proof fn lemma_first_bad_descriptor_is_least(ds: Seq<FieldDescriptor>, i: int)
    requires
        0 <= i < ds.len(),
        !descriptor_ok(ds[i]),
        forall|i2: int| 0 <= i2 < i ==> descriptor_ok(#[trigger] ds[i2]),
    ensures
        first_bad_descriptor(ds) == Some(i),
{
    lemma_first_bad_descriptor_from_least(ds, 0, i);
}

proof fn lemma_first_bad_descriptor_from_least(ds: Seq<FieldDescriptor>, from: int, i: int)
    requires
        0 <= from <= i < ds.len(),
        !descriptor_ok(ds[i]),
        forall|i2: int| from <= i2 < i ==> descriptor_ok(#[trigger] ds[i2]),
    ensures
        crate::aliased_field::first_bad_descriptor_from(ds, from) == Some(i),
    decreases i - from,
{
    if from < i {
        lemma_first_bad_descriptor_from_least(ds, from + 1, i);
    }
}

/// If every descriptor is accepted, there is no first rejected position.
pub proof fn lemma_first_bad_descriptor_none(ds: Seq<FieldDescriptor>)
    requires
        forall|i: int| 0 <= i < ds.len() ==> descriptor_ok(#[trigger] ds[i]),
    ensures
        first_bad_descriptor(ds) is None,
{
    lemma_first_bad_descriptor_from_none(ds, 0);
}

proof fn lemma_first_bad_descriptor_from_none(ds: Seq<FieldDescriptor>, from: int)
    requires
        0 <= from,
        forall|i: int| from <= i < ds.len() ==> descriptor_ok(#[trigger] ds[i]),
    ensures
        crate::aliased_field::first_bad_descriptor_from(ds, from) is None,
    decreases ds.len() - from,
{
    if from < ds.len() {
        lemma_first_bad_descriptor_from_none(ds, from + 1);
    }
}

} // verus!
