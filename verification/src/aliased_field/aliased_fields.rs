//! The schema: the ordered collection of every field's alias data for one
//! record type, split into parallel per-field columns.

use super::AliasedField;
use vstd::prelude::*;

verus! {

/// The ordered alias data of every field of one record type, built once
/// when the record type's deserialization plan is generated and immutable
/// thereafter. The three columns are parallel: entry `i` of each describes
/// the schema's `i`-th field.
#[derive(Debug)]
pub struct AliasedFields {
    /// Each field's identifier.
    pub field_identifiers: Vec<String>,
    /// Each field's accepted key names, the canonical one first.
    pub names: Vec<Vec<String>>,
    /// Whether each field falls back to its type's default value when no
    /// accepted key occurs in a document.
    pub use_defaults: Vec<bool>,
}

impl AliasedFields {
    /// The number of fields in the schema.
    pub open spec fn field_count(self) -> int {
        self.field_identifiers@.len() as int
    }

    /// Well-formedness: the three columns describe the same fields, so
    /// they have the same length.
    pub open spec fn wf(self) -> bool {
        &&& self.names@.len() == self.field_count()
        &&& self.use_defaults@.len() == self.field_count()
    }

    /// Every field's first accepted key is its own identifier.
    pub open spec fn canonical_names_first(self) -> bool {
        forall|i: int|
            0 <= i < self.field_count() ==> (#[trigger] self.names@[i])@.len() >= 1
                && self.names@[i]@[0]@ == self.field_identifiers@[i]@
    }

    /// Splits a list of per-field entries into the schema's parallel
    /// columns, preserving field order.
    pub fn from_fields(fields: Vec<AliasedField>) -> (r: Self)
        ensures
            r.wf(),
            r.field_count() == fields@.len(),
            forall|i: int|
                0 <= i < fields@.len() ==> {
                    &&& r.field_identifiers@[i] == (#[trigger] fields@[i]).field_identifier
                    &&& r.names@[i] == fields@[i].names
                    &&& r.use_defaults@[i] == fields@[i].uses_default
                },
    {
        let mut field_identifiers_list: Vec<String> = Vec::new();
        let mut names_list: Vec<Vec<String>> = Vec::new();
        let mut use_defaults: Vec<bool> = Vec::new();

        let mut fields = fields;
        let ghost all = fields@;
        let ghost mut done: int = 0;

        while fields.len() > 0
            invariant
                0 <= done <= all.len(),
                done + fields@.len() == all.len(),
                fields@ == all.skip(done),
                field_identifiers_list@.len() == done,
                names_list@.len() == done,
                use_defaults@.len() == done,
                forall|i: int|
                    0 <= i < done ==> {
                        &&& field_identifiers_list@[i] == (#[trigger] all[i]).field_identifier
                        &&& names_list@[i] == all[i].names
                        &&& use_defaults@[i] == all[i].uses_default
                    },
            decreases fields@.len(),
        {
            let field = fields.remove(0);
            proof {
                assert(field == all[done]);
                assert(fields@ =~= all.skip(done + 1));
            }
            let AliasedField { field_identifier, names, uses_default } = field;

            field_identifiers_list.push(field_identifier);
            names_list.push(names);
            use_defaults.push(uses_default);
            proof {
                done = done + 1;
            }
        }

        Self { field_identifiers: field_identifiers_list, names: names_list, use_defaults }
    }
}

} // verus!
