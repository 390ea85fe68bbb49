//! The deserialization-plan generator and the single-pass duplicate
//! resolution algorithm it emits.
//!
//! A [`DeserializationPlan`] pairs a schema with a duplicate-resolution
//! policy. Executing the plan scans a document's key-value pairs once, in
//! document order: each pair is routed to the first schema field that
//! accepts its key (unknown keys are consumed and discarded), duplicates
//! are settled by the policy, and finalization fills defaults in or fails
//! on the first missing required field.

use crate::aliased_field::AliasedFields;
use vstd::prelude::*;

verus! {

/// The rule choosing which captured value survives when more than one pair
/// for a field is present in a document. Chosen once per record type at
/// plan-generation time, not per document.
#[derive(Debug, Clone, Copy, PartialEq, Eq)]
pub enum ResolutionPolicy {
    /// The first occurrence in document order wins; later ones are read
    /// and discarded.
    FirstWins,
    /// The last occurrence in document order wins, overwriting earlier
    /// captures.
    LastWins,
}

/// A field's resolved value after a scan.
#[derive(Debug, Clone, PartialEq, Eq)]
pub enum FieldValue<V> {
    /// The value captured from the document under the policy.
    Captured(V),
    /// No accepted key occurred and the field falls back to its type's
    /// default value, which the host layer materializes.
    Defaulted,
}

/// An error raised while executing a deserialization plan against one
/// document. Either way the scan's partial state is discarded: a document
/// either fully resolves or the parse fails as a whole.
#[derive(Debug, Clone, PartialEq, Eq)]
pub enum DeserializeError {
    /// A field with no default fallback had no accepted key in the
    /// document; carries the field's canonical identifier.
    MissingField(String),
    /// Reading a value from the document failed; carries the reader's
    /// message, propagated opaquely.
    ValueRead(String),
}

/// The keys of a document's pairs, in document order.
pub open spec fn doc_keys<V>(doc: Seq<(String, V)>) -> Seq<Seq<char>> {
    Seq::new(doc.len(), |j: int| doc[j].0@)
}

/// Whether field `fi`'s accepted keys include `key`.
pub open spec fn accepts(fields: AliasedFields, fi: int, key: Seq<char>) -> bool {
    exists|k: int| 0 <= k < fields.names@[fi]@.len() && (#[trigger] fields.names@[fi]@[k])@ == key
}

/// The first field at or after `fi` whose accepted keys include `key`.
pub open spec fn field_for_from(fields: AliasedFields, key: Seq<char>, fi: int) -> Option<int>
    decreases fields.field_count() - fi,
{
    if fi < 0 || fi >= fields.field_count() {
        None
    } else if accepts(fields, fi, key) {
        Some(fi)
    } else {
        field_for_from(fields, key, fi + 1)
    }
}

/// The field a document key is routed to: the first schema field whose
/// accepted keys include it, if any. A key no field accepts is unknown and
/// its pair is discarded.
pub open spec fn field_for(fields: AliasedFields, key: Seq<char>) -> Option<int> {
    field_for_from(fields, key, 0)
}

/// Whether a pair with key `key` is routed to field `fi`.
pub open spec fn routes_to(fields: AliasedFields, fi: int, key: Seq<char>) -> bool {
    field_for(fields, key) == Some(fi)
}

/// The document position whose value field `fi` captures, considering only
/// the pairs at positions `from..`, if any of them routes to `fi`.
pub open spec fn winner_from(
    policy: ResolutionPolicy,
    fields: AliasedFields,
    keys: Seq<Seq<char>>,
    fi: int,
    from: int,
) -> Option<int>
    decreases keys.len() - from,
{
    if from < 0 || from >= keys.len() {
        None
    } else {
        let rest = winner_from(policy, fields, keys, fi, from + 1);
        if routes_to(fields, fi, keys[from]) {
            match policy {
                ResolutionPolicy::FirstWins => Some(from),
                ResolutionPolicy::LastWins => if rest is Some {
                    rest
                } else {
                    Some(from)
                },
            }
        } else {
            rest
        }
    }
}

/// The document position whose value field `fi` captures under the policy:
/// the first position routed to `fi` under `FirstWins`, the last under
/// `LastWins`, and `None` when no pair routes to `fi`.
pub open spec fn winner(
    policy: ResolutionPolicy,
    fields: AliasedFields,
    keys: Seq<Seq<char>>,
    fi: int,
) -> Option<int> {
    winner_from(policy, fields, keys, fi, 0)
}

/// Whether field `fi` resolves against a document with keys `keys`: it
/// either captures a value or falls back to its default.
pub open spec fn resolved(
    policy: ResolutionPolicy,
    fields: AliasedFields,
    keys: Seq<Seq<char>>,
    fi: int,
) -> bool {
    winner(policy, fields, keys, fi) is Some || fields.use_defaults@[fi]
}

/// The first field at or after `fi` that does not resolve, if any.
pub open spec fn first_unresolved_from(
    policy: ResolutionPolicy,
    fields: AliasedFields,
    keys: Seq<Seq<char>>,
    fi: int,
) -> Option<int>
    decreases fields.field_count() - fi,
{
    if fi < 0 || fi >= fields.field_count() {
        None
    } else if !resolved(policy, fields, keys, fi) {
        Some(fi)
    } else {
        first_unresolved_from(policy, fields, keys, fi + 1)
    }
}

/// The first field that does not resolve, if any: the field a failing
/// scan's `MissingField` error names.
pub open spec fn first_unresolved(
    policy: ResolutionPolicy,
    fields: AliasedFields,
    keys: Seq<Seq<char>>,
) -> Option<int> {
    first_unresolved_from(policy, fields, keys, 0)
}

/// What executing a plan over a document with pairs `doc` yields: `Ok`
/// exactly when every field resolves, with each field's captured value or
/// default marker; otherwise `MissingField` naming the first field that
/// does not resolve.
pub open spec fn execute_post<V>(
    policy: ResolutionPolicy,
    fields: AliasedFields,
    doc: Seq<(String, V)>,
    r: Result<Vec<FieldValue<V>>, DeserializeError>,
) -> bool {
    let keys = doc_keys(doc);
    match r {
        Ok(record) => {
            &&& record@.len() == fields.field_count()
            &&& forall|fi: int|
                0 <= fi < fields.field_count() ==> resolved(policy, fields, keys, fi)
            &&& forall|fi: int|
                0 <= fi < fields.field_count() ==> #[trigger] record@[fi] == (match winner(
                    policy,
                    fields,
                    keys,
                    fi,
                ) {
                    Some(j) => FieldValue::Captured(doc[j].1),
                    None => FieldValue::Defaulted,
                })
        },
        Err(e) => {
            &&& first_unresolved(policy, fields, keys) matches Some(fi)
            &&& e == DeserializeError::MissingField(fields.field_identifiers@[fi])
        },
    }
}

/// Generates the executable deserialization procedure for one record type:
/// the schema's single-pass scan, specialized to the chosen
/// duplicate-resolution policy.
pub fn generate_deserialization_impl(fields: AliasedFields, policy: ResolutionPolicy) -> (p:
    DeserializationPlan)
    ensures
        p.fields == fields,
        p.policy == policy,
{
    DeserializationPlan { fields, policy }
}

/// A schema together with a duplicate-resolution policy: the single-pass
/// document-scanning procedure for one record type. Built once per record
/// type and read-only thereafter, so it may be shared freely across any
/// number of simultaneous scans.
#[derive(Debug)]
pub struct DeserializationPlan {
    /// The record type's field alias data.
    pub fields: AliasedFields,
    /// The rule settling duplicate occurrences.
    pub policy: ResolutionPolicy,
}

impl DeserializationPlan {
    /// Resolves one document, given as its key-value pairs in document
    /// order, into one value per schema field.
    ///
    /// The scan routes each pair to the first schema field accepting its
    /// key, discards pairs with unknown keys, and keeps the first or last
    /// occurrence per field as the policy dictates. Finalization yields
    /// each unset field's default marker where the schema allows it and
    /// fails with `MissingField` on the first field where it does not.
    pub fn execute<V>(&self, doc: Vec<(String, V)>) -> (r: Result<
        Vec<FieldValue<V>>,
        DeserializeError,
    >)
        requires
            self.fields.wf(),
        ensures
            execute_post(self.policy, self.fields, doc@, r),
    {
        let field_count = self.fields.field_identifiers.len();
        let ghost orig = doc@;
        let ghost keys = doc_keys(orig);

        let mut slots: Vec<Option<V>> = Vec::new();
        while slots.len() < field_count
            invariant
                slots@.len() <= field_count,
                forall|fi: int| 0 <= fi < slots@.len() ==> (#[trigger] slots@[fi]) is None,
            decreases field_count - slots@.len(),
        {
            slots.push(None);
        }

        let mut remaining = doc;
        proof {
            assert(orig.take(orig.len() as int) =~= orig);
        }
        while remaining.len() > 0
            invariant
                orig == doc@,
                self.fields.wf(),
                slots@.len() == field_count == self.fields.field_count(),
                remaining@.len() <= orig.len(),
                remaining@ == orig.take(remaining@.len() as int),
                keys == doc_keys(orig),
                forall|fi: int|
                    0 <= fi < field_count ==> (match winner_from(
                        self.policy,
                        self.fields,
                        keys,
                        fi,
                        remaining@.len() as int,
                    ) {
                        Some(j) => #[trigger] slots@[fi] == Some(orig[j].1),
                        None => slots@[fi] is None,
                    }),
            decreases remaining@.len(),
        {
            let ghost m = remaining@.len() as int;
            let pair = remaining.pop().unwrap();
            proof {
                assert(pair == orig[m - 1]);
                assert(remaining@ =~= orig.take(m - 1));
                assert(keys[m - 1] == pair.0@);
            }
            let (key, value) = pair;
            match find_field(&self.fields, &key) {
                Some(fi) => {
                    match self.policy {
                        ResolutionPolicy::FirstWins => {
                            slots[fi] = Some(value);
                        },
                        ResolutionPolicy::LastWins => {
                            if slots[fi].is_none() {
                                slots[fi] = Some(value);
                            }
                        },
                    }
                },
                None => {},
            }
        }

        let mut record: Vec<FieldValue<V>> = Vec::new();
        let ghost full_slots = slots@;
        let mut fi: usize = 0;
        while fi < field_count
            invariant
                orig == doc@,
                self.fields.wf(),
                field_count == self.fields.field_count(),
                full_slots.len() == field_count,
                fi + slots@.len() == field_count,
                slots@ == full_slots.skip(fi as int),
                keys == doc_keys(orig),
                forall|fj: int|
                    0 <= fj < field_count ==> (match winner(self.policy, self.fields, keys, fj) {
                        Some(j) => #[trigger] full_slots[fj] == Some(orig[j].1),
                        None => full_slots[fj] is None,
                    }),
                record@.len() == fi,
                forall|fj: int| 0 <= fj < fi ==> resolved(self.policy, self.fields, keys, fj),
                forall|fj: int|
                    0 <= fj < fi ==> #[trigger] record@[fj] == (match winner(
                        self.policy,
                        self.fields,
                        keys,
                        fj,
                    ) {
                        Some(j) => FieldValue::Captured(orig[j].1),
                        None => FieldValue::Defaulted,
                    }),
            decreases field_count - fi,
        {
            let slot = slots.remove(0);
            proof {
                assert(slot == full_slots[fi as int]);
                assert(slots@ =~= full_slots.skip(fi as int + 1));
            }
            match slot {
                Some(v) => {
                    record.push(FieldValue::Captured(v));
                },
                None => {
                    if self.fields.use_defaults[fi] {
                        record.push(FieldValue::Defaulted);
                    } else {
                        proof {
                            lemma_first_unresolved_is_least(
                                self.policy,
                                self.fields,
                                keys,
                                fi as int,
                            );
                        }
                        return Err(
                            DeserializeError::MissingField(self.fields.field_identifiers[fi].clone()),
                        );
                    }
                },
            }
            fi = fi + 1;
        }
        Ok(record)
    }

    /// Resolves one document whose values arrive as the document reader
    /// produced them: reading a value may itself have failed.
    ///
    /// A failed read anywhere in the document — even under an unknown key,
    /// since every value is read to keep the input cursor consistent —
    /// aborts the whole parse with the first failure's message, discarding
    /// all partial state. A fully read document resolves exactly as
    /// [`DeserializationPlan::execute`] resolves its pairs.
    pub fn execute_read_results<V>(&self, doc: Vec<(String, Result<V, String>)>) -> (r: Result<
        Vec<FieldValue<V>>,
        DeserializeError,
    >)
        requires
            self.fields.wf(),
        ensures
            match first_read_error(doc@) {
                Some(j) => r == Err::<Vec<FieldValue<V>>, DeserializeError>(
                    DeserializeError::ValueRead(doc@[j].1->Err_0),
                ),
                None => execute_post(self.policy, self.fields, read_doc(doc@), r),
            },
    {
        let len = doc.len();
        let mut j: usize = 0;
        while j < len
            invariant
                j <= len == doc@.len(),
                forall|k: int| 0 <= k < j ==> (#[trigger] doc@[k]).1 is Ok,
            decreases len - j,
        {
            match &doc[j].1 {
                Err(m) => {
                    proof {
                        lemma_first_read_error_is_least(doc@, j as int);
                    }
                    return Err(DeserializeError::ValueRead(m.clone()));
                },
                Ok(_) => {},
            }
            j = j + 1;
        }
        proof {
            lemma_first_read_error_none(doc@);
        }

        let ghost all = doc@;
        let mut remaining = doc;
        let mut pairs: Vec<(String, V)> = Vec::new();
        let ghost mut done: int = 0;
        while remaining.len() > 0
            invariant
                all == doc@,
                forall|k: int| 0 <= k < all.len() ==> (#[trigger] all[k]).1 is Ok,
                0 <= done <= all.len(),
                done + remaining@.len() == all.len(),
                remaining@ == all.skip(done),
                pairs@.len() == done,
                forall|k: int|
                    0 <= k < done ==> #[trigger] pairs@[k] == (all[k].0, all[k].1->Ok_0),
            decreases remaining@.len(),
        {
            let pair = remaining.remove(0);
            proof {
                assert(pair == all[done]);
                assert(remaining@ =~= all.skip(done + 1));
            }
            let (key, value) = pair;
            match value {
                Ok(v) => {
                    pairs.push((key, v));
                },
                Err(_) => {
                    proof {
                        assert(all[done].1 is Ok);
                    }
                    return vstd::pervasive::unreached();
                },
            }
            proof {
                done = done + 1;
            }
        }
        proof {
            assert(pairs@ =~= read_doc(all));
        }
        self.execute(pairs)
    }
}

/// If every value before `j` was read and `doc[j]`'s was not, then `j` is
/// the first failed read.
pub proof fn lemma_first_read_error_is_least<V>(doc: Seq<(String, Result<V, String>)>, j: int)
    requires
        0 <= j < doc.len(),
        doc[j].1 is Err,
        forall|k: int| 0 <= k < j ==> (#[trigger] doc[k]).1 is Ok,
    ensures
        first_read_error(doc) == Some(j),
{
    lemma_first_read_error_from_least(doc, 0, j);
}

proof fn lemma_first_read_error_from_least<V>(
    doc: Seq<(String, Result<V, String>)>,
    from: int,
    j: int,
)
    requires
        0 <= from <= j < doc.len(),
        doc[j].1 is Err,
        forall|k: int| from <= k < j ==> (#[trigger] doc[k]).1 is Ok,
    ensures
        first_read_error_from(doc, from) == Some(j),
    decreases j - from,
{
    if from < j {
        lemma_first_read_error_from_least(doc, from + 1, j);
    }
}

/// If every value was read, there is no first failed read.
pub proof fn lemma_first_read_error_none<V>(doc: Seq<(String, Result<V, String>)>)
    requires
        forall|k: int| 0 <= k < doc.len() ==> (#[trigger] doc[k]).1 is Ok,
    ensures
        first_read_error(doc) is None,
{
    lemma_first_read_error_from_none(doc, 0);
}

proof fn lemma_first_read_error_from_none<V>(doc: Seq<(String, Result<V, String>)>, from: int)
    requires
        0 <= from,
        forall|k: int| from <= k < doc.len() ==> (#[trigger] doc[k]).1 is Ok,
    ensures
        first_read_error_from(doc, from) is None,
    decreases doc.len() - from,
{
    if from < doc.len() {
        lemma_first_read_error_from_none(doc, from + 1);
    }
}

/// The position of the first pair whose value the document reader failed
/// to read, at or after `from`, if any.
pub open spec fn first_read_error_from<V>(
    doc: Seq<(String, Result<V, String>)>,
    from: int,
) -> Option<int>
    decreases doc.len() - from,
{
    if from < 0 || from >= doc.len() {
        None
    } else if doc[from].1 is Err {
        Some(from)
    } else {
        first_read_error_from(doc, from + 1)
    }
}

/// The position of the first pair whose value the document reader failed
/// to read, if any.
pub open spec fn first_read_error<V>(doc: Seq<(String, Result<V, String>)>) -> Option<int> {
    first_read_error_from(doc, 0)
}

/// The pairs of a document all of whose values were read successfully.
pub open spec fn read_doc<V>(doc: Seq<(String, Result<V, String>)>) -> Seq<(String, V)> {
    Seq::new(doc.len(), |j: int| (doc[j].0, doc[j].1->Ok_0))
}

/// Finds the first schema field whose accepted keys include `key`.
fn find_field(fields: &AliasedFields, key: &String) -> (r: Option<usize>)
    requires
        fields.wf(),
    ensures
        match r {
            Some(fi) => 0 <= fi < fields.field_count() && field_for(*fields, key@) == Some(
                fi as int,
            ),
            None => field_for(*fields, key@) is None,
        },
{
    let field_count = fields.names.len();
    let mut fi: usize = 0;
    while fi < field_count
        invariant
            fields.wf(),
            field_count == fields.field_count(),
            0 <= fi <= field_count,
            field_for(*fields, key@) == field_for_from(*fields, key@, fi as int),
        decreases field_count - fi,
    {
        if contains_key(&fields.names[fi], key) {
            return Some(fi);
        }
        fi = fi + 1;
    }
    None
}

/// Whether `key` occurs among the accepted key names `names`.
fn contains_key(names: &Vec<String>, key: &String) -> (r: bool)
    ensures
        r == exists|k: int| 0 <= k < names@.len() && (#[trigger] names@[k])@ == key@,
{
    let len = names.len();
    let mut k: usize = 0;
    while k < len
        invariant
            0 <= k <= len == names@.len(),
            forall|k2: int| 0 <= k2 < k ==> (#[trigger] names@[k2])@ != key@,
        decreases len - k,
    {
        if names[k] == *key {
            return true;
        }
        k = k + 1;
    }
    false
}

/// If every field before `fi` resolves and `fi` does not, then `fi` is the
/// first unresolved field.
pub proof fn lemma_first_unresolved_is_least(
    policy: ResolutionPolicy,
    fields: AliasedFields,
    keys: Seq<Seq<char>>,
    fi: int,
)
    requires
        0 <= fi < fields.field_count(),
        !resolved(policy, fields, keys, fi),
        forall|fj: int| 0 <= fj < fi ==> resolved(policy, fields, keys, fj),
    ensures
        first_unresolved(policy, fields, keys) == Some(fi),
{
    lemma_first_unresolved_from_least(policy, fields, keys, 0, fi);
}

proof fn lemma_first_unresolved_from_least(
    policy: ResolutionPolicy,
    fields: AliasedFields,
    keys: Seq<Seq<char>>,
    from: int,
    fi: int,
)
    requires
        0 <= from <= fi < fields.field_count(),
        !resolved(policy, fields, keys, fi),
        forall|fj: int| from <= fj < fi ==> resolved(policy, fields, keys, fj),
    ensures
        first_unresolved_from(policy, fields, keys, from) == Some(fi),
    decreases fi - from,
{
    if from < fi {
        lemma_first_unresolved_from_least(policy, fields, keys, from + 1, fi);
    }
}

} // verus!
