//! The field-alias model: normalizing raw per-field annotation data into
//! [`AliasedField`] entries and the [`AliasedFields`] schema built of them.

pub mod aliased_field_error;
pub mod aliased_fields;

pub use aliased_field_error::AliasedFieldError;
pub use aliased_fields::AliasedFields;

use vstd::prelude::*;

verus! {

/// One raw annotation directive attached to a field, as handed over by the
/// annotation-extraction layer: the directive's name and its value, if it
/// carried one (`alias = "key"` has a value, `default` has none).
pub struct RawDirective {
    /// The directive's name.
    pub name: String,
    /// The directive's value, where one was written.
    pub value: Option<String>,
}

/// Raw description of one schema field, as handed over by the
/// annotation-extraction layer: the field's declared identifier (absent for
/// positional-only fields) and its annotation directives in declaration
/// order.
pub struct FieldDescriptor {
    /// The field's declared identifier, if it has one.
    pub identifier: Option<String>,
    /// The field's annotation directives, in declaration order.
    pub directives: Vec<RawDirective>,
}

/// A directive that appends one accepted key: `alias` or `rename`, with the
/// key name as its value.
pub open spec fn directive_is_alias(d: RawDirective) -> bool {
    (d.name@ == "alias"@ || d.name@ == "rename"@) && d.value is Some
}

/// A directive that turns on the default fallback: `default`, with no value.
pub open spec fn directive_is_default(d: RawDirective) -> bool {
    d.name@ == "default"@ && d.value is None
}

/// A directive this model recognizes.
pub open spec fn directive_is_valid(d: RawDirective) -> bool {
    directive_is_alias(d) || directive_is_default(d)
}

/// The accepted keys contributed by the directives `ds`, in declaration
/// order: one key per alias/rename directive.
pub open spec fn alias_keys(ds: Seq<RawDirective>) -> Seq<Seq<char>>
    decreases ds.len(),
{
    if ds.len() == 0 {
        Seq::empty()
    } else if directive_is_alias(ds.last()) {
        alias_keys(ds.drop_last()).push(ds.last().value->0@)
    } else {
        alias_keys(ds.drop_last())
    }
}

/// Whether any directive among `ds` turns on the default fallback.
pub open spec fn any_default(ds: Seq<RawDirective>) -> bool {
    exists|k: int| 0 <= k < ds.len() && directive_is_default(#[trigger] ds[k])
}

/// The position of the first invalid directive among `ds[from..]`, if any.
pub open spec fn first_invalid_from(ds: Seq<RawDirective>, from: int) -> Option<int>
    decreases ds.len() - from,
{
    if from < 0 || from >= ds.len() {
        None
    } else if !directive_is_valid(ds[from]) {
        Some(from)
    } else {
        first_invalid_from(ds, from + 1)
    }
}

/// The position of the first invalid directive among `ds`, if any.
pub open spec fn first_invalid(ds: Seq<RawDirective>) -> Option<int> {
    first_invalid_from(ds, 0)
}

/// A descriptor that the model accepts: it is named, and every directive is
/// valid.
pub open spec fn descriptor_ok(d: FieldDescriptor) -> bool {
    d.identifier is Some && first_invalid(d.directives@) is None
}

/// The error reported for a rejected descriptor: `UnnamedField` for a
/// nameless one, otherwise the name of its first invalid directive.
pub open spec fn descriptor_error(d: FieldDescriptor) -> AliasedFieldError {
    if d.identifier is None {
        AliasedFieldError::UnnamedField
    } else {
        AliasedFieldError::DirectiveError(d.directives@[first_invalid(d.directives@)->0].name)
    }
}

/// The position of the first rejected descriptor among `ds[from..]`, if any.
pub open spec fn first_bad_descriptor_from(ds: Seq<FieldDescriptor>, from: int) -> Option<int>
    decreases ds.len() - from,
{
    if from < 0 || from >= ds.len() {
        None
    } else if !descriptor_ok(ds[from]) {
        Some(from)
    } else {
        first_bad_descriptor_from(ds, from + 1)
    }
}

/// The position of the first rejected descriptor among `ds`, if any.
pub open spec fn first_bad_descriptor(ds: Seq<FieldDescriptor>) -> Option<int> {
    first_bad_descriptor_from(ds, 0)
}

/// What [`AliasedField::try_from`] yields for an accepted descriptor `d`
/// with identifier `id`: the entry `f` lists `id` first, then the declared
/// alias keys in order, and records whether a `default` directive occurred.
pub open spec fn entry_matches(f: AliasedField, id: String, d: FieldDescriptor) -> bool {
    &&& f.field_identifier == id
    &&& f.names.deep_view() == seq![id@] + alias_keys(d.directives@)
    &&& f.uses_default == any_default(d.directives@)
}

/// A schema `s` that [`parse_fields`](crate::parse_fields) built from the
/// accepted descriptors `ds`: one entry per descriptor, in order, each as
/// [`entry_matches`] describes.
pub open spec fn schema_matches(s: AliasedFields, ds: Seq<FieldDescriptor>) -> bool {
    &&& s.wf()
    &&& s.canonical_names_first()
    &&& s.field_count() == ds.len()
    &&& forall|i: int|
        0 <= i < ds.len() ==> {
            &&& (#[trigger] ds[i]).identifier is Some
            &&& s.field_identifiers@[i] == ds[i].identifier->0
            &&& s.names@[i].deep_view() == seq![ds[i].identifier->0@] + alias_keys(ds[i].directives@)
            &&& s.use_defaults@[i] == any_default(ds[i].directives@)
        }
}

/// A field which has been annotated with alias, rename or default
/// directives: its identifier, the full ordered list of accepted key names
/// (the identifier's own textual form first), and whether absence falls
/// back to the field type's default value.
pub struct AliasedField {
    /// The original field's identifier.
    pub field_identifier: String,
    /// The accepted key names, the canonical one first.
    pub names: Vec<String>,
    /// Whether this field resolves to the type's default value when no
    /// accepted key occurs in a document.
    pub uses_default: bool,
}

impl AliasedField {
    /// Normalizes one raw field descriptor into an [`AliasedField`].
    ///
    /// A descriptor without an identifier is rejected with
    /// [`AliasedFieldError::UnnamedField`]; a descriptor whose directives
    /// are not all valid is rejected with the name of the first offending
    /// directive. Otherwise the entry's accepted keys are the identifier
    /// followed by the alias/rename keys in declaration order.
    pub fn try_from(value: FieldDescriptor) -> (r: Result<AliasedField, AliasedFieldError>)
        ensures
            match value.identifier {
                None => r == Err::<AliasedField, AliasedFieldError>(AliasedFieldError::UnnamedField),
                Some(id) => match first_invalid(value.directives@) {
                    Some(k) => r == Err::<AliasedField, AliasedFieldError>(
                        AliasedFieldError::DirectiveError(value.directives@[k].name),
                    ),
                    None => r matches Ok(f) && entry_matches(f, id, value),
                },
            },
    {
        let field_identifier = match value.identifier {
            Some(id) => id,
            None => {
                return Err(AliasedFieldError::UnnamedField);
            },
        };
        let alias_name: String = "alias".to_owned();
        let rename_name: String = "rename".to_owned();
        let default_name: String = "default".to_owned();

        let mut names: Vec<String> = Vec::new();
        names.push(field_identifier.clone());
        let mut uses_default = false;
        let mut directives = value.directives;
        let ghost all = directives@;
        let ghost mut done: int = 0;

        proof {
            assert(alias_keys(all.take(0)) =~= Seq::<Seq<char>>::empty());
        }

        while directives.len() > 0
            invariant
                0 <= done <= all.len(),
                done + directives@.len() == all.len(),
                directives@ == all.skip(done),
                value.identifier == Some(field_identifier),
                value.directives@ == all,
                alias_name@ == "alias"@,
                rename_name@ == "rename"@,
                default_name@ == "default"@,
                forall|k: int| 0 <= k < done ==> directive_is_valid(#[trigger] all[k]),
                names@.len() == 1 + alias_keys(all.take(done)).len(),
                names@[0]@ == field_identifier@,
                forall|i: int|
                    1 <= i < names@.len() ==> (#[trigger] names@[i])@ == alias_keys(
                        all.take(done),
                    )[i - 1],
                uses_default == any_default(all.take(done)),
            decreases directives@.len(),
        {
            let d = directives.remove(0);
            let aliasing = d.name == alias_name || d.name == rename_name;
            let defaulting = d.name == default_name;
            let value_present = d.value.is_some();
            proof {
                assert(d == all[done]);
                assert(directives@ =~= all.skip(done + 1));
                assert(all.take(done + 1).drop_last() =~= all.take(done));
                assert(all.take(done + 1).last() == all[done]);
                assert(directive_is_alias(all[done]) == (aliasing && value_present));
                assert(directive_is_default(all[done]) == (defaulting && !value_present));
            }
            if aliasing && value_present {
                let v = d.value.unwrap();
                names.push(v);
                proof {
                    assert(v == all[done].value->0);
                    assert(alias_keys(all.take(done + 1)) =~= alias_keys(all.take(done)).push(
                        all[done].value->0@,
                    ));
                    assert forall|k: int|
                        0 <= k < all.take(done + 1).len() && directive_is_default(
                            #[trigger] all.take(done + 1)[k],
                        ) implies any_default(all.take(done)) by {
                        assert(k != done);
                        assert(directive_is_default(all.take(done)[k]));
                    }
                    if any_default(all.take(done)) {
                        let k = choose|k: int|
                            0 <= k < all.take(done).len() && directive_is_default(
                                #[trigger] all.take(done)[k],
                            );
                        assert(directive_is_default(all.take(done + 1)[k]));
                    }
                    assert(uses_default == any_default(all.take(done + 1)));
                }
            } else if defaulting && !value_present {
                uses_default = true;
                proof {
                    assert(directive_is_default(all[done]));
                    assert(all.take(done + 1)[done] == all[done]);
                    assert(any_default(all.take(done + 1)));
                    assert(alias_keys(all.take(done + 1)) =~= alias_keys(all.take(done)));
                }
            } else {
                proof {
                    assert(!directive_is_valid(all[done]));
                    lemma_first_invalid_is_least(all, done);
                }
                return Err(AliasedFieldError::DirectiveError(d.name));
            }
            proof {
                done = done + 1;
            }
        }
        proof {
            assert(all.take(done) =~= all);
            lemma_first_invalid_none(all);
            assert(names.deep_view() =~= seq![field_identifier@] + alias_keys(all));
        }
        Ok(AliasedField { field_identifier, names, uses_default })
    }
}

/// If every directive before `k` is valid and `ds[k]` is not, then `k` is
/// the first invalid position.
pub proof fn lemma_first_invalid_is_least(ds: Seq<RawDirective>, k: int)
    requires
        0 <= k < ds.len(),
        !directive_is_valid(ds[k]),
        forall|k2: int| 0 <= k2 < k ==> directive_is_valid(#[trigger] ds[k2]),
    ensures
        first_invalid(ds) == Some(k),
{
    lemma_first_invalid_from_least(ds, 0, k);
}

proof fn lemma_first_invalid_from_least(ds: Seq<RawDirective>, from: int, k: int)
    requires
        0 <= from <= k < ds.len(),
        !directive_is_valid(ds[k]),
        forall|k2: int| from <= k2 < k ==> directive_is_valid(#[trigger] ds[k2]),
    ensures
        first_invalid_from(ds, from) == Some(k),
    decreases k - from,
{
    if from < k {
        lemma_first_invalid_from_least(ds, from + 1, k);
    }
}

/// If every directive is valid, there is no first invalid position.
pub proof fn lemma_first_invalid_none(ds: Seq<RawDirective>)
    requires
        forall|k: int| 0 <= k < ds.len() ==> directive_is_valid(#[trigger] ds[k]),
    ensures
        first_invalid(ds) is None,
{
    lemma_first_invalid_from_none(ds, 0);
}

proof fn lemma_first_invalid_from_none(ds: Seq<RawDirective>, from: int)
    requires
        forall|k: int| from <= k < ds.len() ==> directive_is_valid(#[trigger] ds[k]),
        0 <= from,
    ensures
        first_invalid_from(ds, from) is None,
    decreases ds.len() - from,
{
    if from < ds.len() {
        lemma_first_invalid_from_none(ds, from + 1);
    }
}

} // verus!
