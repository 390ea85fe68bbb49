//! Proved laws of the duplicate-resolution algorithm: which occurrence each
//! policy keeps, that only the policy and document order decide among a
//! field's accepted keys, how absent fields resolve, and that unknown keys
//! are inert.

use crate::aliased_field::AliasedFields;
use crate::generate_deserialization_impl::{
    accepts, field_for, field_for_from, first_unresolved, first_unresolved_from, resolved,
    routes_to, winner, winner_from, ResolutionPolicy,
};
use vstd::prelude::*;

verus! {

/// A winning position lies in the scanned range and is routed to the
/// field it resolves.
pub proof fn lemma_winner_routes(
    policy: ResolutionPolicy,
    fields: AliasedFields,
    keys: Seq<Seq<char>>,
    fi: int,
    from: int,
    j: int,
)
    requires
        winner_from(policy, fields, keys, fi, from) == Some(j),
        0 <= from,
    ensures
        from <= j < keys.len(),
        routes_to(fields, fi, keys[j]),
    decreases keys.len() - from,
{
    if from < keys.len() {
        if winner_from(policy, fields, keys, fi, from + 1) == Some(j) {
            lemma_winner_routes(policy, fields, keys, fi, from + 1, j);
        }
    }
}

/// A field captures some value exactly when some scanned pair is routed
/// to it.
pub proof fn lemma_winner_some_iff_routed(
    policy: ResolutionPolicy,
    fields: AliasedFields,
    keys: Seq<Seq<char>>,
    fi: int,
    from: int,
)
    requires
        0 <= from,
    ensures
        winner_from(policy, fields, keys, fi, from) is Some <==> exists|j: int|
            from <= j < keys.len() && routes_to(fields, fi, #[trigger] keys[j]),
    decreases keys.len() - from,
{
    if from < keys.len() {
        lemma_winner_some_iff_routed(policy, fields, keys, fi, from + 1);
    }
}

/// A key routed to a field is one of its accepted keys.
pub proof fn lemma_routed_key_is_accepted(fields: AliasedFields, fi: int, key: Seq<char>)
    requires
        routes_to(fields, fi, key),
    ensures
        accepts(fields, fi, key),
{
    lemma_field_for_from_accepts(fields, key, 0, fi);
}

proof fn lemma_field_for_from_accepts(fields: AliasedFields, key: Seq<char>, from: int, fi: int)
    requires
        0 <= from,
        field_for_from(fields, key, from) == Some(fi),
    ensures
        accepts(fields, fi, key),
        from <= fi < fields.field_count(),
    decreases fields.field_count() - from,
{
    if from < fields.field_count() && !accepts(fields, from, key) {
        lemma_field_for_from_accepts(fields, key, from + 1, fi);
    }
}

/// Under `FirstWins`, a field's captured value is the value of the first
/// document pair routed to it: duplicates later in document order are
/// discarded.
pub proof fn lemma_first_wins_takes_first_occurrence(
    fields: AliasedFields,
    keys: Seq<Seq<char>>,
    fi: int,
    j: int,
)
    requires
        0 <= j < keys.len(),
        routes_to(fields, fi, keys[j]),
        forall|j2: int| 0 <= j2 < j ==> !routes_to(fields, fi, #[trigger] keys[j2]),
    ensures
        winner(ResolutionPolicy::FirstWins, fields, keys, fi) == Some(j),
{
    lemma_first_wins_from(fields, keys, fi, 0, j);
}

proof fn lemma_first_wins_from(
    fields: AliasedFields,
    keys: Seq<Seq<char>>,
    fi: int,
    from: int,
    j: int,
)
    requires
        0 <= from <= j < keys.len(),
        routes_to(fields, fi, keys[j]),
        forall|j2: int| from <= j2 < j ==> !routes_to(fields, fi, #[trigger] keys[j2]),
    ensures
        winner_from(ResolutionPolicy::FirstWins, fields, keys, fi, from) == Some(j),
    decreases j - from,
{
    if from < j {
        lemma_first_wins_from(fields, keys, fi, from + 1, j);
    }
}

/// Under `LastWins`, a field's captured value is the value of the last
/// document pair routed to it: each occurrence overwrites the earlier
/// ones.
pub proof fn lemma_last_wins_takes_last_occurrence(
    fields: AliasedFields,
    keys: Seq<Seq<char>>,
    fi: int,
    j: int,
)
    requires
        0 <= j < keys.len(),
        routes_to(fields, fi, keys[j]),
        forall|j2: int| j < j2 < keys.len() ==> !routes_to(fields, fi, #[trigger] keys[j2]),
    ensures
        winner(ResolutionPolicy::LastWins, fields, keys, fi) == Some(j),
{
    lemma_last_wins_from(fields, keys, fi, 0, j);
}

proof fn lemma_last_wins_from(
    fields: AliasedFields,
    keys: Seq<Seq<char>>,
    fi: int,
    from: int,
    j: int,
)
    requires
        0 <= from <= j < keys.len(),
        routes_to(fields, fi, keys[j]),
        forall|j2: int| j < j2 < keys.len() ==> !routes_to(fields, fi, #[trigger] keys[j2]),
    ensures
        winner_from(ResolutionPolicy::LastWins, fields, keys, fi, from) == Some(j),
    decreases j - from,
{
    if from == j {
        lemma_winner_some_iff_routed(ResolutionPolicy::LastWins, fields, keys, fi, j + 1);
        assert(winner_from(ResolutionPolicy::LastWins, fields, keys, fi, j + 1) is None);
    } else {
        lemma_last_wins_from(fields, keys, fi, from + 1, j);
    }
}

/// Which document position a field captures depends only on the policy
/// and on which positions are routed to the field — not on which specific
/// accepted key (canonical name or any alias) stood at those positions.
pub proof fn lemma_winner_independent_of_which_alias(
    policy: ResolutionPolicy,
    fields: AliasedFields,
    keys1: Seq<Seq<char>>,
    keys2: Seq<Seq<char>>,
    fi: int,
)
    requires
        keys1.len() == keys2.len(),
        forall|j: int|
            0 <= j < keys1.len() ==> routes_to(fields, fi, #[trigger] keys1[j]) == routes_to(
                fields,
                fi,
                #[trigger] keys2[j],
            ),
    ensures
        winner(policy, fields, keys1, fi) == winner(policy, fields, keys2, fi),
{
    lemma_winner_same_routing_from(policy, fields, keys1, keys2, fi, 0);
}

proof fn lemma_winner_same_routing_from(
    policy: ResolutionPolicy,
    fields: AliasedFields,
    keys1: Seq<Seq<char>>,
    keys2: Seq<Seq<char>>,
    fi: int,
    from: int,
)
    requires
        0 <= from,
        keys1.len() == keys2.len(),
        forall|j: int|
            0 <= j < keys1.len() ==> routes_to(fields, fi, #[trigger] keys1[j]) == routes_to(
                fields,
                fi,
                #[trigger] keys2[j],
            ),
    ensures
        winner_from(policy, fields, keys1, fi, from) == winner_from(policy, fields, keys2, fi, from),
    decreases keys1.len() - from,
{
    if from < keys1.len() {
        lemma_winner_same_routing_from(policy, fields, keys1, keys2, fi, from + 1);
    }
}

/// A field none of whose accepted keys occur in the document captures
/// nothing; if it falls back to a default it still resolves, under either
/// policy, and contributes no failure.
pub proof fn lemma_absent_defaulted_field_resolves(
    policy: ResolutionPolicy,
    fields: AliasedFields,
    keys: Seq<Seq<char>>,
    fi: int,
)
    requires
        0 <= fi < fields.use_defaults@.len(),
        fields.use_defaults@[fi],
        forall|j: int| 0 <= j < keys.len() ==> !accepts(fields, fi, #[trigger] keys[j]),
    ensures
        winner(policy, fields, keys, fi) is None,
        resolved(policy, fields, keys, fi),
{
    lemma_absent_field_has_no_winner(policy, fields, keys, fi);
}

/// A field with no default fallback none of whose accepted keys occur in
/// the document makes the whole parse fail; and where every field before
/// it resolves, the reported `MissingField` names exactly this field.
pub proof fn lemma_absent_required_field_fails(
    policy: ResolutionPolicy,
    fields: AliasedFields,
    keys: Seq<Seq<char>>,
    fi: int,
)
    requires
        0 <= fi < fields.field_count(),
        fi < fields.use_defaults@.len(),
        !fields.use_defaults@[fi],
        forall|j: int| 0 <= j < keys.len() ==> !accepts(fields, fi, #[trigger] keys[j]),
    ensures
        !resolved(policy, fields, keys, fi),
        first_unresolved(policy, fields, keys) is Some,
        (forall|fj: int| 0 <= fj < fi ==> resolved(policy, fields, keys, fj)) ==> first_unresolved(
            policy,
            fields,
            keys,
        ) == Some(fi),
{
    lemma_absent_field_has_no_winner(policy, fields, keys, fi);
    lemma_some_unresolved_fails(policy, fields, keys, 0, fi);
    if forall|fj: int| 0 <= fj < fi ==> resolved(policy, fields, keys, fj) {
        crate::generate_deserialization_impl::lemma_first_unresolved_is_least(
            policy,
            fields,
            keys,
            fi,
        );
    }
}

proof fn lemma_some_unresolved_fails(
    policy: ResolutionPolicy,
    fields: AliasedFields,
    keys: Seq<Seq<char>>,
    from: int,
    fi: int,
)
    requires
        0 <= from <= fi < fields.field_count(),
        !resolved(policy, fields, keys, fi),
    ensures
        first_unresolved_from(policy, fields, keys, from) is Some,
    decreases fi - from,
{
    if resolved(policy, fields, keys, from) {
        lemma_some_unresolved_fails(policy, fields, keys, from + 1, fi);
    }
}

/// No pair whose key a field does not accept is routed to it, so a field
/// none of whose accepted keys occur in the document captures nothing.
pub proof fn lemma_absent_field_has_no_winner(
    policy: ResolutionPolicy,
    fields: AliasedFields,
    keys: Seq<Seq<char>>,
    fi: int,
)
    requires
        forall|j: int| 0 <= j < keys.len() ==> !accepts(fields, fi, #[trigger] keys[j]),
    ensures
        winner(policy, fields, keys, fi) is None,
{
    if winner(policy, fields, keys, fi) is Some {
        lemma_winner_some_iff_routed(policy, fields, keys, fi, 0);
        let j = choose|j: int| 0 <= j < keys.len() && routes_to(fields, fi, #[trigger] keys[j]);
        lemma_routed_key_is_accepted(fields, fi, keys[j]);
    }
}

/// Where a winning position ends up after a pair with an unknown key is
/// inserted at position `p`: positions before `p` keep their place, later
/// ones shift by one.
pub open spec fn shifted_position(w: Option<int>, p: int) -> Option<int> {
    match w {
        None => None,
        Some(j) => if j < p {
            Some(j)
        } else {
            Some(j + 1)
        },
    }
}

/// Inserting a pair whose key no field accepts anywhere into a document
/// never causes a parse failure and never affects any field's resolved
/// value: every field's winning position still holds the same key (and so
/// the same pair), every field resolves exactly as before, and a failing
/// parse still names the same missing field.
pub proof fn lemma_unknown_key_is_inert(
    policy: ResolutionPolicy,
    fields: AliasedFields,
    keys: Seq<Seq<char>>,
    extra: Seq<char>,
    p: int,
)
    requires
        0 <= p <= keys.len(),
        field_for(fields, extra) is None,
    ensures
        forall|fi: int| #![all_triggers]
            winner(policy, fields, keys.insert(p, extra), fi) == shifted_position(
                winner(policy, fields, keys, fi),
                p,
            ),
        forall|fi: int| #![all_triggers]
            winner(policy, fields, keys, fi) is Some ==> keys.insert(p, extra)[shifted_position(
                winner(policy, fields, keys, fi),
                p,
            )->0] == keys[winner(policy, fields, keys, fi)->0],
        forall|fi: int| #![all_triggers]
            resolved(policy, fields, keys.insert(p, extra), fi) == resolved(
                policy,
                fields,
                keys,
                fi,
            ),
        first_unresolved(policy, fields, keys.insert(p, extra)) == first_unresolved(
            policy,
            fields,
            keys,
        ),
{
    let keys2 = keys.insert(p, extra);
    keys.insert_ensures(p, extra);
    assert forall|fi: int| #![all_triggers]
        winner(policy, fields, keys2, fi) == shifted_position(
            winner(policy, fields, keys, fi),
            p,
        ) by {
        lemma_insert_unknown_low(policy, fields, keys, extra, p, fi, 0);
    }
    assert forall|fi: int| #![all_triggers]
        winner(policy, fields, keys, fi) is Some implies keys2[shifted_position(
        winner(policy, fields, keys, fi),
        p,
    )->0] == keys[winner(policy, fields, keys, fi)->0] by {
        let j = winner(policy, fields, keys, fi)->0;
        lemma_winner_routes(policy, fields, keys, fi, 0, j);
    }
    lemma_insert_unknown_first_unresolved(policy, fields, keys, extra, p, 0);
}

proof fn lemma_insert_unknown_first_unresolved(
    policy: ResolutionPolicy,
    fields: AliasedFields,
    keys: Seq<Seq<char>>,
    extra: Seq<char>,
    p: int,
    from: int,
)
    requires
        0 <= p <= keys.len(),
        field_for(fields, extra) is None,
        0 <= from,
    ensures
        first_unresolved_from(policy, fields, keys.insert(p, extra), from) == first_unresolved_from(
            policy,
            fields,
            keys,
            from,
        ),
    decreases fields.field_count() - from,
{
    if from < fields.field_count() {
        lemma_insert_unknown_low(policy, fields, keys, extra, p, from, 0);
        lemma_insert_unknown_first_unresolved(policy, fields, keys, extra, p, from + 1);
    }
}

/// Relates scans of the two documents over the positions at or after
/// `from`, for `from` at or before the insertion point.
proof fn lemma_insert_unknown_low(
    policy: ResolutionPolicy,
    fields: AliasedFields,
    keys: Seq<Seq<char>>,
    extra: Seq<char>,
    p: int,
    fi: int,
    from: int,
)
    requires
        0 <= from <= p <= keys.len(),
        field_for(fields, extra) is None,
    ensures
        winner_from(policy, fields, keys.insert(p, extra), fi, from) == shifted_position(
            winner_from(policy, fields, keys, fi, from),
            p,
        ),
    decreases p - from,
{
    let keys2 = keys.insert(p, extra);
    keys.insert_ensures(p, extra);
    if from == p {
        assert(keys2[p] == extra);
        assert(!routes_to(fields, fi, keys2[p]));
        lemma_insert_unknown_high(policy, fields, keys, extra, p, fi, p);
        match winner_from(policy, fields, keys, fi, p) {
            Some(j) => lemma_winner_routes(policy, fields, keys, fi, p, j),
            None => {},
        }
    } else {
        lemma_insert_unknown_low(policy, fields, keys, extra, p, fi, from + 1);
        assert(keys2[from] == keys[from]);
        match winner_from(policy, fields, keys, fi, from + 1) {
            Some(j) => lemma_winner_routes(policy, fields, keys, fi, from + 1, j),
            None => {},
        }
    }
}

/// Relates scans of the two documents over the positions at or after
/// `from`, for `from` at or after the insertion point: every position of
/// the original document shifts by one.
proof fn lemma_insert_unknown_high(
    policy: ResolutionPolicy,
    fields: AliasedFields,
    keys: Seq<Seq<char>>,
    extra: Seq<char>,
    p: int,
    fi: int,
    from: int,
)
    requires
        0 <= p <= from <= keys.len(),
        field_for(fields, extra) is None,
    ensures
        winner_from(policy, fields, keys.insert(p, extra), fi, from + 1) == shifted_position(
            winner_from(policy, fields, keys, fi, from),
            p,
        ),
    decreases keys.len() - from,
{
    let keys2 = keys.insert(p, extra);
    keys.insert_ensures(p, extra);
    if from < keys.len() {
        lemma_insert_unknown_high(policy, fields, keys, extra, p, fi, from + 1);
        assert(keys2[from + 1] == keys[from]);
        match winner_from(policy, fields, keys, fi, from + 1) {
            Some(j) => lemma_winner_routes(policy, fields, keys, fi, from + 1, j),
            None => {},
        }
    }
}

} // verus!
