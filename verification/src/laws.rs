//! The laws the registry obeys, stated over the store's view — the mapping
//! from identifier to URL — and the resolution function of its contracts.
//!
//! `create_short_link` ensures that its result was not bound before and
//! that the new view is exactly the old one with the new binding added;
//! `resolve` ensures that its result is `resolve_spec` of the view. The
//! lemmas here chain those contracts together.

use vstd::prelude::*;

use crate::store::resolve_spec;

verus! {

/// Round trip: resolving an identifier right after it was bound to a URL
/// yields exactly that URL, whatever the store held before.
pub proof fn lemma_round_trip(
    entries: Map<Seq<char>, Seq<char>>,
    short_id: Seq<char>,
    target_url: Seq<char>,
)
    ensures
        resolve_spec(entries.insert(short_id, target_url), short_id) == Some(target_url),
{
}

/// An identifier that was never bound resolves to nothing: the empty store
/// knows no identifier at all.
pub proof fn lemma_unknown_key_empty(short_id: Seq<char>)
    ensures
        resolve_spec(Map::<Seq<char>, Seq<char>>::empty(), short_id) is None,
{
}

/// An identifier that was never bound resolves to nothing: a creation,
/// which only ever binds some other identifier, cannot make it appear.
pub proof fn lemma_unknown_key_preserved(
    entries: Map<Seq<char>, Seq<char>>,
    short_id: Seq<char>,
    created_id: Seq<char>,
    target_url: Seq<char>,
)
    requires
        resolve_spec(entries, short_id) is None,
        created_id != short_id,
    ensures
        resolve_spec(entries.insert(created_id, target_url), short_id) is None,
{
}

/// Two successive creations never hand out the same identifier, and each
/// identifier afterwards resolves to the URL it was created with: the
/// second creation is only ever given an identifier the store — which
/// already holds the first — does not contain.
pub proof fn lemma_creates_distinct(
    entries: Map<Seq<char>, Seq<char>>,
    first_id: Seq<char>,
    first_url: Seq<char>,
    second_id: Seq<char>,
    second_url: Seq<char>,
)
    requires
        !entries.contains_key(first_id),
        !entries.insert(first_id, first_url).contains_key(second_id),
    ensures
        first_id != second_id,
        resolve_spec(entries.insert(first_id, first_url).insert(second_id, second_url), first_id)
            == Some(first_url),
        resolve_spec(entries.insert(first_id, first_url).insert(second_id, second_url), second_id)
            == Some(second_url),
{
}

/// A binding never changes once made: a later creation, which is only ever
/// given an identifier the store does not contain, leaves every existing
/// binding exactly as it was.
pub proof fn lemma_bindings_immutable(
    entries: Map<Seq<char>, Seq<char>>,
    bound_id: Seq<char>,
    created_id: Seq<char>,
    target_url: Seq<char>,
)
    requires
        entries.contains_key(bound_id),
        !entries.contains_key(created_id),
    ensures
        created_id != bound_id,
        resolve_spec(entries.insert(created_id, target_url), bound_id) == resolve_spec(
            entries,
            bound_id,
        ),
{
}

} // verus!
