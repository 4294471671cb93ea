//! Reading the runtime's list of running containers.
use vstd::prelude::*;
use crate::container_id::{is_valid_digest, ContainerId};

verus! {

/// Why a snapshot could not be had. Either way nothing tracked changes.
#[derive(Debug, PartialEq, Eq, Structural, Clone, Copy)]
pub enum FetchError {
    /// The runtime could not be reached, or the response broke off.
    Transport,
    /// The body is no JSON array of entries that each carry a valid `Id`.
    Malformed,
}

/// What serde_json reads from a body as the `Id` text of each element of a
/// JSON array: `None` where the body is no JSON or no array; an element is
/// `None` where it has no textual `Id`.
pub uninterp spec fn json_id_texts(body: Seq<u8>) -> Option<Seq<Option<Seq<char>>>>;

/// The texts that a list of optional strings holds.
pub open spec fn texts_of(v: Seq<Option<String>>) -> Seq<Option<Seq<char>>> {
    Seq::new(
        v.len(),
        |i: int|
            match v[i] {
                Some(s) => Some(s@),
                None => None,
            },
    )
}

/// Every text is present and a valid digest.
pub open spec fn valid_texts(t: Seq<Option<Seq<char>>>) -> bool {
    forall|i: int| 0 <= i < t.len() ==> (#[trigger] t[i] matches Some(s) && is_valid_digest(s))
}

/// The identifiers carry the texts, one for one and in order.
pub open spec fn ids_match(ids: Seq<ContainerId>, t: Seq<Option<Seq<char>>>) -> bool {
    ids.len() == t.len() && forall|i: int| 0 <= i < t.len() ==> #[trigger] t[i] == Some(ids[i]@)
}

/// Relies on `serde_json::from_slice` to read the body as JSON; of an array
/// it takes each element's `Id` field where that is a string.
#[verifier::external_body]
fn json_ids(body: &[u8]) -> (r: Option<Vec<Option<String>>>)
    ensures
        r is Some <==> json_id_texts(body@) is Some,
        r matches Some(v) ==> json_id_texts(body@) == Some(texts_of(v@)),
{
    match serde_json::from_slice::<serde_json::Value>(body) {
        Ok(serde_json::Value::Array(items)) => Some(
            items.iter().map(|v| v.get("Id").and_then(|i| i.as_str()).map(|s| s.to_string())).collect(),
        ),
        _ => None,
    }
}

/// Every entry carries a valid digest.
pub open spec fn all_valid(entries: Seq<Option<String>>) -> bool {
    forall|i: int|
        0 <= i < entries.len() ==> (#[trigger] entries[i] matches Some(s) && is_valid_digest(s@))
}

/// Builds a snapshot from the `Id` texts of the response's entries:
/// `entries` is `None` where the response is no array, and holds `None` for
/// an entry without a textual `Id`. The snapshot is the identifiers in the
/// order given; any missing or invalid digest makes the whole snapshot
/// malformed.
pub fn snapshot_from_entries(entries: Option<Vec<Option<String>>>) -> (r: Result<
    Vec<ContainerId>,
    FetchError,
>)
    ensures
        r is Ok <==> (entries matches Some(v) && all_valid(v@)),
        r matches Err(e) ==> e == FetchError::Malformed,
        r matches Ok(ids) ==> (entries matches Some(v) && ids@.len() == v@.len() && forall|i: int|
            0 <= i < ids@.len() ==> (#[trigger] v@[i] matches Some(s) && ids@[i]@ == s@)),
{
    let ghost whole = entries;
    let mut list = match entries {
        Some(list) => list,
        None => return Err(FetchError::Malformed),
    };
    let ghost given = list@;
    let mut ids: Vec<ContainerId> = Vec::new();
    let mut n: usize = 0;
    let total: usize = list.len();
    while list.len() > 0
        invariant
            n + list@.len() == given.len(),
            given.len() == total,
            whole == entries,
            whole matches Some(v) && v@ == given,
            list@ == given.skip(n as int),
            ids@.len() == n,
            all_valid(given.take(n as int)),
            forall|i: int| 0 <= i < n ==> (#[trigger] given[i] matches Some(s) && ids@[i]@ == s@),
        decreases list@.len(),
    {
        let entry = list.remove(0);
        proof {
            assert(entry == given[n as int]);
            assert(list@ =~= given.skip(n + 1));
        }
        let digest = match entry {
            Some(d) => d,
            None => {
                assert(!all_valid(given));
                return Err(FetchError::Malformed);
            },
        };
        match ContainerId::from_digest(digest) {
            Some(id) => {
                ids.push(id);
            },
            None => {
                assert(!all_valid(given));
                return Err(FetchError::Malformed);
            },
        }
        proof {
            assert forall|i: int| 0 <= i < n + 1 implies (#[trigger] given.take(n + 1)[i] matches Some(
                s,
            ) && is_valid_digest(s@)) by {
                if i < n {
                    assert(given.take(n as int)[i] == given.take(n + 1)[i]);
                }
            }
        }
        n = n + 1;
    }
    assert(given.take(n as int) =~= given);
    Ok(ids)
}

/// The texts of a list agree with the list on validity and on the
/// identifiers they give.
proof fn lemma_texts_of(v: Seq<Option<String>>, ids: Seq<ContainerId>)
    ensures
        all_valid(v) == valid_texts(texts_of(v)),
        (ids.len() == v.len() && forall|i: int|
            0 <= i < ids.len() ==> (#[trigger] v[i] matches Some(s) && ids[i]@ == s@)) ==> ids_match(
            ids,
            texts_of(v),
        ),
{
    let t = texts_of(v);
    if all_valid(v) {
        assert forall|i: int| 0 <= i < t.len() implies (#[trigger] t[i] matches Some(s) && is_valid_digest(s)) by {
            assert(v[i] matches Some(s) && is_valid_digest(s@));
        }
    }
    if valid_texts(t) {
        assert forall|i: int| 0 <= i < v.len() implies (#[trigger] v[i] matches Some(s) && is_valid_digest(s@)) by {
            assert(t[i] matches Some(s) && is_valid_digest(s));
        }
    }
    if ids.len() == v.len() && forall|i: int|
        0 <= i < ids.len() ==> (#[trigger] v[i] matches Some(s) && ids[i]@ == s@) {
        assert forall|i: int| 0 <= i < t.len() implies #[trigger] t[i] == Some(ids[i]@) by {
            assert(v[i] matches Some(s) && ids[i]@ == s@);
        }
    }
}

/// Reads a snapshot from the body of the runtime's container list: it
/// succeeds exactly when the body is a JSON array whose elements each carry
/// a valid digest as their `Id`, and then gives those identifiers in order.
pub fn parse_snapshot(body: &[u8]) -> (r: Result<Vec<ContainerId>, FetchError>)
    ensures
        r is Ok <==> (json_id_texts(body@) matches Some(t) && valid_texts(t)),
        r matches Err(e) ==> e == FetchError::Malformed,
        r matches Ok(ids) ==> (json_id_texts(body@) matches Some(t) && ids_match(ids@, t)),
{
    let entries = json_ids(body);
    let ghost given = entries;
    let r = snapshot_from_entries(entries);
    proof {
        if let Some(v) = given {
            if r is Ok {
                lemma_texts_of(v@, r->Ok_0@);
            } else {
                lemma_texts_of(v@, Seq::empty());
            }
        }
    }
    r
}

} // verus!
