//! Rank resolution: from filter tokens to identifiers.
//!
//! Each token is looked at against one consistent listing snapshot, handed
//! in as the sequence of the rows' identifiers. A token that is a valid rank
//! for that snapshot is replaced by the identifier of the row it names; any
//! other token passes through unchanged. The result always has exactly one
//! entry per token, in token order.

use vstd::prelude::*;

use crate::rank::{index_value, is_valid_rank, is_valid_rank_spec, parse_index};
use crate::text::str_views;

verus! {

/// What one filter token resolves to against the identifiers of a listing.
pub open spec fn resolve_one(f: Seq<char>, ids: Seq<Seq<char>>) -> Seq<char> {
    if is_valid_rank_spec(f, ids.len()) {
        match index_value(f) {
            Some(v) => ids[v - 1],
            None => f,
        }
    } else {
        f
    }
}

/// Resolve every filter token against the identifiers of one listing
/// snapshot: ranks become the named row's identifier, anything else passes
/// through unchanged, and the output keeps the input's length and order.
pub fn resolve(filters: &Vec<String>, ids: &Vec<String>) -> (r: Vec<String>)
    ensures
        r@.len() == filters@.len(),
        forall|i: int|
            0 <= i < r@.len() ==> #[trigger] r@[i]@ == resolve_one(filters@[i]@, str_views(ids@)),
{
    let mut r: Vec<String> = Vec::new();
    let mut i: usize = 0;
    while i < filters.len()
        invariant
            0 <= i <= filters@.len(),
            r@.len() == i,
            forall|j: int|
                0 <= j < i ==> #[trigger] r@[j]@ == resolve_one(filters@[j]@, str_views(ids@)),
        decreases filters@.len() - i,
    {
        let f = &filters[i];
        if is_valid_rank(f.as_str(), ids.len()) {
            match parse_index(f.as_str()) {
                Some(v) => {
                    r.push(ids[v - 1].clone());
                },
                None => {
                    r.push(f.clone());
                },
            }
        } else {
            r.push(f.clone());
        }
        i += 1;
    }
    r
}

} // verus!
