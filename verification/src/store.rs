//! Collection-level operations of the snippet store: identifier
//! allocation, appending, lookup by identifier, and validated bulk
//! deletion.  Reading and rewriting the persisted file is the front end's
//! concern; every operation here maps one whole collection to the next.

use crate::errors::VaultError;
use crate::snippet::{first_index_with_id, has_id, lemma_first_index_with_id, Snippet};
use crate::text::{dec_val, digits_part, parse_u32, split_and_trim, terms_of, valid_u32_literal};
use vstd::prelude::*;

verus! {

/// Parses a comma-separated identifier list, each piece trimmed; fails on
/// the first piece that is not an in-range decimal number, naming it.
pub fn parse_id_list(input: &str) -> (r: Result<Vec<u32>, VaultError>)
    ensures
        ({
            let ts = terms_of(input@);
            match r {
                Ok(ids) => ids@.len() == ts.len() && forall|i: int|
                    0 <= i < ts.len() ==> valid_u32_literal(#[trigger] ts[i]) && ids@[i] as int
                        == dec_val(digits_part(ts[i])),
                Err(e) => (e matches VaultError::InvalidIdList(t) && exists|i: int|
                    0 <= i < ts.len() && !valid_u32_literal(#[trigger] ts[i]) && t@ == ts[i]),
            }
        }),
{
    let terms = split_and_trim(input);
    let mut ids: Vec<u32> = Vec::new();
    let mut i: usize = 0;
    while i < terms.len()
        invariant
            i <= terms@.len(),
            terms@.len() == terms_of(input@).len(),
            forall|k: int| 0 <= k < terms@.len() ==> #[trigger] terms@[k]@ == terms_of(input@)[k],
            ids@.len() == i,
            forall|k: int|
                0 <= k < i ==> valid_u32_literal(#[trigger] terms_of(input@)[k]) && ids@[k] as int
                    == dec_val(digits_part(terms_of(input@)[k])),
        decreases terms@.len() - i,
    {
        match parse_u32(terms[i].as_str()) {
            Some(v) => {
                ids.push(v);
            },
            None => {
                return Err(VaultError::InvalidIdList(terms[i].clone()));
            },
        }
        i += 1;
    }
    Ok(ids)
}

/// The greatest identifier of the collection, or 0 when it is empty.
pub open spec fn max_id(s: Seq<Snippet>) -> int
    decreases s.len(),
{
    if s.len() == 0 {
        0
    } else {
        let m = max_id(s.drop_last());
        if s.last().id > m {
            s.last().id as int
        } else {
            m
        }
    }
}

proof fn lemma_max_id_ge(s: Seq<Snippet>, i: int)
    requires
        0 <= i < s.len(),
    ensures
        max_id(s) >= s[i].id,
    decreases s.len(),
{
    if i < s.len() - 1 {
        lemma_max_id_ge(s.drop_last(), i);
    }
}

proof fn lemma_max_id_bound(s: Seq<Snippet>, b: int)
    requires
        forall|i: int| 0 <= i < s.len() ==> #[trigger] s[i].id < b,
        0 < b,
    ensures
        max_id(s) < b,
    decreases s.len(),
{
    if s.len() > 0 {
        lemma_max_id_bound(s.drop_last(), b);
    }
}

/// Returns the next free identifier: one more than the greatest one in
/// use, and exactly 1 for an empty collection.  Identifiers freed by
/// deletion are never refilled.
pub fn generate_unique_id(snippets: &Vec<Snippet>) -> (r: u32)
    requires
        forall|i: int| 0 <= i < snippets@.len() ==> #[trigger] snippets@[i].id < u32::MAX,
    ensures
        r as int == max_id(snippets@) + 1,
        snippets@.len() == 0 ==> r == 1,
        forall|i: int| 0 <= i < snippets@.len() ==> r > #[trigger] snippets@[i].id,
{
    let mut m: u32 = 0;
    let mut i: usize = 0;
    proof {
        assert(snippets@.take(0) =~= Seq::<Snippet>::empty());
    }
    while i < snippets.len()
        invariant
            i <= snippets@.len(),
            forall|k: int| 0 <= k < snippets@.len() ==> #[trigger] snippets@[k].id < u32::MAX,
            m as int == max_id(snippets@.take(i as int)),
        decreases snippets@.len() - i,
    {
        proof {
            assert(snippets@.take(i + 1).drop_last() =~= snippets@.take(i as int));
            assert(snippets@.take(i + 1).last() == snippets@[i as int]);
        }
        if snippets[i].id > m {
            m = snippets[i].id;
        }
        i += 1;
    }
    proof {
        assert(snippets@.take(snippets@.len() as int) =~= snippets@);
        lemma_max_id_bound(snippets@, u32::MAX as int);
        assert forall|k: int| 0 <= k < snippets@.len() implies max_id(snippets@) + 1
            > #[trigger] snippets@[k].id by {
            lemma_max_id_ge(snippets@, k);
        }
    }
    m + 1
}

/// Appends one snippet at the end of the collection; every existing
/// snippet keeps its place and value.
pub fn append_snippet(snippets: &mut Vec<Snippet>, snippet: Snippet)
    ensures
        final(snippets)@ == old(snippets)@.push(snippet),
{
    snippets.push(snippet);
}

/// Existing entries are untouched by an append: the new collection is one
/// longer, agrees with the old one at every prior place, and holds the
/// new snippet last.
pub proof fn lemma_append_preserves_existing(c: Seq<Snippet>, s: Snippet)
    ensures
        c.push(s).len() == c.len() + 1,
        forall|i: int| 0 <= i < c.len() ==> #[trigger] c.push(s)[i] == c[i],
        c.push(s)[c.len() as int] == s,
{
}

/// Returns whether some snippet of the collection carries `id`.
pub fn contains_id(snippets: &Vec<Snippet>, id: u32) -> (r: bool)
    ensures
        r == has_id(snippets@, id),
{
    let mut i: usize = 0;
    while i < snippets.len()
        invariant
            i <= snippets@.len(),
            forall|k: int| 0 <= k < i ==> #[trigger] snippets@[k].id != id,
        decreases snippets@.len() - i,
    {
        if snippets[i].id == id {
            return true;
        }
        i += 1;
    }
    false
}

/// Returns the first snippet carrying the requested identifier.  Fails
/// when no identifier was supplied, and when no snippet carries it.
pub fn copy_code(snippets: &Vec<Snippet>, id: &Option<u32>) -> (r: Result<Snippet, VaultError>)
    ensures
        id is None ==> r == Err::<Snippet, VaultError>(VaultError::MissingId),
        id is Some && !has_id(snippets@, id.unwrap()) ==> r == Err::<Snippet, VaultError>(
            VaultError::IdNotFound(id.unwrap()),
        ),
        id is Some && has_id(snippets@, id.unwrap()) ==> r is Ok && r.unwrap() == snippets@[
            first_index_with_id(snippets@, id.unwrap())],
{
    let target: u32 = match id {
        Some(v) => *v,
        None => {
            return Err(VaultError::MissingId);
        },
    };
    let mut i: usize = 0;
    while i < snippets.len()
        invariant
            i <= snippets@.len(),
            *id == Some(target),
            forall|k: int| 0 <= k < i ==> #[trigger] snippets@[k].id != target,
        decreases snippets@.len() - i,
    {
        if snippets[i].id == target {
            proof {
                lemma_first_index_with_id(snippets@, target, i as int);
            }
            return Ok(snippets[i].clone());
        }
        i += 1;
    }
    proof {
        lemma_first_index_with_id(snippets@, target, snippets@.len() as int);
    }
    Err(VaultError::IdNotFound(target))
}

/// Returns whether `x` occurs in the identifier list.
fn id_in_list(ids: &Vec<u32>, x: u32) -> (r: bool)
    ensures
        r == ids@.contains(x),
{
    let mut i: usize = 0;
    while i < ids.len()
        invariant
            i <= ids@.len(),
            forall|k: int| 0 <= k < i ==> #[trigger] ids@[k] != x,
        decreases ids@.len() - i,
    {
        if ids[i] == x {
            return true;
        }
        i += 1;
    }
    false
}

/// Removes the snippets named by `ids`, all or nothing: when any
/// requested identifier is carried by no snippet, the collection is left
/// untouched and the error names every such identifier; otherwise the
/// result holds the remaining collection in order together with the
/// number of snippets removed.
pub fn delete_snippet(snippets: &Vec<Snippet>, ids: &Vec<u32>) -> (r: Result<
    (Vec<Snippet>, usize),
    VaultError,
>)
    ensures
        ({
            let missing = ids@.filter(|x: u32| !has_id(snippets@, x));
            match r {
                Ok(pair) => missing.len() == 0 && pair.0@ == snippets@.filter(
                    |s: Snippet| !ids@.contains(s.id),
                ) && pair.1 == snippets@.len() - pair.0@.len(),
                Err(e) => missing.len() > 0 && (e matches VaultError::IdsNotFound(m) && m@
                    == missing),
            }
        }),
{
    let ghost absent = |x: u32| !has_id(snippets@, x);
    let mut missing: Vec<u32> = Vec::new();
    let mut i: usize = 0;
    proof {
        assert(ids@.take(0) =~= Seq::<u32>::empty());
        assert(Seq::<u32>::empty().filter(absent) =~= Seq::<u32>::empty());
    }
    while i < ids.len()
        invariant
            i <= ids@.len(),
            missing@ == ids@.take(i as int).filter(absent),
            absent == (|x: u32| !has_id(snippets@, x)),
        decreases ids@.len() - i,
    {
        let present = contains_id(snippets, ids[i]);
        proof {
            assert(ids@.take(i + 1) =~= ids@.take(i as int).push(ids@[i as int]));
            ids@.take(i as int).lemma_filter_push(ids@[i as int], absent);
        }
        if !present {
            missing.push(ids[i]);
        }
        i += 1;
    }
    proof {
        assert(ids@.take(ids@.len() as int) =~= ids@);
    }
    if missing.len() > 0 {
        return Err(VaultError::IdsNotFound(missing));
    }
    let ghost keep = |s: Snippet| !ids@.contains(s.id);
    let mut remaining: Vec<Snippet> = Vec::new();
    let mut j: usize = 0;
    proof {
        assert(snippets@.take(0) =~= Seq::<Snippet>::empty());
        assert(Seq::<Snippet>::empty().filter(keep) =~= Seq::<Snippet>::empty());
    }
    while j < snippets.len()
        invariant
            j <= snippets@.len(),
            remaining@ == snippets@.take(j as int).filter(keep),
            remaining@.len() <= j,
            keep == (|s: Snippet| !ids@.contains(s.id)),
        decreases snippets@.len() - j,
    {
        let wanted = id_in_list(ids, snippets[j].id);
        proof {
            assert(snippets@.take(j + 1) =~= snippets@.take(j as int).push(snippets@[j as int]));
            snippets@.take(j as int).lemma_filter_push(snippets@[j as int], keep);
        }
        if !wanted {
            remaining.push(snippets[j].clone());
        }
        j += 1;
    }
    proof {
        assert(snippets@.take(snippets@.len() as int) =~= snippets@);
    }
    let count = snippets.len() - remaining.len();
    Ok((remaining, count))
}

} // verus!
