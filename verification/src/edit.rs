//! Resolving which snippet an edit addresses, and building the edited
//! replacement.
//!
//! A target is selected by identifier, or by tag (case-insensitive
//! substring).  A tag matching several snippets is not an error: the
//! resolution hands back the candidate identifiers, the caller obtains one
//! choice from the operator, and `resolve_choice` finishes the selection.
//! An invalid choice fails rather than picking silently.

use crate::errors::VaultError;
use crate::filter::term_in_field;
use crate::snippet::{
    clone_snippets, first_index_with_id, has_id, lemma_first_index_with_id, Snippet,
};
use crate::text::{contains_str, parse_u32, to_lowercase, trim_spaces, trimmed, valid_u32_literal,
    dec_val, digits_part};
use vstd::prelude::*;

verus! {

/// The tag selector of an edit matches a snippet when the whole query
/// occurs, case-insensitively, in the snippet's tag.
pub open spec fn edit_tag_matches(s: Snippet, query: Seq<char>) -> bool {
    term_in_field(s.tag@, query)
}

/// Index of the first snippet whose tag matches the query, or -1 when
/// none does.
pub open spec fn first_tag_match(s: Seq<Snippet>, query: Seq<char>) -> int
    decreases s.len(),
{
    if s.len() == 0 {
        -1
    } else if edit_tag_matches(s[0], query) {
        0
    } else {
        let r = first_tag_match(s.skip(1), query);
        if r < 0 {
            -1
        } else {
            r + 1
        }
    }
}

proof fn lemma_first_tag_match(s: Seq<Snippet>, query: Seq<char>, i: int)
    requires
        0 <= i <= s.len(),
        forall|k: int| 0 <= k < i ==> !edit_tag_matches(#[trigger] s[k], query),
        i == s.len() || edit_tag_matches(s[i], query),
    ensures
        i == s.len() ==> first_tag_match(s, query) == -1,
        i < s.len() ==> first_tag_match(s, query) == i,
    decreases i,
{
    if s.len() == 0 {
    } else if i == 0 {
    } else {
        let t = s.skip(1);
        assert(forall|k: int| 0 <= k < i - 1 ==> !edit_tag_matches(#[trigger] t[k], query));
        lemma_first_tag_match(t, query, i - 1);
    }
}

/// What resolving an edit target came to.
pub enum EditResolution {
    /// The selected snippet, together with the collection without it.
    Resolved { snippet: Snippet, remaining: Vec<Snippet> },
    /// The tag matched several snippets: their identifiers, in collection
    /// order, for the operator to choose from.
    NeedsChoice { candidate_ids: Vec<u32> },
}

fn select_by_id(snippets: &Vec<Snippet>, target: u32) -> (r: Result<
    (Snippet, Vec<Snippet>),
    VaultError,
>)
    ensures
        !has_id(snippets@, target) ==> r == Err::<(Snippet, Vec<Snippet>), VaultError>(
            VaultError::IdNotFound(target),
        ),
        has_id(snippets@, target) ==> (r matches Ok(pair) && pair.0 == snippets@[
            first_index_with_id(snippets@, target)] && pair.1@ == snippets@.remove(
            first_index_with_id(snippets@, target),
        )),
{
    let mut i: usize = 0;
    while i < snippets.len()
        invariant
            i <= snippets@.len(),
            forall|k: int| 0 <= k < i ==> #[trigger] snippets@[k].id != target,
        decreases snippets@.len() - i,
    {
        if snippets[i].id == target {
            proof {
                lemma_first_index_with_id(snippets@, target, i as int);
            }
            let snippet = snippets[i].clone();
            let mut remaining = clone_snippets(snippets);
            remaining.remove(i);
            return Ok((snippet, remaining));
        }
        i += 1;
    }
    proof {
        lemma_first_index_with_id(snippets@, target, snippets@.len() as int);
    }
    Err(VaultError::IdNotFound(target))
}

/// Resolves the snippet an edit addresses.  An identifier selects
/// exactly; otherwise a tag selects by case-insensitive substring, where
/// no match fails, one match resolves, and several matches hand back the
/// candidates for the operator to choose from.  With neither selector the
/// call fails.
pub fn resolve_for_edit(snippets: &Vec<Snippet>, id: &Option<u32>, tag: &Option<String>) -> (r:
    Result<EditResolution, VaultError>)
    ensures
        ({
            match (id, tag) {
                (Some(v), _) => {
                    &&& !has_id(snippets@, *v) ==> r == Err::<EditResolution, VaultError>(
                        VaultError::IdNotFound(*v),
                    )
                    &&& has_id(snippets@, *v) ==> (r matches Ok(
                        EditResolution::Resolved { snippet, remaining },
                    ) && snippet == snippets@[first_index_with_id(snippets@, *v)] && remaining@
                        == snippets@.remove(first_index_with_id(snippets@, *v)))
                },
                (None, Some(q)) => {
                    let ms = snippets@.filter(|s: Snippet| edit_tag_matches(s, q@));
                    &&& ms.len() == 0 ==> (r matches Err(VaultError::TagNotFound(t)) && t@ == q@)
                    &&& ms.len() == 1 ==> (r matches Ok(
                        EditResolution::Resolved { snippet, remaining },
                    ) && snippet == ms[0] && remaining@ == snippets@.remove(
                        first_tag_match(snippets@, q@),
                    ))
                    &&& ms.len() > 1 ==> (r matches Ok(
                        EditResolution::NeedsChoice { candidate_ids },
                    ) && candidate_ids@ == ms.map_values(|s: Snippet| s.id))
                },
                (None, None) => r == Err::<EditResolution, VaultError>(VaultError::MissingSelector),
            }
        }),
{
    let target: u32 = match (id, tag) {
        (Some(v), _) => *v,
        (None, Some(q)) => {
            return resolve_by_tag(snippets, q);
        },
        (None, None) => {
            return Err(VaultError::MissingSelector);
        },
    };
    match select_by_id(snippets, target) {
        Ok((snippet, remaining)) => Ok(EditResolution::Resolved { snippet, remaining }),
        Err(e) => Err(e),
    }
}

fn resolve_by_tag(snippets: &Vec<Snippet>, query: &String) -> (r: Result<
    EditResolution,
    VaultError,
>)
    ensures
        ({
            let ms = snippets@.filter(|s: Snippet| edit_tag_matches(s, query@));
            &&& ms.len() == 0 ==> (r matches Err(VaultError::TagNotFound(t)) && t@ == query@)
            &&& ms.len() == 1 ==> (r matches Ok(EditResolution::Resolved { snippet, remaining })
                && snippet == ms[0] && remaining@ == snippets@.remove(
                first_tag_match(snippets@, query@),
            ))
            &&& ms.len() > 1 ==> (r matches Ok(EditResolution::NeedsChoice { candidate_ids })
                && candidate_ids@ == ms.map_values(|s: Snippet| s.id))
        }),
{
    let ghost p = |s: Snippet| edit_tag_matches(s, query@);
    let lower_query = to_lowercase(query.as_str());
    let mut candidate_ids: Vec<u32> = Vec::new();
    let mut first_idx: usize = 0;
    let mut found_any: bool = false;
    let mut j: usize = 0;
    proof {
        assert(snippets@.take(0) =~= Seq::<Snippet>::empty());
        assert(Seq::<Snippet>::empty().filter(p) =~= Seq::<Snippet>::empty());
        assert(Seq::<Snippet>::empty().filter(p).map_values(|s: Snippet| s.id) =~= Seq::<
            u32,
        >::empty());
    }
    while j < snippets.len()
        invariant
            j <= snippets@.len(),
            p == (|s: Snippet| edit_tag_matches(s, query@)),
            lower_query@ == crate::text::lower_of(query@),
            candidate_ids@ == snippets@.take(j as int).filter(p).map_values(|s: Snippet| s.id),
            candidate_ids@.len() == snippets@.take(j as int).filter(p).len(),
            found_any == (candidate_ids@.len() > 0),
            !found_any ==> forall|k: int| 0 <= k < j ==> !p(#[trigger] snippets@[k]),
            found_any ==> first_idx < j && p(snippets@[first_idx as int]) && (forall|k: int|
                0 <= k < first_idx ==> !p(#[trigger] snippets@[k])) && snippets@.take(
                j as int,
            ).filter(p)[0] == snippets@[first_idx as int],
        decreases snippets@.len() - j,
    {
        let s = &snippets[j];
        let lower_tag = to_lowercase(s.tag.as_str());
        let m = contains_str(lower_tag.as_str(), lower_query.as_str());
        proof {
            assert(m == p(snippets@[j as int]));
            assert(snippets@.take(j + 1) =~= snippets@.take(j as int).push(snippets@[j as int]));
            snippets@.take(j as int).lemma_filter_push(snippets@[j as int], p);
            if m {
                assert(snippets@.take(j + 1).filter(p).map_values(|s: Snippet| s.id) =~= snippets@
                    .take(j as int).filter(p).map_values(|s: Snippet| s.id).push(
                    snippets@[j as int].id,
                ));
            }
        }
        if m {
            candidate_ids.push(s.id);
            if !found_any {
                first_idx = j;
                found_any = true;
            }
        }
        j += 1;
    }
    proof {
        assert(snippets@.take(snippets@.len() as int) =~= snippets@);
    }
    let ghost ms = snippets@.filter(p);
    if candidate_ids.len() == 0 {
        return Err(VaultError::TagNotFound(query.clone()));
    }
    if candidate_ids.len() == 1 {
        proof {
            lemma_first_tag_match(snippets@, query@, first_idx as int);
        }
        let snippet = snippets[first_idx].clone();
        let mut remaining = clone_snippets(snippets);
        remaining.remove(first_idx);
        return Ok(EditResolution::Resolved { snippet, remaining });
    }
    Ok(EditResolution::NeedsChoice { candidate_ids })
}

/// Finishes a tag resolution that needed an operator choice: the answer
/// must be a number naming one of the offered candidates; it then selects
/// by that identifier.  A non-numeric answer, an identifier outside the
/// candidates, and one that no snippet carries each fail.
pub fn resolve_choice(snippets: &Vec<Snippet>, candidate_ids: &Vec<u32>, input: &str) -> (r: Result<
    (Snippet, Vec<Snippet>),
    VaultError,
>)
    ensures
        ({
            let lit = trimmed(input@);
            &&& !valid_u32_literal(lit) ==> (r matches Err(VaultError::InvalidChoice(raw)) && raw@
                == lit)
            &&& valid_u32_literal(lit) ==> {
                let chosen = dec_val(digits_part(lit)) as u32;
                &&& !candidate_ids@.contains(chosen) ==> r == Err::<
                    (Snippet, Vec<Snippet>),
                    VaultError,
                >(VaultError::ChoiceNotInList(chosen))
                &&& candidate_ids@.contains(chosen) && !has_id(snippets@, chosen) ==> r == Err::<
                    (Snippet, Vec<Snippet>),
                    VaultError,
                >(VaultError::IdNotFound(chosen))
                &&& candidate_ids@.contains(chosen) && has_id(snippets@, chosen) ==> (r matches Ok(
                    pair,
                ) && pair.0 == snippets@[first_index_with_id(snippets@, chosen)] && pair.1@
                    == snippets@.remove(first_index_with_id(snippets@, chosen)))
            }
        }),
{
    let cleaned = trim_spaces(input);
    let chosen: u32 = match parse_u32(cleaned.as_str()) {
        Some(v) => v,
        None => {
            return Err(VaultError::InvalidChoice(cleaned));
        },
    };
    let mut in_list: bool = false;
    let mut i: usize = 0;
    while i < candidate_ids.len()
        invariant
            i <= candidate_ids@.len(),
            in_list ==> candidate_ids@.contains(chosen),
            !in_list ==> forall|k: int| 0 <= k < i ==> #[trigger] candidate_ids@[k] != chosen,
        decreases candidate_ids@.len() - i,
    {
        if candidate_ids[i] == chosen {
            in_list = true;
        }
        i += 1;
    }
    if !in_list {
        proof {
            assert(!candidate_ids@.contains(chosen)) by {
                if candidate_ids@.contains(chosen) {
                    let w = choose|w: int|
                        0 <= w < candidate_ids@.len() && candidate_ids@[w] == chosen;
                    assert(candidate_ids@[w] != chosen);
                }
            }
        }
        return Err(VaultError::ChoiceNotInList(chosen));
    }
    select_by_id(snippets, chosen)
}

/// Builds the replacement snippet of an edit: a blank answer keeps the
/// old tag, a blank description or language clears the field, the code is
/// replaced whole, the creation timestamp is kept, and the replacement
/// carries the freshly allocated identifier.
pub fn edited_snippet(
    original: &Snippet,
    new_tag: &str,
    new_description: &str,
    new_language: &str,
    new_code: String,
    new_id: u32,
) -> (r: Snippet)
    ensures
        r.tag@ == if trimmed(new_tag@).len() > 0 {
            trimmed(new_tag@)
        } else {
            original.tag@
        },
        trimmed(new_description@).len() > 0 ==> (r.description matches Some(d) && d@ == trimmed(
            new_description@,
        )),
        trimmed(new_description@).len() == 0 ==> r.description is None,
        trimmed(new_language@).len() > 0 ==> (r.language matches Some(l) && l@ == trimmed(
            new_language@,
        )),
        trimmed(new_language@).len() == 0 ==> r.language is None,
        r.code == new_code,
        r.timestamp == original.timestamp,
        r.id == new_id,
{
    let tag_input = trim_spaces(new_tag);
    let tag = if tag_input.as_str().unicode_len() > 0 {
        tag_input
    } else {
        original.tag.clone()
    };
    let description_input = trim_spaces(new_description);
    let description = if description_input.as_str().unicode_len() > 0 {
        Some(description_input)
    } else {
        None
    };
    let language_input = trim_spaces(new_language);
    let language = if language_input.as_str().unicode_len() > 0 {
        Some(language_input)
    } else {
        None
    };
    Snippet {
        tag,
        description,
        code: new_code,
        timestamp: original.timestamp.clone(),
        language,
        id: new_id,
    }
}

} // verus!
