//! Multi-dimension filtering of a snippet collection.
//!
//! Each supplied dimension (tag, language, keyword) is a comma-separated
//! term list; a dimension matches when any of its terms occurs,
//! case-insensitively, in the relevant field, and a snippet is kept when
//! every supplied dimension matches.  An identifier, when supplied, is an
//! exact-match narrowing applied after the dimension filters.

use crate::errors::VaultError;
use crate::snippet::{first_index_with_id, has_id, lemma_first_index_with_id, Snippet};
use crate::text::{contains_seq, contains_str, lower_of, split_and_trim, terms_of, to_lowercase};
use vstd::prelude::*;

verus! {

/// One term matches a field when the lowercase form of the term occurs in
/// the lowercase form of the field.
pub open spec fn term_in_field(field: Seq<char>, term: Seq<char>) -> bool {
    contains_seq(lower_of(field), lower_of(term))
}

/// The tag dimension: some term of `query` matches the tag field.
pub open spec fn tag_matches(s: Snippet, query: Seq<char>) -> bool {
    exists|i: int|
        0 <= i < terms_of(query).len() && term_in_field(s.tag@, #[trigger] terms_of(query)[i])
}

/// The language dimension: the snippet has a language and some term of
/// `query` matches it.  A snippet without a language never matches.
pub open spec fn language_matches(s: Snippet, query: Seq<char>) -> bool {
    s.language is Some && exists|i: int|
        0 <= i < terms_of(query).len() && term_in_field(
            s.language.unwrap()@,
            #[trigger] terms_of(query)[i],
        )
}

/// One keyword term matches when it occurs in the tag, the description
/// (when present) or the code.
pub open spec fn keyword_term_matches(s: Snippet, term: Seq<char>) -> bool {
    term_in_field(s.tag@, term) || (s.description is Some && term_in_field(
        s.description.unwrap()@,
        term,
    )) || term_in_field(s.code@, term)
}

/// The keyword dimension: some term of `query` matches some field.
pub open spec fn keyword_matches(s: Snippet, query: Seq<char>) -> bool {
    exists|i: int|
        0 <= i < terms_of(query).len() && keyword_term_matches(s, #[trigger] terms_of(query)[i])
}

/// The conjunction of the supplied dimensions; a dimension that is not
/// supplied always matches.
pub open spec fn snippet_matches(
    s: Snippet,
    tag: Option<String>,
    language: Option<String>,
    keyword: Option<String>,
) -> bool {
    &&& match tag {
        Some(q) => tag_matches(s, q@),
        None => true,
    }
    &&& match language {
        Some(q) => language_matches(s, q@),
        None => true,
    }
    &&& match keyword {
        Some(q) => keyword_matches(s, q@),
        None => true,
    }
}

/// The collection narrowed to the snippets that match every supplied
/// dimension, in their original order.
pub open spec fn filtered_view(
    c: Seq<Snippet>,
    tag: Option<String>,
    language: Option<String>,
    keyword: Option<String>,
) -> Seq<Snippet> {
    c.filter(|s: Snippet| snippet_matches(s, tag, language, keyword))
}

/// Holds when `terms` is the split-and-trimmed term list of the query,
/// dimension by dimension.
pub open spec fn terms_correspond(q: Option<String>, terms: Option<Vec<String>>) -> bool {
    match (q, terms) {
        (None, None) => true,
        (Some(q), Some(ts)) => ts@.len() == terms_of(q@).len() && forall|i: int|
            0 <= i < ts@.len() ==> #[trigger] ts@[i]@ == terms_of(q@)[i],
        _ => false,
    }
}

fn split_query(q: &Option<String>) -> (r: Option<Vec<String>>)
    ensures
        terms_correspond(*q, r),
{
    match q {
        Some(q) => Some(split_and_trim(q.as_str())),
        None => None,
    }
}

fn field_matches_any(field: &str, terms: &Vec<String>) -> (r: bool)
    ensures
        r == exists|i: int| 0 <= i < terms@.len() && term_in_field(field@, #[trigger] terms@[i]@),
{
    let lower_field = to_lowercase(field);
    let mut i: usize = 0;
    while i < terms.len()
        invariant
            i <= terms@.len(),
            lower_field@ == lower_of(field@),
            forall|k: int| 0 <= k < i ==> !term_in_field(field@, #[trigger] terms@[k]@),
        decreases terms@.len() - i,
    {
        let lower_term = to_lowercase(terms[i].as_str());
        if contains_str(lower_field.as_str(), lower_term.as_str()) {
            return true;
        }
        i += 1;
    }
    false
}

pub(crate) fn tag_dim_ok(s: &Snippet, ghost_q: Ghost<Option<String>>, terms: &Option<Vec<String>>) -> (r:
    bool)
    requires
        terms_correspond(ghost_q@, *terms),
    ensures
        r == match ghost_q@ {
            Some(q) => tag_matches(*s, q@),
            None => true,
        },
{
    match terms {
        None => true,
        Some(ts) => {
            let b = field_matches_any(s.tag.as_str(), ts);
            proof {
                let q = ghost_q@.unwrap();
                if b {
                    let i = choose|i: int|
                        0 <= i < ts@.len() && term_in_field(s.tag@, #[trigger] ts@[i]@);
                    assert(term_in_field(s.tag@, terms_of(q@)[i]));
                } else {
                    assert forall|i: int|
                        0 <= i < terms_of(q@).len() implies !term_in_field(
                        s.tag@,
                        #[trigger] terms_of(q@)[i],
                    ) by {
                        assert(ts@[i]@ == terms_of(q@)[i]);
                    }
                }
            }
            b
        },
    }
}

pub(crate) fn language_dim_ok(s: &Snippet, ghost_q: Ghost<Option<String>>, terms: &Option<Vec<String>>) -> (r:
    bool)
    requires
        terms_correspond(ghost_q@, *terms),
    ensures
        r == match ghost_q@ {
            Some(q) => language_matches(*s, q@),
            None => true,
        },
{
    match terms {
        None => true,
        Some(ts) => {
            match &s.language {
                None => false,
                Some(lang) => {
                    let b = field_matches_any(lang.as_str(), ts);
                    proof {
                        let q = ghost_q@.unwrap();
                        if b {
                            let i = choose|i: int|
                                0 <= i < ts@.len() && term_in_field(lang@, #[trigger] ts@[i]@);
                            assert(term_in_field(s.language.unwrap()@, terms_of(q@)[i]));
                        } else {
                            assert forall|i: int|
                                0 <= i < terms_of(q@).len() implies !term_in_field(
                                s.language.unwrap()@,
                                #[trigger] terms_of(q@)[i],
                            ) by {
                                assert(ts@[i]@ == terms_of(q@)[i]);
                            }
                        }
                    }
                    b
                },
            }
        },
    }
}

fn keyword_dim_ok(s: &Snippet, ghost_q: Ghost<Option<String>>, terms: &Option<Vec<String>>) -> (r:
    bool)
    requires
        terms_correspond(ghost_q@, *terms),
    ensures
        r == match ghost_q@ {
            Some(q) => keyword_matches(*s, q@),
            None => true,
        },
{
    match terms {
        None => true,
        Some(ts) => {
            let mut i: usize = 0;
            let ghost q = ghost_q@.unwrap();
            while i < ts.len()
                invariant
                    i <= ts@.len(),
                    terms_correspond(ghost_q@, Some(*ts)),
                    q == ghost_q@.unwrap(),
                    ghost_q@ is Some,
                    forall|k: int| 0 <= k < i ==> !keyword_term_matches(*s, #[trigger] ts@[k]@),
                decreases ts@.len() - i,
            {
                let term = &ts[i];
                let lower_term = to_lowercase(term.as_str());
                let in_tag = contains_str(to_lowercase(s.tag.as_str()).as_str(), lower_term.as_str());
                let in_desc = match &s.description {
                    Some(d) => contains_str(
                        to_lowercase(d.as_str()).as_str(),
                        lower_term.as_str(),
                    ),
                    None => false,
                };
                let in_code = contains_str(
                    to_lowercase(s.code.as_str()).as_str(),
                    lower_term.as_str(),
                );
                if in_tag || in_desc || in_code {
                    proof {
                        assert(keyword_term_matches(*s, ts@[i as int]@));
                        assert(keyword_term_matches(*s, terms_of(q@)[i as int]));
                    }
                    return true;
                }
                i += 1;
            }
            proof {
                assert forall|i: int|
                    0 <= i < terms_of(q@).len() implies !keyword_term_matches(
                    *s,
                    #[trigger] terms_of(q@)[i],
                ) by {
                    assert(ts@[i]@ == terms_of(q@)[i]);
                }
            }
            false
        },
    }
}

proof fn lemma_filter_compose<A>(s: Seq<A>, p: spec_fn(A) -> bool, q: spec_fn(A) -> bool)
    ensures
        s.filter(p).filter(q) == s.filter(|x: A| p(x) && q(x)),
    decreases s.len(),
{
    reveal(Seq::filter);
    let pq = |x: A| p(x) && q(x);
    if s.len() == 0 {
        assert(s.filter(p).filter(q) =~= Seq::<A>::empty());
        assert(s.filter(pq) =~= Seq::<A>::empty());
    } else {
        let t = s.drop_last();
        lemma_filter_compose(t, p, q);
        if p(s.last()) {
            t.filter(p).lemma_filter_push(s.last(), q);
            assert(s.filter(p) == t.filter(p).push(s.last()));
        }
    }
}

/// Filtering is associative across dimensions: narrowing by tag and
/// language together equals narrowing by language first and by tag on the
/// intermediate result.
pub proof fn lemma_filter_dimensions_compose(c: Seq<Snippet>, tag: String, language: String)
    ensures
        filtered_view(filtered_view(c, None, Some(language), None), Some(tag), None, None)
            == filtered_view(c, Some(tag), Some(language), None),
{
    let p = |s: Snippet| snippet_matches(s, None, Some(language), None);
    let q = |s: Snippet| snippet_matches(s, Some(tag), None, None);
    lemma_filter_compose(c, p, q);
    let pq = |s: Snippet| p(s) && q(s);
    let both = |s: Snippet| snippet_matches(s, Some(tag), Some(language), None);
    assert(pq =~= both);
}

/// A snippet stands in the keyword-filtered collection exactly when it
/// stands in the collection and some keyword term occurs,
/// case-insensitively, in its tag, its description or its code.
pub proof fn lemma_keyword_filter_semantics(c: Seq<Snippet>, keyword: String, s: Snippet)
    ensures
        filtered_view(c, None, None, Some(keyword)).contains(s) <==> (c.contains(s)
            && keyword_matches(s, keyword@)),
{
    let pred = |x: Snippet| snippet_matches(x, None, None, Some(keyword));
    if filtered_view(c, None, None, Some(keyword)).contains(s) {
        c.lemma_filter_contains_rev(pred, s);
        let i = choose|i: int|
            0 <= i < c.filter(pred).len() && c.filter(pred)[i] == s;
        c.lemma_filter_pred(pred, i);
    }
    if c.contains(s) && keyword_matches(s, keyword@) {
        let i = choose|i: int| 0 <= i < c.len() && c[i] == s;
        c.lemma_filter_contains(pred, i);
    }
}

/// Narrows the collection by the supplied dimension filters, then, when an
/// identifier is supplied, to the snippet carrying it.  Fails exactly when
/// an identifier is supplied and no snippet surviving the dimension
/// filters carries it.
pub fn view_snippets(
    snippets: &Vec<Snippet>,
    id: &Option<u32>,
    tag: &Option<String>,
    language: &Option<String>,
    keyword: &Option<String>,
    _summary: bool,
) -> (r: Result<Vec<Snippet>, VaultError>)
    ensures
        ({
            let filtered = filtered_view(snippets@, *tag, *language, *keyword);
            match r {
                Ok(v) => (id is None ==> v@ == filtered) && (id is Some ==> has_id(
                    filtered,
                    id.unwrap(),
                ) && v@ == seq![filtered[first_index_with_id(filtered, id.unwrap())]]),
                Err(e) => id is Some && !has_id(filtered, id.unwrap()) && e
                    == VaultError::IdNotFound(id.unwrap()),
            }
        }),
{
    let tag_terms = split_query(tag);
    let language_terms = split_query(language);
    let keyword_terms = split_query(keyword);
    let ghost pred = |s: Snippet| snippet_matches(s, *tag, *language, *keyword);
    let mut filtered: Vec<Snippet> = Vec::new();
    let mut j: usize = 0;
    proof {
        assert(snippets@.take(0) =~= Seq::<Snippet>::empty());
        assert(Seq::<Snippet>::empty().filter(pred) =~= Seq::<Snippet>::empty());
    }
    while j < snippets.len()
        invariant
            j <= snippets@.len(),
            filtered@ == snippets@.take(j as int).filter(pred),
            pred == (|s: Snippet| snippet_matches(s, *tag, *language, *keyword)),
            terms_correspond(*tag, tag_terms),
            terms_correspond(*language, language_terms),
            terms_correspond(*keyword, keyword_terms),
        decreases snippets@.len() - j,
    {
        let s = &snippets[j];
        let keep = tag_dim_ok(s, Ghost(*tag), &tag_terms) && language_dim_ok(
            s,
            Ghost(*language),
            &language_terms,
        ) && keyword_dim_ok(s, Ghost(*keyword), &keyword_terms);
        proof {
            assert(keep == pred(snippets@[j as int]));
            assert(snippets@.take(j + 1) =~= snippets@.take(j as int).push(snippets@[j as int]));
            snippets@.take(j as int).lemma_filter_push(snippets@[j as int], pred);
        }
        if keep {
            filtered.push(s.clone());
        }
        j += 1;
    }
    proof {
        assert(snippets@.take(snippets@.len() as int) =~= snippets@);
    }
    let target: u32 = match id {
        Some(v) => *v,
        None => {
            return Ok(filtered);
        },
    };
    let mut i: usize = 0;
    while i < filtered.len()
        invariant
            i <= filtered@.len(),
            *id == Some(target),
            filtered@ == filtered_view(snippets@, *tag, *language, *keyword),
            forall|k: int| 0 <= k < i ==> #[trigger] filtered@[k].id != target,
        decreases filtered@.len() - i,
    {
        if filtered[i].id == target {
            proof {
                lemma_first_index_with_id(filtered@, target, i as int);
            }
            let the_one = filtered[i].clone();
            let mut result: Vec<Snippet> = Vec::new();
            result.push(the_one);
            proof {
                assert(result@ =~= seq![filtered@[i as int]]);
            }
            return Ok(result);
        }
        i += 1;
    }
    proof {
        lemma_first_index_with_id(filtered@, target, filtered@.len() as int);
    }
    Err(VaultError::IdNotFound(target))
}

} // verus!
