//! The stored entity: one code fragment with its metadata.

use vstd::prelude::*;

verus! {

/// One stored code fragment.  Within a collection every `id` is unique;
/// `timestamp` is set at capture and never changed afterwards.
#[derive(Debug, PartialEq)]
pub struct Snippet {
    pub tag: String,
    pub description: Option<String>,
    pub code: String,
    pub timestamp: String,
    pub language: Option<String>,
    pub id: u32,
}

impl Clone for Snippet {
    fn clone(&self) -> (r: Self)
        ensures
            r == *self,
    {
        Snippet {
            tag: self.tag.clone(),
            description: match &self.description {
                Some(d) => Some(d.clone()),
                None => None,
            },
            code: self.code.clone(),
            timestamp: self.timestamp.clone(),
            language: match &self.language {
                Some(l) => Some(l.clone()),
                None => None,
            },
            id: self.id,
        }
    }
}

/// Holds when some snippet of `s` carries the identifier `id`.
pub open spec fn has_id(s: Seq<Snippet>, id: u32) -> bool {
    exists|i: int| 0 <= i < s.len() && #[trigger] s[i].id == id
}

/// Index of the first snippet of `s` carrying `id`, or -1 when none does.
pub open spec fn first_index_with_id(s: Seq<Snippet>, id: u32) -> int
    decreases s.len(),
{
    if s.len() == 0 {
        -1
    } else if s[0].id == id {
        0
    } else {
        let r = first_index_with_id(s.skip(1), id);
        if r < 0 {
            -1
        } else {
            r + 1
        }
    }
}

/// Returns a copy of the collection, place by place.
pub fn clone_snippets(v: &Vec<Snippet>) -> (r: Vec<Snippet>)
    ensures
        r@ == v@,
{
    let mut r: Vec<Snippet> = Vec::new();
    let mut i: usize = 0;
    while i < v.len()
        invariant
            i <= v@.len(),
            r@ == v@.take(i as int),
        decreases v@.len() - i,
    {
        r.push(v[i].clone());
        proof {
            assert(v@.take(i as int).push(v@[i as int]) =~= v@.take(i + 1));
        }
        i += 1;
    }
    proof {
        assert(v@.take(v@.len() as int) =~= v@);
    }
    r
}

/// Characterises `first_index_with_id` by a scan that found the first
/// match (or none) directly.
pub proof fn lemma_first_index_with_id(s: Seq<Snippet>, id: u32, i: int)
    requires
        0 <= i <= s.len(),
        forall|k: int| 0 <= k < i ==> #[trigger] s[k].id != id,
        i == s.len() || s[i].id == id,
    ensures
        i == s.len() ==> first_index_with_id(s, id) == -1 && !has_id(s, id),
        i < s.len() ==> first_index_with_id(s, id) == i && has_id(s, id),
    decreases i,
{
    if s.len() == 0 {
    } else if i == 0 {
    } else {
        let t = s.skip(1);
        assert(forall|k: int| 0 <= k < i - 1 ==> #[trigger] t[k].id != id);
        lemma_first_index_with_id(t, id, i - 1);
        if i == s.len() {
            if has_id(s, id) {
                let w = choose|w: int| 0 <= w < s.len() && #[trigger] s[w].id == id;
                assert(false);
            }
        }
    }
}

} // verus!
