//! Applying a settings patch from the frontend: a shallow merge of the
//! patch's members onto the settings' wire document.

use vstd::prelude::*;
use vstd::string::*;

use crate::error::{AppError, AppResult, ErrorView};
use crate::json::{insert_into, members_v, merged_members, object, Json, JsonV};

verus! {

/// Outcome of merging `patch` onto `current`: both must be objects (the
/// patch is checked first); the result holds `current`'s members with each
/// of the patch's inserted in order.
pub open spec fn merge_spec(current: JsonV, patch: JsonV) -> Result<JsonV, ErrorView> {
    match patch {
        JsonV::Object(p) => match current {
            JsonV::Object(c) => Ok(JsonV::Object(merged_members(c, p))),
            _ => Err(ErrorView::Internal("settings did not serialize to an object"@)),
        },
        _ => Err(ErrorView::Parse("settings patch must be an object"@)),
    }
}

pub open spec fn doc_outcome(r: AppResult<Json>) -> Result<JsonV, ErrorView> {
    match r {
        Ok(j) => Ok(j@),
        Err(e) => Err(e@),
    }
}

/// Shallow-merges a patch object onto the settings document (see
/// `merge_spec`).
pub fn merge_patch(current: Json, patch: &Json) -> (r: AppResult<Json>)
    ensures
        doc_outcome(r) == merge_spec(current@, patch@),
{
    let pm = match patch {
        Json::Object(pm) => pm,
        _ => {
            return Err(AppError::Parse(String::from_str("settings patch must be an object")));
        },
    };
    let mut members = match current {
        Json::Object(m) => m,
        _ => {
            return Err(
                AppError::Internal(String::from_str("settings did not serialize to an object")),
            );
        },
    };
    proof {
        assert(patch@->Object_0 =~= members_v(pm@));
        assert(current@->Object_0 =~= members_v(members@));
    }
    let ghost start = members_v(members@);
    let ghost pv = members_v(pm@);
    let mut i: usize = 0;
    while i < pm.len()
        invariant
            i <= pm@.len(),
            pv == members_v(pm@),
            members_v(members@) == merged_members(start, pv.take(i as int)),
        decreases pm.len() - i,
    {
        assert(pv.take(i + 1 as int).drop_last() =~= pv.take(i as int));
        let (k, x) = &pm[i];
        insert_into(&mut members, k.clone(), x.copy());
        i += 1;
    }
    assert(pv.take(pm@.len() as int) =~= pv);
    Ok(object(members))
}

} // verus!

verus! {

/// The value of the first member with key `k`.
pub open spec fn member_value(m: Seq<(Seq<char>, JsonV)>, k: Seq<char>) -> Option<JsonV> {
    match crate::json::key_index(m, k) {
        Some(i) => Some(m[i].1),
        None => None,
    }
}

/// The value of the last member with key `k`.
pub open spec fn last_member_value(m: Seq<(Seq<char>, JsonV)>, k: Seq<char>) -> Option<JsonV>
    decreases m.len(),
{
    if m.len() == 0 {
        None
    } else if m.last().0 == k {
        Some(m.last().1)
    } else {
        last_member_value(m.drop_last(), k)
    }
}

proof fn lemma_key_index_keys(a: Seq<(Seq<char>, JsonV)>, b: Seq<(Seq<char>, JsonV)>, k: Seq<char>)
    requires
        a.len() == b.len(),
        forall|i: int| 0 <= i < a.len() ==> (#[trigger] a[i]).0 == b[i].0,
    ensures
        crate::json::key_index(a, k) == crate::json::key_index(b, k),
    decreases a.len(),
{
    if a.len() > 0 {
        assert forall|i: int| 0 <= i < a.len() - 1 implies (#[trigger] a.drop_last()[i]).0
            == b.drop_last()[i].0 by {
            assert(a.drop_last()[i] == a[i]);
            assert(b.drop_last()[i] == b[i]);
        }
        lemma_key_index_keys(a.drop_last(), b.drop_last(), k);
        assert(a[a.len() - 1].0 == b[b.len() - 1].0);
    }
}

proof fn lemma_key_index_found(m: Seq<(Seq<char>, JsonV)>, k: Seq<char>)
    ensures
        crate::json::key_index(m, k) matches Some(i) ==> 0 <= i < m.len() && m[i].0 == k,
    decreases m.len(),
{
    if m.len() > 0 {
        lemma_key_index_found(m.drop_last(), k);
        if let Some(i) = crate::json::key_index(m.drop_last(), k) {
            assert(m.drop_last()[i] == m[i]);
        }
    }
}

proof fn lemma_insert_member(m: Seq<(Seq<char>, JsonV)>, k: Seq<char>, v: JsonV, k2: Seq<char>)
    ensures
        member_value(crate::json::insert_member(m, k, v), k2) == if k2 == k {
            Some(v)
        } else {
            member_value(m, k2)
        },
{
    let r = crate::json::insert_member(m, k, v);
    lemma_key_index_found(m, k);
    match crate::json::key_index(m, k) {
        Some(i) => {
            assert forall|j: int| 0 <= j < m.len() implies (#[trigger] m[j]).0 == r[j].0 by {}
            lemma_key_index_keys(m, r, k2);
            lemma_key_index_found(m, k2);
            if k2 != k {
                if let Some(j) = crate::json::key_index(m, k2) {
                    assert(j != i);
                }
            }
        },
        None => {
            assert(r.drop_last() =~= m);
            if k2 != k {
                lemma_key_index_found(m, k2);
            }
        },
    }
}

/// After a merge, each key the patch sets holds the patch's (last) value
/// for it, and every other key keeps its value.
pub proof fn lemma_merge_values(c: Seq<(Seq<char>, JsonV)>, p: Seq<(Seq<char>, JsonV)>, k: Seq<char>)
    ensures
        member_value(merged_members(c, p), k) == match last_member_value(p, k) {
            Some(v) => Some(v),
            None => member_value(c, k),
        },
    decreases p.len(),
{
    if p.len() > 0 {
        lemma_merge_values(c, p.drop_last(), k);
        lemma_insert_member(merged_members(c, p.drop_last()), p.last().0, p.last().1, k);
    }
}

} // verus!
