//! Merging neighbouring level runs is done in one pass.

use vstd::prelude::*;
use super::waveform::{TokenModel, spec_merge, spec_push_merged};

verus! {

/// Whether `x` and `y` are level runs of the same level.
pub open spec fn spec_mergeable(x: TokenModel, y: TokenModel) -> bool {
    x matches TokenModel::Level(a, _) && y matches TokenModel::Level(b, _) && a.level == b.level
}

/// No two neighbouring tokens are level runs of the same level.
pub open spec fn spec_models_unmergeable(ts: Seq<TokenModel>) -> bool {
    forall|i: int| 0 <= i < ts.len() - 1 ==> !spec_mergeable(#[trigger] ts[i], ts[i + 1])
}

proof fn lemma_push_merged_unmergeable(out: Seq<TokenModel>, t: TokenModel)
    requires
        spec_models_unmergeable(out),
    ensures
        spec_models_unmergeable(spec_push_merged(out, t)),
        spec_push_merged(out, t).len() > 0,
{
    let r = spec_push_merged(out, t);
    if out.len() > 0 && spec_mergeable(out.last(), t) {
        assert(r.len() == out.len());
        assert forall|i: int| 0 <= i < r.len() - 1 implies !spec_mergeable(#[trigger] r[i], r[i + 1]) by {
            assert(r[i] == out[i]);
            if i + 1 < r.len() - 1 {
                assert(r[i + 1] == out[i + 1]);
            } else {
                assert(!spec_mergeable(out[i], out[i + 1]));
                assert(out[i + 1] == out.last());
            }
        }
    } else {
        assert(r == out.push(t));
        assert forall|i: int| 0 <= i < r.len() - 1 implies !spec_mergeable(#[trigger] r[i], r[i + 1]) by {
            assert(r[i] == out[i]);
            if i + 1 < out.len() {
                assert(r[i + 1] == out[i + 1]);
            }
        }
    }
}

proof fn lemma_merge_unmergeable(ts: Seq<TokenModel>)
    ensures
        spec_models_unmergeable(spec_merge(ts)),
    decreases ts.len(),
{
    if ts.len() > 0 {
        lemma_merge_unmergeable(ts.drop_last());
        lemma_push_merged_unmergeable(spec_merge(ts.drop_last()), ts.last());
    }
}

proof fn lemma_merge_keeps_unmergeable(ts: Seq<TokenModel>)
    requires
        spec_models_unmergeable(ts),
    ensures
        spec_merge(ts) == ts,
    decreases ts.len(),
{
    if ts.len() > 0 {
        let d = ts.drop_last();
        assert forall|i: int| 0 <= i < d.len() - 1 implies !spec_mergeable(#[trigger] d[i], d[i + 1]) by {
            assert(d[i] == ts[i] && d[i + 1] == ts[i + 1]);
        }
        lemma_merge_keeps_unmergeable(d);
        if d.len() > 0 {
            assert(d.last() == ts[ts.len() - 2]);
            assert(!spec_mergeable(ts[ts.len() - 2], ts[ts.len() - 1]));
        }
        assert(spec_push_merged(d, ts.last()) == d.push(ts.last()));
        assert(d.push(ts.last()) =~= ts);
    }
}

/// Merging is done in one pass: merging the merged tokens again changes
/// nothing.
pub proof fn lemma_merge_idempotent(ts: Seq<TokenModel>)
    ensures
        spec_merge(spec_merge(ts)) == spec_merge(ts),
{
    lemma_merge_unmergeable(ts);
    lemma_merge_keeps_unmergeable(spec_merge(ts));
}

} // verus!
