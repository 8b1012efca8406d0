//! Don't-care widening passes over guides.

use vstd::prelude::*;
use crate::line::{ElementModel, LevelRun, SignalLevel};
use super::waveform::{TokenModel, spec_absorb, spec_widen_back, spec_widen_fwd};

verus! {

proof fn lemma_absorb_frame(ts: Seq<TokenModel>, j: int, d: SignalLevel)
    requires
        0 <= j < ts.len(),
    ensures
        spec_absorb(ts, j, d).0.len() == ts.len(),
        forall|m: int| 0 <= m < ts.len() && m != j ==> #[trigger] spec_absorb(ts, j, d).0[m] == ts[m],
{
}

proof fn lemma_widen_back_frame(ts: Seq<TokenModel>, k: int, d: SignalLevel)
    ensures
        spec_widen_back(ts, k, d).len() == ts.len(),
        forall|m: int| k <= m < ts.len() && 0 <= m ==> #[trigger] spec_widen_back(ts, k, d)[m] == ts[m],
    decreases k,
{
    if k > 0 && k <= ts.len() {
        lemma_absorb_frame(ts, k - 1, d);
        let t2 = spec_absorb(ts, k - 1, d).0;
        lemma_widen_back_frame(t2, k - 1, d);
    }
}

proof fn lemma_widen_fwd_frame(ts: Seq<TokenModel>, k: int, d: SignalLevel)
    ensures
        spec_widen_fwd(ts, k, d).len() == ts.len(),
        forall|m: int| 0 <= m < k && m < ts.len() ==> #[trigger] spec_widen_fwd(ts, k, d)[m] == ts[m],
    decreases ts.len() - k,
{
    if 0 <= k < ts.len() {
        lemma_absorb_frame(ts, k, d);
        let t2 = spec_absorb(ts, k, d).0;
        lemma_widen_fwd_frame(t2, k + 1, d);
    }
}

/// Whether `e` is a mark that widening passes over: a guide, an anchor or
/// a highlight mark.
pub open spec fn spec_passed_over(e: ElementModel) -> bool {
    e is Guide || e is Anchor || e is HighlightStart || e is HighlightEnd
}

/// Widening backwards passes over guides, anchors and highlight marks: a
/// run whose don't-care form is `d`, with only such a mark between it and
/// the don't-care run at `j`, is widened to `d` (its units and text kept),
/// and the mark stays.
pub proof fn lemma_widen_back_passes_guides(ts: Seq<TokenModel>, j: int, d: SignalLevel, run: LevelRun, f: Seq<Seq<char>>, e: ElementModel)
    requires
        2 <= j <= ts.len(),
        spec_passed_over(e),
        ts[j - 1] == TokenModel::Element(e),
        ts[j - 2] == TokenModel::Level(run, f),
        run.level.spec_dontcare_along() == d,
    ensures
        spec_widen_back(ts, j, d)[j - 2] == TokenModel::Level(LevelRun { level: d, ..run }, f),
        spec_widen_back(ts, j, d)[j - 1] == TokenModel::Element(e),
{
    assert(spec_absorb(ts, j - 1, d) == (ts, true));
    assert(spec_widen_back(ts, j, d) == spec_widen_back(ts, j - 1, d));
    let t2 = ts.update(j - 2, TokenModel::Level(LevelRun { level: d, ..run }, f));
    assert(spec_absorb(ts, j - 2, d) == (t2, true));
    assert(spec_widen_back(ts, j - 1, d) == spec_widen_back(t2, j - 2, d));
    lemma_widen_back_frame(t2, j - 2, d);
}

/// Widening forwards passes over guides, anchors and highlight marks:
/// from such a mark at `j`, a run just after it whose don't-care form is
/// `d` is widened to `d` (its units and text kept), and the mark stays.
pub proof fn lemma_widen_fwd_passes_guides(ts: Seq<TokenModel>, j: int, d: SignalLevel, run: LevelRun, f: Seq<Seq<char>>, e: ElementModel)
    requires
        0 <= j,
        j + 1 < ts.len(),
        spec_passed_over(e),
        ts[j] == TokenModel::Element(e),
        ts[j + 1] == TokenModel::Level(run, f),
        run.level.spec_dontcare_along() == d,
    ensures
        spec_widen_fwd(ts, j, d)[j + 1] == TokenModel::Level(LevelRun { level: d, ..run }, f),
        spec_widen_fwd(ts, j, d)[j] == TokenModel::Element(e),
{
    assert(spec_absorb(ts, j, d) == (ts, true));
    assert(spec_widen_fwd(ts, j, d) == spec_widen_fwd(ts, j + 1, d));
    let t2 = ts.update(j + 1, TokenModel::Level(LevelRun { level: d, ..run }, f));
    assert(spec_absorb(ts, j + 1, d) == (t2, true));
    assert(spec_widen_fwd(ts, j + 1, d) == spec_widen_fwd(t2, j + 2, d));
    lemma_widen_fwd_frame(t2, j + 2, d);
}

} // verus!
