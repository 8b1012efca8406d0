//! Building the element list of a waveform: transitions between level
//! runs, bus crossings, and text on its run.

use vstd::prelude::*;
use crate::line::{
    ElementModel, LevelRun, spec_element_models, SignalLevel, Transition, TransitionKind, WaveformElement, lemma_units_total_push,
    spec_preceded_placed, spec_transition_kind, spec_transition_kinds_ok, spec_transition_placed,
    spec_transitions_consistent, spec_units_total, transition_kind_between,
};
use crate::text::{UserText, spec_is_forbidden};
use super::waveform::{ResolvedToken, TokenModel, spec_token_models, spec_tokens_units};

verus! {

/// Text fragments joined by single spaces, empty fragments skipped.
pub open spec fn spec_join(f: Seq<Seq<char>>) -> Seq<char>
    decreases f.len(),
{
    if f.len() == 0 {
        Seq::empty()
    } else {
        let head = spec_join(f.drop_last());
        let last = f.last();
        if last.len() == 0 {
            head
        } else if head.len() == 0 {
            last
        } else {
            head + seq![' '] + last
        }
    }
}

pub open spec fn spec_fragments(f: Seq<Vec<char>>) -> Seq<Seq<char>> {
    f.map_values(|v: Vec<char>| v@)
}

/// The text drawn on a level run with fragments `f`: the fragments
/// joined by spaces, unless that is empty or not valid user text.
pub open spec fn spec_text_of(f: Seq<Seq<char>>) -> Option<Seq<char>> {
    let j = spec_join(f);
    if j.len() > 0 && forall|k: int| 0 <= k < j.len() ==> !spec_is_forbidden(#[trigger] j[k]) {
        Some(j)
    } else {
        None
    }
}

/// The text drawn on a level run: its fragments joined by spaces; none
/// when that is empty or not valid user text.
pub fn join_text_fragments(fragments: &Vec<Vec<char>>) -> (r: Option<UserText>)
    ensures
        match r {
            Some(t) => spec_text_of(spec_fragments(fragments@)) == Some(t@),
            None => spec_text_of(spec_fragments(fragments@)) is None,
        },
        match r {
            Some(t) => t@ == spec_join(spec_fragments(fragments@)) && t@.len() > 0,
            None => spec_join(spec_fragments(fragments@)).len() == 0 || exists|k: int|
                0 <= k < spec_join(spec_fragments(fragments@)).len() && crate::text::spec_is_forbidden(
                    #[trigger] spec_join(spec_fragments(fragments@))[k],
                ),
        },
{
    let mut joined: Vec<char> = Vec::new();
    let mut i: usize = 0;
    while i < fragments.len()
        invariant
            i <= fragments@.len(),
            joined@ == spec_join(spec_fragments(fragments@.subrange(0, i as int))),
        decreases fragments.len() - i,
    {
        proof {
            assert(spec_fragments(fragments@.subrange(0, i + 1)).drop_last() =~= spec_fragments(fragments@.subrange(0, i as int)));
        }
        let fragment = &fragments[i];
        if fragment.len() > 0 {
            if joined.len() > 0 {
                joined.push(' ');
            }
            let ghost before = joined@;
            let mut k: usize = 0;
            while k < fragment.len()
                invariant
                    k <= fragment@.len(),
                    joined@ == before + fragment@.subrange(0, k as int),
                decreases fragment.len() - k,
            {
                joined.push(fragment[k]);
                assert(joined@ =~= before + fragment@.subrange(0, k + 1));
                k = k + 1;
            }
            assert(fragment@.subrange(0, fragment@.len() as int) =~= fragment@);
        }
        assert(spec_join(spec_fragments(fragments@.subrange(0, i + 1))) =~= joined@);
        i = i + 1;
    }
    assert(fragments@.subrange(0, fragments@.len() as int) =~= fragments@);
    if joined.len() == 0 {
        return None;
    }
    match UserText::parse_all(&joined) {
        Ok(t) => Some(t),
        Err(_) => None,
    }
}

/// Invariant of the element list while it is built: everything is paired
/// except, when `open`, a final transition waiting for its run.
pub open spec fn spec_emit_inv(out: Seq<WaveformElement>, open: bool) -> bool {
    &&& forall|k: int| 0 <= k < out.len() ==> #[trigger] spec_preceded_placed(out, k)
    &&& forall|k: int| 0 <= k < out.len() - (if open { 1int } else { 0int }) ==> #[trigger] spec_transition_placed(out, k)
    &&& spec_transition_kinds_ok(out)
}

proof fn lemma_push_plain(out: Seq<WaveformElement>, e: WaveformElement)
    requires
        spec_emit_inv(out, false),
        !(e is Transition),
        !(e matches WaveformElement::Level(run) && run.preceded_by_transition),
    ensures
        spec_emit_inv(out.push(e), false),
{
    let o = out.push(e);
    assert forall|k: int| 0 <= k < o.len() implies #[trigger] spec_preceded_placed(o, k) by {
        if k < out.len() {
            assert(spec_preceded_placed(out, k));
        }
    }
    assert forall|k: int| 0 <= k < o.len() implies #[trigger] spec_transition_placed(o, k) by {
        if k < out.len() {
            assert(spec_transition_placed(out, k));
        }
    }
    assert forall|k: int| 0 <= k < o.len() implies (#[trigger] o[k] matches WaveformElement::Transition(t) ==> (
        spec_transition_kind(t.source, t.target) == Some(t.kind) || t.kind == TransitionKind::BusCross || t.kind == TransitionKind::BusOpen
    )) by {
        if k < out.len() {
            assert(o[k] == out[k]);
        }
    }
}

proof fn lemma_push_transition(out: Seq<WaveformElement>, t: Transition)
    requires
        spec_emit_inv(out, false),
        spec_transition_kind(t.source, t.target) == Some(t.kind) || t.kind == TransitionKind::BusCross || t.kind == TransitionKind::BusOpen,
    ensures
        spec_emit_inv(out.push(WaveformElement::Transition(t)), true),
{
    let o = out.push(WaveformElement::Transition(t));
    assert forall|k: int| 0 <= k < o.len() implies #[trigger] spec_preceded_placed(o, k) by {
        if k < out.len() {
            assert(spec_preceded_placed(out, k));
        }
    }
    assert forall|k: int| 0 <= k < o.len() - 1 implies #[trigger] spec_transition_placed(o, k) by {
        assert(spec_transition_placed(out, k));
    }
    assert forall|k: int| 0 <= k < o.len() implies (#[trigger] o[k] matches WaveformElement::Transition(t) ==> (
        spec_transition_kind(t.source, t.target) == Some(t.kind) || t.kind == TransitionKind::BusCross || t.kind == TransitionKind::BusOpen
    )) by {
        if k < out.len() {
            assert(o[k] == out[k]);
        }
    }
}

proof fn lemma_push_preceded(out: Seq<WaveformElement>, run: LevelRun)
    requires
        spec_emit_inv(out, true),
        out.len() > 0,
        out.last() matches WaveformElement::Transition(t) && t.target == run.level,
        run.preceded_by_transition,
    ensures
        spec_emit_inv(out.push(WaveformElement::Level(run)), false),
{
    let o = out.push(WaveformElement::Level(run));
    assert forall|k: int| 0 <= k < o.len() implies #[trigger] spec_preceded_placed(o, k) by {
        if k < out.len() {
            assert(spec_preceded_placed(out, k));
        }
    }
    assert forall|k: int| 0 <= k < o.len() implies #[trigger] spec_transition_placed(o, k) by {
        if k < out.len() - 1 {
            assert(spec_transition_placed(out, k));
        }
    }
    assert forall|k: int| 0 <= k < o.len() implies (#[trigger] o[k] matches WaveformElement::Transition(t) ==> (
        spec_transition_kind(t.source, t.target) == Some(t.kind) || t.kind == TransitionKind::BusCross || t.kind == TransitionKind::BusOpen
    )) by {
        if k < out.len() {
            assert(o[k] == out[k]);
        }
    }
}

proof fn lemma_element_models_push(v: Seq<WaveformElement>, e: WaveformElement)
    ensures
        spec_element_models(v.push(e)) == spec_element_models(v).push(e.model()),
{
    assert(spec_element_models(v.push(e)) =~= spec_element_models(v).push(e.model()));
}

/// What the emitter has produced so far: the elements, the level the
/// next run follows, and whether a transition waits for its run.
pub struct EmitState {
    pub out: Seq<ElementModel>,
    pub last: Option<SignalLevel>,
    pub pending: bool,
}

pub open spec fn spec_emit_init() -> EmitState {
    EmitState { out: Seq::empty(), last: None, pending: false }
}

/// Whether the elements emitted so far end with a gap (`:`).
pub open spec fn spec_after_gap(out: Seq<ElementModel>) -> bool {
    out.len() > 0 && out.last() is Gap
}

/// The emitter's step on token `t` (followed by `next`, if any): an `X`
/// at the start of the waveform or just after a gap opens no transition.
pub open spec fn spec_emit_token(st: EmitState, t: TokenModel, next: Option<TokenModel>) -> EmitState {
    match t {
        TokenModel::Level(run, frags) => {
            let cur = run.level;
            let out1 = if st.pending {
                st.out.push(ElementModel::Level(LevelRun { preceded_by_transition: true, ..run }))
            } else {
                match st.last {
                    Some(p) => match spec_transition_kind(p, cur) {
                        Some(k) => st.out.push(ElementModel::Transition(p, cur, k, None)).push(
                            ElementModel::Level(LevelRun { preceded_by_transition: true, ..run }),
                        ),
                        None => st.out.push(ElementModel::Level(LevelRun { preceded_by_transition: false, ..run })),
                    },
                    None => st.out.push(ElementModel::Level(LevelRun { preceded_by_transition: false, ..run })),
                }
            };
            let out2 = match spec_text_of(frags) {
                Some(x) => out1.push(ElementModel::Text(x)),
                None => out1,
            };
            EmitState { out: out2, last: Some(cur), pending: false }
        },
        TokenModel::BusCross => match next {
            Some(TokenModel::Level(r, _)) => match st.last {
                Some(from) if !spec_after_gap(st.out) => EmitState {
                    out: st.out.push(ElementModel::Transition(
                        from,
                        r.level,
                        if from.spec_is_bus_family() { TransitionKind::BusCross } else { TransitionKind::BusOpen },
                        None,
                    )),
                    last: Some(r.level),
                    pending: true,
                },
                _ => EmitState { last: Some(r.level), ..st },
            },
            _ => EmitState { last: Some(SignalLevel::Bus), ..st },
        },
        TokenModel::Element(e) => if e is Transition || e is Level {
            st
        } else {
            EmitState { out: st.out.push(e), ..st }
        },
    }
}

/// The elements emitted for the tokens `ts[k..]`, starting from `st`.
pub open spec fn spec_emit(ts: Seq<TokenModel>, k: int, st: EmitState) -> Seq<ElementModel>
    decreases ts.len() - k,
{
    if k < 0 || k >= ts.len() {
        st.out
    } else {
        spec_emit(ts, k + 1, spec_emit_token(st, ts[k], if k + 1 < ts.len() { Some(ts[k + 1]) } else { None }))
    }
}

/// Emits the element list of a waveform from its resolved tokens: each
/// level run is preceded by the transition from the previous level when
/// the two levels meet with one, followed by its text; an `X` becomes a
/// bus crossing (or a bus opening after a single-line level) in front of
/// the run that follows it, and nothing at the start of the waveform or
/// just after a gap.
pub fn emit_transitions(tokens: Vec<ResolvedToken>) -> (out: Vec<WaveformElement>)
    ensures
        spec_transitions_consistent(out@),
        spec_transition_kinds_ok(out@),
        spec_units_total(out@) == spec_tokens_units(tokens@),
        spec_element_models(out@) == spec_emit(spec_token_models(tokens@), 0, spec_emit_init()),
{
    let ghost orig = tokens@;
    let n = tokens.len();
    let mut rest = tokens;
    let mut out: Vec<WaveformElement> = Vec::new();
    let mut last_level: Option<SignalLevel> = None;
    let mut pending = false;
    let mut i: usize = 0;
    assert(spec_element_models(out@) =~= Seq::<ElementModel>::empty());
    while i < n
        invariant
            n == orig.len(),
            i <= n,
            rest@ == orig.subrange(i as int, n as int),
            spec_emit_inv(out@, pending),
            pending ==> {
                &&& i < n
                &&& out@.len() > 0
                &&& rest@[0] matches ResolvedToken::Level(run, _)
                &&& out@.last() matches WaveformElement::Transition(t)
                &&& t.target == run.level
            },
            spec_units_total(out@) == spec_tokens_units(orig.subrange(0, i as int)),
            spec_emit(spec_token_models(orig), 0, spec_emit_init())
                == spec_emit(spec_token_models(orig), i as int, EmitState { out: spec_element_models(out@), last: last_level, pending }),
        decreases n - i,
    {
        proof {
            assert(orig.subrange(0, i + 1).drop_last() =~= orig.subrange(0, i as int));
        }
        let ghost st0 = EmitState { out: spec_element_models(out@), last: last_level, pending };
        let ghost ts = spec_token_models(orig);
        let ghost nxt = if i + 1 < n { Some(ts[i + 1]) } else { None::<TokenModel> };
        let token = rest.remove(0);
        assert(token == orig[i as int]);
        assert(rest@ =~= orig.subrange(i + 1, n as int));
        assert(ts[i as int] == token.model());
        assert(rest@.len() > 0 ==> rest@[0] == orig[i + 1]);
        let ghost before = out@;
        match token {
            ResolvedToken::Level(run, fragments) => {
                let current = run.level;
                let mut run = run;
                if pending {
                    run.preceded_by_transition = true;
                    out.push(WaveformElement::Level(run));
                    proof {
                        lemma_push_preceded(before, run);
                        lemma_units_total_push(before, WaveformElement::Level(run));
                        lemma_element_models_push(before, WaveformElement::Level(run));
                    }
                    pending = false;
                } else {
                    let mut kind: Option<TransitionKind> = None;
                    if let Some(previous) = last_level {
                        kind = transition_kind_between(previous, current);
                        if let Some(k) = kind {
                            let t = Transition { source: previous, target: current, kind: k, label: None };
                            out.push(WaveformElement::Transition(t));
                            proof {
                                lemma_push_transition(before, t);
                                lemma_units_total_push(before, WaveformElement::Transition(t));
                                lemma_element_models_push(before, WaveformElement::Transition(t));
                            }
                        }
                    }
                    let ghost mid = out@;
                    if kind.is_some() {
                        run.preceded_by_transition = true;
                        out.push(WaveformElement::Level(run));
                        proof {
                            lemma_push_preceded(mid, run);
                            lemma_element_models_push(mid, WaveformElement::Level(run));
                        }
                    } else {
                        run.preceded_by_transition = false;
                        out.push(WaveformElement::Level(run));
                        proof {
                            lemma_push_plain(mid, WaveformElement::Level(run));
                            lemma_element_models_push(mid, WaveformElement::Level(run));
                        }
                    }
                    proof {
                        lemma_units_total_push(mid, WaveformElement::Level(run));
                    }
                }
                let ghost mid2 = out@;
                assert(spec_fragments(fragments@) =~= fragments@.map_values(|v: Vec<char>| v@));
                if let Some(text) = join_text_fragments(&fragments) {
                    out.push(WaveformElement::Text(text));
                    proof {
                        lemma_push_plain(mid2, WaveformElement::Text(text));
                        lemma_units_total_push(mid2, WaveformElement::Text(text));
                        lemma_element_models_push(mid2, WaveformElement::Text(text));
                    }
                }
                last_level = Some(current);
            },
            ResolvedToken::BusCross => {
                let next_level: Option<SignalLevel> = if rest.len() > 0 {
                    match &rest[0] {
                        ResolvedToken::Level(r, _) => Some(r.level),
                        _ => None,
                    }
                } else {
                    None
                };
                let after_gap = out.len() > 0 && match &out[out.len() - 1] {
                    WaveformElement::Gap => true,
                    _ => false,
                };
                proof {
                    if out@.len() > 0 {
                        assert(spec_element_models(out@).last() == out@.last().model());
                    }
                }
                match next_level {
                    Some(next) => {
                        match last_level {
                            None => {},
                            Some(from) => if !after_gap {
                                let kind = if from.is_bus_family() { TransitionKind::BusCross } else { TransitionKind::BusOpen };
                                let t = Transition { source: from, target: next, kind, label: None };
                                out.push(WaveformElement::Transition(t));
                                proof {
                                    lemma_push_transition(before, t);
                                    lemma_units_total_push(before, WaveformElement::Transition(t));
                                    lemma_element_models_push(before, WaveformElement::Transition(t));
                                }
                                pending = true;
                            },
                        }
                        last_level = Some(next);
                    },
                    None => {
                        last_level = Some(SignalLevel::Bus);
                    },
                }
            },
            ResolvedToken::Element(element) => {
                proof {
                    assert(!(element is Transition) || true);
                }
                let safe = match &element {
                    WaveformElement::Transition(_) => false,
                    WaveformElement::Level(_) => false,
                    _ => true,
                };
                if safe {
                    out.push(element);
                    proof {
                        lemma_push_plain(before, out@.last());
                        lemma_units_total_push(before, out@.last());
                        lemma_element_models_push(before, out@.last());
                    }
                }
            },
        }
        assert(EmitState { out: spec_element_models(out@), last: last_level, pending } == spec_emit_token(st0, ts[i as int], nxt));
        i = i + 1;
    }
    assert(orig.subrange(0, n as int) =~= orig);
    out
}

} // verus!
