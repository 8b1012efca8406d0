//! The row model: waveform elements, signal / title / skip rows.

use vstd::prelude::*;
use crate::anchor::{AnchorId, AnchorKey};
use crate::clock::{ClockPhase, ClockPulse, ClockSpec};
use crate::color::Color;
use crate::style::{LayoutParams, SignalRowStyle, TitleStyle};
use crate::text::{SignalName, UserText};
use crate::units::{Length, Px, spec_clamp_i64};

verus! {

/// The logic level drawn by one run of a waveform.
#[derive(Debug, Clone, Copy, PartialEq, Eq, Structural)]
pub enum SignalLevel {
    Low,
    High,
    HiZ,
    Bus,
    DontCareAlongLow,
    DontCareAlongHigh,
    DontCareAlongHiZ,
    DontCareAlongBus,
}

/// How a level is drawn: a single line, a double (bus) line, or a hatched
/// fill of either.
#[derive(Debug, Clone, Copy, PartialEq, Eq, Structural)]
pub enum LevelShape {
    Single,
    Double,
    FillSingle,
    FillDouble,
}

/// The kind of an automatically inserted transition.
#[derive(Debug, Clone, Copy, PartialEq, Eq, Structural)]
pub enum TransitionKind {
    SingleEdge,
    BusOpen,
    BusClose,
    BusCross,
}

impl SignalLevel {
    pub open spec fn spec_shape(self) -> LevelShape {
        match self {
            SignalLevel::Low | SignalLevel::High | SignalLevel::HiZ => LevelShape::Single,
            SignalLevel::Bus => LevelShape::Double,
            SignalLevel::DontCareAlongLow | SignalLevel::DontCareAlongHigh
            | SignalLevel::DontCareAlongHiZ => LevelShape::FillSingle,
            SignalLevel::DontCareAlongBus => LevelShape::FillDouble,
        }
    }

    pub open spec fn spec_dontcare_along(self) -> SignalLevel {
        match self {
            SignalLevel::Low | SignalLevel::DontCareAlongLow => SignalLevel::DontCareAlongLow,
            SignalLevel::High | SignalLevel::DontCareAlongHigh => SignalLevel::DontCareAlongHigh,
            SignalLevel::HiZ | SignalLevel::DontCareAlongHiZ => SignalLevel::DontCareAlongHiZ,
            SignalLevel::Bus | SignalLevel::DontCareAlongBus => SignalLevel::DontCareAlongBus,
        }
    }

    pub open spec fn spec_is_dontcare(self) -> bool {
        self.spec_shape() == LevelShape::FillSingle || self.spec_shape() == LevelShape::FillDouble
    }

    pub open spec fn spec_is_bus_family(self) -> bool {
        self == SignalLevel::Bus || self == SignalLevel::DontCareAlongBus
    }

    pub fn into_shape(self) -> (s: LevelShape)
        ensures
            s == self.spec_shape(),
    {
        match self {
            SignalLevel::Low | SignalLevel::High | SignalLevel::HiZ => LevelShape::Single,
            SignalLevel::Bus => LevelShape::Double,
            SignalLevel::DontCareAlongLow | SignalLevel::DontCareAlongHigh
            | SignalLevel::DontCareAlongHiZ => LevelShape::FillSingle,
            SignalLevel::DontCareAlongBus => LevelShape::FillDouble,
        }
    }

    /// The don't-care level drawn along this level's shape.
    pub fn into_dontcare_along(self) -> (l: SignalLevel)
        ensures
            l == self.spec_dontcare_along(),
    {
        match self {
            SignalLevel::Low | SignalLevel::DontCareAlongLow => SignalLevel::DontCareAlongLow,
            SignalLevel::High | SignalLevel::DontCareAlongHigh => SignalLevel::DontCareAlongHigh,
            SignalLevel::HiZ | SignalLevel::DontCareAlongHiZ => SignalLevel::DontCareAlongHiZ,
            SignalLevel::Bus | SignalLevel::DontCareAlongBus => SignalLevel::DontCareAlongBus,
        }
    }

    pub fn is_dontcare(self) -> (b: bool)
        ensures
            b == self.spec_is_dontcare(),
    {
        match self.into_shape() {
            LevelShape::FillSingle | LevelShape::FillDouble => true,
            _ => false,
        }
    }

    pub fn is_bus_family(self) -> (b: bool)
        ensures
            b == self.spec_is_bus_family(),
    {
        match self {
            SignalLevel::Bus | SignalLevel::DontCareAlongBus => true,
            _ => false,
        }
    }
}

/// The transition drawn between two adjacent levels, if any: single-line
/// levels meet with an edge, single-line and bus-family levels with a bus
/// open or close; other pairs meet without a transition.
pub open spec fn spec_transition_kind(from: SignalLevel, to: SignalLevel) -> Option<TransitionKind> {
    if from == to {
        None
    } else {
        match (from.spec_shape(), to.spec_shape()) {
            (LevelShape::Single, LevelShape::Single) => Some(TransitionKind::SingleEdge),
            (LevelShape::Single, LevelShape::Double) | (LevelShape::Single, LevelShape::FillDouble) => Some(TransitionKind::BusOpen),
            (LevelShape::Double, LevelShape::Single) | (LevelShape::FillDouble, LevelShape::Single) => Some(TransitionKind::BusClose),
            _ => None,
        }
    }
}

pub fn transition_kind_between(from: SignalLevel, to: SignalLevel) -> (r: Option<TransitionKind>)
    ensures
        r == spec_transition_kind(from, to),
{
    if from == to {
        return None;
    }
    match (from.into_shape(), to.into_shape()) {
        (LevelShape::Single, LevelShape::Single) => Some(TransitionKind::SingleEdge),
        (LevelShape::Single, LevelShape::Double) | (LevelShape::Single, LevelShape::FillDouble) => Some(TransitionKind::BusOpen),
        (LevelShape::Double, LevelShape::Single) | (LevelShape::FillDouble, LevelShape::Single) => Some(TransitionKind::BusClose),
        _ => None,
    }
}

/// A run of one level over `units` steps.
#[derive(Debug, Clone, Copy, PartialEq, Eq, Structural)]
pub struct LevelRun {
    pub level: SignalLevel,
    pub units: u32,
    /// Whether a transition element immediately precedes this run (its
    /// first slant-wide slice is then drawn by the transition).
    pub preceded_by_transition: bool,
}

impl LevelRun {
    pub fn new(level: SignalLevel, units: u32) -> (r: LevelRun)
        ensures
            r == (LevelRun { level, units, preceded_by_transition: false }),
    {
        LevelRun { level, units, preceded_by_transition: false }
    }

    pub fn level(&self) -> (l: SignalLevel)
        ensures
            l == self.level,
    {
        self.level
    }

    pub fn units(&self) -> (n: u32)
        ensures
            n == self.units,
    {
        self.units
    }

    pub fn is_preceded_by_transition(&self) -> (b: bool)
        ensures
            b == self.preceded_by_transition,
    {
        self.preceded_by_transition
    }
}

/// A transition element between two levels.
#[derive(Debug, Clone, PartialEq, Eq)]
pub struct Transition {
    pub source: SignalLevel,
    pub target: SignalLevel,
    pub kind: TransitionKind,
    pub label: Option<UserText>,
}

/// One element of a waveform.
#[derive(Debug, Clone, PartialEq, Eq)]
pub enum WaveformElement {
    Level(LevelRun),
    Transition(Transition),
    /// `:` — a break of one step.
    Gap,
    /// `|` — a vertical guide line.
    Guide,
    /// `[` — start of a highlighted region.
    HighlightStart,
    /// `]` — end of a highlighted region.
    HighlightEnd,
    /// `@{name}` / `@N`.
    Anchor(AnchorId),
    /// Text drawn on the preceding level run.
    Text(UserText),
}

/// A waveform element as a plain value: a transition as its source,
/// target, kind and label, text and anchors by their characters.
pub enum ElementModel {
    Level(LevelRun),
    Transition(SignalLevel, SignalLevel, TransitionKind, Option<Seq<char>>),
    Gap,
    Guide,
    HighlightStart,
    HighlightEnd,
    Anchor(AnchorKey),
    Text(Seq<char>),
}

impl WaveformElement {
    pub open spec fn model(self) -> ElementModel {
        match self {
            WaveformElement::Level(run) => ElementModel::Level(run),
            WaveformElement::Transition(t) => ElementModel::Transition(t.source, t.target, t.kind, match t.label {
                Some(l) => Some(l@),
                None => None,
            }),
            WaveformElement::Gap => ElementModel::Gap,
            WaveformElement::Guide => ElementModel::Guide,
            WaveformElement::HighlightStart => ElementModel::HighlightStart,
            WaveformElement::HighlightEnd => ElementModel::HighlightEnd,
            WaveformElement::Anchor(id) => ElementModel::Anchor(id@),
            WaveformElement::Text(t) => ElementModel::Text(t@),
        }
    }
}

pub open spec fn spec_element_models(v: Seq<WaveformElement>) -> Seq<ElementModel> {
    v.map_values(|e: WaveformElement| e.model())
}

/// Sum of the units of the level runs of `s`.
pub open spec fn spec_units_total(s: Seq<WaveformElement>) -> int
    decreases s.len(),
{
    if s.len() == 0 {
        0
    } else {
        spec_units_total(s.drop_last()) + match s.last() {
            WaveformElement::Level(run) => run.units as int,
            _ => 0,
        }
    }
}

/// The level of the last level run of `s`, if any.
pub open spec fn spec_last_level(s: Seq<WaveformElement>) -> Option<SignalLevel>
    decreases s.len(),
{
    if s.len() == 0 {
        None
    } else {
        match s.last() {
            WaveformElement::Level(run) => Some(run.level),
            _ => spec_last_level(s.drop_last()),
        }
    }
}

pub proof fn lemma_units_total_push(s: Seq<WaveformElement>, e: WaveformElement)
    ensures
        spec_units_total(s.push(e)) == spec_units_total(s) + match e {
            WaveformElement::Level(run) => run.units as int,
            _ => 0,
        },
        spec_last_level(s.push(e)) == match e {
            WaveformElement::Level(run) => Some(run.level),
            _ => spec_last_level(s),
        },
{
    assert(s.push(e).drop_last() =~= s);
}

pub proof fn lemma_units_total_nonneg(s: Seq<WaveformElement>)
    ensures
        spec_units_total(s) >= 0,
    decreases s.len(),
{
    if s.len() > 0 {
        lemma_units_total_nonneg(s.drop_last());
    }
}

/// The elements appended by clock expansion: alternating low / high pulses
/// (each at most its pulse width, the last one cut to fit) totalling
/// `remaining` units, each preceded by the transition from the previous
/// level when the two levels meet with one.
pub open spec fn spec_clock_fill(
    prev: Option<SignalLevel>,
    high_next: bool,
    remaining: nat,
    pulse: ClockPulse,
) -> Seq<WaveformElement>
    decreases remaining,
{
    if remaining == 0 || pulse.low == 0 || pulse.high == 0 {
        Seq::empty()
    } else {
        let level = if high_next { SignalLevel::High } else { SignalLevel::Low };
        let width: nat = if high_next { pulse.high as nat } else { pulse.low as nat };
        let len: nat = if width < remaining { width } else { remaining };
        let trans: Seq<WaveformElement> = match prev {
            Some(p) => match spec_transition_kind(p, level) {
                Some(k) => seq![WaveformElement::Transition(Transition { source: p, target: level, kind: k, label: None })],
                None => Seq::empty(),
            },
            None => Seq::empty(),
        };
        let run = LevelRun { level, units: len as u32, preceded_by_transition: trans.len() > 0 };
        trans.push(WaveformElement::Level(run)) + spec_clock_fill(Some(level), !high_next, (remaining - len) as nat, pulse)
    }
}

/// Element `k` is a transition only when a level run of its target,
/// marked as preceded by a transition, comes right after it.
pub open spec fn spec_transition_placed(out: Seq<WaveformElement>, k: int) -> bool {
    out[k] matches WaveformElement::Transition(t) ==> {
        &&& k + 1 < out.len()
        &&& out[k + 1] matches WaveformElement::Level(run)
        &&& run.level == t.target
        &&& run.preceded_by_transition
    }
}

/// A level run marked as preceded by a transition has one of its level
/// right before it.
pub open spec fn spec_preceded_placed(out: Seq<WaveformElement>, k: int) -> bool {
    (out[k] matches WaveformElement::Level(run) && run.preceded_by_transition) ==> {
        &&& k > 0
        &&& out[k - 1] matches WaveformElement::Transition(t)
        &&& t.target == (match out[k] {
            WaveformElement::Level(run) => run.level,
            _ => t.target,
        })
    }
}

/// Transitions and the runs they lead into are paired up.
pub open spec fn spec_transitions_consistent(out: Seq<WaveformElement>) -> bool {
    &&& forall|k: int| 0 <= k < out.len() ==> #[trigger] spec_transition_placed(out, k)
    &&& forall|k: int| 0 <= k < out.len() ==> #[trigger] spec_preceded_placed(out, k)
}

/// Every transition either joins two levels that meet with that kind of
/// transition, or is a bus crossing / bus opening at an `X`.
pub open spec fn spec_transition_kinds_ok(out: Seq<WaveformElement>) -> bool {
    forall|k: int| 0 <= k < out.len() ==> (#[trigger] out[k] matches WaveformElement::Transition(t) ==> (
        spec_transition_kind(t.source, t.target) == Some(t.kind)
        || t.kind == TransitionKind::BusCross
        || t.kind == TransitionKind::BusOpen
    ))
}


proof fn lemma_consistent_concat(a: Seq<WaveformElement>, b: Seq<WaveformElement>)
    requires
        spec_transitions_consistent(a),
        spec_transitions_consistent(b),
        spec_transition_kinds_ok(a),
        spec_transition_kinds_ok(b),
    ensures
        spec_transitions_consistent(a + b),
        spec_transition_kinds_ok(a + b),
{
    let c = a + b;
    assert forall|k: int| 0 <= k < c.len() implies #[trigger] spec_transition_placed(c, k) by {
        if k < a.len() {
            assert(spec_transition_placed(a, k));
            assert(c[k] == a[k]);
            if k + 1 < a.len() {
                assert(c[k + 1] == a[k + 1]);
            }
        } else {
            assert(spec_transition_placed(b, k - a.len()));
            assert(c[k] == b[k - a.len()]);
            if k + 1 < c.len() {
                assert(c[k + 1] == b[k + 1 - a.len()]);
            }
        }
    }
    assert forall|k: int| 0 <= k < c.len() implies #[trigger] spec_preceded_placed(c, k) by {
        if k < a.len() {
            assert(spec_preceded_placed(a, k));
            assert(c[k] == a[k]);
            if k > 0 {
                assert(c[k - 1] == a[k - 1]);
            }
        } else {
            assert(spec_preceded_placed(b, k - a.len()));
            assert(c[k] == b[k - a.len()]);
            if k > a.len() {
                assert(c[k - 1] == b[k - 1 - a.len()]);
            }
        }
    }
    assert forall|k: int| 0 <= k < c.len() implies (#[trigger] c[k] matches WaveformElement::Transition(t) ==> (
        spec_transition_kind(t.source, t.target) == Some(t.kind) || t.kind == TransitionKind::BusCross || t.kind == TransitionKind::BusOpen
    )) by {
        if k < a.len() {
            assert(c[k] == a[k]);
        } else {
            assert(c[k] == b[k - a.len()]);
        }
    }
}

proof fn lemma_clock_fill_consistent(prev: Option<SignalLevel>, high_next: bool, remaining: nat, pulse: ClockPulse)
    ensures
        spec_transitions_consistent(spec_clock_fill(prev, high_next, remaining, pulse)),
        spec_transition_kinds_ok(spec_clock_fill(prev, high_next, remaining, pulse)),
    decreases remaining,
{
    if remaining == 0 || pulse.low == 0 || pulse.high == 0 {
        let e = spec_clock_fill(prev, high_next, remaining, pulse);
        assert(e.len() == 0);
    } else {
        let level = if high_next { SignalLevel::High } else { SignalLevel::Low };
        let width: nat = if high_next { pulse.high as nat } else { pulse.low as nat };
        let len: nat = if width < remaining { width } else { remaining };
        let trans: Seq<WaveformElement> = match prev {
            Some(p) => match spec_transition_kind(p, level) {
                Some(k) => seq![WaveformElement::Transition(Transition { source: p, target: level, kind: k, label: None })],
                None => Seq::empty(),
            },
            None => Seq::empty(),
        };
        let run = LevelRun { level, units: len as u32, preceded_by_transition: trans.len() > 0 };
        let head = trans.push(WaveformElement::Level(run));
        lemma_clock_fill_consistent(Some(level), !high_next, (remaining - len) as nat, pulse);
        assert(spec_transitions_consistent(head)) by {
            assert forall|k: int| 0 <= k < head.len() implies #[trigger] spec_transition_placed(head, k) by {}
            assert forall|k: int| 0 <= k < head.len() implies #[trigger] spec_preceded_placed(head, k) by {}
        }
        assert(spec_transition_kinds_ok(head));
        lemma_consistent_concat(head, spec_clock_fill(Some(level), !high_next, (remaining - len) as nat, pulse));
    }
}

/// Extending a waveform with clock pulses keeps every transition paired
/// with the run it leads into.
pub proof fn lemma_clock_extension_keeps_pairing(s: Seq<WaveformElement>, start: ClockPhase, remaining: nat, pulse: ClockPulse)
    requires
        spec_transitions_consistent(s),
        spec_transition_kinds_ok(s),
    ensures
        spec_transitions_consistent(s + spec_clock_fill(spec_last_level(s), spec_high_next(s, start), remaining, pulse)),
        spec_transition_kinds_ok(s + spec_clock_fill(spec_last_level(s), spec_high_next(s, start), remaining, pulse)),
{
    lemma_clock_fill_consistent(spec_last_level(s), spec_high_next(s, start), remaining, pulse);
    lemma_consistent_concat(s, spec_clock_fill(spec_last_level(s), spec_high_next(s, start), remaining, pulse));
}

proof fn lemma_units_total_concat(a: Seq<WaveformElement>, b: Seq<WaveformElement>)
    ensures
        spec_units_total(a + b) == spec_units_total(a) + spec_units_total(b),
    decreases b.len(),
{
    if b.len() > 0 {
        lemma_units_total_concat(a, b.drop_last());
        assert((a + b).drop_last() =~= a + b.drop_last());
    } else {
        assert(a + b =~= a);
    }
}

proof fn lemma_clock_fill_units(prev: Option<SignalLevel>, high_next: bool, remaining: nat, pulse: ClockPulse)
    requires
        pulse.low >= 1,
        pulse.high >= 1,
    ensures
        spec_units_total(spec_clock_fill(prev, high_next, remaining, pulse)) == remaining,
    decreases remaining,
{
    if remaining > 0 {
        let level = if high_next { SignalLevel::High } else { SignalLevel::Low };
        let width: nat = if high_next { pulse.high as nat } else { pulse.low as nat };
        let len: nat = if width < remaining { width } else { remaining };
        let trans: Seq<WaveformElement> = match prev {
            Some(p) => match spec_transition_kind(p, level) {
                Some(k) => seq![WaveformElement::Transition(Transition { source: p, target: level, kind: k, label: None })],
                None => Seq::empty(),
            },
            None => Seq::empty(),
        };
        let run = LevelRun { level, units: len as u32, preceded_by_transition: trans.len() > 0 };
        lemma_clock_fill_units(Some(level), !high_next, (remaining - len) as nat, pulse);
        lemma_units_total_push(trans, WaveformElement::Level(run));
        if trans.len() > 0 {
            assert(trans.drop_last() =~= Seq::<WaveformElement>::empty());
            assert(spec_units_total(trans.drop_last()) == 0);
            assert(trans.last() is Transition);
        }
        assert(spec_units_total(trans) == 0);
        assert(len <= u32::MAX);
        assert(run.units as int == len);
        lemma_units_total_concat(trans.push(WaveformElement::Level(run)), spec_clock_fill(Some(level), !high_next, (remaining - len) as nat, pulse));
    }
}

/// Extending a waveform with clock pulses of positive widths by
/// `remaining` units adds exactly `remaining` units.
pub proof fn lemma_clock_extension_reaches_target(s: Seq<WaveformElement>, start: ClockPhase, remaining: nat, pulse: ClockPulse)
    requires
        pulse.low >= 1,
        pulse.high >= 1,
    ensures
        spec_units_total(s + spec_clock_fill(spec_last_level(s), spec_high_next(s, start), remaining, pulse))
            == spec_units_total(s) + remaining,
{
    lemma_clock_fill_units(spec_last_level(s), spec_high_next(s, start), remaining, pulse);
    lemma_units_total_concat(s, spec_clock_fill(spec_last_level(s), spec_high_next(s, start), remaining, pulse));
}

/// Whether clock expansion continues with a high pulse.
pub open spec fn spec_high_next(s: Seq<WaveformElement>, start: ClockPhase) -> bool {
    match spec_last_level(s) {
        Some(SignalLevel::Low) => true,
        Some(SignalLevel::High) => false,
        _ => start == ClockPhase::StartHigh,
    }
}

/// The ordered elements of one signal row.
#[derive(Debug, Clone, PartialEq, Eq)]
pub struct Waveform {
    pub elements: Vec<WaveformElement>,
}

impl Waveform {
    pub fn len(&self) -> (n: usize)
        ensures
            n == self.elements@.len(),
    {
        self.elements.len()
    }

    pub fn is_empty(&self) -> (b: bool)
        ensures
            b == (self.elements@.len() == 0),
    {
        self.elements.len() == 0
    }

    pub fn as_slice(&self) -> (s: &[WaveformElement])
        ensures
            s@ == self.elements@,
    {
        self.elements.as_slice()
    }

    /// Total units of the level runs (saturating at `u32::MAX`).
    pub fn level_units_total(&self) -> (n: u32)
        ensures
            n as int == if spec_units_total(self.elements@) <= u32::MAX {
                spec_units_total(self.elements@)
            } else {
                u32::MAX as int
            },
    {
        let mut total: u64 = 0;
        let mut i: usize = 0;
        while i < self.elements.len()
            invariant
                i <= self.elements@.len(),
                total as int == if spec_units_total(self.elements@.subrange(0, i as int)) <= u32::MAX {
                    spec_units_total(self.elements@.subrange(0, i as int))
                } else {
                    u32::MAX + 1
                },
            decreases self.elements.len() - i,
        {
            proof {
                lemma_units_total_push(self.elements@.subrange(0, i as int), self.elements@[i as int]);
                assert(self.elements@.subrange(0, i as int).push(self.elements@[i as int]) =~= self.elements@.subrange(0, i + 1));
                lemma_units_total_nonneg(self.elements@.subrange(0, i as int));
            }
            if let WaveformElement::Level(run) = &self.elements[i] {
                if total <= 0xffff_ffffu64 {
                    total = total + run.units as u64;
                    if total > 0xffff_ffffu64 {
                        total = 0x1_0000_0000u64;
                    }
                }
            }
            i = i + 1;
        }
        assert(self.elements@.subrange(0, self.elements@.len() as int) =~= self.elements@);
        if total > 0xffff_ffffu64 {
            0xffff_ffffu32
        } else {
            total as u32
        }
    }

    /// The level of the last level run, if any.
    pub fn last_level(&self) -> (r: Option<SignalLevel>)
        ensures
            r == spec_last_level(self.elements@),
    {
        let mut i = self.elements.len();
        assert(self.elements@.subrange(0, i as int) =~= self.elements@);
        while i > 0
            invariant
                i <= self.elements@.len(),
                spec_last_level(self.elements@) == spec_last_level(self.elements@.subrange(0, i as int)),
            decreases i,
        {
            proof {
                let pre = self.elements@.subrange(0, i as int);
                assert(pre.drop_last() =~= self.elements@.subrange(0, i - 1));
            }
            if let WaveformElement::Level(run) = &self.elements[i - 1] {
                return Some(run.level);
            }
            i = i - 1;
        }
        None
    }

    /// Appends clock pulses until the level runs total `target` units.
    pub fn extend_clock(&mut self, target: u32, pulse: ClockPulse, start: ClockPhase)
        ensures
            spec_units_total(old(self).elements@) >= target ==> final(self).elements@ == old(self).elements@,
            spec_units_total(old(self).elements@) < target ==> final(self).elements@ == old(self).elements@ + spec_clock_fill(
                spec_last_level(old(self).elements@),
                spec_high_next(old(self).elements@, start),
                (target - spec_units_total(old(self).elements@)) as nat,
                pulse,
            ),
            pulse.low >= 1 && pulse.high >= 1 ==> spec_units_total(final(self).elements@) == if spec_units_total(
                old(self).elements@,
            ) >= target {
                spec_units_total(old(self).elements@)
            } else {
                target as int
            },
    {
        proof {
            if pulse.low >= 1 && pulse.high >= 1 && spec_units_total(self.elements@) < target {
                lemma_clock_extension_reaches_target(self.elements@, start, (target - spec_units_total(self.elements@)) as nat, pulse);
            }
        }
        let current = self.level_units_total();
        if current >= target {
            return;
        }
        if pulse.low == 0 || pulse.high == 0 {
            assert(spec_clock_fill(
                spec_last_level(self.elements@),
                spec_high_next(self.elements@, start),
                (target - spec_units_total(self.elements@)) as nat,
                pulse,
            ) =~= Seq::<WaveformElement>::empty());
            assert(self.elements@ + Seq::<WaveformElement>::empty() =~= self.elements@);
            return;
        }
        let ghost original = self.elements@;
        let mut prev = self.last_level();
        let mut high_next = match prev {
            Some(SignalLevel::Low) => true,
            Some(SignalLevel::High) => false,
            _ => match start {
                ClockPhase::StartHigh => true,
                ClockPhase::StartLow => false,
            },
        };
        let mut remaining: u32 = target - current;
        assert(spec_clock_fill(prev, high_next, remaining as nat, pulse) == spec_clock_fill(
            spec_last_level(original),
            spec_high_next(original, start),
            (target - spec_units_total(original)) as nat,
            pulse,
        ));
        while remaining > 0
            invariant
                pulse.low >= 1,
                pulse.high >= 1,
                original + spec_clock_fill(
                    spec_last_level(original),
                    spec_high_next(original, start),
                    (target - spec_units_total(original)) as nat,
                    pulse,
                ) == self.elements@ + spec_clock_fill(prev, high_next, remaining as nat, pulse),
            decreases remaining,
        {
            let ghost before = self.elements@;
            let level = if high_next { SignalLevel::High } else { SignalLevel::Low };
            let width = if high_next { pulse.high } else { pulse.low };
            let len = if width < remaining { width } else { remaining };
            let mut preceded = false;
            if let Some(p) = prev {
                if let Some(kind) = transition_kind_between(p, level) {
                    self.elements.push(WaveformElement::Transition(Transition { source: p, target: level, kind, label: None }));
                    preceded = true;
                }
            }
            self.elements.push(WaveformElement::Level(LevelRun { level, units: len, preceded_by_transition: preceded }));
            proof {
                let trans: Seq<WaveformElement> = match prev {
                    Some(p) => match spec_transition_kind(p, level) {
                        Some(k) => seq![WaveformElement::Transition(Transition { source: p, target: level, kind: k, label: None })],
                        None => Seq::empty(),
                    },
                    None => Seq::empty(),
                };
                let run = LevelRun { level, units: len, preceded_by_transition: trans.len() > 0 };
                assert(self.elements@ =~= before + trans.push(WaveformElement::Level(run)));
                assert(spec_clock_fill(prev, high_next, remaining as nat, pulse) == trans.push(WaveformElement::Level(run)) + spec_clock_fill(Some(level), !high_next, (remaining - len) as nat, pulse));
                assert(before + (trans.push(WaveformElement::Level(run)) + spec_clock_fill(Some(level), !high_next, (remaining - len) as nat, pulse))
                    =~= self.elements@ + spec_clock_fill(Some(level), !high_next, (remaining - len) as nat, pulse));
            }
            prev = Some(level);
            high_next = !high_next;
            remaining = remaining - len;
        }
        assert(self.elements@ + spec_clock_fill(prev, high_next, 0, pulse) =~= self.elements@);
    }
}

/// A vertical ruler line position contributed by one row.
#[derive(Debug, Clone, Copy, PartialEq, Eq, Structural)]
pub struct RulerContribution {
    pub x: Px,
    pub color: Color,
}

impl RulerContribution {
    /// One ruler line at every unit boundary `0, step, 2*step, ...,
    /// units*step` (positions saturate at the `i64` range of millionths).
    pub fn donations(step: Px, units: u32, color: Color) -> (v: Vec<RulerContribution>)
        ensures
            v@.len() == units as int + 1,
            forall|i: int| 0 <= i <= units ==> #[trigger] v@[i] == (RulerContribution {
                x: Px { micros: spec_clamp_i64(step.micros * i) as i64 },
                color,
            }),
    {
        let mut v: Vec<RulerContribution> = Vec::new();
        let mut i: u32 = 0;
        loop
            invariant
                i <= units,
                v@.len() == i as int,
                forall|k: int| 0 <= k < i ==> #[trigger] v@[k] == (RulerContribution {
                    x: Px { micros: spec_clamp_i64(step.micros * k) as i64 },
                    color,
                }),
            decreases units - i,
        {
            v.push(RulerContribution { x: step.mul_int(i), color });
            if i == units {
                return v;
            }
            i = i + 1;
        }
    }
}

/// Per-row decorations staged by `@clock` / `@signal` / `@overline`.
#[derive(Debug, Clone, Copy, PartialEq, Eq, Structural)]
pub struct SignalDecorations {
    pub clock: Option<ClockSpec>,
    pub name_overline: bool,
}

impl SignalDecorations {
    pub fn is_name_overline(&self) -> (b: bool)
        ensures
            b == self.name_overline,
    {
        self.name_overline
    }
}

/// One signal row.
#[derive(Debug, Clone, PartialEq, Eq)]
pub struct SignalRow {
    pub name: SignalName,
    pub waveform: Waveform,
    pub style: SignalRowStyle,
    pub decorations: SignalDecorations,
    /// The `@step` / `@slant` in force when the row was written.
    pub layout_params: LayoutParams,
    /// Clock edge mark positions, filled in by layout.
    pub edge_marks: Vec<Px>,
}

impl SignalRow {
    pub fn name(&self) -> (n: &SignalName)
        ensures
            *n == self.name,
    {
        &self.name
    }

    pub fn waveform(&self) -> (s: &[WaveformElement])
        ensures
            s@ == self.waveform.elements@,
    {
        self.waveform.as_slice()
    }

    pub fn decorations(&self) -> (d: &SignalDecorations)
        ensures
            *d == self.decorations,
    {
        &self.decorations
    }

    pub fn layout_params(&self) -> (p: &LayoutParams)
        ensures
            *p == self.layout_params,
    {
        &self.layout_params
    }

    pub fn edge_marks(&self) -> (s: &[Px])
        ensures
            s@ == self.edge_marks@,
    {
        self.edge_marks.as_slice()
    }

    /// Extends a `@clock` row with clock pulses up to `target_units`; rows
    /// without a clock are left unchanged.
    pub fn expand_clock_row(&mut self, target_units: u32)
        ensures
            spec_clock_expanded(*old(self), *final(self), target_units as int),
    {
        if let Some(spec) = self.decorations.clock {
            self.waveform.extend_clock(target_units, spec.pulse, spec.start);
        }
    }
}

/// `new` is the row `old` extended with clock pulses up to `target`
/// units when it is a clock row narrower than that; nothing else of the
/// row changes.
pub open spec fn spec_clock_expanded(old: SignalRow, new: SignalRow, target: int) -> bool {
    &&& new.name == old.name
    &&& new.style == old.style
    &&& new.decorations == old.decorations
    &&& new.layout_params == old.layout_params
    &&& new.edge_marks == old.edge_marks
    &&& match old.decorations.clock {
        None => new.waveform.elements@ == old.waveform.elements@,
        Some(spec) => if spec_units_total(old.waveform.elements@) >= target {
            new.waveform.elements@ == old.waveform.elements@
        } else {
            new.waveform.elements@ == old.waveform.elements@ + spec_clock_fill(
                spec_last_level(old.waveform.elements@),
                spec_high_next(old.waveform.elements@, spec.start),
                (target - spec_units_total(old.waveform.elements@)) as nat,
                spec.pulse,
            )
        },
    }
}

/// A `@title` row.
#[derive(Debug, Clone, PartialEq, Eq)]
pub struct TitleRow {
    pub text: UserText,
    pub style: TitleStyle,
}

/// A `@skip(...)` row of blank vertical space.
#[derive(Debug, Clone, Copy, PartialEq, Eq, Structural)]
pub struct SkipRow {
    pub amount: Length,
}

/// What a row holds.
#[derive(Debug, Clone, PartialEq, Eq)]
pub enum LineContent {
    Signal(Box<SignalRow>),
    Title(TitleRow),
    Skip(SkipRow),
}

impl LineContent {
    pub fn is_title(&self) -> (b: bool)
        ensures
            b == (self is Title),
    {
        match self {
            LineContent::Title(_) => true,
            _ => false,
        }
    }
}

/// One row of the chart with its one-shot background and its ruler lines.
#[derive(Debug, Clone, PartialEq, Eq)]
pub struct Line {
    pub content: LineContent,
    pub background: Option<Color>,
    pub ruler_contributions: Vec<RulerContribution>,
}


/// In a signal row, every transition is paired with the run it leads into.
pub open spec fn spec_row_paired(line: Line) -> bool {
    line.content matches LineContent::Signal(row) ==> {
        &&& spec_transitions_consistent(row.waveform.elements@)
        &&& spec_transition_kinds_ok(row.waveform.elements@)
    }
}

pub open spec fn spec_rows_paired(lines: Seq<Line>) -> bool {
    forall|k: int| 0 <= k < lines.len() ==> #[trigger] spec_row_paired(lines[k])
}

pub proof fn lemma_rows_paired_push(lines: Seq<Line>, line: Line)
    requires
        spec_rows_paired(lines),
        spec_row_paired(line),
    ensures
        spec_rows_paired(lines.push(line)),
{
    assert forall|k: int| 0 <= k < lines.push(line).len() implies #[trigger] spec_row_paired(lines.push(line)[k]) by {
        if k < lines.len() {
            assert(lines.push(line)[k] == lines[k]);
        }
    }
}

} // verus!
