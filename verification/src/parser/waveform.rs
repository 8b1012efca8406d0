//! Waveform strings (`_~=X?:|[]@"text"`): tokenising, don't-care
//! resolution, merging of equal runs, and the final element list.

use vstd::prelude::*;
use crate::anchor::{AnchorId, AnchorKey};
use crate::chars::{clamp_u32, is_control, is_whitespace, spec_is_control, spec_is_whitespace, sub_vec};
use crate::errors::{ParseError, ParseErrorKind, SourceLocation, spec_clamp_u32, spec_pos_ok, spec_shifted};
use crate::line::{ElementModel, LevelRun, SignalLevel, WaveformElement, spec_element_models};
use super::anchor_scan::{scan_anchor, spec_anchor_error, spec_scan_anchor};
use super::text_quote::{find_unescaped_quote, spec_unescape, spec_unescaped_quote, unescape};
use super::transition::{spec_emit, spec_emit_init};

verus! {

/// An anchor met in a waveform, waiting for the registry.
pub struct PendingAnchor {
    pub id: AnchorId,
    pub signal_index: usize,
    pub element_index: usize,
    pub location: SourceLocation,
}

/// A run of one level character before `?` resolution (`level` is
/// `None` for `?`, which is zero units wide).
pub struct RawLevel {
    pub level: Option<SignalLevel>,
    pub units: u32,
    /// Column of the run's first character.
    pub first_char_column: u32,
}

/// One token of a waveform string.
pub enum RawElement {
    LevelRun(RawLevel),
    BusCross,
    Gap,
    Guide,
    HighlightStart,
    HighlightEnd,
    Anchor(AnchorId),
    BareChar(char),
    QuotedText(Vec<char>),
}

/// The level a level character stands for (`Some(None)` for `?`).
pub open spec fn spec_level_char(c: char) -> Option<Option<SignalLevel>> {
    if c == '_' {
        Some(Some(SignalLevel::Low))
    } else if c == '~' {
        Some(Some(SignalLevel::High))
    } else if c == '-' {
        Some(Some(SignalLevel::HiZ))
    } else if c == '=' {
        Some(Some(SignalLevel::Bus))
    } else if c == '?' {
        Some(None)
    } else {
        None
    }
}

fn level_char(c: char) -> (r: Option<Option<SignalLevel>>)
    ensures
        r == spec_level_char(c),
{
    if c == '_' {
        Some(Some(SignalLevel::Low))
    } else if c == '~' {
        Some(Some(SignalLevel::High))
    } else if c == '-' {
        Some(Some(SignalLevel::HiZ))
    } else if c == '=' {
        Some(Some(SignalLevel::Bus))
    } else if c == '?' {
        Some(None)
    } else {
        None
    }
}

fn same_level(a: Option<SignalLevel>, b: Option<SignalLevel>) -> (r: bool)
    ensures
        r == (a == b),
{
    match (a, b) {
        (None, None) => true,
        (Some(x), Some(y)) => x == y,
        _ => false,
    }
}

/// A token of a waveform string as a plain value.
pub enum RawModel {
    /// Level (`None` for `?`), units, column of the first character.
    Run(Option<SignalLevel>, u32, u32),
    BusCross,
    Gap,
    Guide,
    HighlightStart,
    HighlightEnd,
    Anchor(AnchorKey),
    BareChar(char),
    Quoted(Seq<char>),
}

impl RawElement {
    pub open spec fn model(self) -> RawModel {
        match self {
            RawElement::LevelRun(run) => RawModel::Run(run.level, run.units, run.first_char_column),
            RawElement::BusCross => RawModel::BusCross,
            RawElement::Gap => RawModel::Gap,
            RawElement::Guide => RawModel::Guide,
            RawElement::HighlightStart => RawModel::HighlightStart,
            RawElement::HighlightEnd => RawModel::HighlightEnd,
            RawElement::Anchor(id) => RawModel::Anchor(id@),
            RawElement::BareChar(c) => RawModel::BareChar(c),
            RawElement::QuotedText(t) => RawModel::Quoted(t@),
        }
    }
}

pub open spec fn spec_raw_models(v: Seq<RawElement>) -> Seq<RawModel> {
    v.map_values(|e: RawElement| e.model())
}

proof fn lemma_models_push(v: Seq<RawElement>, e: RawElement)
    ensures
        spec_raw_models(v.push(e)) == spec_raw_models(v).push(e.model()),
{
    assert(spec_raw_models(v.push(e)) =~= spec_raw_models(v).push(e.model()));
}

/// An anchor as a plain value: its identity, the index of its token and
/// where its `@` stands.
pub open spec fn spec_pending_models(v: Seq<PendingAnchor>) -> Seq<(AnchorKey, int, SourceLocation)> {
    v.map_values(|a: PendingAnchor| (a.id@, a.element_index as int, a.location))
}

/// `v` with one more level character: it extends a last run of the same
/// level (`?` adds no unit), else a new run starts at `column`.
pub open spec fn spec_push_level(v: Seq<RawModel>, level: Option<SignalLevel>, column: u32) -> Seq<RawModel> {
    let units: u32 = if level is None { 0 } else { 1 };
    let fresh = v.push(RawModel::Run(level, units, column));
    if v.len() > 0 {
        match v.last() {
            RawModel::Run(l, u, c) => if l == level {
                v.drop_last().push(RawModel::Run(level, if u + units <= u32::MAX { (u + units) as u32 } else { u32::MAX }, c))
            } else {
                fresh
            },
            _ => fresh,
        }
    } else {
        fresh
    }
}

/// What the tokenizer has read so far: the tokens, the anchors (identity,
/// token index, location of the `@`), the column of a `[` not yet closed,
/// and whether a level character was met.
pub struct TokState {
    pub elements: Seq<RawModel>,
    pub anchors: Seq<(AnchorKey, int, SourceLocation)>,
    pub open: Option<u32>,
    pub seen_level: bool,
}

pub open spec fn spec_tok_init() -> TokState {
    TokState { elements: Seq::empty(), anchors: Seq::empty(), open: None, seen_level: false }
}

/// Why a waveform string is rejected, with the column it is reported at
/// (for an anchor, where its identifier starts, where the string ends, and
/// the column of its `@`).
pub enum TokenFault {
    UnclosedHighlight(u32),
    UnopenedHighlightEnd(u32),
    BadAnchor(int, int, u32),
    MissingInitialLevel(u32),
    UnclosedQuote(u32),
    InvalidLevelChar(char, u32),
}

/// Column of the character `offset` characters after `location`.
pub open spec fn spec_column_at(location: SourceLocation, offset: int) -> u32 {
    spec_shifted(location, spec_clamp_u32(offset)).column
}

/// One step of the tokenizer on `s[i]` (the string runs to `end`; its
/// first character, `s[start]`, is at `location`): the new state and the
/// index to go on from, or the fault.
pub open spec fn spec_tok_step(st: TokState, s: Seq<char>, i: int, end: int, location: SourceLocation, start: int) -> Result<(TokState, int), TokenFault> {
    let c = s[i];
    let col = spec_column_at(location, i - start);
    let here = SourceLocation { line: location.line, column: col };
    match spec_level_char(c) {
        Some(level) => Ok((TokState { elements: spec_push_level(st.elements, level, col), seen_level: true, ..st }, i + 1)),
        None => if c == 'X' {
            Ok((TokState {
                elements: st.elements.push(RawModel::BusCross).push(RawModel::Run(Some(SignalLevel::Bus), 1, col)),
                seen_level: true,
                ..st
            }, i + 1))
        } else if c == ':' {
            Ok((TokState { elements: st.elements.push(RawModel::Gap), ..st }, i + 1))
        } else if c == '|' {
            Ok((TokState { elements: st.elements.push(RawModel::Guide), ..st }, i + 1))
        } else if c == '[' {
            if st.open is Some {
                Err(TokenFault::UnclosedHighlight(col))
            } else {
                Ok((TokState { elements: st.elements.push(RawModel::HighlightStart), open: Some(col), ..st }, i + 1))
            }
        } else if c == ']' {
            if st.open is None {
                Err(TokenFault::UnopenedHighlightEnd(col))
            } else {
                Ok((TokState { elements: st.elements.push(RawModel::HighlightEnd), open: None, ..st }, i + 1))
            }
        } else if c == '@' {
            match spec_scan_anchor(s, i + 1, end) {
                Some((k, n)) => Ok((TokState {
                    elements: st.elements.push(RawModel::Anchor(k)),
                    anchors: st.anchors.push((k, st.elements.len() as int, here)),
                    ..st
                }, n)),
                None => Err(TokenFault::BadAnchor(i + 1, end, col)),
            }
        } else if c == '"' {
            if !st.seen_level {
                Err(TokenFault::MissingInitialLevel(col))
            } else {
                match spec_unescaped_quote(s, i + 1, end) {
                    Some(q) => Ok((TokState {
                        elements: st.elements.push(RawModel::Quoted(spec_unescape(s.subrange(i + 1, q)))),
                        ..st
                    }, q + 1)),
                    None => Err(TokenFault::UnclosedQuote(col)),
                }
            }
        } else if spec_is_whitespace(c) {
            Ok((st, i + 1))
        } else if spec_is_control(c) {
            Err(TokenFault::InvalidLevelChar(c, col))
        } else if !st.seen_level {
            Err(TokenFault::MissingInitialLevel(col))
        } else {
            Ok((TokState { elements: st.elements.push(RawModel::BareChar(c)), ..st }, i + 1))
        },
    }
}

/// The tokens of `s[i..end]` read on from `st`; a `[` left open at the
/// end is a fault at its column.
pub open spec fn spec_tokenize(st: TokState, s: Seq<char>, i: int, end: int, location: SourceLocation, start: int) -> Result<TokState, TokenFault>
    decreases end - i,
{
    if i >= end {
        match st.open {
            Some(col) => Err(TokenFault::UnclosedHighlight(col)),
            None => Ok(st),
        }
    } else {
        match spec_tok_step(st, s, i, end, location, start) {
            Ok((next, j)) => if i < j <= end { spec_tokenize(next, s, j, end, location, start) } else { Ok(next) },
            Err(f) => Err(f),
        }
    }
}

/// Whether `e` reports `f` for a waveform string on `location`'s line.
pub open spec fn spec_fault_error(f: TokenFault, e: ParseError, location: SourceLocation, s: Seq<char>) -> bool {
    &&& e.location.line == location.line
    &&& match f {
        TokenFault::UnclosedHighlight(col) => e.kind == ParseErrorKind::UnclosedHighlight && e.location.column == col && e.length == 1,
        TokenFault::UnopenedHighlightEnd(col) => e.kind == ParseErrorKind::UnopenedHighlightEnd && e.location.column == col && e.length == 1,
        TokenFault::BadAnchor(at, end, col) => spec_anchor_error(s, at, end, SourceLocation { line: location.line, column: col }, e),
        TokenFault::MissingInitialLevel(col) => e.kind == ParseErrorKind::MissingInitialLevel && e.location.column == col && e.length == 1,
        TokenFault::UnclosedQuote(col) => e.kind == ParseErrorKind::UnclosedQuote && e.location.column == col && e.length == 1,
        TokenFault::InvalidLevelChar(c, col) => e.kind == ParseErrorKind::InvalidLevelChar(c) && e.location.column == col && e.length == 1,
    }
}

/// Appends one level character: it extends the last token when that is
/// a run of the same level, else starts a new run.
fn push_level(elements: &mut Vec<RawElement>, level: Option<SignalLevel>, column: u32)
    ensures
        spec_raw_models(final(elements)@) == spec_push_level(spec_raw_models(old(elements)@), level, column),
{
    let ghost before = elements@;
    let units: u32 = if level.is_none() { 0 } else { 1 };
    let n = elements.len();
    if n > 0 {
        let extend = match &elements[n - 1] {
            RawElement::LevelRun(run) => same_level(run.level, level),
            _ => false,
        };
        if extend {
            let last = elements.pop();
            if let Some(RawElement::LevelRun(run)) = last {
                elements.push(RawElement::LevelRun(RawLevel {
                    level: run.level,
                    units: run.units.saturating_add(units),
                    first_char_column: run.first_char_column,
                }));
                assert(spec_raw_models(elements@) =~= spec_push_level(spec_raw_models(before), level, column));
                return;
            }
            elements.push(RawElement::LevelRun(RawLevel { level, units, first_char_column: column }));
            return;
        }
    }
    elements.push(RawElement::LevelRun(RawLevel { level, units, first_char_column: column }));
    assert(spec_raw_models(elements@) =~= spec_push_level(spec_raw_models(before), level, column));
}

fn column_at(location: SourceLocation, offset: usize) -> (c: u32)
    ensures
        c == spec_column_at(location, offset as int),
{
    location.column.saturating_add(clamp_u32(offset))
}

/// The tokenizer's state while a waveform string is read.
struct Tokenizer {
    elements: Vec<RawElement>,
    anchors: Vec<PendingAnchor>,
    highlight_open: bool,
    highlight_open_column: u32,
    seen_level: bool,
}

impl View for Tokenizer {
    type V = TokState;

    closed spec fn view(&self) -> TokState {
        TokState {
            elements: spec_raw_models(self.elements@),
            anchors: spec_pending_models(self.anchors@),
            open: if self.highlight_open { Some(self.highlight_open_column) } else { None },
            seen_level: self.seen_level,
        }
    }
}

impl Tokenizer {
    spec fn inv(&self, location: SourceLocation, signal_index: usize) -> bool {
        &&& self.highlight_open ==> self.highlight_open_column >= 1
        &&& forall|k: int| 0 <= k < self.anchors@.len() ==> #[trigger] self.anchors@[k].signal_index == signal_index
        &&& forall|k: int| 0 <= k < self.anchors@.len() ==> spec_pos_ok(#[trigger] self.anchors@[k].location)
    }

    /// Reads the character `chars[i]` and what belongs to it; returns the
    /// index to go on from.
    fn dispatch_char(
        &mut self,
        chars: &[char],
        i: usize,
        end: usize,
        location: SourceLocation,
        start: usize,
        signal_index: usize,
    ) -> (r: Result<usize, ParseError>)
        requires
            start <= i < end <= chars@.len(),
            spec_pos_ok(location),
            old(self).inv(location, signal_index),
        ensures
            final(self).inv(location, signal_index),
            r matches Err(e) ==> spec_pos_ok(e.location),
            match spec_tok_step(old(self)@, chars@, i as int, end as int, location, start as int) {
                Ok((st, j)) => r == Ok::<usize, ParseError>(j as usize) && final(self)@ == st && i < j <= end,
                Err(f) => r matches Err(e) && spec_fault_error(f, e, location, chars@),
            },
            r is Err ==> final(self)@ == old(self)@,
    {
        let ghost st = self@;
        let c = chars[i];
        let column = column_at(location, i - start);
        let here = SourceLocation::new(location.line, column);
        proof {
            assert(column >= 1);
        }
        match level_char(c) {
            Some(level) => {
                self.seen_level = true;
                push_level(&mut self.elements, level, column);
                Ok(i + 1)
            },
            None => {
                if c == 'X' {
                    self.seen_level = true;
                    self.elements.push(RawElement::BusCross);
                    self.elements.push(RawElement::LevelRun(RawLevel { level: Some(SignalLevel::Bus), units: 1, first_char_column: column }));
                    assert(spec_raw_models(self.elements@) =~= st.elements.push(RawModel::BusCross).push(RawModel::Run(Some(SignalLevel::Bus), 1, column)));
                    Ok(i + 1)
                } else if c == ':' {
                    self.elements.push(RawElement::Gap);
                    assert(spec_raw_models(self.elements@) =~= st.elements.push(RawModel::Gap));
                    Ok(i + 1)
                } else if c == '|' {
                    self.elements.push(RawElement::Guide);
                    assert(spec_raw_models(self.elements@) =~= st.elements.push(RawModel::Guide));
                    Ok(i + 1)
                } else if c == '[' {
                    if self.highlight_open {
                        return Err(ParseError::with_length(here, 1, ParseErrorKind::UnclosedHighlight));
                    }
                    self.highlight_open = true;
                    self.highlight_open_column = column;
                    self.elements.push(RawElement::HighlightStart);
                    assert(spec_raw_models(self.elements@) =~= st.elements.push(RawModel::HighlightStart));
                    Ok(i + 1)
                } else if c == ']' {
                    if !self.highlight_open {
                        return Err(ParseError::with_length(here, 1, ParseErrorKind::UnopenedHighlightEnd));
                    }
                    self.highlight_open = false;
                    self.elements.push(RawElement::HighlightEnd);
                    assert(spec_raw_models(self.elements@) =~= st.elements.push(RawModel::HighlightEnd));
                    Ok(i + 1)
                } else if c == '@' {
                    let (id, next) = match scan_anchor(chars, i + 1, end, here) {
                        Ok(v) => v,
                        Err(e) => {
                            return Err(e);
                        },
                    };
                    let ghost anchors_before = self.anchors@;
                    self.anchors.push(PendingAnchor {
                        id: id.duplicate(),
                        signal_index,
                        element_index: self.elements.len(),
                        location: here,
                    });
                    self.elements.push(RawElement::Anchor(id));
                    assert(spec_raw_models(self.elements@) =~= st.elements.push(RawModel::Anchor(id@)));
                    assert(spec_pending_models(self.anchors@) =~= st.anchors.push((id@, st.elements.len() as int, here)));
                    assert forall|k: int| 0 <= k < self.anchors@.len() implies #[trigger] self.anchors@[k].signal_index == signal_index
                        && spec_pos_ok(self.anchors@[k].location) by {
                        if k < anchors_before.len() {
                            assert(self.anchors@[k] == anchors_before[k]);
                        }
                    }
                    Ok(next)
                } else if c == '"' {
                    if !self.seen_level {
                        return Err(ParseError::new(here, ParseErrorKind::MissingInitialLevel));
                    }
                    let q = match find_unescaped_quote(chars, i + 1, end) {
                        Some(q) => q,
                        None => {
                            return Err(ParseError::new(here, ParseErrorKind::UnclosedQuote));
                        },
                    };
                    let raw = sub_vec(chars, i + 1, q);
                    self.elements.push(RawElement::QuotedText(unescape(&raw)));
                    assert(spec_raw_models(self.elements@) =~= st.elements.push(RawModel::Quoted(spec_unescape(chars@.subrange(i + 1, q as int)))));
                    Ok(q + 1)
                } else if is_whitespace(c) {
                    Ok(i + 1)
                } else if is_control(c) {
                    Err(ParseError::with_length(here, 1, ParseErrorKind::InvalidLevelChar(c)))
                } else {
                    if !self.seen_level {
                        return Err(ParseError::with_length(here, 1, ParseErrorKind::MissingInitialLevel));
                    }
                    let ghost before = self.elements@;
                    self.elements.push(RawElement::BareChar(c));
                    proof {
                        lemma_models_push(before, RawElement::BareChar(c));
                    }
                    Ok(i + 1)
                }
            },
        }
    }
}

/// Splits the waveform string `chars[start..end]` (whose first character
/// is at `location`) into tokens, and collects its anchors.
pub fn tokenize(
    chars: &[char],
    start: usize,
    end: usize,
    location: SourceLocation,
    signal_index: usize,
) -> (r: Result<(Vec<RawElement>, Vec<PendingAnchor>), ParseError>)
    requires
        spec_pos_ok(location),
        start <= end <= chars@.len(),
    ensures
        r matches Err(e) ==> spec_pos_ok(e.location),
        r matches Ok((elements, anchors)) ==> forall|k: int| 0 <= k < anchors@.len() ==> #[trigger] anchors@[k].signal_index == signal_index,
        r matches Ok((elements, anchors)) ==> forall|k: int| 0 <= k < anchors@.len() ==> spec_pos_ok(#[trigger] anchors@[k].location),
        r matches Err(e) ==> e.location.line == location.line,
        match spec_tokenize(spec_tok_init(), chars@, start as int, end as int, location, start as int) {
            Ok(st) => r matches Ok((elements, anchors)) && spec_raw_models(elements@) == st.elements
                && spec_pending_models(anchors@) == st.anchors,
            Err(f) => r matches Err(e) && spec_fault_error(f, e, location, chars@),
        },
{
    let mut tok = Tokenizer {
        elements: Vec::new(),
        anchors: Vec::new(),
        highlight_open: false,
        highlight_open_column: 0,
        seen_level: false,
    };
    proof {
        assert(spec_raw_models(tok.elements@) =~= Seq::<RawModel>::empty());
        assert(spec_pending_models(tok.anchors@) =~= Seq::<(AnchorKey, int, SourceLocation)>::empty());
        assert(tok@ == spec_tok_init());
    }
    let mut i = start;
    while i < end
        invariant
            start <= i <= end <= chars@.len(),
            spec_pos_ok(location),
            tok.inv(location, signal_index),
            spec_tokenize(spec_tok_init(), chars@, start as int, end as int, location, start as int)
                == spec_tokenize(tok@, chars@, i as int, end as int, location, start as int),
        decreases end - i,
    {
        i = tok.dispatch_char(chars, i, end, location, start, signal_index)?;
    }
    if tok.highlight_open {
        return Err(ParseError::with_length(
            SourceLocation::new(location.line, tok.highlight_open_column),
            1,
            ParseErrorKind::UnclosedHighlight,
        ));
    }
    Ok((tok.elements, tok.anchors))
}

/// A token after `?` resolution: a level run with the text fragments
/// attached to it, a bus crossing, or an element passed through.
#[derive(Debug, Clone, PartialEq, Eq)]
pub enum ResolvedToken {
    Level(LevelRun, Vec<Vec<char>>),
    BusCross,
    Element(WaveformElement),
}

/// Units of the level runs of a token list.
pub open spec fn spec_tokens_units(s: Seq<ResolvedToken>) -> int
    decreases s.len(),
{
    if s.len() == 0 {
        0
    } else {
        spec_tokens_units(s.drop_last()) + match s.last() {
            ResolvedToken::Level(run, _) => run.units as int,
            _ => 0,
        }
    }
}

/// The characters of each fragment.
pub open spec fn spec_frag_models(f: Seq<Vec<char>>) -> Seq<Seq<char>> {
    f.map_values(|v: Vec<char>| v@)
}

/// The don't-care level a `?` run takes: the don't-care form of the last
/// level run before index `k`, or the bus one when a bus crossing comes
/// first (anchors and other marks are passed over).
pub open spec fn spec_inherit(ts: Seq<TokenModel>, k: int) -> Option<SignalLevel>
    decreases k,
{
    if k <= 0 || k > ts.len() {
        None
    } else {
        match ts[k - 1] {
            TokenModel::Level(run, _) => Some(run.level.spec_dontcare_along()),
            TokenModel::BusCross => Some(SignalLevel::DontCareAlongBus),
            TokenModel::Element(_) => spec_inherit(ts, k - 1),
        }
    }
}

/// Pending text fragments given to the last level run before index `k`;
/// dropped when a bus crossing comes first or there is none.
pub open spec fn spec_flush_at(ts: Seq<TokenModel>, pending: Seq<Seq<char>>, k: int) -> Seq<TokenModel>
    decreases k,
{
    if k <= 0 || k > ts.len() {
        ts
    } else {
        match ts[k - 1] {
            TokenModel::Level(run, f) => ts.update(k - 1, TokenModel::Level(run, f + pending)),
            TokenModel::BusCross => ts,
            TokenModel::Element(_) => spec_flush_at(ts, pending, k - 1),
        }
    }
}

pub open spec fn spec_flush(ts: Seq<TokenModel>, pending: Seq<Seq<char>>) -> Seq<TokenModel> {
    if pending.len() == 0 { ts } else { spec_flush_at(ts, pending, ts.len() as int) }
}

/// The resolver's state: the tokens so far, the text fragments not yet
/// attached, and whether the last fragment came from a quoted text.
pub struct ResolveState {
    pub resolved: Seq<TokenModel>,
    pub pending: Seq<Seq<char>>,
    pub after_quoted: bool,
}

pub open spec fn spec_resolve_init() -> ResolveState {
    ResolveState { resolved: Seq::empty(), pending: Seq::empty(), after_quoted: false }
}

/// One raw token through the resolver: a bare character extends the last
/// fragment (unless that one was quoted), quoted text is a fragment of its
/// own; a level run takes the fragments when it follows a bus crossing,
/// else they go back to the run before; a `?` run takes the inherited
/// don't-care level, and without one the step fails at the run's column.
pub open spec fn spec_resolve_step(st: ResolveState, raw: RawModel, location: SourceLocation) -> Result<ResolveState, SourceLocation> {
    match raw {
        RawModel::BareChar(c) => Ok(ResolveState {
            pending: if !st.after_quoted && st.pending.len() > 0 {
                st.pending.drop_last().push(st.pending.last().push(c))
            } else {
                st.pending.push(seq![c])
            },
            after_quoted: false,
            ..st
        }),
        RawModel::Quoted(t) => Ok(ResolveState { pending: st.pending.push(t), after_quoted: true, ..st }),
        RawModel::Run(level, units, col) => {
            let after_cross = st.resolved.len() > 0 && st.resolved.last() is BusCross;
            let r1 = if after_cross { st.resolved } else { spec_flush(st.resolved, st.pending) };
            let frags = if after_cross { st.pending } else { Seq::empty() };
            let at = if col == 0 { location } else { SourceLocation { line: location.line, column: col } };
            let lv = match level {
                Some(l) => Some(l),
                None => spec_inherit(r1, r1.len() as int),
            };
            match lv {
                Some(l) => Ok(ResolveState {
                    resolved: r1.push(TokenModel::Level(LevelRun { level: l, units, preceded_by_transition: false }, frags)),
                    pending: Seq::empty(),
                    after_quoted: false,
                }),
                None => Err(at),
            }
        },
        RawModel::BusCross => Ok(ResolveState {
            resolved: spec_flush(st.resolved, st.pending).push(TokenModel::BusCross),
            pending: Seq::empty(),
            after_quoted: false,
        }),
        RawModel::Gap => Ok(ResolveState {
            resolved: spec_flush(st.resolved, st.pending).push(TokenModel::Element(ElementModel::Gap)),
            pending: Seq::empty(),
            after_quoted: false,
        }),
        RawModel::Guide => Ok(ResolveState {
            resolved: spec_flush(st.resolved, st.pending).push(TokenModel::Element(ElementModel::Guide)),
            pending: Seq::empty(),
            after_quoted: false,
        }),
        RawModel::HighlightStart => Ok(ResolveState {
            resolved: spec_flush(st.resolved, st.pending).push(TokenModel::Element(ElementModel::HighlightStart)),
            pending: Seq::empty(),
            after_quoted: false,
        }),
        RawModel::HighlightEnd => Ok(ResolveState {
            resolved: spec_flush(st.resolved, st.pending).push(TokenModel::Element(ElementModel::HighlightEnd)),
            pending: Seq::empty(),
            after_quoted: false,
        }),
        RawModel::Anchor(k) => Ok(ResolveState {
            resolved: spec_flush(st.resolved, st.pending).push(TokenModel::Element(ElementModel::Anchor(k))),
            pending: Seq::empty(),
            after_quoted: false,
        }),
    }
}

/// The resolved tokens of `raws[i..]` from state `st`: after the last
/// token the fragments left are attached, and don't-care runs widened.
pub open spec fn spec_resolve(raws: Seq<RawModel>, i: int, st: ResolveState, location: SourceLocation) -> Result<Seq<TokenModel>, SourceLocation>
    decreases raws.len() - i,
{
    if i < 0 || i >= raws.len() {
        Ok(spec_expand_from(spec_flush(st.resolved, st.pending), 0))
    } else {
        match spec_resolve_step(st, raws[i], location) {
            Ok(next) => spec_resolve(raws, i + 1, next, location),
            Err(at) => Err(at),
        }
    }
}

/// The level of the last level run before index `k`, or a bus crossing
/// (`Some(None)`) if one comes first.
fn inherit_dontcare_shape(resolved: &Vec<ResolvedToken>, location: SourceLocation) -> (r: Result<SignalLevel, ParseError>)
    requires
        spec_pos_ok(location),
    ensures
        r matches Err(e) ==> spec_pos_ok(e.location),
        r matches Ok(l) ==> l.spec_is_dontcare(),
        r matches Err(e) ==> e.location == location && e.kind == ParseErrorKind::DontCareWithoutAnchor && e.length == 1,
        match spec_inherit(spec_token_models(resolved@), resolved@.len() as int) {
            Some(l) => r == Ok::<SignalLevel, ParseError>(l),
            None => r is Err,
        },
{
    let ghost ts = spec_token_models(resolved@);
    let mut k = resolved.len();
    while k > 0
        invariant
            k <= resolved@.len(),
            ts == spec_token_models(resolved@),
            spec_inherit(ts, resolved@.len() as int) == spec_inherit(ts, k as int),
        decreases k,
    {
        k = k - 1;
        assert(ts[k as int] == resolved@[k as int].model());
        match &resolved[k] {
            ResolvedToken::Level(run, _) => {
                return Ok(run.level.into_dontcare_along());
            },
            ResolvedToken::BusCross => {
                return Ok(SignalLevel::DontCareAlongBus);
            },
            ResolvedToken::Element(_) => {},
        }
    }
    Err(ParseError::with_length(location, 1, ParseErrorKind::DontCareWithoutAnchor))
}

/// Attaches the pending text to the nearest level run before it (not
/// past a bus crossing); text with no such run is dropped.
fn flush_backward(resolved: &mut Vec<ResolvedToken>, pending: &mut Vec<Vec<char>>)
    ensures
        final(pending)@.len() == 0,
        final(resolved)@.len() == old(resolved)@.len(),
        spec_token_models(final(resolved)@) == spec_flush(spec_token_models(old(resolved)@), spec_frag_models(old(pending)@)),
{
    if pending.len() == 0 {
        return;
    }
    let ghost ts = spec_token_models(resolved@);
    let ghost pm = spec_frag_models(pending@);
    let mut k = resolved.len();
    while k > 0
        invariant_except_break
            resolved@ == old(resolved)@,
            pending@ == old(pending)@,
            spec_flush_at(ts, pm, ts.len() as int) == spec_flush_at(ts, pm, k as int),
        invariant
            k <= resolved@.len(),
            resolved@.len() == old(resolved)@.len(),
            ts == spec_token_models(old(resolved)@),
            pm == spec_frag_models(old(pending)@),
            pm.len() > 0,
        ensures
            spec_token_models(resolved@) == spec_flush_at(ts, pm, ts.len() as int),
        decreases k,
    {
        k = k - 1;
        assert(ts[k as int] == resolved@[k as int].model());
        let kind: u8 = match &resolved[k] {
            ResolvedToken::Level(_, _) => 0,
            ResolvedToken::BusCross => 1,
            ResolvedToken::Element(_) => 2,
        };
        if kind == 0 {
            let ghost before = resolved@;
            let token = resolved.remove(k);
            match token {
                ResolvedToken::Level(run, frags) => {
                    let ghost fm = spec_frag_models(frags@);
                    let mut frags = frags;
                    frags.append(pending);
                    assert(spec_frag_models(frags@) =~= fm + pm);
                    resolved.insert(k, ResolvedToken::Level(run, frags));
                    assert(resolved@ =~= before.update(k as int, resolved@[k as int]));
                    assert(spec_token_models(resolved@) =~= ts.update(k as int, TokenModel::Level(run, fm + pm)));
                },
                other => {
                    resolved.insert(k, other);
                    assert(resolved@ =~= before);
                },
            }
            pending.clear();
            return;
        } else if kind == 1 {
            pending.clear();
            break;
        }
    }
    pending.clear();
}

fn element_token(raw: &RawElement) -> (r: Option<WaveformElement>)
    ensures
        match raw.model() {
            RawModel::Gap => r matches Some(e) && e.model() == ElementModel::Gap,
            RawModel::Guide => r matches Some(e) && e.model() == ElementModel::Guide,
            RawModel::HighlightStart => r matches Some(e) && e.model() == ElementModel::HighlightStart,
            RawModel::HighlightEnd => r matches Some(e) && e.model() == ElementModel::HighlightEnd,
            RawModel::Anchor(k) => r matches Some(e) && e.model() == ElementModel::Anchor(k),
            _ => r is None,
        },
{
    match raw {
        RawElement::Gap => Some(WaveformElement::Gap),
        RawElement::Guide => Some(WaveformElement::Guide),
        RawElement::HighlightStart => Some(WaveformElement::HighlightStart),
        RawElement::HighlightEnd => Some(WaveformElement::HighlightEnd),
        RawElement::Anchor(id) => Some(WaveformElement::Anchor(id.duplicate())),
        _ => None,
    }
}

/// Resolves every `?` run to the don't-care level drawn along the level
/// before it (a bus crossing counts as a bus), attaches text fragments to
/// their level runs, and widens don't-care runs over the neighbouring runs
/// of the same shape.
pub fn resolve_dontcare(raw: &Vec<RawElement>, location: SourceLocation) -> (r: Result<Vec<ResolvedToken>, ParseError>)
    requires
        spec_pos_ok(location),
    ensures
        r matches Err(e) ==> spec_pos_ok(e.location),
        r matches Err(e) ==> e.kind == ParseErrorKind::DontCareWithoutAnchor && e.location.line == location.line,
        match spec_resolve(spec_raw_models(raw@), 0, spec_resolve_init(), location) {
            Ok(ts) => r matches Ok(v) && spec_token_models(v@) == ts,
            Err(at) => r matches Err(e) && e.location == at && e.length == 1,
        },
{
    let mut resolved: Vec<ResolvedToken> = Vec::new();
    let mut pending: Vec<Vec<char>> = Vec::new();
    let mut after_quoted = false;
    let mut i: usize = 0;
    let ghost raws = spec_raw_models(raw@);
    assert(spec_token_models(resolved@) =~= Seq::<TokenModel>::empty());
    assert(spec_frag_models(pending@) =~= Seq::<Seq<char>>::empty());
    while i < raw.len()
        invariant
            i <= raw@.len(),
            spec_pos_ok(location),
            raws == spec_raw_models(raw@),
            spec_resolve(raws, 0, spec_resolve_init(), location) == spec_resolve(raws, i as int, ResolveState {
                resolved: spec_token_models(resolved@),
                pending: spec_frag_models(pending@),
                after_quoted,
            }, location),
        decreases raw.len() - i,
    {
        let ghost st0 = ResolveState { resolved: spec_token_models(resolved@), pending: spec_frag_models(pending@), after_quoted };
        let ghost rb = resolved@;
        let ghost pb = pending@;
        assert(raws[i as int] == raw@[i as int].model());
        match &raw[i] {
            RawElement::BareChar(c) => {
                let n = pending.len();
                if !after_quoted && n > 0 {
                    let mut last = pending.pop().unwrap();
                    last.push(*c);
                    pending.push(last);
                    assert(spec_frag_models(pending@) =~= st0.pending.drop_last().push(st0.pending.last().push(*c)));
                } else {
                    let mut fragment: Vec<char> = Vec::new();
                    fragment.push(*c);
                    pending.push(fragment);
                    assert(fragment@ =~= seq![*c]);
                    assert(spec_frag_models(pending@) =~= st0.pending.push(seq![*c]));
                }
                after_quoted = false;
            },
            RawElement::QuotedText(text) => {
                let copy = text.clone();
                assert(copy@ == text@);
                pending.push(copy);
                assert(spec_frag_models(pending@) =~= st0.pending.push(text@));
                after_quoted = true;
            },
            RawElement::LevelRun(run) => {
                let n = resolved.len();
                let after_cross = n > 0 && match &resolved[n - 1] {
                    ResolvedToken::BusCross => true,
                    _ => false,
                };
                let mut frags: Vec<Vec<char>> = Vec::new();
                assert(n > 0 ==> st0.resolved.last() == resolved@[n - 1].model());
                if after_cross {
                    std::mem::swap(&mut frags, &mut pending);
                    assert(spec_frag_models(pending@) =~= Seq::<Seq<char>>::empty());
                } else {
                    flush_backward(&mut resolved, &mut pending);
                    assert(spec_frag_models(frags@) =~= Seq::<Seq<char>>::empty());
                    assert(spec_frag_models(pending@) =~= Seq::<Seq<char>>::empty());
                }
                let level = match run.level {
                    Some(l) => l,
                    None => {
                        let at = if run.first_char_column == 0 {
                            location
                        } else {
                            SourceLocation::new(location.line, run.first_char_column)
                        };
                        match inherit_dontcare_shape(&resolved, at) {
                            Ok(l) => l,
                            Err(e) => {
                                return Err(e);
                            },
                        }
                    },
                };
                let ghost r1 = resolved@;
                resolved.push(ResolvedToken::Level(LevelRun::new(level, run.units), frags));
                assert(spec_token_models(resolved@) =~= spec_token_models(r1).push(resolved@.last().model()));
                after_quoted = false;
            },
            RawElement::BusCross => {
                flush_backward(&mut resolved, &mut pending);
                let ghost r1 = resolved@;
                resolved.push(ResolvedToken::BusCross);
                assert(spec_token_models(resolved@) =~= spec_token_models(r1).push(TokenModel::BusCross));
                assert(spec_frag_models(pending@) =~= Seq::<Seq<char>>::empty());
                after_quoted = false;
            },
            other => {
                flush_backward(&mut resolved, &mut pending);
                let ghost r1 = resolved@;
                if let Some(element) = element_token(other) {
                    resolved.push(ResolvedToken::Element(element));
                    assert(spec_token_models(resolved@) =~= spec_token_models(r1).push(TokenModel::Element(element.model())));
                }
                assert(spec_frag_models(pending@) =~= Seq::<Seq<char>>::empty());
                after_quoted = false;
            },
        }
        assert(spec_resolve_step(st0, raws[i as int], location) == Ok::<ResolveState, SourceLocation>(ResolveState {
            resolved: spec_token_models(resolved@),
            pending: spec_frag_models(pending@),
            after_quoted,
        }));
        i = i + 1;
    }
    flush_backward(&mut resolved, &mut pending);
    expand_dontcare_ranges(&mut resolved);
    Ok(resolved)
}

/// What don't-care widening may do to one token: a level run may turn
/// into the don't-care level of its own shape; nothing else changes.
pub open spec fn spec_widened(before: ResolvedToken, after: ResolvedToken) -> bool {
    match before {
        ResolvedToken::Level(a, fa) => match after {
            ResolvedToken::Level(b, fb) => fb == fa && b.units == a.units
                && b.preceded_by_transition == a.preceded_by_transition
                && (b.level == a.level || b.level == a.level.spec_dontcare_along()),
            _ => false,
        },
        ResolvedToken::BusCross => after is BusCross,
        ResolvedToken::Element(x) => after == ResolvedToken::Element(x),
    }
}

pub open spec fn spec_widened_all(before: Seq<ResolvedToken>, after: Seq<ResolvedToken>) -> bool {
    &&& after.len() == before.len()
    &&& forall|k: int| 0 <= k < before.len() ==> spec_widened(#[trigger] before[k], after[k])
}

proof fn lemma_widened_trans(a: ResolvedToken, b: ResolvedToken, c: ResolvedToken)
    requires
        spec_widened(a, b),
        spec_widened(b, c),
    ensures
        spec_widened(a, c),
{
}

/// Widening step at `ts[j]` for the don't-care level `d`: a run whose
/// level has `d` as its don't-care form becomes a `d` run, anchors, guides
/// and highlight marks are passed over; the flag tells whether widening
/// goes on.
pub open spec fn spec_absorb(ts: Seq<TokenModel>, j: int, d: SignalLevel) -> (Seq<TokenModel>, bool) {
    match ts[j] {
        TokenModel::Element(e) => (ts, e is Anchor || e is Guide || e is HighlightStart || e is HighlightEnd),
        TokenModel::Level(run, f) => if run.level.spec_dontcare_along() == d {
            (ts.update(j, TokenModel::Level(LevelRun { level: d, ..run }, f)), true)
        } else {
            (ts, false)
        },
        TokenModel::BusCross => (ts, false),
    }
}

/// Widening of `d` backwards from just before `j`.
pub open spec fn spec_widen_back(ts: Seq<TokenModel>, j: int, d: SignalLevel) -> Seq<TokenModel>
    decreases j,
{
    if j <= 0 || j > ts.len() {
        ts
    } else {
        let (t2, go) = spec_absorb(ts, j - 1, d);
        if go { spec_widen_back(t2, j - 1, d) } else { t2 }
    }
}

/// Widening of `d` forwards from `j`.
pub open spec fn spec_widen_fwd(ts: Seq<TokenModel>, j: int, d: SignalLevel) -> Seq<TokenModel>
    decreases ts.len() - j,
{
    if j < 0 || j >= ts.len() {
        ts
    } else {
        let (t2, go) = spec_absorb(ts, j, d);
        if go && t2.len() == ts.len() { spec_widen_fwd(t2, j + 1, d) } else { t2 }
    }
}

/// Every don't-care run from `index` on, in order, widened backwards and
/// forwards.
pub open spec fn spec_expand_from(ts: Seq<TokenModel>, index: int) -> Seq<TokenModel>
    decreases ts.len() - index,
{
    if index < 0 || index >= ts.len() {
        ts
    } else {
        let t1 = match ts[index] {
            TokenModel::Level(run, _) => if run.level.spec_is_dontcare() {
                spec_widen_fwd(spec_widen_back(ts, index, run.level), index + 1, run.level)
            } else {
                ts
            },
            _ => ts,
        };
        if t1.len() == ts.len() { spec_expand_from(t1, index + 1) } else { t1 }
    }
}

proof fn lemma_absorb_len(ts: Seq<TokenModel>, j: int, d: SignalLevel)
    requires
        0 <= j < ts.len(),
    ensures
        spec_absorb(ts, j, d).0.len() == ts.len(),
{
}

proof fn lemma_widen_back_len(ts: Seq<TokenModel>, j: int, d: SignalLevel)
    ensures
        spec_widen_back(ts, j, d).len() == ts.len(),
    decreases j,
{
    if 0 < j <= ts.len() {
        lemma_absorb_len(ts, j - 1, d);
        lemma_widen_back_len(spec_absorb(ts, j - 1, d).0, j - 1, d);
    }
}

proof fn lemma_widen_fwd_len(ts: Seq<TokenModel>, j: int, d: SignalLevel)
    ensures
        spec_widen_fwd(ts, j, d).len() == ts.len(),
    decreases ts.len() - j,
{
    if 0 <= j < ts.len() {
        lemma_absorb_len(ts, j, d);
        lemma_widen_fwd_len(spec_absorb(ts, j, d).0, j + 1, d);
    }
}

/// Turns `tokens[j]` into a `dontcare` run when it is a run of the same
/// shape; passes over anchors, guides and highlight marks. Returns whether
/// widening goes on past `j`.
fn try_absorb(tokens: &mut Vec<ResolvedToken>, j: usize, dontcare: SignalLevel) -> (go_on: bool)
    requires
        j < old(tokens)@.len(),
    ensures
        dontcare.spec_is_dontcare() ==> spec_widened_all(old(tokens)@, final(tokens)@),
        forall|k: int| 0 <= k < old(tokens)@.len() && k != j ==> final(tokens)@[k] == old(tokens)@[k],
        (spec_token_models(final(tokens)@), go_on) == spec_absorb(spec_token_models(old(tokens)@), j as int, dontcare),
{
    let action: u8 = match &tokens[j] {
        ResolvedToken::Element(WaveformElement::Anchor(_)) => 1,
        ResolvedToken::Element(WaveformElement::Guide) => 1,
        ResolvedToken::Element(WaveformElement::HighlightStart) => 1,
        ResolvedToken::Element(WaveformElement::HighlightEnd) => 1,
        ResolvedToken::Level(run, _) => if run.level.into_dontcare_along() == dontcare { 2 } else { 0 },
        _ => 0,
    };
    if action == 2 {
        let ghost before = tokens@;
        let token = tokens.remove(j);
        match token {
            ResolvedToken::Level(run, frags) => {
                tokens.insert(j, ResolvedToken::Level(LevelRun { level: dontcare, units: run.units, preceded_by_transition: run.preceded_by_transition }, frags));
                assert(tokens@ =~= before.update(j as int, tokens@[j as int]));
                assert(spec_token_models(tokens@) =~= spec_token_models(before).update(j as int, tokens@[j as int].model()));
            },
            other => {
                tokens.insert(j, other);
                assert(tokens@ =~= before);
            },
        }
        true
    } else {
        action == 1
    }
}

/// Widens every don't-care run backwards and forwards over the runs of
/// the same shape, stopping at a bus crossing, a gap, text of another
/// shape, or the ends.
pub fn expand_dontcare_ranges(tokens: &mut Vec<ResolvedToken>)
    ensures
        spec_widened_all(old(tokens)@, final(tokens)@),
        spec_token_models(final(tokens)@) == spec_expand_from(spec_token_models(old(tokens)@), 0),
{
    let n = tokens.len();
    let mut index: usize = 0;
    assert forall|k: int| 0 <= k < n implies spec_widened(#[trigger] tokens@[k], tokens@[k]) by {}
    while index < n
        invariant
            tokens@.len() == n,
            n == old(tokens)@.len(),
            index <= n,
            spec_widened_all(old(tokens)@, tokens@),
            spec_expand_from(spec_token_models(old(tokens)@), 0) == spec_expand_from(spec_token_models(tokens@), index as int),
        decreases n - index,
    {
        let ghost t0 = spec_token_models(tokens@);
        let dontcare: Option<SignalLevel> = match &tokens[index] {
            ResolvedToken::Level(run, _) => if run.level.is_dontcare() { Some(run.level) } else { None },
            _ => None,
        };
        assert(t0[index as int] == tokens@[index as int].model());
        if let Some(d) = dontcare {
            let mut j = index;
            while j > 0
                invariant_except_break
                    spec_widen_back(t0, index as int, d) == spec_widen_back(spec_token_models(tokens@), j as int, d),
                invariant
                    tokens@.len() == n,
                    n == old(tokens)@.len(),
                    j <= index < n,
                    d.spec_is_dontcare(),
                    spec_widened_all(old(tokens)@, tokens@),
                ensures
                    spec_widen_back(t0, index as int, d) == spec_token_models(tokens@),
                decreases j,
            {
                j = j - 1;
                let ghost mid = tokens@;
                let go_on = try_absorb(tokens, j, d);
                proof {
                    lemma_absorb_len(spec_token_models(mid), j as int, d);
                }
                proof {
                    assert forall|k: int| 0 <= k < n implies spec_widened(#[trigger] old(tokens)@[k], tokens@[k]) by {
                        lemma_widened_trans(old(tokens)@[k], mid[k], tokens@[k]);
                    }
                }
                if !go_on {
                    break;
                }
            }
            let ghost t1 = spec_token_models(tokens@);
            proof {
                lemma_widen_back_len(t0, index as int, d);
            }
            let mut j = index + 1;
            while j < n
                invariant_except_break
                    spec_widen_fwd(t1, index + 1, d) == spec_widen_fwd(spec_token_models(tokens@), j as int, d),
                invariant
                    tokens@.len() == n,
                    n == old(tokens)@.len(),
                    index < j <= n,
                    d.spec_is_dontcare(),
                    spec_widened_all(old(tokens)@, tokens@),
                ensures
                    spec_widen_fwd(t1, index + 1, d) == spec_token_models(tokens@),
                decreases n - j,
            {
                let ghost mid = tokens@;
                let go_on = try_absorb(tokens, j, d);
                proof {
                    lemma_absorb_len(spec_token_models(mid), j as int, d);
                }
                proof {
                    assert forall|k: int| 0 <= k < n implies spec_widened(#[trigger] old(tokens)@[k], tokens@[k]) by {
                        lemma_widened_trans(old(tokens)@[k], mid[k], tokens@[k]);
                    }
                }
                if !go_on {
                    break;
                }
                j = j + 1;
            }
            proof {
                lemma_widen_fwd_len(t1, index + 1, d);
            }
        }
        index = index + 1;
    }
}


pub open spec fn spec_token_units(t: ResolvedToken) -> int {
    match t {
        ResolvedToken::Level(run, _) => run.units as int,
        _ => 0,
    }
}

/// Tokens `k` and `k + 1` are not level runs of the same level.
pub open spec fn spec_pair_differs(s: Seq<ResolvedToken>, k: int) -> bool {
    !spec_same_level_tokens(s[k], s[k + 1])
}

/// No two neighbouring tokens are level runs of the same level.
pub open spec fn spec_no_equal_neighbours(s: Seq<ResolvedToken>) -> bool {
    forall|k: int| 0 <= k < s.len() - 1 ==> #[trigger] spec_pair_differs(s, k)
}

/// Both tokens are level runs of the same level.
pub open spec fn spec_same_level_tokens(a: ResolvedToken, b: ResolvedToken) -> bool {
    &&& a matches ResolvedToken::Level(x, _)
    &&& b matches ResolvedToken::Level(y, _)
    &&& x.level == y.level
}

proof fn lemma_tokens_units_push(s: Seq<ResolvedToken>, t: ResolvedToken)
    ensures
        spec_tokens_units(s.push(t)) == spec_tokens_units(s) + spec_token_units(t),
{
    assert(s.push(t).drop_last() =~= s);
}

proof fn lemma_tokens_units_nonneg(s: Seq<ResolvedToken>)
    ensures
        spec_tokens_units(s) >= 0,
    decreases s.len(),
{
    if s.len() > 0 {
        lemma_tokens_units_nonneg(s.drop_last());
    }
}

proof fn lemma_tokens_units_prefix(s: Seq<ResolvedToken>, i: int)
    requires
        0 <= i <= s.len(),
    ensures
        spec_tokens_units(s.subrange(0, i)) <= spec_tokens_units(s),
    decreases s.len() - i,
{
    if i < s.len() {
        lemma_tokens_units_prefix(s, i + 1);
        assert(s.subrange(0, i + 1).drop_last() =~= s.subrange(0, i));
        lemma_tokens_units_nonneg(s.subrange(0, i));
    } else {
        assert(s.subrange(0, i) =~= s);
    }
}

proof fn lemma_push_keeps_neighbours(before: Seq<ResolvedToken>, t: ResolvedToken)
    requires
        spec_no_equal_neighbours(before),
        before.len() > 0 ==> !spec_same_level_tokens(before.last(), t),
    ensures
        spec_no_equal_neighbours(before.push(t)),
{
    let out = before.push(t);
    assert forall|k: int| 0 <= k < out.len() - 1 implies #[trigger] spec_pair_differs(out, k) by {
        assert(out[k] == before[k]);
        if k + 1 < out.len() - 1 {
            assert(out[k + 1] == before[k + 1]);
            assert(spec_pair_differs(before, k));
        }
    }
}

proof fn lemma_drop_keeps_neighbours(before: Seq<ResolvedToken>)
    requires
        spec_no_equal_neighbours(before),
        before.len() > 0,
    ensures
        spec_no_equal_neighbours(before.drop_last()),
{
    let out = before.drop_last();
    assert forall|k: int| 0 <= k < out.len() - 1 implies #[trigger] spec_pair_differs(out, k) by {
        assert(spec_pair_differs(before, k));
    }
}

/// A resolved token as a plain value.
pub enum TokenModel {
    Level(LevelRun, Seq<Seq<char>>),
    BusCross,
    Element(ElementModel),
}

impl ResolvedToken {
    pub open spec fn model(self) -> TokenModel {
        match self {
            ResolvedToken::Level(run, frags) => TokenModel::Level(run, frags@.map_values(|v: Vec<char>| v@)),
            ResolvedToken::BusCross => TokenModel::BusCross,
            ResolvedToken::Element(e) => TokenModel::Element(e.model()),
        }
    }
}

pub open spec fn spec_token_models(v: Seq<ResolvedToken>) -> Seq<TokenModel> {
    v.map_values(|t: ResolvedToken| t.model())
}

/// `out` with `t` appended, or folded into the last token when both are
/// level runs of the same level: the units add up (saturating), the
/// fragments are concatenated, and the first run's transition mark stays.
pub open spec fn spec_push_merged(out: Seq<TokenModel>, t: TokenModel) -> Seq<TokenModel> {
    match t {
        TokenModel::Level(run, frags) => if out.len() > 0 {
            match out.last() {
                TokenModel::Level(prev, pf) => if prev.level == run.level {
                    out.drop_last().push(TokenModel::Level(
                        LevelRun {
                            level: prev.level,
                            units: if prev.units + run.units <= u32::MAX { (prev.units + run.units) as u32 } else { u32::MAX },
                            preceded_by_transition: prev.preceded_by_transition,
                        },
                        pf + frags,
                    ))
                } else {
                    out.push(t)
                },
                _ => out.push(t),
            }
        } else {
            out.push(t)
        },
        _ => out.push(t),
    }
}

/// The tokens with every run of neighbouring same-level runs folded into
/// one, left to right.
pub open spec fn spec_merge(ts: Seq<TokenModel>) -> Seq<TokenModel>
    decreases ts.len(),
{
    if ts.len() == 0 {
        Seq::empty()
    } else {
        spec_push_merged(spec_merge(ts.drop_last()), ts.last())
    }
}

/// Appends `token` to `out`, folding it into the last token when both
/// are level runs of the same level.
fn push_merged(out: &mut Vec<ResolvedToken>, token: ResolvedToken)
    requires
        spec_no_equal_neighbours(old(out)@),
    ensures
        spec_token_models(final(out)@) == spec_push_merged(spec_token_models(old(out)@), token.model()),
        spec_no_equal_neighbours(final(out)@),
        spec_tokens_units(old(out)@) + spec_token_units(token) <= u32::MAX ==> spec_tokens_units(final(out)@)
            == spec_tokens_units(old(out)@) + spec_token_units(token),
{
    let ghost before = out@;
    match token {
        ResolvedToken::Level(run, frags) => {
            let m = out.len();
            let merge = m > 0 && match &out[m - 1] {
                ResolvedToken::Level(prev, _) => prev.level == run.level,
                _ => false,
            };
            if merge {
                let last = out.pop().unwrap();
                proof {
                    assert(before.drop_last() =~= out@);
                    lemma_tokens_units_nonneg(out@);
                }
                match last {
                    ResolvedToken::Level(prev, prev_frags) => {
                        let ghost prev_frags_models = prev_frags@.map_values(|v: Vec<char>| v@);
                        let ghost frags_models = frags@.map_values(|v: Vec<char>| v@);
                        let mut all = prev_frags;
                        let mut more = frags;
                        all.append(&mut more);
                        let merged = LevelRun {
                            level: prev.level,
                            units: prev.units.saturating_add(run.units),
                            preceded_by_transition: prev.preceded_by_transition,
                        };
                        let ghost shorter = out@;
                        out.push(ResolvedToken::Level(merged, all));
                        proof {
                            assert(spec_token_models(before).last() == before.last().model());
                            assert(all@.map_values(|v: Vec<char>| v@) =~= prev_frags_models + frags_models);
                            assert(spec_token_models(shorter) =~= spec_token_models(before).drop_last());
                            assert(spec_token_models(out@) =~= spec_token_models(shorter).push(out@.last().model()));
                        }
                        proof {
                            lemma_tokens_units_push(shorter, out@.last());
                            assert(out@.drop_last() =~= shorter);
                            if shorter.len() > 0 {
                                assert(!spec_same_level_tokens(shorter.last(), out@.last())) by {
                                    assert(shorter.last() == before[before.len() - 2]);
                                    assert(spec_pair_differs(before, before.len() - 2));
                                }
                            }
                            lemma_drop_keeps_neighbours(before);
                            lemma_push_keeps_neighbours(shorter, out@.last());
                            assert(shorter.push(out@.last()) =~= out@);
                        }
                    },
                    other => {
                        out.push(other);
                        assert(out@ =~= before);
                    },
                }
            } else {
                out.push(ResolvedToken::Level(run, frags));
                proof {
                    lemma_tokens_units_push(before, out@.last());
                    lemma_push_keeps_neighbours(before, out@.last());
                    assert(spec_token_models(out@) =~= spec_token_models(before).push(out@.last().model()));
                    if before.len() > 0 {
                        assert(spec_token_models(before).last() == before.last().model());
                    }
                }
            }
        },
        other => {
            out.push(other);
            proof {
                lemma_tokens_units_push(before, out@.last());
                lemma_push_keeps_neighbours(before, out@.last());
                assert(spec_token_models(out@) =~= spec_token_models(before).push(out@.last().model()));
            }
        },
    }
}

/// Coalesces neighbouring level runs of the same level: their units add
/// up (saturating) and their text fragments are concatenated.
pub fn merge_adjacent_levels(tokens: Vec<ResolvedToken>) -> (out: Vec<ResolvedToken>)
    ensures
        spec_no_equal_neighbours(out@),
        spec_tokens_units(tokens@) <= u32::MAX ==> spec_tokens_units(out@) == spec_tokens_units(tokens@),
        spec_token_models(out@) == spec_merge(spec_token_models(tokens@)),
{
    let ghost orig = tokens@;
    let n = tokens.len();
    let mut rest = tokens;
    let mut out: Vec<ResolvedToken> = Vec::new();
    let mut i: usize = 0;
    while i < n
        invariant
            n == orig.len(),
            i <= n,
            rest@ == orig.subrange(i as int, n as int),
            spec_no_equal_neighbours(out@),
            spec_tokens_units(orig) <= u32::MAX ==> spec_tokens_units(out@) == spec_tokens_units(orig.subrange(0, i as int)),
            spec_token_models(out@) == spec_merge(spec_token_models(orig.subrange(0, i as int))),
        decreases n - i,
    {
        proof {
            lemma_tokens_units_prefix(orig, i + 1);
            assert(orig.subrange(0, i + 1).drop_last() =~= orig.subrange(0, i as int));
        }
        let token = rest.remove(0);
        assert(token == orig[i as int]);
        assert(rest@ =~= orig.subrange(i + 1, n as int));
        push_merged(&mut out, token);
        proof {
            let m = spec_token_models(orig.subrange(0, i + 1));
            assert(m.drop_last() =~= spec_token_models(orig.subrange(0, i as int)));
            assert(m.last() == orig[i as int].model());
        }
        i = i + 1;
    }
    assert(orig.subrange(0, n as int) =~= orig);
    out
}


/// Index of the first anchor of `ams[j..]` with identity `key`.
pub open spec fn spec_first_with_key(ams: Seq<(AnchorKey, int, SourceLocation)>, key: AnchorKey, j: int) -> Option<int>
    decreases ams.len() - j,
{
    if j < 0 || j >= ams.len() {
        None
    } else if ams[j].0 == key {
        Some(j)
    } else {
        spec_first_with_key(ams, key, j + 1)
    }
}

/// The anchors after the anchor elements `ems[index..]` are given, in
/// order, to the first anchor with the same identity.
pub open spec fn spec_reindex_from(
    ems: Seq<ElementModel>,
    ams: Seq<(AnchorKey, int, SourceLocation)>,
    index: int,
) -> Seq<(AnchorKey, int, SourceLocation)>
    decreases ems.len() - index,
{
    if index < 0 || index >= ems.len() {
        ams
    } else {
        let next = match ems[index] {
            ElementModel::Anchor(key) => match spec_first_with_key(ams, key, 0) {
                Some(j) => ams.update(j, (ams[j].0, index, ams[j].2)),
                None => ams,
            },
            _ => ams,
        };
        spec_reindex_from(ems, next, index + 1)
    }
}

/// Points each pending anchor at the position of its anchor element in
/// the final element list (transitions shift positions): every anchor
/// element is given to the first pending anchor with the same identifier.
pub fn reindex_anchors(elements: &Vec<WaveformElement>, anchors: &mut Vec<PendingAnchor>)
    ensures
        final(anchors)@.len() == old(anchors)@.len(),
        forall|k: int| 0 <= k < old(anchors)@.len() ==> {
            &&& (#[trigger] final(anchors)@[k]).id == old(anchors)@[k].id
            &&& final(anchors)@[k].signal_index == old(anchors)@[k].signal_index
            &&& final(anchors)@[k].location == old(anchors)@[k].location
        },
        spec_pending_models(final(anchors)@)
            == spec_reindex_from(spec_element_models(elements@), spec_pending_models(old(anchors)@), 0),
{
    let ghost ems = spec_element_models(elements@);
    let mut index: usize = 0;
    while index < elements.len()
        invariant
            index <= elements@.len(),
            ems == spec_element_models(elements@),
            spec_reindex_from(ems, spec_pending_models(old(anchors)@), 0)
                == spec_reindex_from(ems, spec_pending_models(anchors@), index as int),
            anchors@.len() == old(anchors)@.len(),
            forall|k: int| 0 <= k < old(anchors)@.len() ==> {
                &&& (#[trigger] anchors@[k]).id == old(anchors)@[k].id
                &&& anchors@[k].signal_index == old(anchors)@[k].signal_index
                &&& anchors@[k].location == old(anchors)@[k].location
            },
        decreases elements.len() - index,
    {
        let ghost ams = spec_pending_models(anchors@);
        assert(ems[index as int] == elements@[index as int].model());
        if let WaveformElement::Anchor(id) = &elements[index] {
            let mut j: usize = 0;
            while j < anchors.len()
                invariant_except_break
                    spec_pending_models(anchors@) == ams,
                    spec_first_with_key(ams, id@, 0) == spec_first_with_key(ams, id@, j as int),
                invariant
                    j <= anchors@.len(),
                    ams.len() == anchors@.len(),
                    anchors@.len() == old(anchors)@.len(),
                    forall|k: int| 0 <= k < old(anchors)@.len() ==> {
                        &&& (#[trigger] anchors@[k]).id == old(anchors)@[k].id
                        &&& anchors@[k].signal_index == old(anchors)@[k].signal_index
                        &&& anchors@[k].location == old(anchors)@[k].location
                    },
                ensures
                    spec_pending_models(anchors@) == match spec_first_with_key(ams, id@, 0) {
                        Some(f) => ams.update(f, (ams[f].0, index as int, ams[f].2)),
                        None => ams,
                    },
                decreases anchors.len() - j,
            {
                assert(ams[j as int] == (anchors@[j as int].id@, anchors@[j as int].element_index as int, anchors@[j as int].location));
                if anchors[j].id.same(id) {
                    let ghost before = anchors@;
                    let a = anchors.remove(j);
                    anchors.insert(j, PendingAnchor {
                        id: a.id,
                        signal_index: a.signal_index,
                        element_index: index,
                        location: a.location,
                    });
                    assert forall|k: int| 0 <= k < old(anchors)@.len() implies {
                        &&& (#[trigger] anchors@[k]).id == old(anchors)@[k].id
                        &&& anchors@[k].signal_index == old(anchors)@[k].signal_index
                        &&& anchors@[k].location == old(anchors)@[k].location
                    } by {
                        if k != j {
                            assert(anchors@[k] == before[k]);
                        }
                    }
                    assert(anchors@ =~= before.update(j as int, anchors@[j as int]));
                    assert(spec_pending_models(anchors@) =~= ams.update(j as int, (ams[j as int].0, index as int, ams[j as int].2)));
                    break;
                }
                j = j + 1;
            }
        }
        index = index + 1;
    }
}

/// The elements of the waveform string `s[start..end]` (its first
/// character at `location`): tokens, don't-care resolution, merged runs,
/// transitions; `None` when the string is rejected.
pub open spec fn spec_waveform_elements(s: Seq<char>, start: int, end: int, location: SourceLocation) -> Option<Seq<ElementModel>> {
    match spec_tokenize(spec_tok_init(), s, start, end, location, start) {
        Err(_) => None,
        Ok(st) => match spec_resolve(st.elements, 0, spec_resolve_init(), location) {
            Err(_) => None,
            Ok(ts) => Some(spec_emit(spec_merge(ts), 0, spec_emit_init())),
        },
    }
}

/// Why the waveform string `s[start..end]` (its first character at
/// `location`) is rejected with `e`: a fault of its characters, or a `?`
/// with no level before it to take.
pub open spec fn spec_waveform_error(s: Seq<char>, start: int, end: int, location: SourceLocation, e: ParseError) -> bool {
    match spec_tokenize(spec_tok_init(), s, start, end, location, start) {
        Err(f) => spec_fault_error(f, e, location, s),
        Ok(st) => match spec_resolve(st.elements, 0, spec_resolve_init(), location) {
            Err(at) => e.location == at && e.kind == ParseErrorKind::DontCareWithoutAnchor && e.length == 1,
            Ok(_) => false,
        },
    }
}

/// The anchors of the waveform string `s[start..end]` (its first
/// character at `location`), each with the position of its element in
/// the final element list; `None` when the string is rejected.
pub open spec fn spec_waveform_anchors(s: Seq<char>, start: int, end: int, location: SourceLocation) -> Option<Seq<(AnchorKey, int, SourceLocation)>> {
    match spec_tokenize(spec_tok_init(), s, start, end, location, start) {
        Err(_) => None,
        Ok(st) => match spec_resolve(st.elements, 0, spec_resolve_init(), location) {
            Err(_) => None,
            Ok(ts) => Some(spec_reindex_from(spec_emit(spec_merge(ts), 0, spec_emit_init()), st.anchors, 0)),
        },
    }
}

/// Parses the waveform string `chars[start..end]` of row `signal_index`
/// (its first character at `location`) into its element list and its
/// anchors.
pub fn parse_waveform(
    chars: &[char],
    start: usize,
    end: usize,
    location: SourceLocation,
    signal_index: usize,
) -> (r: Result<(Vec<WaveformElement>, Vec<PendingAnchor>), ParseError>)
    requires
        start <= end <= chars@.len(),
        spec_pos_ok(location),
    ensures
        r matches Err(e) ==> spec_pos_ok(e.location),
        r matches Ok((elements, anchors)) ==> {
            &&& crate::line::spec_transitions_consistent(elements@)
            &&& crate::line::spec_transition_kinds_ok(elements@)
            &&& forall|k: int| 0 <= k < anchors@.len() ==> #[trigger] anchors@[k].signal_index == signal_index
            &&& forall|k: int| 0 <= k < anchors@.len() ==> spec_pos_ok(#[trigger] anchors@[k].location)
        },
        r matches Err(e) ==> e.location.line == location.line,
        match spec_tokenize(spec_tok_init(), chars@, start as int, end as int, location, start as int) {
            Err(f) => r matches Err(e) && spec_fault_error(f, e, location, chars@),
            Ok(st) => match spec_resolve(st.elements, 0, spec_resolve_init(), location) {
                Err(at) => r matches Err(e) && e.location == at && e.kind == ParseErrorKind::DontCareWithoutAnchor
                    && e.length == 1,
                Ok(ts) => r matches Ok((elements, anchors)) && {
                    let ems = spec_emit(spec_merge(ts), 0, spec_emit_init());
                    &&& spec_element_models(elements@) == ems
                    &&& spec_pending_models(anchors@) == spec_reindex_from(ems, st.anchors, 0)
                },
            },
        },
        match spec_waveform_elements(chars@, start as int, end as int, location) {
            Some(ems) => r matches Ok((elements, _)) && spec_element_models(elements@) == ems,
            None => r is Err,
        },
        match spec_waveform_anchors(chars@, start as int, end as int, location) {
            Some(am) => r matches Ok((_, anchors)) && spec_pending_models(anchors@) == am,
            None => r is Err,
        },
        r matches Err(e) ==> spec_waveform_error(chars@, start as int, end as int, location, e),
{
    let (raw, mut anchors) = tokenize(chars, start, end, location, signal_index)?;
    let resolved = resolve_dontcare(&raw, location)?;
    let merged = merge_adjacent_levels(resolved);
    let elements = super::transition::emit_transitions(merged);
    reindex_anchors(&elements, &mut anchors);
    Ok((elements, anchors))
}

} // verus!
