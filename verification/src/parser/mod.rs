//! The TCML parser.
//!
//! Parsing runs in three steps: every source line is read in order
//! (directives change the style or stage decorations for the next row,
//! other lines add rows); clock rows are then extended to the width of
//! the chart; finally the anchors are registered and every arrow is
//! checked against them.

pub mod source;
pub mod text_quote;
pub mod attr;
pub mod anchor_scan;
pub mod waveform;
pub mod transition;
pub mod directive;
pub mod clock;
pub mod arrow;
pub mod arrow_order;
pub mod merge_law;
pub mod widen_law;
pub mod state;

use vstd::prelude::*;
use crate::arrow::spec_end_key;
use crate::document::ChartDocument;
use crate::line::spec_rows_paired;
use crate::errors::{ParseError, spec_pos_ok};
use crate::parser::source::{lemma_crlf_reads_as_lf, spec_canonical, spec_content_start, spec_crlf, spec_lines_scan};
use crate::parser::state::{
    Parser, spec_arrows_resolve, spec_check_error, spec_keys_distinct, spec_line_class, spec_line_error, spec_line_expanded,
    spec_line_trace, spec_lines_read, spec_max_width, spec_pending_keys, spec_resolved_anchors,
};

verus! {

/// The line spans of `s`: after a leading byte-order mark, lines end at
/// `\n` (a `\r` before it is dropped).
pub open spec fn spec_source_lines(s: Seq<char>) -> Seq<(usize, usize)> {
    spec_lines_scan(s, spec_content_start(s), spec_content_start(s)).map_values(|p: (int, int)| (p.0 as usize, p.1 as usize))
}

/// `doc` is the document made of the parser state `p` reached at the end
/// of the text: its style, its rows with the clock rows extended to the
/// widest row, its overlays, the staged anchors registered in order (at
/// their rows and elements) and the staged arrows attached.
pub open spec fn spec_document_of(p: Parser, doc: ChartDocument) -> bool {
    &&& doc.style == p.style
    &&& doc.lines@.len() == p.lines@.len()
    &&& forall|k: int| 0 <= k < p.lines@.len() ==> spec_line_expanded(p.lines@[k], #[trigger] doc.lines@[k], spec_max_width(p.lines@))
    &&& doc.annotations.overlays == p.overlays
    &&& doc.annotations.anchors.keys() == spec_pending_keys(p.pending_anchors@)
    &&& doc.annotations.anchors.anchors() == spec_resolved_anchors(p.pending_anchors@)
    &&& doc.annotations.arrows@.len() == p.pending_arrows@.len()
    &&& forall|k: int| 0 <= k < p.pending_arrows@.len() ==> {
        &&& (#[trigger] doc.annotations.arrows@[k]).from == p.pending_arrows@[k].from
        &&& doc.annotations.arrows@[k].to == p.pending_arrows@[k].to
        &&& doc.annotations.arrows@[k].style == p.pending_arrows@[k].style
        &&& doc.annotations.arrows@[k].label == p.pending_arrows@[k].label
        &&& doc.annotations.arrows@[k].label_font == p.pending_arrows@[k].label_font
    }
}

/// Every line of `s` (after a leading byte-order mark) is blank or holds
/// a comment only.
pub open spec fn spec_blank_text(s: Seq<char>) -> bool {
    forall|k: int| 0 <= k < spec_lines_scan(s, spec_content_start(s), spec_content_start(s)).len() ==>
        spec_line_class(s, (#[trigger] spec_lines_scan(s, spec_content_start(s), spec_content_start(s))[k]).0,
            spec_lines_scan(s, spec_content_start(s), spec_content_start(s))[k].1) is Blank
}

/// What parsing the text `text` gives (`parse` reads its input with the
/// carriage returns that end lines dropped): see `parse`.
pub open spec fn spec_parse_outcome(text: Seq<char>, r: Result<ChartDocument, ParseError>) -> bool {
    &&& r matches Err(e) ==> spec_pos_ok(e.location)
    &&& r matches Ok(doc) ==> {
        &&& spec_rows_paired(doc.lines@)
        &&& doc.annotations.anchors.wf()
        &&& forall|k: int| 0 <= k < doc.annotations.arrows@.len() ==> {
            &&& doc.annotations.anchors.keys().contains(spec_end_key(#[trigger] doc.annotations.arrows@[k].from))
            &&& doc.annotations.anchors.keys().contains(spec_end_key(doc.annotations.arrows@[k].to))
        }
    }
    &&& spec_blank_text(text) ==> (r matches Ok(doc) && {
        &&& doc.lines@.len() == 0
        &&& doc.annotations.overlays@.len() == 0
        &&& doc.annotations.arrows@.len() == 0
        &&& doc.annotations.anchors.keys().len() == 0
        &&& doc.style.is_default_style()
    })
    &&& r matches Ok(doc) ==> exists|states: Seq<Parser>, marks: Seq<int>|
        #[trigger] spec_line_trace(text, spec_source_lines(text), states, marks)
            && states[0].is_initial() && spec_document_of(states.last(), doc)
            && spec_keys_distinct(spec_pending_keys(states.last().pending_anchors@))
            && spec_arrows_resolve(states.last().pending_arrows@, spec_pending_keys(states.last().pending_anchors@))
    &&& (exists|states: Seq<Parser>, marks: Seq<int>|
        #[trigger] spec_line_trace(text, spec_source_lines(text), states, marks) && states[0].is_initial()
            && spec_keys_distinct(spec_pending_keys(states.last().pending_anchors@))
            && spec_arrows_resolve(states.last().pending_arrows@, spec_pending_keys(states.last().pending_anchors@)))
        ==> r is Ok
    &&& r matches Err(e) ==> {
        ||| exists|states: Seq<Parser>, marks: Seq<int>|
            #[trigger] spec_lines_read(text, spec_source_lines(text), states, marks)
                && states[0].is_initial() && marks.last() < spec_source_lines(text).len()
                && spec_line_error(states.last(), e, text, spec_source_lines(text), marks.last())
        ||| exists|states: Seq<Parser>, marks: Seq<int>|
            #[trigger] spec_line_trace(text, spec_source_lines(text), states, marks)
                && states[0].is_initial() && !(spec_keys_distinct(spec_pending_keys(states.last().pending_anchors@))
                && spec_arrows_resolve(states.last().pending_arrows@, spec_pending_keys(states.last().pending_anchors@)))
                && spec_check_error(states.last().pending_anchors@, states.last().pending_arrows@, e)
    }
}

/// CRLF text parses like LF text: a text without carriage returns and the
/// same text with every line feed written as carriage return plus line
/// feed admit exactly the same results (only the stored source differs).
pub proof fn lemma_crlf_parses_like_lf(s: Seq<char>, r: Result<ChartDocument, ParseError>)
    requires
        forall|j: int| 0 <= j < s.len() ==> s[j] != '\r',
    ensures
        spec_parse_outcome(spec_canonical(spec_crlf(s)), r) == spec_parse_outcome(spec_canonical(s), r),
{
    lemma_crlf_reads_as_lf(s);
}

/// Parses TCML source text into a chart document, or reports the first
/// error (by position in the source) with its location.
///
/// A carriage return just before a line feed is dropped, so CRLF and LF
/// line endings read alike, and a leading byte-order mark is skipped. The
/// document is what reading the logical lines one after the other from
/// the initial parser state
/// leaves (`spec_line_step` says what each kind of line does), with the
/// clock rows then extended and the anchors and arrows attached. It keeps
/// the source text, registers each anchor once, every arrow joins two
/// registered anchors, and in every signal row each transition leads
/// straight into a run of its target level. Parsing succeeds exactly when
/// every line reads, no anchor is declared twice and every arrow joins
/// declared anchors. An error is the one of the first line that fails,
/// or, when every line reads, a repeated anchor or an arrow to an unknown
/// anchor; it always points at a real position:
/// its line and its column both count from 1. Text made of blank and
/// comment lines only gives an empty document in the default style.
pub fn parse(input: &str) -> (r: Result<ChartDocument, ParseError>)
    ensures
        r matches Ok(doc) ==> doc.source.text@ == input@,
        spec_parse_outcome(spec_canonical(input@), r),
{
    let ghost text = spec_canonical(input@);
    let src = source::Source::new(input);
    let line_count = src.lines.len();
    let mut parser = state::Parser::new();
    let ghost p0 = parser;
    let ghost lines = spec_source_lines(text);
    let ghost readable = exists|states: Seq<Parser>, marks: Seq<int>|
        #[trigger] spec_line_trace(text, lines, states, marks) && states[0].is_initial()
            && spec_keys_distinct(spec_pending_keys(states.last().pending_anchors@))
            && spec_arrows_resolve(states.last().pending_arrows@, spec_pending_keys(states.last().pending_anchors@));
    proof {
        let spans = spec_lines_scan(text, spec_content_start(text), spec_content_start(text));
        assert(src.lines@.len() == spans.len());
        assert forall|k: int| 0 <= k < src.lines@.len() implies #[trigger] src.lines@[k] == spec_source_lines(text)[k] by {
            assert(source::spec_spans(src.lines@)[k] == spans[k]);
        }
        assert(src.lines@ =~= spec_source_lines(text));
        if spec_blank_text(text) {
            assert forall|k: int| 0 <= k < src.lines@.len() implies
                spec_line_class(src.chars@, (#[trigger] src.lines@[k]).0 as int, src.lines@[k].1 as int) is Blank by {
                assert(source::spec_spans(src.lines@)[k] == spans[k]);
            }
        }
    }
    match parser.scan_all(&src) {
        Ok(()) => {},
        Err(e) => {
            proof {
                let (states, marks) = choose|states: Seq<Parser>, marks: Seq<int>|
                    #[trigger] spec_lines_read(src.chars@, src.lines@, states, marks) && states[0] == p0
                        && marks.last() < src.lines@.len()
                        && state::spec_line_step(states.last(), parser, Err(e), src.chars@, src.lines@, marks.last());
                assert(spec_line_error(states.last(), e, text, spec_source_lines(text), marks.last()));
                assert(spec_lines_read(text, spec_source_lines(text), states, marks));
                if readable {
                    let (ts, tm) = choose|ts: Seq<Parser>, tm: Seq<int>|
                        #[trigger] spec_line_trace(text, lines, ts, tm) && ts[0].is_initial()
                            && spec_keys_distinct(spec_pending_keys(ts.last().pending_anchors@))
                            && spec_arrows_resolve(ts.last().pending_arrows@, spec_pending_keys(ts.last().pending_anchors@));
                    state::lemma_initial_course(ts[0], states[0]);
                    state::lemma_no_failing_line(text, lines, ts, tm, states, marks, e);
                }
            }
            return Err(e);
        },
    }
    let ghost p1 = parser;
    parser.expand_clock_signals();
    let r = parser.finish(input);
    proof {
        let (states, marks) = choose|states: Seq<Parser>, marks: Seq<int>|
            #[trigger] spec_line_trace(src.chars@, src.lines@, states, marks) && states[0] == p0 && states.last() == p1;
        assert(spec_line_trace(text, spec_source_lines(text), states, marks));
        if let Ok(doc) = &r {
            assert(spec_document_of(p1, *doc));
        }
        if readable {
            let (ts, tm) = choose|ts: Seq<Parser>, tm: Seq<int>|
                #[trigger] spec_line_trace(text, lines, ts, tm) && ts[0].is_initial()
                    && spec_keys_distinct(spec_pending_keys(ts.last().pending_anchors@))
                    && spec_arrows_resolve(ts.last().pending_arrows@, spec_pending_keys(ts.last().pending_anchors@));
            state::lemma_initial_course(ts[0], states[0]);
            state::lemma_full_reads_agree(text, lines, ts, tm, states, marks);
            state::lemma_resolve_by_ends(ts.last().pending_arrows@, states.last().pending_arrows@,
                spec_pending_keys(ts.last().pending_anchors@));
        }
    }
    r
}

} // verus!
