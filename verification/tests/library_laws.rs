use tchart_core::parser::waveform::{merge_adjacent_levels, ResolvedToken};
use tchart_core::anchor::{AnchorId, AnchorName, AnchorRegistry, ResolvedAnchor};
use tchart_core::chars::{string_of, to_ascii_lower};
use tchart_core::clock::{ClockPhase, ClockPulse};
use tchart_core::document::ChartDocument;
use tchart_core::errors::{ParseError, ParseErrorKind};
use tchart_core::line::{LevelRun, LineContent, SignalLevel, SignalRow, Transition, TransitionKind, Waveform, WaveformElement};
use tchart_core::parse;
use tchart_core::parser::attr::{normalise, parse_u32};
use tchart_core::parser::state::{target_units, Parser};
use tchart_core::parser::text_quote::{find_unescaped_quote, strip_inline_comment, unescape};
use tchart_core::style::{HorizontalAlign, SvgAttrList};
use tchart_core::units::{Length, Point, Px, Ratio};
use tchart_core::clock::{ClockEdge, ClockSpec};
use tchart_core::color::Color;
use tchart_core::arrow::{ArrowHead, LineDashStyle};

fn chars(text: &str) -> Vec<char> {
    text.chars().collect()
}

fn parsed(input: &str) -> ChartDocument {
    parse(input).expect("parse should succeed")
}

fn failed(input: &str) -> ParseError {
    parse(input).expect_err("parse should fail")
}

fn signal_rows(doc: &ChartDocument) -> Vec<SignalRow> {
    doc.lines
        .iter()
        .filter_map(|line| match &line.content {
            LineContent::Signal(row) => Some((**row).clone()),
            _ => None,
        })
        .collect()
}

fn level_runs(row: &SignalRow) -> Vec<(SignalLevel, u32)> {
    row.waveform()
        .iter()
        .filter_map(|element| match element {
            WaveformElement::Level(run) => Some((run.level(), run.units())),
            _ => None,
        })
        .collect()
}

fn assert_transitions_lead_into_targets(row: &SignalRow) {
    let elements = row.waveform();
    for (k, element) in elements.iter().enumerate() {
        if let WaveformElement::Transition(t) = element {
            match elements.get(k + 1) {
                Some(WaveformElement::Level(run)) => {
                    assert_eq!(run.level(), t.target);
                    assert!(run.is_preceded_by_transition());
                }
                other => panic!("transition at {k} is followed by {other:?}"),
            }
            assert!(k > 0, "a waveform cannot open with a transition");
        }
    }
}

fn level(level: SignalLevel, units: u32, preceded: bool) -> WaveformElement {
    WaveformElement::Level(LevelRun { level, units, preceded_by_transition: preceded })
}

fn edge(source: SignalLevel, target: SignalLevel) -> WaveformElement {
    WaveformElement::Transition(Transition { source, target, kind: TransitionKind::SingleEdge, label: None })
}

#[test]
fn every_transition_leads_into_its_target_level() {
    let doc = parsed("SigA _~=_-~\nSigB =X=?=\nSigC ~_\"a\"~_");
    let rows = signal_rows(&doc);
    assert_eq!(rows.len(), 3);
    for row in &rows {
        assert_transitions_lead_into_targets(row);
    }
}

#[test]
fn adjacent_runs_of_one_level_are_merged() {
    let doc = parsed("SigA __~~~_");
    let rows = signal_rows(&doc);
    assert_eq!(
        level_runs(&rows[0]),
        vec![(SignalLevel::Low, 2), (SignalLevel::High, 3), (SignalLevel::Low, 1)]
    );
    let runs = level_runs(&rows[0]);
    for pair in runs.windows(2) {
        assert_ne!(pair[0].0, pair[1].0);
    }
}

#[test]
fn level_characters_each_count_one_unit() {
    let doc = parsed("SigA _~_=\nSigB ~~~~~~~");
    let rows = signal_rows(&doc);
    let totals: Vec<u32> = rows.iter().map(|row| level_runs(row).iter().map(|r| r.1).sum()).collect();
    assert_eq!(totals, vec![4, 7]);
}

#[test]
fn clock_rows_are_extended_to_the_widest_row() {
    let doc = parsed("@clock(pos)\nCLK\nFoo ______");
    let rows = signal_rows(&doc);
    let clock = &rows[0];
    let runs = level_runs(clock);
    let total: u32 = runs.iter().map(|r| r.1).sum();
    assert_eq!(total, 6);
    assert_eq!(runs[0].0, SignalLevel::Low);
    for pair in runs.windows(2) {
        assert_ne!(pair[0].0, pair[1].0);
    }
    assert_transitions_lead_into_targets(clock);
}

#[test]
fn extend_clock_appends_exact_pulses() {
    let mut waveform = Waveform { elements: Vec::new() };
    waveform.extend_clock(5, ClockPulse { low: 2, high: 1 }, ClockPhase::StartLow);
    assert_eq!(
        waveform.elements,
        vec![
            level(SignalLevel::Low, 2, false),
            edge(SignalLevel::Low, SignalLevel::High),
            level(SignalLevel::High, 1, true),
            edge(SignalLevel::High, SignalLevel::Low),
            level(SignalLevel::Low, 2, true),
        ]
    );
    assert_eq!(waveform.level_units_total(), 5);
}

#[test]
fn extend_clock_cuts_the_last_pulse_short() {
    let mut waveform = Waveform { elements: Vec::new() };
    waveform.extend_clock(3, ClockPulse { low: 2, high: 2 }, ClockPhase::StartHigh);
    assert_eq!(
        waveform.elements,
        vec![
            level(SignalLevel::High, 2, false),
            edge(SignalLevel::High, SignalLevel::Low),
            level(SignalLevel::Low, 1, true),
        ]
    );
}

#[test]
fn extend_clock_leaves_wide_enough_waveforms_alone() {
    let original = vec![level(SignalLevel::Low, 4, false)];
    let mut waveform = Waveform { elements: original.clone() };
    waveform.extend_clock(4, ClockPulse { low: 1, high: 1 }, ClockPhase::StartLow);
    assert_eq!(waveform.elements, original);
    waveform.extend_clock(2, ClockPulse { low: 1, high: 1 }, ClockPhase::StartLow);
    assert_eq!(waveform.elements, original);
}

#[test]
fn extend_clock_continues_after_the_last_level() {
    let mut waveform = Waveform { elements: vec![level(SignalLevel::High, 1, false)] };
    waveform.extend_clock(2, ClockPulse { low: 1, high: 1 }, ClockPhase::StartHigh);
    assert_eq!(
        waveform.elements,
        vec![
            level(SignalLevel::High, 1, false),
            edge(SignalLevel::High, SignalLevel::Low),
            level(SignalLevel::Low, 1, true),
        ]
    );
}

#[test]
fn target_units_rounds_half_up() {
    assert_eq!(target_units(Px { micros: 60_000_000 }, Px { micros: 20_000_000 }), 3);
    assert_eq!(target_units(Px { micros: 50_000_000 }, Px { micros: 20_000_000 }), 3);
    assert_eq!(target_units(Px { micros: 49_000_000 }, Px { micros: 20_000_000 }), 2);
    assert_eq!(target_units(Px { micros: 0 }, Px { micros: 20_000_000 }), 0);
    assert_eq!(target_units(Px { micros: 10_000_000 }, Px { micros: 0 }), 0);
    assert_eq!(target_units(Px { micros: i64::MAX }, Px { micros: 1 }), u32::MAX);
}

#[test]
fn every_anchor_is_registered_once_and_arrows_join_registered_anchors() {
    let doc = parsed("SigA @{a}__@1\nSigB __@{b}~~\n@-> (@{a}, @{b})\n@-> (@1, @{a})");
    let anchors = &doc.annotations.anchors;
    assert_eq!(anchors.len(), 3);
    assert_eq!(doc.annotations.arrows.len(), 2);
    for arrow in &doc.annotations.arrows {
        let tchart_core::arrow::ArrowEnd::Anchor(from) = &arrow.from;
        let tchart_core::arrow::ArrowEnd::Anchor(to) = &arrow.to;
        assert!(anchors.contains(from));
        assert!(anchors.contains(to));
    }
}

#[test]
fn registry_refuses_a_second_insert_of_one_id() {
    let mut registry = AnchorRegistry::new();
    let name = AnchorName::parse_str("start").expect("valid name");
    let first = ResolvedAnchor::new(Point::zero(), 0, 1);
    let second = ResolvedAnchor::new(Point::zero(), 2, 3);
    assert!(registry.try_insert_unique(AnchorId::Named(name.clone()), first).is_ok());
    assert!(registry.try_insert_unique(AnchorId::Named(name.clone()), second).is_err());
    assert_eq!(registry.len(), 1);
    assert_eq!(registry.get(&AnchorId::Named(name)), Some(first));
    assert!(registry.try_insert_unique(AnchorId::Indexed(7), second).is_ok());
    assert_eq!(registry.len(), 2);
    assert!(!registry.contains(&AnchorId::Indexed(8)));
}

#[test]
fn errors_always_point_at_a_real_position() {
    let inputs = [
        "SigA ?==",
        "SigA __[~~__",
        "SigA __~~]__",
        "\u{feff}@foobar 42",
        "@-> (@{x}, @{y})",
        "SigA @{a}__@{a}__",
        "@title",
        "@skip(abc)",
        "@clock(zz)\nCLK",
        "\"abc _~",
        "@step 2\n@slant 2\nSigA __",
        "SigA _@",
        "@highlight_style =x",
        "% abc 1 note",
        "@signal(bad)\nS _",
    ];
    for input in inputs {
        let error = failed(input);
        assert!(error.line() >= 1, "{input:?}");
        assert!(error.column() >= 1, "{input:?}");
    }
}

#[test]
fn anchor_without_name_or_number_is_rejected_at_the_at_sign() {
    let error = failed("SigA _@x");
    assert_eq!(error.kind(), &ParseErrorKind::AnchorExpectedNameOrDigit);
    assert_eq!((error.line(), error.column(), error.length()), (1, 7, 1));
    assert_eq!(error.message(), "1:7: expected `{name}` or a number after `@`");
}

#[test]
fn anchor_brace_must_be_closed() {
    let error = failed("SigA _@{ab");
    assert_eq!(error.kind(), &ParseErrorKind::AnchorBraceNotClosed);
    assert_eq!((error.line(), error.column()), (1, 7));
}

#[test]
fn anchor_index_beyond_u32_is_rejected() {
    let error = failed("SigA _@99999999999");
    assert_eq!(error.kind(), &ParseErrorKind::AnchorIndexNotParseable("99999999999".to_string()));
    assert_eq!((error.line(), error.column()), (1, 7));
    assert_eq!(error.message(), "1:7: anchor number out of range: 99999999999");
}

#[test]
fn highlight_style_errors() {
    let empty = failed("@highlight_style =x");
    assert_eq!(empty.kind(), &ParseErrorKind::HighlightStyleEmptyAttrName);
    let missing = failed("@highlight_style fill");
    assert_eq!(missing.kind(), &ParseErrorKind::HighlightStyleMissingEquals("fill".to_string()));
    let open = failed("@highlight_style fill=\"#8f8");
    assert_eq!(open.kind(), &ParseErrorKind::HighlightStyleUnterminatedValue);
}

#[test]
fn ruler_value_must_be_on_or_off() {
    let error = failed("@ruler maybe");
    assert_eq!(error.kind(), &ParseErrorKind::InvalidRulerValue("maybe".to_string()));
}

#[test]
fn unknown_parameter_message_names_it() {
    let error = failed("@foobar 42");
    assert_eq!(error.message(), "1:1: unknown parameter @foobar");
}

#[test]
fn unescape_replaces_the_three_escapes() {
    assert_eq!(unescape(&chars("a\\\"b")), chars("a\"b"));
    assert_eq!(unescape(&chars("a\\\\b")), chars("a\\b"));
    assert_eq!(unescape(&chars("a\\nb")), chars("a\nb"));
    assert_eq!(unescape(&chars("a\\xb")), chars("a\\xb"));
    assert_eq!(unescape(&chars("end\\")), chars("end\\"));
}

#[test]
fn unescape_leaves_text_without_backslash_unchanged() {
    for text in ["", "plain", "with \"quotes\" and spaces", "ünï"] {
        assert_eq!(unescape(&chars(text)), chars(text));
    }
}

#[test]
fn quotes_and_comments_are_found_outside_escapes() {
    let text = chars("ab\\\"cd\"ef");
    assert_eq!(find_unescaped_quote(&text, 0, text.len()), Some(6));
    let line = chars("Sig _~ // note");
    assert_eq!(strip_inline_comment(&line, 0, line.len()), 7);
    let quoted = chars("\"a // b\" // c");
    assert_eq!(strip_inline_comment(&quoted, 0, quoted.len()), 9);
}

#[test]
fn normalising_twice_is_normalising_once() {
    let name = chars("Signal-Color_X");
    let once = normalise(&name, 0, name.len());
    assert_eq!(once, chars("signal_color_x"));
    let twice = normalise(&once, 0, once.len());
    assert_eq!(twice, once);
}

#[test]
fn parameter_names_ignore_case_and_dashes() {
    let doc = parsed("@Signal-Color red\nA _");
    let plain = parsed("@signal_color red\nA _");
    assert_eq!(doc.style, plain.style);
}

#[test]
fn u32_literals_parse_exactly() {
    let text = chars("4294967295 4294967296 007");
    assert_eq!(parse_u32(&text, 0, 10), Some(u32::MAX));
    assert_eq!(parse_u32(&text, 11, 21), None);
    assert_eq!(parse_u32(&text, 22, 25), Some(7));
}

#[test]
fn ascii_letters_fold_to_lower_case() {
    assert_eq!(to_ascii_lower('Q'), 'q');
    assert_eq!(to_ascii_lower('A'), 'a');
    assert_eq!(to_ascii_lower('z'), 'z');
    assert_eq!(to_ascii_lower('É'), 'É');
}

#[test]
fn string_of_copies_a_span() {
    let text = chars("abcdé");
    assert_eq!(string_of(&text, 1, 5), "bcdé");
    assert_eq!(string_of(&text, 2, 2), "");
}

#[test]
fn parsed_document_keeps_the_source_text() {
    let input = "@title Demo\nSigA _~\n";
    let doc = parsed(input);
    assert_eq!(doc.source.text, input);
}

fn clock_of(doc: &ChartDocument, row: usize) -> ClockSpec {
    match &doc.lines[row].content {
        LineContent::Signal(signal) => signal.decorations().clock.clone().expect("clock spec"),
        other => panic!("expected signal, got {other:?}"),
    }
}

#[test]
fn clock_attributes_set_every_field() {
    let doc = parsed("@clock(neg, _=2, ~=3, start=HIGH, mark_position=0.25, mark_color=red)\nCLK\nFoo ____________");
    let spec = clock_of(&doc, 0);
    assert_eq!(spec.edge, ClockEdge::Neg);
    assert_eq!(spec.pulse, ClockPulse { low: 2, high: 3 });
    assert_eq!(spec.start, ClockPhase::StartHigh);
    assert_eq!(spec.mark_style.position, Ratio { micros: 250_000 });
    assert_eq!(spec.mark_style.color, Color::parse_str("red").expect("named color"));
}

#[test]
fn clock_attribute_given_twice_is_rejected() {
    let error = failed("@clock(_=2, _=3)\nCLK");
    assert_eq!(error.kind(), &ParseErrorKind::ClockInvalidAttribute("_=3".to_string()));
    assert_eq!((error.line(), error.column(), error.length()), (1, 13, 3));
}

#[test]
fn clock_pulse_of_zero_is_rejected() {
    let error = failed("@clock(~=0)\nCLK");
    assert_eq!(error.kind(), &ParseErrorKind::ClockInvalidAttribute("~=0".to_string()));
}

#[test]
fn arrow_attributes_by_key_and_by_value() {
    let doc = parsed("SigA @{a}__\nSigB @{b}__\n@-> (@{a}, @{b}, color=blue, width=3px, style=dotted, head=both)");
    let arrow = &doc.annotations.arrows[0];
    assert_eq!(arrow.style.color, Color::parse_str("blue").expect("named color"));
    assert_eq!(arrow.style.width, Px { micros: 3_000_000 });
    assert_eq!(arrow.style.line, LineDashStyle::Dotted);
    assert_eq!(arrow.style.head, ArrowHead::BothEnds);
    assert!(arrow.label.is_none());
}

#[test]
fn arrow_label_by_key_and_trailing_label_conflict() {
    let error = failed("SigA @{a}__\nSigB @{b}__\n@-> (@{a}, @{b}, label=x) y");
    assert!(matches!(error.kind(), ParseErrorKind::DuplicateArrowAttribute(_)));
    let doc = parsed("SigA @{a}__\nSigB @{b}__\n@-> (@{a}, @{b}, label=x)");
    assert_eq!(doc.annotations.arrows[0].label.as_ref().map(|t| t.as_str().to_string()), Some("x".to_string()));
}

#[test]
fn arrow_quoted_label_spans_lines() {
    let doc = parsed("SigA @{a}__\nSigB @{b}__\n@-> (@{a}, @{b}) \"first\nsecond\"\nSigC __");
    let label = doc.annotations.arrows[0].label.as_ref().expect("label");
    assert_eq!(label.as_str(), "first\nsecond");
    assert_eq!(signal_rows(&doc).len(), 3);
}

#[test]
fn overlay_coordinates_and_text() {
    let doc = parsed("% 10 20.5 hello world");
    let overlay = &doc.annotations.overlays[0];
    assert_eq!(overlay.at, Point { x: Px { micros: 10_000_000 }, y: Px { micros: 20_500_000 } });
    assert_eq!(overlay.text.as_str(), "hello world");
}

#[test]
fn overlay_needs_two_coordinates() {
    let error = failed("% 10");
    assert!(matches!(error.kind(), ParseErrorKind::InvalidOverlayCoordinate(_)));
}

#[test]
fn svg_attribute_lists_parse_exactly() {
    let list = SvgAttrList::parse(&chars("fill=\"#8f8\" stroke = red")).expect("valid list");
    let pairs: Vec<(String, String)> = list
        .as_slice()
        .iter()
        .map(|pair| (pair.key.clone(), pair.value.as_str().to_string()))
        .collect();
    assert_eq!(pairs, vec![("fill".to_string(), "#8f8".to_string()), ("stroke".to_string(), "red".to_string())]);
    assert!(SvgAttrList::parse(&chars("   ")).expect("empty list").as_slice().is_empty());
}

#[test]
fn skip_amounts_in_line_heights_and_pixels() {
    let doc = parsed("@skip(3lh)\n@skip(12px)\n@skip(0)");
    assert_eq!(doc.lines.len(), 2);
    assert_eq!(doc.lines[0].content, LineContent::Skip(tchart_core::line::SkipRow { amount: Length::Lh(Ratio { micros: 3_000_000 }) }));
    assert_eq!(doc.lines[1].content, LineContent::Skip(tchart_core::line::SkipRow { amount: Length::Px(Px { micros: 12_000_000 }) }));
}

#[test]
fn overline_directive_takes_no_argument() {
    let doc = parsed("@overline\nSig _~");
    assert!(signal_rows(&doc)[0].decorations().name_overline);
    let error = failed("@overline now");
    assert_eq!((error.column(), error.length()), (11, 3));
}

#[test]
fn text_fragments_attach_to_their_run() {
    let doc = parsed("SigA _ab \"c d\"~");
    let row = &signal_rows(&doc)[0];
    let texts: Vec<String> = row
        .waveform()
        .iter()
        .filter_map(|element| match element {
            WaveformElement::Text(t) => Some(t.as_str().to_string()),
            _ => None,
        })
        .collect();
    assert_eq!(texts, vec!["ab c d".to_string()]);
}

#[test]
fn dontcare_runs_follow_the_level_before() {
    let doc = parsed("SigA _??~\nSigB =X?=");
    let rows = signal_rows(&doc);
    assert_eq!(level_runs(&rows[0])[0], (SignalLevel::DontCareAlongLow, 1));
    assert!(level_runs(&rows[1]).iter().any(|run| run.0 == SignalLevel::DontCareAlongBus));
}

#[test]
fn blank_and_comment_lines_give_an_empty_document() {
    let doc = parsed("\u{FEFF}// a chart with nothing in it\r\n\n   \t\n  // still nothing\n");
    assert!(doc.lines.is_empty());
    assert!(doc.annotations.overlays.is_empty());
    assert!(doc.annotations.arrows.is_empty());
    assert!(doc.annotations.anchors.is_empty());
    assert_eq!(doc.style.layout.step.micros, 25_000_000);
    assert_eq!(doc.style.layout.slant.micros, 5_000_000);
    assert_eq!(doc.style.canvas.font.size.micros, 14_000_000);
    assert_eq!(doc.style.canvas.line_height.micros, 16_800_000);
    assert_eq!(doc.style.label.padding.micros, 8_000_000);
    let empty = parsed("");
    assert!(empty.lines.is_empty());
}

#[test]
fn ruler_lines_follow_the_row_units_and_the_ruler_switch() {
    let doc = parsed("@skip(3lh)\n@skip(12px)\nSig __~\n@ruler off\nB __\n@skip(2)");
    let counts: Vec<usize> = doc.lines.iter().map(|line| line.ruler_contributions.len()).collect();
    assert_eq!(counts, vec![4, 1, 4, 0, 0]);
    let xs: Vec<i64> = doc.lines[2].ruler_contributions.iter().map(|c| c.x.micros).collect();
    assert_eq!(xs, vec![0, 25_000_000, 50_000_000, 75_000_000]);
    assert_eq!(doc.lines[2].ruler_contributions[0].color, Color { r: 160, g: 160, b: 160, a: 255 });
}

#[test]
fn titles_follow_titlealign_and_are_centred_by_default() {
    let doc = parsed("@title First\n@titlealign left\n@title Second");
    let aligns: Vec<HorizontalAlign> = doc
        .lines
        .iter()
        .filter_map(|line| match &line.content {
            LineContent::Title(row) => Some(row.style.align),
            _ => None,
        })
        .collect();
    assert_eq!(aligns, vec![HorizontalAlign::Center, HorizontalAlign::Left]);
    assert!(doc.lines[0].ruler_contributions.is_empty());
}

#[test]
fn background_and_decorations_go_to_the_next_row_only() {
    let doc = parsed("@bg #ff0000\n@overline\nA __\nB __");
    assert_eq!(doc.lines[0].background, Some(Color { r: 255, g: 0, b: 0, a: 255 }));
    assert_eq!(doc.lines[1].background, None);
    let rows = signal_rows(&doc);
    assert!(rows[0].decorations().name_overline);
    assert!(!rows[1].decorations().name_overline);
}

#[test]
fn the_first_failing_line_gives_the_error() {
    let error = failed("A __\n@step 0\n@nosuch 1\n");
    assert_eq!(error.line(), 2);
    let later = failed("A __\n@nosuch 1\n@step 0\n");
    assert_eq!(later.line(), 2);
    assert!(matches!(later.kind(), ParseErrorKind::UnknownParameter(_)));
}

#[test]
fn refused_directive_values_name_the_reason() {
    assert_eq!(
        failed("@fontsize abc").kind().clone(),
        ParseErrorKind::NumericNotParseable("fontsize".to_string(), "abc".to_string())
    );
    assert_eq!(
        failed("@lineheight 0").kind().clone(),
        ParseErrorKind::NumericNotPositive("lineheight".to_string(), Ratio { micros: 0 })
    );
    assert_eq!(
        failed("@h_space -2").kind().clone(),
        ParseErrorKind::NumericNotNonNegative("h_space".to_string(), Ratio { micros: -2_000_000 })
    );
    assert_eq!(
        failed("@page_margin 2000000000").kind().clone(),
        ParseErrorKind::NumericOverflow("page_margin".to_string(), "2000000000".to_string(), 1_000_000_000)
    );
    assert_eq!(failed("@titlealign middle").kind().clone(), ParseErrorKind::InvalidTitleAlign("middle".to_string()));
}

#[test]
fn anchor_errors_show_the_anchor_as_written() {
    assert_eq!(failed("SigA @{ab}__@{ab}__").length(), 5);
    assert_eq!(failed("SigA @12__@12__").length(), 3);
    assert_eq!(failed("@-> (@{x}, @{y})").kind().clone(), ParseErrorKind::UndefinedAnchor("@{x}".to_string()));
    assert_eq!(failed("@-> (@7, @8)\nA @7_").kind().clone(), ParseErrorKind::UndefinedAnchor("@8".to_string()));
}

#[test]
fn bad_colour_values_point_at_the_offending_digit() {
    let error = failed("@signal_color #12x456");
    assert!(matches!(error.kind(), ParseErrorKind::InvalidColor(_)));
    assert_eq!(error.length(), 1);
    let whole = failed("@signal_color nocolour");
    assert_eq!(whole.length(), 8);
}

#[test]
fn an_x_after_a_gap_opens_no_transition() {
    let doc = parsed("SigA _:X=");
    let row = &signal_rows(&doc)[0];
    assert!(row.waveform().iter().all(|element| !matches!(element, WaveformElement::Transition(_))));
    assert_eq!(level_runs(row), vec![(SignalLevel::Low, 1), (SignalLevel::Bus, 2)]);
}

#[test]
fn a_narrow_step_shrinks_the_slant_to_a_half_pixel() {
    let doc = parsed("@step 3.4\nA _");
    assert_eq!(doc.style.layout.slant.micros, 1_500_000);
    let doc = parsed("@step 4\nA _");
    assert_eq!(doc.style.layout.slant.micros, 2_000_000);
}

#[test]
fn refusals_carry_their_kind_and_place() {
    let leading = failed("SigA ?==");
    assert_eq!(leading.kind().clone(), ParseErrorKind::DontCareWithoutAnchor);
    let value = failed("A _\nB _\n@bg invalid\nC _\n");
    assert_eq!(value.line(), 3);
    let bad_name = failed("Sig _@{a$}_");
    assert_eq!((bad_name.column(), bad_name.length()), (9, 1));
    let coordinate = failed("% 1 abc text");
    assert_eq!((coordinate.column(), coordinate.length()), (5, 3));
}

#[test]
fn element_widths_follow_step_and_slant() {
    let layout = tchart_core::style::LayoutParams::default_params();
    let run = level(SignalLevel::High, 3, true);
    assert_eq!(layout.element_width(&run).micros, 70_000_000);
    assert_eq!(layout.element_width(&level(SignalLevel::Low, 2, false)).micros, 50_000_000);
    assert_eq!(layout.element_width(&edge(SignalLevel::Low, SignalLevel::High)).micros, 5_000_000);
    assert_eq!(layout.element_width(&WaveformElement::Gap).micros, 25_000_000);
    assert_eq!(layout.element_width(&WaveformElement::Guide).micros, 0);
    let elements = vec![level(SignalLevel::Low, 2, false), edge(SignalLevel::Low, SignalLevel::High), run];
    assert_eq!(layout.sum_element_widths(&elements).micros, 125_000_000);
}

#[test]
fn alignments_name_their_svg_anchor_and_unsafe_attributes_are_dropped() {
    assert_eq!(HorizontalAlign::Left.svg_text_anchor(), "start");
    assert_eq!(HorizontalAlign::Center.svg_text_anchor(), "middle");
    assert_eq!(HorizontalAlign::Right.svg_text_anchor(), "end");
    let list = SvgAttrList::parse(&chars("Fill=red onclick=x stroke-width=2")).expect("valid list");
    let keys: Vec<String> = list.safe_pairs().iter().map(|pair| pair.key.clone()).collect();
    assert_eq!(keys, vec!["Fill".to_string(), "stroke-width".to_string()]);
}

#[test]
fn clock_mark_bounds_go_by_the_value_as_written() {
    assert!(matches!(failed("@clock(mark_position=1.0000001)\nClk").kind(), ParseErrorKind::ClockInvalidAttribute(_)));
    assert!(matches!(failed("@clock(mark_position=-0.0000001)\nClk").kind(), ParseErrorKind::ClockInvalidAttribute(_)));
    assert!(parse("@clock(mark_position=0.9999999)\nClk").is_ok());
    assert!(parse("@clock(mark_position=1)\nClk").is_ok());
    assert!(parse("@clock(mark_height=0.0000001)\nClk").is_ok());
    assert!(matches!(failed("@clock(mark_width=0)\nClk").kind(), ParseErrorKind::ClockInvalidAttribute(_)));
}

#[test]
fn swapping_arrow_attributes_keeps_the_arrow() {
    let one = parsed("Sig _@{a}~@{b}_\n@-> (@{a}, @{b}, color=red, width=2, label=hi)");
    let other = parsed("Sig _@{a}~@{b}_\n@-> (@{a}, @{b}, label=hi, width=2, color=red)");
    assert_eq!(one.annotations.arrows[0].style, other.annotations.arrows[0].style);
    assert_eq!(one.annotations.arrows[0].label, other.annotations.arrows[0].label);
}

#[test]
fn large_overlay_coordinates_and_mark_sizes_are_kept() {
    let doc = parsed("% 1e10 -250000000000 far away");
    let overlay = &doc.annotations.overlays[0];
    assert_eq!(overlay.at, Point { x: Px { micros: 10_000_000_000_000_000 }, y: Px { micros: -250_000_000_000_000_000 } });
    let doc = parsed("@clock(mark_height=2e9, mark_width=0.0000001)\nClk");
    let spec = clock_of(&doc, 0);
    assert_eq!(spec.mark_style.height, Px { micros: 2_000_000_000_000_000 });
    assert_eq!(spec.mark_style.width, Px { micros: 1 });
    assert!(matches!(failed("@page_margin 2e9").kind(), ParseErrorKind::NumericOverflow(_, _, _)));
}

#[test]
fn a_pushed_row_takes_the_staging_and_clears_it() {
    let mut parser = Parser::new();
    let red = Color::parse_str("red").expect("named color");
    parser.next_background = Some(red.clone());
    parser.next_overline = true;
    let name = tchart_core::text::SignalName::parse(&chars("A"), 0, 1).expect("name");
    parser.push_signal_row(name, Waveform { elements: vec![level(SignalLevel::Low, 1, false)] });
    assert_eq!(parser.lines.len(), 1);
    assert_eq!(parser.lines[0].background, Some(red));
    match &parser.lines[0].content {
        LineContent::Signal(row) => {
            assert!(row.decorations().name_overline);
            assert!(row.decorations().clock.is_none());
        }
        other => panic!("expected signal, got {other:?}"),
    }
    assert!(parser.next_background.is_none());
    assert!(!parser.next_overline);
    assert!(parser.next_clock.is_none());
}

#[test]
fn crlf_text_gives_what_lf_text_gives() {
    let lf = "@title \"T\"\n@bg #ff0\nA _~X=\n\"multi\nline\" __\n";
    let crlf = lf.replace('\n', "\r\n");
    let one = parsed(lf);
    let other = parsed(&crlf);
    assert_eq!(one.lines, other.lines);
    assert_eq!(one.style, other.style);
    assert_eq!(one.annotations, other.annotations);
    let bad_lf = failed("@title \"T\"\n@bad\n");
    let bad_crlf = failed("@title \"T\"\r\n@bad\r\n");
    assert_eq!(bad_lf.kind(), bad_crlf.kind());
    assert_eq!((bad_lf.line(), bad_lf.column(), bad_lf.length()), (bad_crlf.line(), bad_crlf.column(), bad_crlf.length()));
    assert_eq!(bad_crlf.line(), 2);
}

#[test]
fn merging_twice_is_merging_once() {
    let run = |level: SignalLevel, units: u32| LevelRun { level, units, preceded_by_transition: false };
    let tokens = vec![
        ResolvedToken::Level(run(SignalLevel::Low, 1), vec![vec!['a']]),
        ResolvedToken::Level(run(SignalLevel::Low, 2), vec![vec!['b']]),
        ResolvedToken::BusCross,
        ResolvedToken::Level(run(SignalLevel::High, 1), Vec::new()),
    ];
    let once = merge_adjacent_levels(tokens);
    assert_eq!(once.len(), 3);
    assert_eq!(once[0], ResolvedToken::Level(run(SignalLevel::Low, 3), vec![vec!['a'], vec!['b']]));
    let twice = merge_adjacent_levels(once.clone());
    assert_eq!(twice, once);
}
