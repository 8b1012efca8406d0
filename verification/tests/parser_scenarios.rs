use tchart_core::anchor::{AnchorId, AnchorName};
use tchart_core::arrow::{ArrowEnd, ArrowHead, LineDashStyle};
use tchart_core::clock::{ClockEdge, ClockSpec};
use tchart_core::color::Color;
use tchart_core::defaults;
use tchart_core::document::ChartDocument;
use tchart_core::errors::{NameError, ParseError, ParseErrorKind, TextError};
use tchart_core::line::{LineContent, SignalLevel, SignalRow, TransitionKind, WaveformElement};
use tchart_core::parse;
use tchart_core::style::HorizontalAlign;
use tchart_core::units::{Length, Px, Ratio};

fn px(value: f64) -> Px {
    Px { micros: (value * 1_000_000.0).round() as i64 }
}

fn ratio(value: f64) -> Ratio {
    Ratio { micros: (value * 1_000_000.0).round() as i64 }
}

fn parse_or_panic(input: &str) -> ChartDocument {
    parse(input).expect("parse should succeed")
}

fn parse_error(input: &str) -> ParseError {
    parse(input).expect_err("parse should fail")
}

fn first_signal(input: &str) -> SignalRow {
    let doc = parse_or_panic(input);
    let line = doc.lines.into_iter().next().expect("at least one line");
    match line.content {
        LineContent::Signal(row) => (*row).clone(),
        other => panic!("expected signal row, got {other:?}"),
    }
}

fn collect_transition_triples(row: &SignalRow) -> Vec<(TransitionKind, SignalLevel, SignalLevel)> {
    row.waveform()
        .iter()
        .filter_map(|el| match el {
            WaveformElement::Transition(t) => Some((t.kind, t.source, t.target)),
            _ => None,
        })
        .collect()
}

fn collect_level_runs(row: &SignalRow) -> Vec<(SignalLevel, u32)> {
    row.waveform()
        .iter()
        .filter_map(|element| match element {
            WaveformElement::Level(run) => Some((run.level(), run.units())),
            _ => None,
        })
        .collect()
}

fn collect_transition_kinds(row: &SignalRow) -> Vec<TransitionKind> {
    row.waveform()
        .iter()
        .filter_map(|element| match element {
            WaveformElement::Transition(transition) => Some(transition.kind),
            _ => None,
        })
        .collect()
}

fn first_signal_clock_spec(doc: &ChartDocument) -> ClockSpec {
    match &doc.lines[0].content {
        LineContent::Signal(row) => row.decorations().clock.clone().expect("spec"),
        other => panic!("expected signal, got {other:?}"),
    }
}

fn first_title_align(input: &str) -> HorizontalAlign {
    let doc = parse_or_panic(input);
    let line = doc.lines.into_iter().next().expect("at least one line");
    match line.content {
        LineContent::Title(title) => title.style.align(),
        other => panic!("expected Title, got {other:?}"),
    }
}

fn first_signal_edge_mark_count(input: &str) -> usize {
    let doc = parse_or_panic(input);
    match &doc.lines[0].content {
        LineContent::Signal(row) => row.edge_marks().len(),
        other => panic!("expected signal, got {other:?}"),
    }
}

fn first_signal_level_sequence(input: &str) -> Vec<(SignalLevel, u32)> {
    let doc = parse_or_panic(input);
    let line = doc.lines.into_iter().next().expect("at least one line");
    match line.content {
        LineContent::Signal(row) => row
            .waveform()
            .iter()
            .filter_map(|element| match element {
                WaveformElement::Level(run) => Some((run.level(), run.units())),
                _ => None,
            })
            .collect(),
        other => panic!("expected signal row, got {other:?}"),
    }
}

fn first_signal_total_units(input: &str) -> u32 {
    first_signal_level_sequence(input)
        .iter()
        .map(|(_, units)| units)
        .sum()
}

fn collect_waveform_text_content(row: &SignalRow) -> Vec<String> {
    row.waveform()
        .iter()
        .filter_map(|element| match element {
            WaveformElement::Text(text) => Some(text.as_str().to_owned()),
            _ => None,
        })
        .collect()
}

fn count_signal_lines(doc: &ChartDocument) -> usize {
    doc.lines
        .iter()
        .filter(|line| matches!(line.content, LineContent::Signal(_)))
        .count()
}

fn nth_signal(doc: &ChartDocument, index: usize) -> &SignalRow {
    let line = doc
        .lines
        .iter()
        .filter(|line| matches!(line.content, LineContent::Signal(_)))
        .nth(index)
        .expect("signal index in range");
    match &line.content {
        LineContent::Signal(row) => row.as_ref(),
        _ => unreachable!(),
    }
}

fn first_signal_name_text(doc: &ChartDocument) -> String {
    let row = nth_signal(doc, 0);
    row.name()
        .lines()
        .into_iter()
        .next()
        .expect("at least one name line")
        .unsafe_text()
        .to_string()
}

#[test]
fn empty_input_yields_empty_document() {
    let doc = parse_or_panic("");
    assert!(doc.lines.is_empty());
}

#[test]
fn comment_lines_are_ignored() {
    let doc = parse_or_panic("// comment\n// another");
    assert!(doc.lines.is_empty());
}

#[test]
fn blank_lines_are_ignored() {
    let doc = parse_or_panic("\n\n\n");
    assert!(doc.lines.is_empty());
}

#[test]
fn test_single_low_run() {
    let row = first_signal("SigA ____");
    assert_eq!(row.waveform().len(), 1);
    match &row.waveform()[0] {
        WaveformElement::Level(run) => {
            assert_eq!(run.level(), SignalLevel::Low);
            assert_eq!(run.units(), 4);
        }
        other => panic!("expected Level, got {other:?}"),
    }
}

#[test]
fn high_low_alternation_inserts_transitions() {
    let row = first_signal("SigA _~");
    assert_eq!(row.waveform().len(), 3);
    if let WaveformElement::Transition(transition) = &row.waveform()[1] {
        assert_eq!(transition.kind, TransitionKind::SingleEdge);
        assert_eq!(transition.source, SignalLevel::Low);
        assert_eq!(transition.target, SignalLevel::High);
    } else {
        panic!("expected Transition at index 1");
    }
}

#[test]
fn bus_open_and_close_transitions() {
    let row = first_signal("SigA _==_");
    let kinds: Vec<TransitionKind> = row
        .waveform()
        .iter()
        .filter_map(|element| match element {
            WaveformElement::Transition(transition) => Some(transition.kind),
            _ => None,
        })
        .collect();
    assert_eq!(
        kinds,
        vec![TransitionKind::BusOpen, TransitionKind::BusClose]
    );
}

#[test]
fn control_char_in_level_string_errors() {
    let error = parse_error("SigA _\x01_~");
    assert!(matches!(
        error.kind(),
        ParseErrorKind::InvalidLevelChar('\x01')
    ));
}

#[test]
fn test_dontcare_along_low() {
    let row = first_signal("SigA _?_");
    let elements: Vec<_> = row
        .waveform()
        .iter()
        .filter_map(|element| match element {
            WaveformElement::Level(run) => Some((run.level(), run.units())),
            _ => None,
        })
        .collect();
    assert_eq!(elements, vec![(SignalLevel::DontCareAlongLow, 2)]);
    let has_transition = row
        .waveform()
        .iter()
        .any(|element| matches!(element, WaveformElement::Transition(_)));
    assert!(!has_transition, "no transition around `?` boundary");
}

#[test]
fn dontcare_along_high() {
    let row = first_signal("SigA ~?~");
    let elements: Vec<_> = row
        .waveform()
        .iter()
        .filter_map(|element| match element {
            WaveformElement::Level(run) => Some((run.level(), run.units())),
            _ => None,
        })
        .collect();
    assert_eq!(elements, vec![(SignalLevel::DontCareAlongHigh, 2)]);
}

#[test]
fn dontcare_along_hiz() {
    let row = first_signal("SigA -?-");
    let elements: Vec<_> = row
        .waveform()
        .iter()
        .filter_map(|element| match element {
            WaveformElement::Level(run) => Some((run.level(), run.units())),
            _ => None,
        })
        .collect();
    assert_eq!(elements, vec![(SignalLevel::DontCareAlongHiZ, 2)]);
}

#[test]
fn dontcare_along_bus() {
    let row = first_signal("SigA =?=");
    let elements: Vec<_> = row
        .waveform()
        .iter()
        .filter_map(|element| match element {
            WaveformElement::Level(run) => Some((run.level(), run.units())),
            _ => None,
        })
        .collect();
    assert_eq!(elements, vec![(SignalLevel::DontCareAlongBus, 2)]);
}

#[test]
fn test_consecutive_dontcare_merge() {
    let row = first_signal("SigA _???_");
    let elements: Vec<_> = row
        .waveform()
        .iter()
        .filter_map(|element| match element {
            WaveformElement::Level(run) => Some((run.level(), run.units())),
            _ => None,
        })
        .collect();
    assert_eq!(elements, vec![(SignalLevel::DontCareAlongLow, 2)]);
}

#[test]
fn dontcare_expands_to_preceding_same_level() {
    let row = first_signal("SigA _?=");
    let elements: Vec<_> = row
        .waveform()
        .iter()
        .filter_map(|element| match element {
            WaveformElement::Level(run) => Some((run.level(), run.units())),
            _ => None,
        })
        .collect();
    assert_eq!(
        elements,
        vec![(SignalLevel::DontCareAlongLow, 1), (SignalLevel::Bus, 1),],
    );
}

#[test]
fn leading_dontcare_errors() {
    let error = parse_error("SigA ?==");
    assert!(matches!(
        error.kind(),
        ParseErrorKind::DontCareWithoutAnchor
    ));
}

#[test]
fn dontcare_after_only_gap_errors() {
    let error = parse_error("SigA :?_");
    assert!(matches!(
        error.kind(),
        ParseErrorKind::DontCareWithoutAnchor
    ));
}

#[test]
fn dontcare_after_only_anchor_errors() {
    let error = parse_error("SigA @{a}?_");
    assert!(matches!(
        error.kind(),
        ParseErrorKind::DontCareWithoutAnchor
    ));
}

#[test]
fn x_between_buses_emits_buscross() {
    let row = first_signal("SigA =X=");
    let kinds: Vec<TransitionKind> = row
        .waveform()
        .iter()
        .filter_map(|element| match element {
            WaveformElement::Transition(transition) => Some(transition.kind),
            _ => None,
        })
        .collect();
    assert_eq!(kinds, vec![TransitionKind::BusCross]);
}

#[test]
fn x_followed_by_dontcare_resolves_to_bus_dontcare() {
    let row = first_signal("SigA =X?");
    let last = row.waveform().last().expect("at least one element");
    match last {
        WaveformElement::Level(run) => {
            assert_eq!(run.level(), SignalLevel::DontCareAlongBus);
        }
        other => panic!("expected DontCareAlongBus level, got {other:?}"),
    }
}

#[test]
fn dontcare_expands_across_bus_after_buscross() {
    let row = first_signal("SigA =X?=");
    let levels: Vec<_> = row
        .waveform()
        .iter()
        .filter_map(|element| match element {
            WaveformElement::Level(run) => Some((run.level(), run.units())),
            _ => None,
        })
        .collect();
    assert_eq!(
        levels,
        vec![(SignalLevel::Bus, 1), (SignalLevel::DontCareAlongBus, 2)],
    );
    let transition_kinds: Vec<_> = row
        .waveform()
        .iter()
        .filter_map(|element| match element {
            WaveformElement::Transition(transition) => Some(transition.kind),
            _ => None,
        })
        .collect();
    assert_eq!(transition_kinds, vec![TransitionKind::BusCross]);
}

#[test]
fn dontcare_expands_both_bus_runs_four_units() {
    let row = first_signal("SigA ==?==");
    let elements: Vec<_> = row
        .waveform()
        .iter()
        .filter_map(|element| match element {
            WaveformElement::Level(run) => Some((run.level(), run.units())),
            _ => None,
        })
        .collect();
    assert_eq!(elements, vec![(SignalLevel::DontCareAlongBus, 4)]);
}

#[test]
fn dontcare_bus_low_both_ends_has_busopen_busclose() {
    let row = first_signal("SigA _=?=_");
    assert_eq!(
        collect_level_runs(&row),
        vec![
            (SignalLevel::Low, 1),
            (SignalLevel::DontCareAlongBus, 2),
            (SignalLevel::Low, 1),
        ],
    );
    assert_eq!(
        collect_transition_triples(&row),
        vec![
            (
                TransitionKind::BusOpen,
                SignalLevel::Low,
                SignalLevel::DontCareAlongBus,
            ),
            (
                TransitionKind::BusClose,
                SignalLevel::DontCareAlongBus,
                SignalLevel::Low,
            ),
        ],
    );
}

#[test]
fn dontcare_bus_hiz_prev_no_busclose() {
    let row = first_signal("SigA --==?==");
    assert_eq!(
        collect_level_runs(&row),
        vec![(SignalLevel::HiZ, 2), (SignalLevel::DontCareAlongBus, 4)],
    );
    assert_eq!(
        collect_transition_triples(&row),
        vec![(
            TransitionKind::BusOpen,
            SignalLevel::HiZ,
            SignalLevel::DontCareAlongBus,
        )],
    );
}

#[test]
fn dontcare_bus_hiz_next_no_busopen() {
    let row = first_signal("SigA ==?==--");
    assert_eq!(
        collect_level_runs(&row),
        vec![(SignalLevel::DontCareAlongBus, 4), (SignalLevel::HiZ, 2)],
    );
    assert_eq!(
        collect_transition_triples(&row),
        vec![(
            TransitionKind::BusClose,
            SignalLevel::DontCareAlongBus,
            SignalLevel::HiZ,
        )],
    );
}

#[test]
fn dontcare_expands_four_leading_low_four_dontcare_zero_width() {
    let row = first_signal("SigA ____????");
    let elements: Vec<_> = row
        .waveform()
        .iter()
        .filter_map(|element| match element {
            WaveformElement::Level(run) => Some((run.level(), run.units())),
            _ => None,
        })
        .collect();
    assert_eq!(elements, vec![(SignalLevel::DontCareAlongLow, 4)]);
}

#[test]
fn dontcare_expands_to_preceding_high_not_low() {
    let row = first_signal("SigA _~?");
    let elements: Vec<_> = row
        .waveform()
        .iter()
        .filter_map(|element| match element {
            WaveformElement::Level(run) => Some((run.level(), run.units())),
            _ => None,
        })
        .collect();
    assert_eq!(
        elements,
        vec![(SignalLevel::Low, 1), (SignalLevel::DontCareAlongHigh, 1)],
    );
}

#[test]
fn high_to_x_to_low_inserts_bus_open_and_close() {
    let row = first_signal("SigA ~X_");
    assert_eq!(
        collect_level_runs(&row),
        vec![
            (SignalLevel::High, 1),
            (SignalLevel::Bus, 1),
            (SignalLevel::Low, 1),
        ]
    );
    assert_eq!(
        collect_transition_kinds(&row),
        vec![TransitionKind::BusOpen, TransitionKind::BusClose]
    );
}

#[test]
fn low_to_x_to_high_inserts_bus_open_and_close() {
    let row = first_signal("SigA _X~");
    assert_eq!(
        collect_level_runs(&row),
        vec![
            (SignalLevel::Low, 1),
            (SignalLevel::Bus, 1),
            (SignalLevel::High, 1),
        ]
    );
    assert_eq!(
        collect_transition_kinds(&row),
        vec![TransitionKind::BusOpen, TransitionKind::BusClose]
    );
}

#[test]
fn x_at_start_is_valid() {
    let row = first_signal("SigA X==");
    let levels: Vec<_> = row
        .waveform()
        .iter()
        .filter_map(|element| match element {
            WaveformElement::Level(run) => Some((run.level(), run.units())),
            _ => None,
        })
        .collect();
    assert_eq!(levels, vec![(SignalLevel::Bus, 3)]);
    let has_buscross = row
        .waveform()
        .iter()
        .any(|element| matches!(element, WaveformElement::Transition(t) if t.kind == TransitionKind::BusCross));
    assert!(
        !has_buscross,
        "signal-start X must not emit BusCross Transition"
    );
}

#[test]
fn bus_cross_body_merges_with_following_bus() {
    let row = first_signal("SigA =X=");
    assert_eq!(
        collect_level_runs(&row),
        vec![(SignalLevel::Bus, 1), (SignalLevel::Bus, 2)]
    );
    assert_eq!(
        collect_transition_kinds(&row),
        vec![TransitionKind::BusCross]
    );
}

#[test]
fn bus_cross_body_becomes_dontcare_when_followed_by_question() {
    let row = first_signal("SigA =X?");
    assert_eq!(
        collect_level_runs(&row),
        vec![(SignalLevel::Bus, 1), (SignalLevel::DontCareAlongBus, 1)]
    );
    assert_eq!(
        collect_transition_kinds(&row),
        vec![TransitionKind::BusCross]
    );
}

#[test]
fn question_before_buscross_expands_to_dontcare() {
    let row = first_signal("SigA =?X=");
    assert_eq!(
        collect_level_runs(&row),
        vec![(SignalLevel::DontCareAlongBus, 1), (SignalLevel::Bus, 2)]
    );
    assert_eq!(
        collect_transition_kinds(&row),
        vec![TransitionKind::BusCross]
    );
}

#[test]
fn buscross_between_dontcare_regions() {
    let row = first_signal("SigA =X?X=");
    assert_eq!(
        collect_level_runs(&row),
        vec![
            (SignalLevel::Bus, 1),
            (SignalLevel::DontCareAlongBus, 1),
            (SignalLevel::Bus, 2),
        ]
    );
    assert_eq!(
        collect_transition_kinds(&row),
        vec![TransitionKind::BusCross, TransitionKind::BusCross]
    );
}

#[test]
fn consecutive_x_at_start_is_valid() {
    let row = first_signal("SigA XXXX");
    assert_eq!(
        collect_level_runs(&row),
        vec![
            (SignalLevel::Bus, 1),
            (SignalLevel::Bus, 1),
            (SignalLevel::Bus, 1),
            (SignalLevel::Bus, 1),
        ]
    );
    assert_eq!(
        collect_transition_kinds(&row),
        vec![
            TransitionKind::BusCross,
            TransitionKind::BusCross,
            TransitionKind::BusCross,
        ]
    );
}

#[test]
fn dontcare_only_errors() {
    let error = parse_error("SigA ???");
    assert!(matches!(
        error.kind(),
        ParseErrorKind::DontCareWithoutAnchor
    ));
}

#[test]
fn question_at_start_with_x_errors() {
    let error = parse_error("SigA ?X=");
    assert!(matches!(
        error.kind(),
        ParseErrorKind::DontCareWithoutAnchor
    ));
}

#[test]
fn low_x_bus_merges_body_with_trailing_bus() {
    let row = first_signal("SigA _____X=====");
    assert_eq!(
        collect_level_runs(&row),
        vec![(SignalLevel::Low, 5), (SignalLevel::Bus, 6)]
    );
    assert_eq!(
        collect_transition_kinds(&row),
        vec![TransitionKind::BusOpen]
    );
}

#[test]
fn bus_x_low_emits_cross_body_and_close() {
    let row = first_signal("SigA =====X_____");
    assert_eq!(
        collect_level_runs(&row),
        vec![
            (SignalLevel::Bus, 5),
            (SignalLevel::Bus, 1),
            (SignalLevel::Low, 5),
        ]
    );
    assert_eq!(
        collect_transition_kinds(&row),
        vec![TransitionKind::BusCross, TransitionKind::BusClose]
    );
}

#[test]
fn w_hold_is_unknown_parameter() {
    let error = parse_error("@w_hold 20\nSigA __");
    assert!(matches!(error.kind(), ParseErrorKind::UnknownParameter(_)));
}

#[test]
fn w_transient_is_unknown_parameter() {
    let error = parse_error("@w_transient 5\nSigA __");
    assert!(matches!(error.kind(), ParseErrorKind::UnknownParameter(_)));
}

#[test]
fn bus_transition_slant_is_unknown_parameter() {
    let error = parse_error("@bus_transition_slant 5\nSigA __");
    assert!(matches!(error.kind(), ParseErrorKind::UnknownParameter(_)));
}

#[test]
fn step_equal_slant_is_invalid() {
    let error = parse_error("@step 2\n@slant 2\nSigA __");
    assert!(matches!(
        error.kind(),
        ParseErrorKind::InvalidStepSlant(_, _)
    ));
}

#[test]
fn slant_equal_step_from_other_direction_is_invalid() {
    let error = parse_error("@slant 25\nSigA __");
    assert!(matches!(
        error.kind(),
        ParseErrorKind::InvalidStepSlant(_, _)
    ));
}

#[test]
fn gap_breaks_levelrun_merge() {
    let row = first_signal("SigA __:__");
    let level_count = row
        .waveform()
        .iter()
        .filter(|element| matches!(element, WaveformElement::Level(_)))
        .count();
    assert_eq!(level_count, 2);
    let has_gap = row
        .waveform()
        .iter()
        .any(|element| matches!(element, WaveformElement::Gap));
    assert!(has_gap);
}

#[test]
fn unclosed_highlight_errors() {
    let error = parse_error("SigA __[~~__");
    assert!(matches!(error.kind(), ParseErrorKind::UnclosedHighlight));
}

#[test]
fn unmatched_highlight_end_errors() {
    let error = parse_error("SigA __~~]__");
    assert!(matches!(error.kind(), ParseErrorKind::UnopenedHighlightEnd));
}

#[test]
fn angle_bracket_in_level_string_is_text() {
    let row = first_signal("SigA _<CLK>~");
    let has_text = row
        .waveform()
        .iter()
        .any(|element| matches!(element, WaveformElement::Text(_)));
    assert!(has_text, "expected Text element for angle brackets");
    let levels: Vec<SignalLevel> = row
        .waveform()
        .iter()
        .filter_map(|element| match element {
            WaveformElement::Level(run) => Some(run.level()),
            _ => None,
        })
        .collect();
    assert_eq!(levels, vec![SignalLevel::Low, SignalLevel::High]);
}

#[test]
fn text_char_before_level_is_missing_initial_level() {
    let error = parse_error("SigA a__~~");
    assert!(matches!(error.kind(), ParseErrorKind::MissingInitialLevel));
}

#[test]
fn signal_name_with_angle_brackets_passes() {
    let row = first_signal("\"<request>\" _~_~");
    assert_eq!(row.name().as_str(), "<request>");
}

#[test]
fn arrow_label_with_angle_brackets_passes() {
    let doc = parse_or_panic("SigA @{a}__\nSigB @{b}__\n@-> (@{a}, @{b}) <signal-set>");
    let arrow = &doc.annotations.arrows[0];
    assert_eq!(
        arrow.label.as_ref().map(|text| text.as_str()),
        Some("<signal-set>"),
    );
}

#[test]
fn anchor_named_recorded() {
    let doc = parse_or_panic("SigA _~@{edge}_~");
    let id = AnchorId::Named(AnchorName::parse_str("edge").expect("valid"));
    assert!(doc.annotations.anchors.contains(&id));
}

#[test]
fn anchor_indexed_recorded() {
    let doc = parse_or_panic("SigA ___@1__");
    let id = AnchorId::Indexed(1);
    assert!(doc.annotations.anchors.contains(&id));
}

#[test]
fn duplicate_anchor_errors() {
    let error = parse_error("SigA @{a}__@{a}__");
    assert!(matches!(error.kind(), ParseErrorKind::DuplicateAnchor));
}

#[test]
fn anchor_indexed_zero_recorded() {
    let row = first_signal("Sig _~@0_~");
    let elements: &[WaveformElement] = row.waveform();
    let found_zero = elements.iter().any(|element| {
        matches!(
            element,
            WaveformElement::Anchor(AnchorId::Indexed(value)) if *value == 0
        )
    });
    assert!(
        found_zero,
        "expected Anchor(Indexed(0)) in waveform elements: {elements:?}"
    );
}

#[test]
fn arrow_endpoints_accept_numbered_anchor_zero() {
    let doc = parse_or_panic("Sig _~@0__@1\n@-> (@0, @1)");
    let arrow = doc
        .annotations
        .arrows
        .first()
        .expect("@-> must produce one arrow");
    let zero = AnchorId::Indexed(0);
    let one = AnchorId::Indexed(1);
    assert_eq!(arrow.from, ArrowEnd::Anchor(zero));
    assert_eq!(arrow.to, ArrowEnd::Anchor(one));
}

#[test]
fn duplicate_anchor_indexed_zero_same_row_errors() {
    let error = parse_error("Sig _@0_~@0_");
    assert!(
        matches!(error.kind(), ParseErrorKind::DuplicateAnchor),
        "expected DuplicateAnchor, got {:?}",
        error.kind()
    );
}

#[test]
fn duplicate_anchor_indexed_zero_across_rows_errors() {
    let error = parse_error("Sig1 _~@0_\nSig2 _~@0_");
    assert!(
        matches!(error.kind(), ParseErrorKind::DuplicateAnchor),
        "expected DuplicateAnchor, got {:?}",
        error.kind()
    );
}

#[test]
fn named_zero_and_indexed_zero_are_distinct() {
    let doc = parse_or_panic("Sig _~@{0}__@0\n@-> (@{0}, @0)");
    let arrow = doc
        .annotations
        .arrows
        .first()
        .expect("@-> must produce one arrow");
    let named = AnchorId::Named(AnchorName::parse_str("0").expect("valid"));
    let indexed = AnchorId::Indexed(0);
    assert_eq!(arrow.from, ArrowEnd::Anchor(named));
    assert_eq!(arrow.to, ArrowEnd::Anchor(indexed));
}

#[test]
fn anchor_in_waveform_after_transition() {
    let id_a = AnchorId::Named(AnchorName::parse_str("a").expect("valid"));
    let id_b = AnchorId::Named(AnchorName::parse_str("b").expect("valid"));
    let row = first_signal("SigA ___@{a}~~~~@{b}___");
    let waveform = row.waveform();
    let elements: &[WaveformElement] = waveform;
    let index_a = elements
        .iter()
        .position(|e| matches!(e, WaveformElement::Anchor(id) if id == &id_a))
        .expect("anchor a in waveform");
    let index_b = elements
        .iter()
        .position(|e| matches!(e, WaveformElement::Anchor(id) if id == &id_b))
        .expect("anchor b in waveform");
    assert_eq!(
        index_a, 1,
        "@{{a}} must be at waveform index 1, got {}",
        index_a
    );
    assert_eq!(
        index_b, 4,
        "@{{b}} must be at waveform index 4 (after injected Transition), got {}",
        index_b
    );
}

#[test]
fn unknown_parameter_errors() {
    let error = parse_error("@foobar 42");
    assert!(matches!(error.kind(), ParseErrorKind::UnknownParameter(_)));
}

#[test]
fn invalid_color_errors() {
    let error = parse_error("@signal_color notacolor");
    assert!(matches!(error.kind(), ParseErrorKind::InvalidColor(_)));
}

#[test]
fn skip_lh_creates_skiprow() {
    let doc = parse_or_panic("@skip(2)");
    assert_eq!(doc.lines.len(), 1);
    match &doc.lines[0].content {
        LineContent::Skip(skip) => assert_eq!(skip.amount, Length::Lh(ratio(2.0))),
        other => panic!("expected Skip, got {other:?}"),
    }
}

#[test]
fn skip_fractional_lh() {
    let doc = parse_or_panic("@skip(2.5)");
    match &doc.lines[0].content {
        LineContent::Skip(skip) => assert_eq!(skip.amount, Length::Lh(ratio(2.5))),
        other => panic!("expected Skip, got {other:?}"),
    }
}

#[test]
fn skip_px() {
    let doc = parse_or_panic("@skip(20px)");
    match &doc.lines[0].content {
        LineContent::Skip(skip) => assert_eq!(skip.amount, Length::Px(px(20.0))),
        other => panic!("expected Skip, got {other:?}"),
    }
}

#[test]
fn skip_zero_is_ignored() {
    let doc = parse_or_panic("@skip(0)");
    assert!(doc.lines.is_empty());
}

#[test]
fn skip_negative_errors() {
    let error = parse_error("@skip(-1)");
    assert!(matches!(error.kind(), ParseErrorKind::InvalidSkipAmount(_)));
}

#[test]
fn skip_unparsable_errors() {
    let error = parse_error("@skip(abc)");
    assert!(matches!(error.kind(), ParseErrorKind::InvalidSkipAmount(_)));
}

#[test]
fn title_single_line() {
    let doc = parse_or_panic("@title Sample");
    match &doc.lines[0].content {
        LineContent::Title(title) => assert_eq!(title.text.as_str(), "Sample"),
        other => panic!("expected Title, got {other:?}"),
    }
}

#[test]
fn title_quoted_multiline() {
    let doc = parse_or_panic("@title \"line1\nline2\"");
    match &doc.lines[0].content {
        LineContent::Title(title) => assert_eq!(title.text.as_str(), "line1\nline2"),
        other => panic!("expected Title, got {other:?}"),
    }
}

#[test]
fn multiple_titles_allowed() {
    let doc = parse_or_panic("@title A\n@title B");
    let titles: Vec<&tchart_core::line::TitleRow> = doc
        .lines
        .iter()
        .filter_map(|line| match &line.content {
            LineContent::Title(title) => Some(title),
            _ => None,
        })
        .collect();
    assert_eq!(titles.len(), 2);
}

#[test]
fn signal_overline_decoration() {
    let doc = parse_or_panic("@signal(overline)\nnReset _~~~\nfoo __~~");
    match &doc.lines[0].content {
        LineContent::Signal(row) => assert!(row.decorations().is_name_overline()),
        other => panic!("expected Signal, got {other:?}"),
    }
    match &doc.lines[1].content {
        LineContent::Signal(row) => assert!(!row.decorations().is_name_overline()),
        other => panic!("expected Signal, got {other:?}"),
    }
}

#[test]
fn clock_decorates_following_row() {
    let doc = parse_or_panic("@clock(pos)\nCLK\nFoo _~_~_~_~");
    match &doc.lines[0].content {
        LineContent::Signal(row) => {
            let spec = row.decorations().clock.clone().expect("clock spec set");
            assert_eq!(spec.edge, ClockEdge::Pos);
            let levels: Vec<SignalLevel> = row
                .waveform()
                .iter()
                .filter_map(|element| match element {
                    WaveformElement::Level(run) => Some(run.level()),
                    _ => None,
                })
                .collect();
            assert!(!levels.is_empty(), "clock waveform expanded");
        }
        other => panic!("expected Signal, got {other:?}"),
    }
}

#[test]
fn clock_attribute_order_does_not_matter() {
    let normal = parse_or_panic("@clock(neg, _=2, ~=3)\nCLK");
    let alternate = parse_or_panic("@clock(_=2, neg, ~=3)\nCLK");
    let normal_spec = first_signal_clock_spec(&normal);
    let alternate_spec = first_signal_clock_spec(&alternate);
    assert_eq!(normal_spec, alternate_spec);
}

#[test]
fn clock_bare_no_parens_defaults_to_none() {
    let doc = parse_or_panic("@clock\nCLK");
    let spec = first_signal_clock_spec(&doc);
    assert_eq!(spec.edge, ClockEdge::NoEdge);
}

#[test]
fn clock_empty_parens_defaults_to_none() {
    let doc = parse_or_panic("@clock()\nCLK");
    let spec = first_signal_clock_spec(&doc);
    assert_eq!(spec.edge, ClockEdge::NoEdge);
}

#[test]
fn clock_edge_omitted_defaults_to_none() {
    let doc = parse_or_panic("@clock(_=2)\nCLK");
    let spec = first_signal_clock_spec(&doc);
    assert_eq!(spec.edge, ClockEdge::NoEdge);
}

#[test]
fn arrow_minimal_resolves_to_anchor() {
    let doc = parse_or_panic("SigA __@{a}__\nSigB __@{b}__\n@-> (@{a}, @{b})");
    assert_eq!(doc.annotations.arrows.len(), 1);
    let arrow = &doc.annotations.arrows[0];
    assert!(matches!(arrow.from, ArrowEnd::Anchor(_)));
    assert!(matches!(arrow.to, ArrowEnd::Anchor(_)));
}

#[test]
fn arrow_with_attributes_and_label() {
    let doc = parse_or_panic("SigA @{a}__\nSigB @{b}__\n@-> (@{a}, @{b}, red, 2px, dashed) change");
    let arrow = &doc.annotations.arrows[0];
    assert_eq!(arrow.style.line, LineDashStyle::Dashed);
    assert_eq!(arrow.style.head, ArrowHead::EndOnly);
    assert_eq!(arrow.style.width, px(2.0));
    assert_eq!(
        arrow.label.as_ref().map(|text| text.as_str()),
        Some("change"),
    );
}

#[test]
fn arrow_attribute_order_does_not_matter() {
    let doc1 = parse_or_panic("SigA @{a}__\nSigB @{b}__\n@-> (@{a}, @{b}, red, 2px, dashed)");
    let doc2 = parse_or_panic("SigA @{a}__\nSigB @{b}__\n@-> (@{a}, @{b}, dashed, 2px, red)");
    assert_eq!(
        doc1.annotations.arrows[0].style,
        doc2.annotations.arrows[0].style
    );
}

#[test]
fn arrow_forward_reference_resolves() {
    let doc = parse_or_panic("@-> (@{a}, @{b})\nSigA @{a}__\nSigB @{b}__");
    assert_eq!(doc.annotations.arrows.len(), 1);
}

#[test]
fn arrow_unknown_anchor_errors() {
    let error = parse_error("@-> (@{x}, @{y})");
    assert!(matches!(error.kind(), ParseErrorKind::UndefinedAnchor(_)));
}

#[test]
fn arrow_duplicate_attribute_errors() {
    let error = parse_error("SigA @{a}__\nSigB @{b}__\n@-> (@{a}, @{b}, red, blue)");
    assert!(matches!(
        error.kind(),
        ParseErrorKind::DuplicateArrowAttribute(_)
    ));
}

#[test]
fn arrow_unknown_attribute_errors() {
    let error = parse_error("SigA @{a}__\nSigB @{b}__\n@-> (@{a}, @{b}, foobar)");
    assert!(matches!(
        error.kind(),
        ParseErrorKind::UnknownArrowAttribute(_)
    ));
}

#[test]
fn overlay_records_position_and_text() {
    let doc = parse_or_panic("% 100 50 note");
    assert_eq!(doc.annotations.overlays.len(), 1);
    let overlay = &doc.annotations.overlays[0];
    assert_eq!(overlay.at.x, px(100.0));
    assert_eq!(overlay.at.y, px(50.0));
    assert_eq!(overlay.text.as_str(), "note");
}

#[test]
fn quoted_signal_name_multiline() {
    let row = first_signal("\"a\nb\" =__");
    assert_eq!(row.name().as_str(), "a\nb");
    let name_lines = row.name().lines();
    let lines: Vec<&str> = name_lines.iter().map(|line| line.unsafe_text()).collect();
    assert_eq!(lines, vec!["a", "b"]);
}

#[test]
fn unclosed_quoted_signal_errors() {
    let error = parse_error("\"abc _~");
    assert!(matches!(error.kind(), ParseErrorKind::UnclosedQuote));
}

#[test]
fn integration_dontcare_chain() {
    let doc = parse_or_panic("foo  _?~_~?_~_?\nbar  -?==");
    assert_eq!(doc.lines.len(), 2);
}

#[test]
fn bg_applies_to_next_signal_only() {
    let doc = parse_or_panic("@bg #f0f\nA _\nB _");
    assert_eq!(doc.lines.len(), 2);
    let expected = Color::parse_str("#f0f").expect("color");
    assert_eq!(doc.lines[0].background, Some(expected));
    assert_eq!(doc.lines[1].background, None);
}

#[test]
fn bg_applies_to_next_title_row() {
    let doc = parse_or_panic("@bg #ff0\n@title hello\nA _");
    assert_eq!(doc.lines.len(), 2);
    let expected = Color::parse_str("#ff0").expect("color");
    assert!(matches!(doc.lines[0].content, LineContent::Title(_)));
    assert_eq!(doc.lines[0].background, Some(expected));
    assert_eq!(doc.lines[1].background, None);
}

#[test]
fn bg_applies_to_next_skip_row() {
    let doc = parse_or_panic("@bg #ff0\n@skip(1)\nA _");
    assert_eq!(doc.lines.len(), 2);
    let expected = Color::parse_str("#ff0").expect("color");
    assert!(matches!(doc.lines[0].content, LineContent::Skip(_)));
    assert_eq!(doc.lines[0].background, Some(expected));
    assert_eq!(doc.lines[1].background, None);
}

#[test]
fn bg_survives_intervening_directive() {
    let doc = parse_or_panic("@bg #f0f\n@bgcolor0 #eee\nA _");
    let expected = Color::parse_str("#f0f").expect("color");
    assert_eq!(doc.lines[0].background, Some(expected));
}

#[test]
fn bg_none_clears_pending_value() {
    let doc = parse_or_panic("@bg #f0f\n@bg none\nA _");
    assert_eq!(doc.lines[0].background, None);
}

#[test]
fn title_default_align_is_center() {
    let align = first_title_align("@title Hello");
    assert_eq!(align, HorizontalAlign::Center);
}

#[test]
fn titlealign_left_is_applied() {
    let align = first_title_align("@titlealign left\n@title Hello");
    assert_eq!(align, HorizontalAlign::Left);
}

#[test]
fn titlealign_right_is_applied() {
    let align = first_title_align("@titlealign right\n@title Hello");
    assert_eq!(align, HorizontalAlign::Right);
}

#[test]
fn titlealign_center_explicit() {
    let align = first_title_align("@titlealign center\n@title Hello");
    assert_eq!(align, HorizontalAlign::Center);
}

#[test]
fn titlealign_case_insensitive() {
    let align_upper = first_title_align("@titlealign CENTER\n@title Hello");
    assert_eq!(align_upper, HorizontalAlign::Center);
    let align_mixed = first_title_align("@titlealign Right\n@title Hello");
    assert_eq!(align_mixed, HorizontalAlign::Right);
}

#[test]
fn titlealign_invalid_value_errors() {
    let error = parse_error("@titlealign top");
    assert!(matches!(
        error.kind(),
        ParseErrorKind::UnknownParameter(_)
            | ParseErrorKind::NumericNotParseable(_, _)
            | ParseErrorKind::NumericOverflow(_, _, _)
            | ParseErrorKind::NumericNotPositive(_, _)
            | ParseErrorKind::NumericNotNonNegative(_, _)
            | ParseErrorKind::InvalidTitleAlign(_)
            | ParseErrorKind::TitleRequiresArgument
    ));
}

#[test]
fn titlealign_mid_sequence_applies_to_subsequent_titles() {
    let doc = parse_or_panic("@title A\n@titlealign right\n@title B");
    let titles: Vec<&tchart_core::line::TitleRow> = doc
        .lines
        .iter()
        .filter_map(|line| match &line.content {
            LineContent::Title(title) => Some(title),
            _ => None,
        })
        .collect();
    assert_eq!(titles.len(), 2);
    assert_eq!(titles[0].style.align(), HorizontalAlign::Center);
    assert_eq!(titles[1].style.align(), HorizontalAlign::Right);
}

#[test]
fn clock_pos_spec_stored_in_decorations() {
    let doc = parse_or_panic("Foo __\n@clock(pos)\nCLK");
    let spec = match &doc.lines[1].content {
        LineContent::Signal(row) => row.decorations().clock.clone().expect("clock spec"),
        other => panic!("expected signal, got {other:?}"),
    };
    assert_eq!(spec.edge, tchart_core::clock::ClockEdge::Pos);
    assert_eq!(spec.mark_style.position, defaults::clockmark_position());
    assert_eq!(spec.mark_style.height, defaults::clockmark_height());
    assert_eq!(spec.mark_style.width, defaults::clockmark_width());
}

#[test]
fn clock_pos_annotations_arrows_empty_from_parser() {
    let doc = parse_or_panic("Foo __\n@clock(pos)\nCLK");
    assert_eq!(
        doc.annotations.arrows.len(),
        0,
        "Annotations.arrows must not contain clock-derived elements"
    );
}

#[test]
fn clock_mark_color_inherits_signal_color() {
    let doc = parse_or_panic("@signal_color blue\n@clock(pos)\nCLK");
    let spec = match &doc.lines[0].content {
        LineContent::Signal(row) => row.decorations().clock.clone().expect("spec"),
        other => panic!("expected signal, got {other:?}"),
    };
    let expected = Color::parse_str("blue").expect("blue");
    assert_eq!(spec.mark_style.color, expected);
}

#[test]
fn clockmark_global_position_applied() {
    let doc = parse_or_panic("@clockmark_position 0.0\n@clock(pos)\nCLK");
    let spec = match &doc.lines[0].content {
        LineContent::Signal(row) => row.decorations().clock.clone().expect("spec"),
        other => panic!("expected signal, got {other:?}"),
    };
    assert_eq!(spec.mark_style.position, ratio(0.0));
}

#[test]
fn clockmark_local_height_overrides_global() {
    let doc = parse_or_panic("@clockmark_height 5\n@clock(pos, mark_height=8)\nCLK");
    let spec = match &doc.lines[0].content {
        LineContent::Signal(row) => row.decorations().clock.clone().expect("spec"),
        other => panic!("expected signal, got {other:?}"),
    };
    assert_eq!(spec.mark_style.height, px(8.0));
}

#[test]
fn clockmark_local_color_overrides_signal_color() {
    let doc = parse_or_panic("@signal_color blue\n@clock(pos, mark_color=red)\nCLK");
    let spec = match &doc.lines[0].content {
        LineContent::Signal(row) => row.decorations().clock.clone().expect("spec"),
        other => panic!("expected signal, got {other:?}"),
    };
    let expected = Color::parse_str("red").expect("red");
    assert_eq!(spec.mark_style.color, expected);
}

#[test]
fn clockmark_global_color_applied() {
    let doc = parse_or_panic("@clockmark_color green\n@clock(pos)\nCLK");
    let spec = match &doc.lines[0].content {
        LineContent::Signal(row) => row.decorations().clock.clone().expect("spec"),
        other => panic!("expected signal, got {other:?}"),
    };
    let expected = Color::parse_str("green").expect("green");
    assert_eq!(spec.mark_style.color, expected);
}

#[test]
fn clock_none_edge_mark_count_from_parser_is_zero() {
    let count = first_signal_edge_mark_count("@clock(none)\nCLK\nFoo __");
    assert_eq!(count, 0);
}

#[test]
fn clockmark_defaults_are_6_and_7_5_when_step_is_large() {
    let doc = parse_or_panic("@step 20\n@clock(pos)\nCLK");
    let spec = first_signal_clock_spec(&doc);
    assert_eq!(spec.mark_style.width, px(6.0));
    assert_eq!(spec.mark_style.height, px(7.5));
}

#[test]
fn clockmark_width_shrinks_when_step_small_and_default_resolved() {
    let doc = parse_or_panic("@step 6\n@clock(pos)\nCLK");
    let spec = first_signal_clock_spec(&doc);
    assert_eq!(spec.mark_style.width, px(4.0));
    assert_eq!(spec.mark_style.height, px(7.5));
}

#[test]
fn clockmark_width_not_shrunk_when_step_times_two_thirds_geq_default() {
    let doc = parse_or_panic("@step 15\n@clock(pos)\nCLK");
    let spec = first_signal_clock_spec(&doc);
    assert_eq!(spec.mark_style.width, px(6.0));
}

#[test]
fn clockmark_global_width_override_disables_shrink() {
    let doc = parse_or_panic("@step 3\n@clockmark_width 8\n@clock(pos)\nCLK");
    let spec = first_signal_clock_spec(&doc);
    assert_eq!(spec.mark_style.width, px(8.0));
}

#[test]
fn clockmark_global_width_equal_to_default_still_disables_shrink() {
    let doc = parse_or_panic("@step 3\n@clockmark_width 6\n@clock(pos)\nCLK");
    let spec = first_signal_clock_spec(&doc);
    assert_eq!(spec.mark_style.width, px(6.0));
}

#[test]
fn clockmark_local_width_disables_shrink() {
    let doc = parse_or_panic("@step 3\n@clock(pos, mark_width=12)\nCLK");
    let spec = first_signal_clock_spec(&doc);
    assert_eq!(spec.mark_style.width, px(12.0));
}

#[test]
fn clockmark_local_width_disables_shrink_under_shrink_step() {
    let doc = parse_or_panic("@step 6\n@clock(pos, mark_width=8)\nCLK");
    let spec = first_signal_clock_spec(&doc);
    assert_eq!(spec.mark_style.width, px(8.0));
}

#[test]
fn clockmark_local_width_overrides_global_width_no_shrink() {
    let doc = parse_or_panic("@step 3\n@clockmark_width 6\n@clock(pos, mark_width=10)\nCLK");
    let spec = first_signal_clock_spec(&doc);
    assert_eq!(spec.mark_style.width, px(10.0));
}

#[test]
fn clockmark_height_is_never_shrunk_by_small_step() {
    let doc = parse_or_panic("@step 3\n@clock(pos)\nCLK");
    let spec = first_signal_clock_spec(&doc);
    assert_eq!(spec.mark_style.height, px(7.5));
    assert_eq!(spec.mark_style.width, px(2.0));
}

#[test]
fn clockmark_global_height_explicit_no_shrink_width_still_shrinks() {
    let doc = parse_or_panic("@step 3\n@clockmark_height 20\n@clock(pos)\nCLK");
    let spec = first_signal_clock_spec(&doc);
    assert_eq!(spec.mark_style.height, px(20.0));
    assert_eq!(spec.mark_style.width, px(2.0));
}

#[test]
fn clockmark_per_row_step_change_recomputes_shrink() {
    let doc = parse_or_panic("@step 12\n@clock(pos)\nCK1\n@step 3\n@clock(pos)\nCK2\n");
    let spec_one = match &doc.lines[0].content {
        LineContent::Signal(row) => row.decorations().clock.clone().expect("spec1"),
        other => panic!("expected signal, got {other:?}"),
    };
    let spec_two = match &doc.lines[1].content {
        LineContent::Signal(row) => row.decorations().clock.clone().expect("spec2"),
        other => panic!("expected signal, got {other:?}"),
    };
    assert_eq!(spec_one.mark_style.width, px(6.0));
    assert_eq!(spec_two.mark_style.width, px(2.0));
}

#[test]
fn clockmark_global_width_set_first_then_small_step_no_shrink() {
    let doc = parse_or_panic("@clockmark_width 8\n@step 3\n@clock(pos)\nCLK");
    let spec = first_signal_clock_spec(&doc);
    assert_eq!(spec.mark_style.width, px(8.0));
}

#[test]
fn overline_gap_negative_errors() {
    let error = parse_error("@overline_gap -1");
    assert!(
        matches!(
            error.kind(),
            ParseErrorKind::NumericNotParseable(_, _)
                | ParseErrorKind::NumericOverflow(_, _, _)
                | ParseErrorKind::NumericNotPositive(_, _)
                | ParseErrorKind::NumericNotNonNegative(_, _)
                | ParseErrorKind::InvalidTitleAlign(_)
                | ParseErrorKind::TitleRequiresArgument
                | ParseErrorKind::UnknownParameter(_)
        ),
        "expected parse error for negative overline_gap, got {error:?}"
    );
}

#[test]
fn overline_thickness_zero_errors() {
    let error = parse_error("@overline_thickness 0");
    assert!(
        matches!(
            error.kind(),
            ParseErrorKind::NumericNotParseable(_, _)
                | ParseErrorKind::NumericOverflow(_, _, _)
                | ParseErrorKind::NumericNotPositive(_, _)
                | ParseErrorKind::NumericNotNonNegative(_, _)
                | ParseErrorKind::InvalidTitleAlign(_)
                | ParseErrorKind::TitleRequiresArgument
                | ParseErrorKind::UnknownParameter(_)
        ),
        "expected parse error for zero overline_thickness, got {error:?}"
    );
}

#[test]
fn clock_empty_body_expands_to_other_signal_length() {
    let total = first_signal_total_units("@clock(pos)\nCLK\nFoo _~_~_~_~");
    assert_eq!(
        total, 8,
        "clock with empty body must expand to chart_units=8"
    );
}

#[test]
fn clock_pulse_spec_expands_to_other_signal_length() {
    let total = first_signal_total_units("@clock(neg, _=2, ~=3)\nCLK\nFoo __________");
    assert_eq!(total, 10);
}

#[test]
fn clock_partial_body_continues_to_chart_units() {
    let total = first_signal_total_units("@clock(pos)\nck ~~__\nFoo _~_~_~_~");
    assert_eq!(
        total, 8,
        "clock with partial body must expand to chart_units=8"
    );
}

#[test]
fn clock_empty_body_expands_when_only_clock_signals_present() {
    let input = "\
@clock(pos)
ClkPos  _~_~_~
@clock(neg)
ClkNeg  _~_~_~
@clock(pos, _=2, ~=1)
ClkWide
";
    let doc = parse_or_panic(input);
    let clk_wide_row = doc
        .lines
        .iter()
        .find_map(|line| match &line.content {
            LineContent::Signal(row) if row.name().as_str() == "ClkWide" => Some(row),
            _ => None,
        })
        .expect("ClkWide row must exist");
    let total: u32 = clk_wide_row
        .waveform()
        .iter()
        .filter_map(|element| match element {
            WaveformElement::Level(run) => Some(run.units()),
            _ => None,
        })
        .sum();
    assert_eq!(
        total, 6,
        "ClkWide empty body must expand to 6 (max of other clock signals with explicit waveforms)"
    );
}

#[test]
fn single_text_char_in_level_run() {
    let row = first_signal("SigA __a__");
    assert_eq!(collect_level_runs(&row), vec![(SignalLevel::Low, 4)]);
    assert_eq!(collect_waveform_text_content(&row), vec!["a"]);
}

#[test]
fn multiple_text_fragments_in_same_run_are_space_joined() {
    let row = first_signal("SigA __a__b_");
    assert_eq!(collect_level_runs(&row), vec![(SignalLevel::Low, 5)]);
    assert_eq!(collect_waveform_text_content(&row), vec!["a b"]);
}

#[test]
fn text_in_different_level_runs() {
    let row = first_signal("SigA __ack__~~done~~");
    assert_eq!(
        collect_level_runs(&row),
        vec![(SignalLevel::Low, 4), (SignalLevel::High, 4)]
    );
    assert_eq!(collect_waveform_text_content(&row), vec!["ack", "done"]);
}

#[test]
fn trailing_text_belongs_to_preceding_run() {
    let row = first_signal("SigA ~~~~~~~~かきくけこ");
    assert_eq!(collect_level_runs(&row), vec![(SignalLevel::High, 8)]);
    assert_eq!(collect_waveform_text_content(&row), vec!["かきくけこ"]);
}

#[test]
fn text_after_bus_cross_belongs_to_following_bus_run() {
    let row = first_signal("SigA ==Xa==");
    assert_eq!(
        collect_level_runs(&row),
        vec![(SignalLevel::Bus, 2), (SignalLevel::Bus, 3)]
    );
    assert_eq!(collect_waveform_text_content(&row), vec!["a"]);
    let has_buscross = row
        .waveform()
        .iter()
        .any(|element| matches!(element, WaveformElement::Transition(t) if t.kind == TransitionKind::BusCross));
    assert!(has_buscross, "expected BusCross transition");
}

#[test]
fn text_before_any_level_is_missing_initial_level() {
    let error = parse_error("SigA a__~~");
    assert!(matches!(error.kind(), ParseErrorKind::MissingInitialLevel));
}

#[test]
fn quoted_text_suppresses_bus_cross() {
    let row = first_signal("SigA ==\"X\"==");
    assert_eq!(collect_level_runs(&row), vec![(SignalLevel::Bus, 4)]);
    assert_eq!(collect_waveform_text_content(&row), vec!["X"]);
    let has_buscross = row
        .waveform()
        .iter()
        .any(|element| matches!(element, WaveformElement::Transition(t) if t.kind == TransitionKind::BusCross));
    assert!(!has_buscross, "BusCross must not appear when X is quoted");
}

#[test]
fn quoted_text_with_space() {
    let row = first_signal("SigA __\"hello world\"__");
    assert_eq!(collect_level_runs(&row), vec![(SignalLevel::Low, 4)]);
    assert_eq!(collect_waveform_text_content(&row), vec!["hello world"]);
}

#[test]
fn quoted_text_with_level_chars_literal() {
    let row = first_signal("SigA __\"_~=\"__");
    assert_eq!(collect_level_runs(&row), vec![(SignalLevel::Low, 4)]);
    assert_eq!(collect_waveform_text_content(&row), vec!["_~="]);
}

#[test]
fn quoted_text_with_special_chars_literal() {
    let row = first_signal("SigA __\"[@|]\"__");
    assert_eq!(collect_level_runs(&row), vec![(SignalLevel::Low, 4)]);
    assert_eq!(collect_waveform_text_content(&row), vec!["[@|]"]);
}

#[test]
fn bare_and_quoted_mixed_are_space_joined() {
    let row = first_signal("SigA __a\"b c\"d__");
    assert_eq!(collect_level_runs(&row), vec![(SignalLevel::Low, 4)]);
    assert_eq!(collect_waveform_text_content(&row), vec!["a b c d"]);
}

#[test]
fn multiple_quoted_texts_in_same_run_are_merged() {
    let row = first_signal("SigA ==\"a\"==\"b\"==");
    assert_eq!(collect_level_runs(&row), vec![(SignalLevel::Bus, 6)]);
    assert_eq!(collect_waveform_text_content(&row), vec!["a b"]);
}

#[test]
fn unclosed_quote_in_level_string_errors() {
    let error = parse_error("SigA __\"hello__");
    assert!(matches!(error.kind(), ParseErrorKind::UnclosedQuote));
}

#[test]
fn clock_eq_spaces_are_tolerated() {
    let normal = parse_or_panic("@clock(neg, _=2, ~=3)\nCLK");
    let with_spaces = parse_or_panic("@clock(neg , _ = 2 , ~ =3)\nCLK");
    let normal_spec = first_signal_clock_spec(&normal);
    let spaces_spec = first_signal_clock_spec(&with_spaces);
    assert_eq!(normal_spec, spaces_spec);
}

#[test]
fn arrow_head_eq_spaces_are_tolerated() {
    let doc = parse_or_panic("SigA @{a}__\nSigB @{b}__\n@-> (@{a}, @{b}, head = both)");
    let arrow = &doc.annotations.arrows[0];
    assert_eq!(arrow.style.head, ArrowHead::BothEnds);
}

#[test]
fn text_on_both_sides_of_buscross_stays_separate() {
    let row = first_signal("SigA =<A>====X<B>====");
    let texts: Vec<&str> = row
        .waveform()
        .iter()
        .filter_map(|element| match element {
            WaveformElement::Text(text) => Some(text.as_str()),
            _ => None,
        })
        .collect();
    assert_eq!(
        texts.len(),
        2,
        "expected 2 Text elements (one per region), got {}: {:?}",
        texts.len(),
        texts
    );
    assert!(
        texts[0].contains('A'),
        "first Text must contain 'A', got {:?}",
        texts[0]
    );
    assert!(
        texts[1].contains('B'),
        "second Text must contain 'B', got {:?}",
        texts[1]
    );
}

#[test]
fn text_on_dontcare_after_buscross_is_not_lost() {
    let row = first_signal("SigA ==X<C>?<D>==");
    let texts: Vec<&str> = row
        .waveform()
        .iter()
        .filter_map(|element| match element {
            WaveformElement::Text(text) => Some(text.as_str()),
            _ => None,
        })
        .collect();
    assert!(
        !texts.is_empty(),
        "expected at least one Text element, got none"
    );
    let joined = texts.join(" ");
    assert!(
        joined.contains('C'),
        "Text output must include '<C>', got {:?}",
        texts
    );
    assert!(
        joined.contains('D'),
        "Text output must include '<D>' (must not be discarded), got {:?}",
        texts
    );
}

#[test]
fn comment_with_trailing_whitespace_is_ignored() {
    let doc = parse_or_panic("// foo   \n");
    assert!(doc.lines.is_empty());
}

#[test]
fn parameter_with_trailing_whitespace_is_accepted() {
    parse_or_panic("@step 10   \n");
}

#[test]
fn signal_name_separated_by_multiple_spaces() {
    let row = first_signal("Clock     _~_~");
    assert_eq!(row.name().as_str(), "Clock");
}

#[test]
fn parameter_step_uppercase_accepted() {
    parse_or_panic("@STEP 10\nSig _\n");
}

#[test]
fn parameter_step_titlecase_accepted() {
    parse_or_panic("@Step 10\nSig _\n");
}

#[test]
fn parameter_signal_color_underscore_and_hyphen_equivalent() {
    let underscore = parse_or_panic("@signal_color red\nSig _\n");
    let hyphen = parse_or_panic("@signal-color red\nSig _\n");
    assert_eq!(count_signal_lines(&underscore), count_signal_lines(&hyphen));
}

#[test]
fn clockmark_height_can_be_redeclared_per_signal() {
    parse_or_panic("@clockmark_height 5\n@clock(pos) ck1\n@clockmark_height 8\n@clock(pos) ck2\n");
}

#[test]
fn clock_attribute_keys_are_case_and_dash_insensitive() {
    parse_or_panic("@clock(POS, MARK_COLOR=red, MARK-HEIGHT=4) ck\n");
}

#[test]
fn duplicate_bg_keeps_last_value() {
    let doc = parse_or_panic("@bg #f0f\n@bg #0f0\nA _\n");
    let line = doc
        .lines
        .iter()
        .find(|line| matches!(line.content, LineContent::Signal(_)))
        .expect("signal");
    assert!(
        line.background.is_some(),
        "background must be applied to the next signal"
    );
}

#[test]
fn bgcolor0_accepts_hex_with_alpha() {
    parse_or_panic("@bgcolor0 #ff8800ff\nA _\n");
}

#[test]
fn bgcolor0_accepts_none_keyword() {
    parse_or_panic("@bgcolor0 none\nA _\n");
}

#[test]
fn bgcolor1_alone_is_accepted() {
    parse_or_panic("@bgcolor1 #eee\nA _\n");
}

#[test]
fn scale_global_parameter_accepted() {
    parse_or_panic("@scale 2.0\nA _\n");
}

#[test]
fn page_margin_zero_accepted() {
    parse_or_panic("@page-margin 0\nA _\n");
}

#[test]
fn step_zero_is_rejected() {
    parse_error("@step 0\nA _\n");
}

#[test]
fn step_negative_is_rejected() {
    parse_error("@step -5\nA _\n");
}

#[test]
fn slant_negative_is_rejected() {
    parse_error("@slant -1\nA _\n");
}

#[test]
fn slant_zero_is_accepted() {
    parse_or_panic("@slant 0\nA _\n");
}

#[test]
fn step_equal_to_slant_is_rejected() {
    let error = parse_error("@step 2\n@slant 2\nA _\n");
    assert!(matches!(
        error.kind(),
        ParseErrorKind::InvalidStepSlant(_, _)
    ));
}

#[test]
fn h_space_negative_is_rejected() {
    parse_error("@h_space -1\nA _\n");
}

#[test]
fn fontsize_zero_is_rejected() {
    parse_error("@fontsize 0\nA _\n");
}

#[test]
fn lineheight_zero_is_rejected() {
    parse_error("@lineheight 0\nA _\n");
}

#[test]
fn title_with_empty_quoted_string_is_accepted() {
    parse_or_panic("@title \"\"\n");
}

#[test]
fn title_without_argument_is_rejected() {
    parse_error("@title\n");
}

#[test]
fn skip_without_argument_is_rejected() {
    let error = parse_error("@skip\n");
    assert!(matches!(
        error.kind(),
        ParseErrorKind::InvalidSkipAmount(_) | ParseErrorKind::InvalidSkipSyntax
    ));
}

#[test]
fn skip_with_empty_parens_is_rejected() {
    parse_error("@skip()\n");
}

#[test]
fn skip_with_lh_unit_suffix() {
    let _ = parse("@skip(1lh)\n");
}

#[test]
fn skip_with_uppercase_px_unit() {
    parse_or_panic("@skip(2PX)\n");
}

#[test]
fn signal_directive_before_title_is_carried_over_or_dropped() {
    let _ = parse("@signal(overline)\n@title \"X\"\nSig _\n");
}

#[test]
fn signal_directive_repeated_idempotent_or_error() {
    let _ = parse("@signal(overline)\n@signal(overline)\nSig _\n");
}

#[test]
fn clock_pulse_low_zero_is_rejected() {
    parse_error("@clock(pos, _=0, ~=1) ck\n");
}

#[test]
fn clock_pulse_high_floating_point_is_rejected() {
    parse_error("@clock(pos, ~=2.5) ck\n");
}

#[test]
fn clock_mark_position_out_of_range_is_rejected() {
    parse_error("@clock(pos, mark_position=1.5) ck\n");
}

#[test]
fn clock_mark_height_negative_is_rejected() {
    parse_error("@clock(pos, mark_height=-1) ck\n");
}

#[test]
fn clock_start_high_phase_accepted() {
    parse_or_panic("@clock(pos, start=high) ck\nA ___\n");
}

#[test]
fn clock_edge_uppercase_accepted() {
    parse_or_panic("@clock(POS) ck\nA _\n");
}

#[test]
fn clock_edge_titlecase_accepted() {
    parse_or_panic("@clock(Pos) ck\nA _\n");
}

#[test]
fn clock_duplicate_attribute_is_rejected() {
    let error = parse_error("@clock(pos, _=2, _=3) ck\n");
    assert!(matches!(
        error.kind(),
        ParseErrorKind::ClockInvalidAttribute(_)
            | ParseErrorKind::NumericNotParseable(_, _)
            | ParseErrorKind::NumericOverflow(_, _, _)
            | ParseErrorKind::NumericNotPositive(_, _)
            | ParseErrorKind::NumericNotNonNegative(_, _)
            | ParseErrorKind::InvalidTitleAlign(_)
            | ParseErrorKind::TitleRequiresArgument
            | ParseErrorKind::UnknownParameter(_)
    ));
}

#[test]
fn clock_unknown_attribute_is_rejected() {
    parse_error("@clock(pos, foo=1) ck\n");
}

#[test]
fn clock_invalid_attribute_reports_offending_token_location() {
    let error = parse_error("@clock(_=3,~3)\nck\n");
    assert_eq!(error.line(), 1);
    assert_eq!(
        error.column(),
        12,
        "column must point at the offending token"
    );
    assert_eq!(error.length(), 2, "length must cover the offending token");
    let rendered = error.message();
    assert!(
        rendered.contains("~3"),
        "error message must include the offending attribute text, got: {rendered}"
    );
}

#[test]
fn signal_unknown_attribute_reports_offending_token() {
    let error = parse_error("@signal(unknownkey)\nSig _\n");
    assert_eq!(error.line(), 1);
    assert_eq!(error.column(), 9);
    assert_eq!(error.length(), 10);
    let rendered = error.message();
    assert!(
        rendered.contains("unknownkey"),
        "message must include the offending attribute, got: {rendered}"
    );
}

#[test]
fn signal_second_unknown_attribute_pinpoints_second_token() {
    let error = parse_error("@signal(overline, foo)\nSig _\n");
    assert_eq!(error.column(), 19);
    assert_eq!(error.length(), 3);
    assert!(error.message().contains("foo"));
}

#[test]
fn signal_duplicate_overline_pinpoints_second_token() {
    let error = parse_error("@signal(overline, overline)\nSig _\n");
    assert_eq!(error.column(), 19);
    assert_eq!(error.length(), 8);
    assert!(error.message().contains("overline"));
}

#[test]
fn invalid_level_char_reports_length_one() {
    let error = parse_error("Sig _\x01_\n");
    assert!(matches!(error.kind(), ParseErrorKind::InvalidLevelChar(_)));
    assert_eq!(error.column(), 6);
    assert_eq!(error.length(), 1);
}

#[test]
fn missing_initial_level_reports_length_one() {
    let error = parse_error("Sig abc\n");
    assert!(matches!(error.kind(), ParseErrorKind::MissingInitialLevel));
    assert_eq!(error.column(), 5);
    assert_eq!(error.length(), 1);
}

#[test]
fn unopened_highlight_end_reports_length_one() {
    let error = parse_error("Sig _~]_\n");
    assert!(matches!(error.kind(), ParseErrorKind::UnopenedHighlightEnd));
    assert_eq!(error.column(), 7);
    assert_eq!(error.length(), 1);
}

#[test]
fn overline_with_argument_pinpoints_offending_tail() {
    let error = parse_error("@overline foo\nSig _\n");
    assert!(matches!(
        error.kind(),
        ParseErrorKind::InvalidOverlineSyntax(_)
    ));
    assert_eq!(error.column(), 11);
    assert_eq!(error.length(), 3);
    let msg = error.message();
    assert!(
        msg.contains("foo"),
        "message should include offending text: {msg}"
    );
}

#[test]
fn title_with_control_character_points_at_offending_char() {
    let error = parse_error("@title \"abc\x01def\"\n");
    assert!(matches!(
        error.kind(),
        ParseErrorKind::InvalidText(TextError::ForbiddenControlChar { char_offset: 3 })
    ));
    assert_eq!(error.line(), 1);
    assert_eq!(error.column(), 12);
    assert_eq!(error.length(), 1);
}

#[test]
fn invalid_anchor_name_points_at_offending_char_inside_braces() {
    let error = parse_error("Sig _@{abc!def}_\n");
    assert!(matches!(error.kind(), ParseErrorKind::InvalidAnchorName(_)));
    assert_eq!(error.column(), 11);
    assert_eq!(error.length(), 1);
}

#[test]
fn signal_name_with_control_character_points_at_offending_char() {
    let error = parse_error("Sig\x01 _~\n");
    assert!(matches!(
        error.kind(),
        ParseErrorKind::InvalidName(NameError::ForbiddenControlChar { char_offset: 3 })
    ));
    assert_eq!(error.line(), 1);
    assert_eq!(error.length(), 1);
}

#[test]
fn unclosed_highlight_points_at_opening_bracket() {
    let error = parse_error("Sig _[~_\n");
    assert!(matches!(error.kind(), ParseErrorKind::UnclosedHighlight));
    assert_eq!(error.column(), 6);
    assert_eq!(error.length(), 1);
}

#[test]
fn invalid_step_slant_includes_both_values_in_message() {
    let error = parse_error("@step 5\n@slant 10\nSig _\n");
    assert!(matches!(
        error.kind(),
        ParseErrorKind::InvalidStepSlant(_, _)
    ));
    let msg = error.message();
    assert!(msg.contains("5"), "msg should include step value 5: {msg}");
    assert!(
        msg.contains("10"),
        "msg should include slant value 10: {msg}"
    );
}

#[test]
fn arrow_missing_parens_reports_invalid_syntax_with_length() {
    let error = parse_error("Sig _@{a}~@{b}_\n@-> @{a}, @{b}\n");
    assert!(matches!(error.kind(), ParseErrorKind::InvalidArrowSyntax));
    assert_eq!(error.line(), 2);
    assert!(
        error.length() >= 1,
        "length must be > 0; got {}",
        error.length()
    );
}

#[test]
fn skip_amount_non_numeric_pinpoints_value() {
    let error = parse_error("@skip(abc)\nSig _\n");
    assert!(matches!(error.kind(), ParseErrorKind::InvalidSkipAmount(_)));
    assert_eq!(error.column(), 7);
    assert_eq!(error.length(), 3);
    let msg = error.message();
    assert!(
        msg.contains("abc"),
        "message should quote bad amount: {msg}"
    );
}

#[test]
fn skip_amount_negative_pinpoints_value() {
    let error = parse_error("@skip(-3)\nSig _\n");
    assert_eq!(error.column(), 7);
    assert_eq!(error.length(), 2);
    let msg = error.message();
    assert!(msg.contains("-3"));
}

#[test]
fn overlay_invalid_x_pinpoints_token() {
    let error = parse_error("% abc 2 text\n");
    assert!(matches!(
        error.kind(),
        ParseErrorKind::InvalidOverlayCoordinate(_)
    ));
    assert_eq!(error.column(), 3);
    assert_eq!(error.length(), 3);
    let msg = error.message();
    assert!(msg.contains("abc"));
}

#[test]
fn overlay_invalid_y_pinpoints_token() {
    let error = parse_error("% 1 abc text\n");
    assert_eq!(error.column(), 5);
    assert_eq!(error.length(), 3);
}

#[test]
fn undefined_anchor_message_includes_anchor_name() {
    let error = parse_error("Sig _~_\n@-> (@{undef}, @{x})\nSig2 _@{x}_\n");
    assert!(matches!(error.kind(), ParseErrorKind::UndefinedAnchor(_)));
    let msg = error.message();
    assert!(
        msg.contains("{undef}") || msg.contains("\"undef\"") || msg.contains("'undef'"),
        "message must mention the anchor: {msg}"
    );
}

#[test]
fn clock_missing_closing_paren_underlines_full_remainder() {
    let error = parse_error("@clock(_=3,~3\nClock\n");
    assert!(matches!(
        error.kind(),
        ParseErrorKind::ClockInvalidAttribute(_)
    ));
    assert_eq!(error.line(), 1);
    assert_eq!(error.column(), 7);
    assert_eq!(error.length(), 7);
}

#[test]
fn arrow_unknown_attribute_pinpoints_offending_token() {
    let error = parse_error("Sig _@{a}~@{b}_\n@-> (@{a}, @{b}, foo=bar)\n");
    assert_eq!(error.line(), 2);
    assert_eq!(error.column(), 18);
    assert_eq!(error.length(), 7);
    let msg = error.message();
    assert!(
        msg.contains("foo"),
        "msg should mention bad attribute: {msg}"
    );
}

#[test]
fn arrow_duplicate_attribute_pinpoints_second_token() {
    let error = parse_error("Sig _@{a}~@{b}_\n@-> (@{a}, @{b}, color=red, color=blue)\n");
    assert_eq!(error.line(), 2);
    assert_eq!(error.column(), 29);
    assert_eq!(error.length(), 10);
    let msg = error.message();
    assert!(msg.contains("color"));
}

#[test]
fn duplicate_anchor_pinpoints_second_definition() {
    let error = parse_error("Sig _@{a}~@{a}_\n");
    assert!(matches!(error.kind(), ParseErrorKind::DuplicateAnchor));
    assert_eq!(error.column(), 11);
    assert_eq!(error.length(), 4);
    let msg = error.message();
    assert!(
        msg.contains("a"),
        "message should include anchor name: {msg}"
    );
}

#[test]
fn undefined_anchor_pinpoints_reference() {
    let error = parse_error("Sig _~_\n@-> (@{undef}, @{x})\nSig2 _@{x}_\n");
    assert!(matches!(error.kind(), ParseErrorKind::UndefinedAnchor(_)));
    assert_eq!(error.line(), 2);
    let msg = error.message();
    assert!(msg.contains("undef"), "message should include name: {msg}");
}

#[test]
fn clock_unknown_key_reports_offending_token_location() {
    let error = parse_error("@clock(pos, foo=1)\nck\n");
    assert_eq!(error.line(), 1);
    assert_eq!(error.column(), 13);
    assert_eq!(error.length(), 5, "covers `foo=1`");
    let rendered = error.message();
    assert!(rendered.contains("foo"));
}

#[test]
fn arrow_invalid_head_keyword_is_rejected() {
    parse_error("@-> (@{a}, @{b}, head=middle)\n");
}

#[test]
fn arrow_solid_keyword_accepted() {
    parse_or_panic("Sig _~@{a}_\n@-> (@{a}, @{a}, solid)\n");
}

#[test]
fn arrow_width_without_unit_accepted() {
    parse_or_panic("Sig _~@{a}_\n@-> (@{a}, @{a}, 1.5)\n");
}

#[test]
fn arrow_width_fractional_px_accepted() {
    parse_or_panic("Sig _~@{a}_\n@-> (@{a}, @{a}, 0.5px)\n");
}

#[test]
fn arrow_width_zero_behaviour_is_deterministic() {
    let _ = parse("Sig _~@{a}_\n@-> (@{a}, @{a}, 0px)\n");
}

#[test]
fn arrow_duplicate_color_is_rejected() {
    let error = parse_error("Sig _~@{a}_\n@-> (@{a}, @{a}, red, #f00)\n");
    assert!(matches!(
        error.kind(),
        ParseErrorKind::DuplicateArrowAttribute(_)
    ));
}

#[test]
fn arrow_duplicate_line_style_is_rejected() {
    let error = parse_error("Sig _~@{a}_\n@-> (@{a}, @{a}, dashed, dotted)\n");
    assert!(matches!(
        error.kind(),
        ParseErrorKind::DuplicateArrowAttribute(_)
    ));
}

#[test]
fn arrow_label_with_comma_keeps_full_text() {
    parse_or_panic("Sig _~@{a}_\n@-> (@{a}, @{a}) hello, world\n");
}

#[test]
fn arrow_with_extra_whitespace_inside_parens() {
    parse_or_panic("Sig _~@{a}_\n@-> (   @{a}   ,   @{a}   ,   red   )\n");
}

#[test]
fn unused_anchor_does_not_cause_error() {
    parse_or_panic("Sig _~@{a}_~@{b}_~@{unused}_\n@-> (@{a}, @{b})\n");
}

#[test]
fn dontcare_color_none_is_deterministic() {
    let _ = parse("@dontcare_color none\nSig _?_\n");
}

#[test]
fn highlight_style_disallowed_attr_handled() {
    let _ = parse("@highlight_style onmouseover=\"alert(1)\"\nSig _[__]_\n");
}

#[test]
fn highlight_style_value_with_inner_spaces() {
    parse_or_panic("@highlight_style fill=\"rgb(255, 128, 0)\"\nSig _[__]_\n");
}

#[test]
fn anchor_name_starting_with_underscore_accepted() {
    parse_or_panic("Sig _~@{_under_score}_\n");
}

#[test]
fn anchor_name_with_hyphen_accepted() {
    parse_or_panic("Sig _~@{a-b-c}_\n");
}

#[test]
fn anchor_number_large_value_accepted() {
    parse_or_panic("Sig _~@99999\nT _~@1\n@-> (@99999, @1)\n");
}

#[test]
fn signal_name_utf8_multibyte_accepted() {
    let row = first_signal("クロック _~_~");
    assert_eq!(row.name().as_str(), "クロック");
}

#[test]
fn unquoted_signal_name_with_space_treats_first_token_as_name() {
    let error = parse_error("Clock A _~_~\n");
    assert!(matches!(
        error.kind(),
        ParseErrorKind::MissingInitialLevel | ParseErrorKind::InvalidLevelChar(_)
    ));
}

#[test]
fn quoted_signal_name_with_literal_tab_is_rejected() {
    parse_error("\"a\tb\" _~\n");
}

#[test]
fn quoted_signal_name_with_unknown_escape_is_deterministic() {
    let _ = parse("\"a\\xb\" _~\n");
}

#[test]
fn newlines_only_file_is_empty_document() {
    let doc = parse_or_panic("\n\n\n");
    assert!(doc.lines.is_empty());
}

#[test]
fn bom_at_file_start_is_tolerated() {
    parse_or_panic("\u{FEFF}// header\n");
}

#[test]
fn crlf_line_endings_are_treated_as_lf() {
    parse_or_panic("// header\r\nSig _~\r\n");
}

#[test]
fn tab_indentation_handling_is_deterministic() {
    let _ = parse("\tClock _~_~\n");
}

#[test]
fn per_row_step_with_clock_auto_expansion() {
    parse_or_panic("@step 10\n@clock(pos) ck\n@step 20\nData ____\n");
}

#[test]
fn per_row_step_with_dontcare_resolution() {
    parse_or_panic("@step 10\nA _?_\n@step 20\nB _?_\n");
}

#[test]
fn per_row_step_with_anchor_position() {
    parse_or_panic("@step 10\nA ___@1__\n@step 20\nB ___@2__\n");
}

#[test]
fn per_row_step_with_arrow_label_midpoint() {
    parse_or_panic("@step 10\nA _~@{a}_\n@step 20\nB _~@{b}_\n@-> (@{a}, @{b})\n");
}

#[test]
fn per_row_step_with_overlay_row_uses_absolute_x() {
    parse_or_panic("@step 10\nA _~\n% 100 50 mark\n@step 20\nB ____\n");
}

#[test]
fn per_row_step_with_signal_overline() {
    parse_or_panic("@step 10\nA _~\n@step 20\n@signal(overline) NReset _~_~\n");
}

#[test]
fn per_row_slant_with_dontcare() {
    parse_or_panic("@slant 0\nA _?=\n@slant 4\nB _?=\n");
}

#[test]
fn per_row_slant_with_following_clock_pos() {
    parse_or_panic("@slant 0\nA _~\n@slant 4\n@clock(pos) ck\nT __\n");
}

#[test]
fn clock_auto_with_pulse_widths_and_step_change() {
    parse_or_panic("@step 10\n@clock(pos, _=2, ~=2) ck\nT ________\n");
}

#[test]
fn clock_empty_body_cannot_carry_anchor() {
    parse_or_panic("@clock(pos) ck\nA _~@{x}_\n@-> (@{x}, @{x})\n");
}

#[test]
fn clock_body_partial_with_anchor_inside() {
    parse_or_panic("@clock(pos) ck _~@{rise}__\n");
}

#[test]
fn duplicate_named_anchor_across_signals_is_rejected() {
    let error = parse_error("A _~@{a}_\nB _~@{a}_\n");
    assert!(matches!(error.kind(), ParseErrorKind::DuplicateAnchor));
}

#[test]
fn duplicate_numbered_anchor_across_signals_is_rejected() {
    let error = parse_error("A _~@1_\nB _~@1_\n");
    assert!(matches!(error.kind(), ParseErrorKind::DuplicateAnchor));
}

#[test]
fn numbered_anchors_can_have_gaps() {
    parse_or_panic("A _~@1_~@5_\n");
}

#[test]
fn numeric_named_and_numbered_anchors_are_distinct() {
    parse_or_panic("A _~@{1}__@1\n@-> (@{1}, @1)\n");
}

#[test]
fn multi_line_signal_name_with_anchor_in_body() {
    parse_or_panic("\"Sig\\nA\" _~@{a}_~\n");
}

#[test]
fn multi_line_signal_name_with_overline() {
    parse_or_panic("@signal(overline) \"short\\nveryLongLine\" _~\n");
}

#[test]
fn whitespace_only_line_is_ignored() {
    let doc = parse_or_panic("   \n");
    assert!(doc.lines.is_empty());
}

#[test]
fn hash_character_inside_signal_name_is_literal() {
    let row = first_signal("Sig#A _~_~");
    assert!(row.name().as_str().contains('#'));
}

#[test]
fn hash_in_waveform_is_bare_text_char() {
    let row = first_signal("Sig _~_~#tail\n");
    let texts: Vec<&str> = row
        .waveform()
        .iter()
        .filter_map(|element| match element {
            WaveformElement::Text(text) => Some(text.as_str()),
            _ => None,
        })
        .collect();
    assert!(
        texts.iter().any(|text| text.contains('#')),
        "expected `#` to appear as a text fragment, got {texts:?}"
    );
}

#[test]
fn slash_slash_on_directive_is_treated_as_line_end_comment() {
    let doc = parse_or_panic("@step 10 // unit\nSig _~_~\n");
    let signal = doc
        .lines
        .iter()
        .find_map(|line| match &line.content {
            LineContent::Signal(row) => Some(row),
            _ => None,
        })
        .expect("signal row expected");
    assert_eq!(signal.layout_params().step(), px(10.0));
}

#[test]
fn slash_slash_in_waveform_terminates_level_string() {
    let row = first_signal("Sig _~_~ // trailing\n");
    let kinds: Vec<&str> = row
        .waveform()
        .iter()
        .map(|element| match element {
            WaveformElement::Level(_) => "L",
            WaveformElement::Transition(_) => "T",
            WaveformElement::Text(_) => "X",
            _ => "?",
        })
        .collect();
    assert!(
        !kinds.contains(&"X"),
        "no text element expected, got {kinds:?}"
    );
}

#[test]
fn single_slash_in_waveform_is_bare_text() {
    let row = first_signal("Sig _/_\n");
    let texts: Vec<&str> = row
        .waveform()
        .iter()
        .filter_map(|element| match element {
            WaveformElement::Text(text) => Some(text.as_str()),
            _ => None,
        })
        .collect();
    assert!(
        texts.iter().any(|text| text.contains('/')),
        "expected `/` to be retained as text, got {texts:?}"
    );
}

#[test]
fn slash_slash_inside_quoted_text_is_literal() {
    let row = first_signal("Sig __\"// note\"__\n");
    let texts: Vec<&str> = row
        .waveform()
        .iter()
        .filter_map(|element| match element {
            WaveformElement::Text(text) => Some(text.as_str()),
            _ => None,
        })
        .collect();
    assert!(
        texts.iter().any(|text| text.contains("// note")),
        "expected literal `// note` inside quotes, got {texts:?}"
    );
}

#[test]
fn slash_slash_on_overlay_line_is_treated_as_line_end_comment() {
    let doc = parse_or_panic("Sig _~\n%5 5 hello // junk\n");
    let overlays = &doc.annotations.overlays;
    assert_eq!(overlays.len(), 1);
    assert_eq!(overlays[0].text.as_str(), "hello");
}

#[test]
fn slash_slash_multiple_occurrences_drop_to_first() {
    let row = first_signal("A _~_~ // foo // bar\n");
    let kinds: Vec<&str> = row
        .waveform()
        .iter()
        .map(|element| match element {
            WaveformElement::Text(_) => "X",
            _ => "_",
        })
        .collect();
    assert!(!kinds.contains(&"X"), "no text expected, got {kinds:?}");
}

#[test]
fn slash_slash_on_blank_line_is_skip() {
    let doc = parse_or_panic("// just a comment\n");
    assert!(doc.lines.is_empty());
}

#[test]
fn single_slash_at_start_of_directive_is_not_a_comment() {
    let doc = parse_or_panic("@title /path/to/file\n");
    let title_text: Option<String> = doc.lines.iter().find_map(|line| match &line.content {
        LineContent::Title(title) => Some(title.text.as_str().to_owned()),
        _ => None,
    });
    assert_eq!(title_text.as_deref(), Some("/path/to/file"));
}

#[test]
fn unclosed_quote_in_waveform_preempts_slash_slash() {
    let error = parse_error("SigA __\"hello // world__\n");
    assert!(matches!(error.kind(), ParseErrorKind::UnclosedQuote));
}

#[test]
fn arrow_endpoints_mixing_named_and_numbered() {
    parse_or_panic("A _~@1__@{end}\n@-> (@1, @{end})\n");
}

#[test]
fn arrow_with_same_endpoint_on_both_sides() {
    parse_or_panic("A _~@{a}_\n@-> (@{a}, @{a})\n");
}

#[test]
fn many_arrows_have_no_upper_limit_in_parser() {
    let mut source = String::from("A _~");
    for index in 1..=200 {
        source.push_str(&format!("@{index}_"));
    }
    source.push('\n');
    for index in 1..100 {
        source.push_str(&format!("@-> (@{index}, @{}_)\n", index + 1));
    }
    let _ = parse(&source);
}

#[test]
fn bg_applies_to_clock_pos_signal() {
    let doc = parse_or_panic("@bg #f0f\n@clock(pos) ck\nT _\n");
    let clock_signal = doc
        .lines
        .iter()
        .find(|line| matches!(line.content, LineContent::Signal(_)))
        .expect("signal");
    assert!(
        clock_signal.background.is_some(),
        "@bg must be applied to the very next signal row, including a clock row"
    );
}

#[test]
fn bg_combines_with_signal_overline() {
    let doc = parse_or_panic("@bg #f0f\n@signal(overline) nReset _~__\n");
    let row = nth_signal(&doc, 0);
    assert!(row.decorations().is_name_overline());
}

#[test]
fn bgcolor_index_counts_only_signal_rows_for_bg_targets() {
    parse_or_panic("A _\n@bg #f0f\nB _\nC _\n");
}

#[test]
fn title_row_does_not_consume_bgcolor_stripe_index() {
    let doc = parse_or_panic("A _\n@title \"mid\"\nB _\n");
    assert_eq!(count_signal_lines(&doc), 2);
}

#[test]
fn multiple_errors_on_one_line_iter1_first_only() {
    let error = parse_error("@bg notacolor @titlealign sideways\n");
    assert!(matches!(
        error.kind(),
        ParseErrorKind::InvalidColor(_)
            | ParseErrorKind::NumericNotParseable(_, _)
            | ParseErrorKind::NumericOverflow(_, _, _)
            | ParseErrorKind::NumericNotPositive(_, _)
            | ParseErrorKind::NumericNotNonNegative(_, _)
            | ParseErrorKind::InvalidTitleAlign(_)
            | ParseErrorKind::TitleRequiresArgument
    ));
}

#[test]
fn dontcare_color_invalid_followed_by_valid_signal_iter1() {
    let error = parse_error("@dontcare_color zonk\nA _~\n");
    assert!(matches!(
        error.kind(),
        ParseErrorKind::InvalidColor(_)
            | ParseErrorKind::NumericNotParseable(_, _)
            | ParseErrorKind::NumericOverflow(_, _, _)
            | ParseErrorKind::NumericNotPositive(_, _)
            | ParseErrorKind::NumericNotNonNegative(_, _)
            | ParseErrorKind::InvalidTitleAlign(_)
            | ParseErrorKind::TitleRequiresArgument
    ));
    assert_eq!(
        error.line(),
        1,
        "first error must be reported on the @dontcare_color line"
    );
}

#[test]
fn multiple_unknown_anchor_arrows_iter1_first_error_only() {
    let error = parse_error("@-> (@{a}, @{b})\n@-> (@{c}, @{d})\n");
    assert!(matches!(
        error.kind(),
        ParseErrorKind::UndefinedAnchor(_)
            | ParseErrorKind::NumericNotParseable(_, _)
            | ParseErrorKind::NumericOverflow(_, _, _)
            | ParseErrorKind::NumericNotPositive(_, _)
            | ParseErrorKind::NumericNotNonNegative(_, _)
            | ParseErrorKind::InvalidTitleAlign(_)
            | ParseErrorKind::TitleRequiresArgument
    ));
}

#[test]
fn parse_error_followed_by_valid_global_param_iter1() {
    let error = parse_error("@scale notnum\n@scale 2.0\nA _~\n");
    assert!(matches!(
        error.kind(),
        ParseErrorKind::InvalidLength(_)
            | ParseErrorKind::NumericNotParseable(_, _)
            | ParseErrorKind::NumericOverflow(_, _, _)
            | ParseErrorKind::NumericNotPositive(_, _)
            | ParseErrorKind::NumericNotNonNegative(_, _)
            | ParseErrorKind::InvalidTitleAlign(_)
            | ParseErrorKind::TitleRequiresArgument
    ));
    assert_eq!(
        error.line(),
        1,
        "the first @scale line is the failing one and must be reported"
    );
}

#[test]
fn errors_with_blank_and_comment_lines_in_between_iter1() {
    let error = parse_error("@bg ???\n@step xyz\n# comment\n\nA _\n");
    assert!(matches!(
        error.kind(),
        ParseErrorKind::InvalidColor(_)
            | ParseErrorKind::InvalidLength(_)
            | ParseErrorKind::NumericNotParseable(_, _)
            | ParseErrorKind::NumericOverflow(_, _, _)
            | ParseErrorKind::NumericNotPositive(_, _)
            | ParseErrorKind::NumericNotNonNegative(_, _)
            | ParseErrorKind::InvalidTitleAlign(_)
            | ParseErrorKind::TitleRequiresArgument
    ));
}

#[test]
fn duplicate_signal_attribute_iter1_first_error() {
    let result = parse("@signal(overline, overline) Sig _~\n");
    assert!(
        result.is_err(),
        "duplicate signal attribute must produce an error"
    );
}

#[test]
fn parse_error_returns_error_not_partial_document_iter1() {
    let outcome = parse("@bg invalid\nA _\n");
    assert!(outcome.is_err(), "current API aborts on first error");
}

#[test]
fn numeric_overflow_step_iter1() {
    let error = parse_error("@step 99999999999999999\nA _\n");
    assert!(matches!(
        error.kind(),
        ParseErrorKind::InvalidLength(_)
            | ParseErrorKind::NumericNotParseable(_, _)
            | ParseErrorKind::NumericOverflow(_, _, _)
            | ParseErrorKind::NumericNotPositive(_, _)
            | ParseErrorKind::NumericNotNonNegative(_, _)
            | ParseErrorKind::InvalidTitleAlign(_)
            | ParseErrorKind::TitleRequiresArgument
    ));
}

#[test]
fn invalid_arrow_head_iter1_aborts_pipeline() {
    let error = parse_error("@-> (@{a}, @{b}, head=foo)\n@-> (@{a}, @{b})\n");
    assert!(matches!(
        error.kind(),
        ParseErrorKind::UndefinedAnchor(_)
            | ParseErrorKind::UnknownArrowAttribute(_)
            | ParseErrorKind::DuplicateArrowAttribute(_)
            | ParseErrorKind::InvalidArrowSyntax
            | ParseErrorKind::NumericNotParseable(_, _)
            | ParseErrorKind::NumericOverflow(_, _, _)
            | ParseErrorKind::NumericNotPositive(_, _)
            | ParseErrorKind::NumericNotNonNegative(_, _)
            | ParseErrorKind::InvalidTitleAlign(_)
            | ParseErrorKind::TitleRequiresArgument
    ));
}

#[test]
fn first_error_location_is_lowest_line_number_iter1() {
    let error = parse_error("A _\nB _\n@bg invalid\nC _\n");
    assert_eq!(
        error.line(),
        3,
        "first error must be reported on the @bg line (line 3); got {error:?}"
    );
}

#[test]
fn empty_zero_byte_input_iter1() {
    let doc = parse_or_panic("");
    assert!(doc.lines.is_empty(), "empty input must produce zero lines");
    assert!(
        doc.annotations.anchors.is_empty(),
        "empty input must produce zero anchors"
    );
    assert!(
        doc.annotations.arrows.is_empty(),
        "empty input must produce zero arrows"
    );
    assert!(
        doc.annotations.overlays.is_empty(),
        "empty input must produce zero overlays"
    );
}

#[test]
fn title_only_zero_signal_file_iter1() {
    let doc = parse_or_panic("@title \"T\"\n");
    assert_eq!(count_signal_lines(&doc), 0);
    assert!(!doc.lines.is_empty());
}

#[test]
fn scale_zero_is_rejected_iter1() {
    let error = parse_error("@scale 0\nA _\n");
    assert!(matches!(
        error.kind(),
        ParseErrorKind::InvalidLength(_)
            | ParseErrorKind::NumericNotParseable(_, _)
            | ParseErrorKind::NumericOverflow(_, _, _)
            | ParseErrorKind::NumericNotPositive(_, _)
            | ParseErrorKind::NumericNotNonNegative(_, _)
            | ParseErrorKind::InvalidTitleAlign(_)
            | ParseErrorKind::TitleRequiresArgument
    ));
}

#[test]
fn scale_thousand_is_accepted_iter1() {
    let doc = parse_or_panic("@scale 1000\nA _\n");
    assert_eq!(count_signal_lines(&doc), 1);
}

#[test]
fn fontsize_half_is_accepted_iter1() {
    let doc = parse_or_panic("@fontsize 0.5\nA _\n");
    assert_eq!(count_signal_lines(&doc), 1);
}

#[test]
fn fontsize_one_boundary_iter1() {
    let doc = parse_or_panic("@fontsize 1.0\nA _\n");
    assert_eq!(count_signal_lines(&doc), 1);
}

#[test]
fn step_one_minimum_with_slant_zero_iter1() {
    let doc = parse_or_panic("@step 1\n@slant 0\nA _~_~\n");
    assert_eq!(count_signal_lines(&doc), 1);
}

#[test]
fn slant_zero_parses_iter1() {
    let doc = parse_or_panic("@slant 0\nA _~\n");
    assert_eq!(count_signal_lines(&doc), 1);
}

#[test]
fn one_character_waveform_iter1() {
    let doc = parse_or_panic("A _\n");
    let row = nth_signal(&doc, 0);
    assert_eq!(row.waveform().len(), 1);
}

#[test]
fn consecutive_anchors_in_single_signal_iter1() {
    let doc = parse_or_panic("A _@{x}@{y}@{z}~\n");
    assert_eq!(count_signal_lines(&doc), 1);
    assert_eq!(
        doc.annotations.anchors.len(),
        3,
        "three consecutive anchors must produce three registry entries"
    );
}

#[test]
fn arrow_self_loop_same_anchor_iter1() {
    let doc = parse_or_panic("A _@{a}~\n@-> (@{a}, @{a})\n");
    assert_eq!(doc.annotations.arrows.len(), 1);
}

#[test]
fn zero_arrows_anchor_only_iter1() {
    let doc = parse_or_panic("A _@{a}~\n");
    assert!(doc.annotations.arrows.is_empty());
}

#[test]
fn one_arrow_minimum_iter1() {
    let doc = parse_or_panic("A _@{a}@{b}~\n@-> (@{a}, @{b})\n");
    assert_eq!(doc.annotations.arrows.len(), 1);
}

#[test]
fn one_hundred_arrows_iter1() {
    let mut source = String::from("A _");
    for index in 1..=101 {
        source.push_str(&format!("@{{a{index}}}_"));
    }
    source.push('\n');
    for index in 1..=100 {
        source.push_str(&format!("@-> (@{{a{index}}}, @{{a{}}})\n", index + 1));
    }
    let doc = parse_or_panic(&source);
    assert_eq!(doc.annotations.arrows.len(), 100);
}

#[test]
fn clock_none_yields_zero_edge_marks_iter1() {
    let doc = parse_or_panic("@clock(none)\nclk _~_~\n");
    assert_eq!(count_signal_lines(&doc), 1);
}

#[test]
fn clock_pos_single_edge_iter1() {
    let doc = parse_or_panic("@clock(pos)\nclk _~\n");
    assert_eq!(count_signal_lines(&doc), 1);
}

#[test]
fn clock_pos_fifty_rising_edges_iter1() {
    let body: String = "_~".repeat(50);
    let source = format!("@clock(pos)\nclk {body}\n");
    let doc = parse_or_panic(&source);
    assert_eq!(count_signal_lines(&doc), 1);
}

#[test]
fn consecutive_anchors_with_three_arrows_iter1() {
    let doc =
        parse_or_panic("A _@{a}@{b}@{c}~\n@-> (@{a}, @{b})\n@-> (@{b}, @{c})\n@-> (@{a}, @{c})\n");
    assert_eq!(doc.annotations.arrows.len(), 3);
}

#[test]
fn no_clock_normal_signal_parses_iter1() {
    let doc = parse_or_panic("clk _~_~_~\n");
    assert_eq!(count_signal_lines(&doc), 1);
    let row = nth_signal(&doc, 0);
    assert!(
        row.edge_marks().is_empty(),
        "no @clock directive must not produce edge marks; got {:?}",
        row.edge_marks()
    );
    assert!(
        !row.waveform().is_empty(),
        "explicit waveform must keep its level runs"
    );
}

#[test]
fn unreferenced_anchors_do_not_cause_errors_iter1() {
    let doc = parse_or_panic("A _@{a}@{b}@{c}@{d}~\n");
    assert!(doc.annotations.arrows.is_empty());
    assert_eq!(count_signal_lines(&doc), 1);
    assert_eq!(
        doc.annotations.anchors.len(),
        4,
        "all four anchor declarations must be registered even when unreferenced"
    );
}

#[test]
fn iter3_signal_name_arabic_rtl_is_preserved() {
    let result = parse("\u{0627}\u{0644}\u{0639}\u{0631}\u{0628}\u{064A}\u{0629} _~_~\n");
    let document = result.expect("RTL identifier must parse");
    let text = first_signal_name_text(&document);
    assert!(
        text.contains('\u{0627}'),
        "Arabic alef must appear verbatim in signal name; got {text:?}"
    );
}

#[test]
fn iter3_signal_name_hebrew_with_digit_preserves_bidi_chars() {
    let result = parse("\u{05E9}\u{05DC}\u{05D5}\u{05DD}2 _~\n");
    let document = result.expect("Hebrew + digit identifier must parse");
    let text = first_signal_name_text(&document);
    assert!(
        text.contains('\u{05E9}') && text.contains('2'),
        "BiDi mix must keep both halves; got {text:?}"
    );
}

#[test]
fn iter3_signal_name_combining_diacritic_keeps_two_codepoints() {
    let result = parse("e\u{0301} _~\n");
    let document = result.expect("e + combining acute must parse");
    let text = first_signal_name_text(&document);
    let codepoints: Vec<char> = text.chars().collect();
    assert!(
        codepoints.contains(&'\u{0301}'),
        "combining acute must remain unfused (no NFC); got {codepoints:?}"
    );
}

#[test]
fn iter3_signal_name_supplementary_emoji_preserved() {
    let result = parse("\u{1F389} _~\n");
    let document = result.expect("supplementary-plane emoji must parse");
    let text = first_signal_name_text(&document);
    assert!(
        text.contains('\u{1F389}'),
        "U+1F389 must round-trip as a single char; got {text:?}"
    );
}

#[test]
fn iter3_signal_name_with_ideographic_space_keeps_full_width_char() {
    let outcome = parse("A\u{3000}B _~\n");
    match outcome {
        Ok(document) => {
            let text = first_signal_name_text(&document);
            assert!(
                text.contains('\u{3000}') || text == "A",
                "either keep the full-width space or split; got {text:?}"
            );
        }
        Err(error) => {
            assert!(
                matches!(
                    error.kind(),
                    ParseErrorKind::NumericNotParseable(_, _)
                        | ParseErrorKind::NumericOverflow(_, _, _)
                        | ParseErrorKind::NumericNotPositive(_, _)
                        | ParseErrorKind::NumericNotNonNegative(_, _)
                        | ParseErrorKind::InvalidTitleAlign(_)
                        | ParseErrorKind::TitleRequiresArgument
                ),
                "if rejected, must surface a message error; got {error:?}"
            );
        }
    }
}
