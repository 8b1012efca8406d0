use tchart_core::color::Color;
use tchart_core::parse;
use tchart_core::arrow::LineDashStyle;
use tchart_core::line::{LevelRun, SignalLevel, Transition, TransitionKind, WaveformElement};
use tchart_core::svg_parts::{
    adjacency_from_next, adjacency_from_prev, dc_single_kind, format_dash_value, pattern_id_text, push_escaped, push_layer,
    row_background_colors, DcSingleKind, DontcareHatchPatternTable, SingleDcAdjacency,
};

#[test]
fn user_text_is_escaped_for_svg() {
    let mut out = String::from(">");
    push_escaped(&mut out, "a<b & 'c\" > d");
    assert_eq!(out, ">a&lt;b &amp; &apos;c&quot; &gt; d");
}

#[test]
fn empty_layers_are_left_out() {
    let mut out = String::from("<svg>");
    push_layer(&mut out, "titles", "");
    assert_eq!(out, "<svg>");
    push_layer(&mut out, "titles", "<text/>");
    assert_eq!(out, "<svg><g class=\"titles\"><text/></g>");
}

#[test]
fn hatch_patterns_are_shared_by_equal_colors() {
    let red = Color::parse_str("red").expect("named color");
    let blue = Color::parse_str("blue").expect("named color");
    let mut table = DontcareHatchPatternTable::new();
    assert!(table.is_empty());
    assert_eq!(table.insert_color(red), 1);
    assert_eq!(table.insert_color(blue), 2);
    assert_eq!(table.insert_color(red), 1);
    assert_eq!(table.colors, vec![red, blue]);
    assert!(!table.is_empty());
    assert_eq!(pattern_id_text(2), "dontcare-hatch-2");
    assert_eq!(pattern_id_text(12), "dontcare-hatch-12");
}

#[test]
fn rows_alternate_stripes_and_bg_overrides_one_row() {
    let doc = parse("@bgcolor0 red\n@bgcolor1 blue\nA _\n@title T\nB _\n@bg #0f0\nC _\nD _").expect("parse");
    let red = Color::parse_str("red").expect("named color");
    let blue = Color::parse_str("blue").expect("named color");
    let green = Color::parse_str("#0f0").expect("hex color");
    let colors = row_background_colors(&doc.lines, &doc.style);
    assert_eq!(colors.len(), 5);
    assert_eq!(colors[0], red);
    assert!(colors[1].is_none());
    assert_eq!(colors[2], blue);
    assert_eq!(colors[3], green);
    assert_eq!(colors[4], blue);
}

#[test]
fn arrow_dash_values() {
    assert_eq!(format_dash_value(LineDashStyle::Solid), None);
    assert_eq!(format_dash_value(LineDashStyle::Dashed), Some("6 3"));
    assert_eq!(format_dash_value(LineDashStyle::Dotted), Some("1 2"));
}

fn transition(source: SignalLevel, target: SignalLevel, kind: TransitionKind) -> WaveformElement {
    WaveformElement::Transition(Transition { source, target, kind, label: None })
}

fn run(level: SignalLevel) -> WaveformElement {
    WaveformElement::Level(LevelRun { level, units: 1, preceded_by_transition: false })
}

#[test]
fn dontcare_sides_follow_the_neighbouring_transitions() {
    assert_eq!(dc_single_kind(SignalLevel::DontCareAlongHigh), Some(DcSingleKind::High));
    assert_eq!(dc_single_kind(SignalLevel::DontCareAlongBus), None);
    let elements = vec![
        run(SignalLevel::HiZ),
        transition(SignalLevel::HiZ, SignalLevel::DontCareAlongLow, TransitionKind::SingleEdge),
        WaveformElement::Guide,
        run(SignalLevel::DontCareAlongLow),
        WaveformElement::HighlightEnd,
        transition(SignalLevel::DontCareAlongLow, SignalLevel::High, TransitionKind::SingleEdge),
        run(SignalLevel::High),
    ];
    assert_eq!(adjacency_from_prev(&elements, 3), SingleDcAdjacency::HalfSlant);
    assert_eq!(adjacency_from_next(&elements, 3), SingleDcAdjacency::FullSlant);
    assert_eq!(adjacency_from_prev(&elements, 0), SingleDcAdjacency::Vertical);
    assert_eq!(adjacency_from_next(&elements, 6), SingleDcAdjacency::Vertical);
    let crossing = vec![run(SignalLevel::DontCareAlongLow), WaveformElement::Gap, transition(SignalLevel::Bus, SignalLevel::Bus, TransitionKind::BusCross)];
    assert_eq!(adjacency_from_next(&crossing, 0), SingleDcAdjacency::Vertical);
    let bus = vec![run(SignalLevel::DontCareAlongLow), transition(SignalLevel::Bus, SignalLevel::Bus, TransitionKind::BusCross)];
    assert_eq!(adjacency_from_next(&bus, 0), SingleDcAdjacency::Vertical);
}
