use tchart_core::color::Color;
use tchart_core::document::ChartDocument;
use tchart_core::errors::{ParseError, ParseErrorKind};
use tchart_core::line::{LineContent, SignalRow};
use tchart_core::parse;
use tchart_core::units::Px;

fn px(value: f64) -> Px {
    Px { micros: (value * 1_000_000.0).round() as i64 }
}

fn px_value(p: Px) -> f32 {
    p.micros as f32 / 1_000_000.0
}

fn parse_or_panic(input: &str) -> ChartDocument {
    parse(input).expect("parse should succeed")
}

fn parse_error(input: &str) -> ParseError {
    parse(input).expect_err("parse should fail")
}

fn count_signal_lines(doc: &ChartDocument) -> usize {
    doc.lines
        .iter()
        .filter(|line| matches!(line.content, LineContent::Signal(_)))
        .count()
}

fn nth_signal(doc: &ChartDocument, index: usize) -> &SignalRow {
    let line = doc
        .lines
        .iter()
        .filter(|line| matches!(line.content, LineContent::Signal(_)))
        .nth(index)
        .expect("signal index in range");
    match &line.content {
        LineContent::Signal(row) => row.as_ref(),
        _ => unreachable!(),
    }
}

fn first_signal_name_text(doc: &ChartDocument) -> String {
    let row = nth_signal(doc, 0);
    row.name()
        .lines()
        .into_iter()
        .next()
        .expect("at least one name line")
        .unsafe_text()
        .to_string()
}

fn ruler_contributions_for(input: &str, line_index: usize) -> Vec<tchart_core::line::RulerContribution> {
    let doc = parse_or_panic(input);
    doc.lines
        .get(line_index)
        .expect("line index out of range in test")
        .ruler_contributions
        .clone()
}

#[test]
fn step_sets_layout_step() {
    let doc = parse_or_panic("@step 20\nSigA __");
    assert_eq!(doc.style.layout().step(), px(20.0));
}

#[test]
fn slant_sets_layout_slant() {
    let doc = parse_or_panic("@slant 5\nSigA __");
    assert_eq!(doc.style.layout().slant(), px(5.0));
}

#[test]
fn h_space_alias_for_signal_gap() {
    let via_new = parse_or_panic("@h_space 8\nSigA __");
    let via_old = parse_or_panic("@signal_gap 8\nSigA __");
    assert_eq!(
        via_new.style.layout().h_space(),
        via_old.style.layout().h_space()
    );
}

#[test]
fn fontsize_accepts_alias_styles() {
    let canonical = parse_or_panic("@fontsize 16\nSigA __");
    let alt1 = parse_or_panic("@FontSize 16\nSigA __");
    let alt2 = parse_or_panic("@font-size 16\nSigA __");
    let alt3 = parse_or_panic("@FONT_SIZE 16\nSigA __");
    let expected = canonical.style.canvas().font().size();
    assert_eq!(expected, px(16.0));
    assert_eq!(alt1.style.canvas().font().size(), expected);
    assert_eq!(alt2.style.canvas().font().size(), expected);
    assert_eq!(alt3.style.canvas().font().size(), expected);
}

#[test]
fn overline_gap_param_accepted() {
    let doc = parse_or_panic("@overline_gap 5\n@signal(overline)\nnReset _~~~");
    assert_eq!(
        doc.style.default_label_style().overline_gap(),
        px(5.0),
        "overline_gap should be 5px"
    );
}

#[test]
fn overline_thickness_param_accepted() {
    let doc = parse_or_panic("@overline_thickness 2\n@signal(overline)\nnReset _~~~");
    assert_eq!(
        doc.style.default_label_style().overline_thickness(),
        px(2.0),
        "overline_thickness should be 2px"
    );
}

#[test]
fn highlight_style_eq_spaces_are_tolerated() {
    let doc = parse_or_panic(
        "@highlight_style fill = \"#8f8\" stroke =\"green\" stroke-width= \"1\"\nSigA __",
    );
    let highlight = doc.style.default_signal_style().highlight_attrs();
    let fill = highlight
        .as_slice()
        .iter()
        .find(|attr| attr.key == "fill")
        .map(|attr| attr.value.as_str());
    let stroke = highlight
        .as_slice()
        .iter()
        .find(|attr| attr.key == "stroke")
        .map(|attr| attr.value.as_str());
    let stroke_width = highlight
        .as_slice()
        .iter()
        .find(|attr| attr.key == "stroke-width")
        .map(|attr| attr.value.as_str());
    assert_eq!(fill, Some("#8f8"));
    assert_eq!(stroke, Some("green"));
    assert_eq!(stroke_width, Some("1"));
}

#[test]
fn dontcare_color_directive_sets_signal_style() {
    let doc = parse_or_panic("@dontcare_color #c00\nSigA __");
    let color = doc.style.default_signal_style().dontcare_color();
    assert_eq!(
        color,
        Color::parse_str("#c00").expect("valid #c00")
    );
}

#[test]
fn dontcare_color_named_value() {
    let doc = parse_or_panic("@dontcare_color red\nSigA __");
    let color = doc.style.default_signal_style().dontcare_color();
    assert_eq!(color, Color::parse_str("red").expect("named red"));
    assert_eq!(color, Color::red());
}

#[test]
fn iter3_signal_name_with_nbsp_is_not_split() {
    let outcome = parse("A\u{00A0}B _~\n");
    if let Ok(document) = outcome {
        let text = first_signal_name_text(&document);
        assert!(
            text.contains('\u{00A0}') || text == "A",
            "NBSP behaviour must be deterministic; got {text:?}"
        );
    }
}

#[test]
fn iter3_signal_name_with_zero_width_space_keeps_codepoint() {
    let outcome = parse("A\u{200B}B _~\n");
    if let Ok(document) = outcome {
        let text = first_signal_name_text(&document);
        assert!(
            text.contains('\u{200B}') || text.contains('A'),
            "ZWSP behaviour must be deterministic; got {text:?}"
        );
    }
}

#[test]
fn iter3_title_nfc_and_nfd_treated_as_distinct_bytes() {
    let nfc = parse("@title \"caf\u{00E9}\"\nA _\n").expect("NFC title parses");
    let nfd = parse("@title \"cafe\u{0301}\"\nA _\n").expect("NFD title parses");
    assert_eq!(count_signal_lines(&nfc), 1);
    assert_eq!(count_signal_lines(&nfd), 1);
}

#[test]
fn iter3_bom_at_start_of_file() {
    let outcome = parse("\u{FEFF}@title \"T\"\nA _\n");
    match outcome {
        Ok(document) => assert!(!document.lines.is_empty()),
        Err(error) => assert!(
            matches!(
                error.kind(),
                ParseErrorKind::NumericNotParseable(_, _)
                    | ParseErrorKind::NumericOverflow(_, _, _)
                    | ParseErrorKind::NumericNotPositive(_, _)
                    | ParseErrorKind::NumericNotNonNegative(_, _)
                    | ParseErrorKind::InvalidTitleAlign(_)
                    | ParseErrorKind::TitleRequiresArgument
                    | ParseErrorKind::InvalidLevelChar(_)
            ),
            "BOM rejection should surface a message-style error; got {error:?}"
        ),
    }
}

#[test]
fn iter3_comment_with_emoji_and_combining_chars_is_skipped() {
    let document = parse_or_panic("// \u{1F389}e\u{0301} comment text\nA _\n");
    assert_eq!(count_signal_lines(&document), 1);
}

#[test]
fn iter3_error_at_first_line_first_column() {
    let error = parse_error("@invalid_directive\n");
    assert_eq!(error.line(), 1, "error must be on line 1; got {error:?}");
    assert!(
        error.column() >= 1,
        "column must be >= 1 (1-based); got col={}",
        error.column()
    );
}

#[test]
fn iter3_error_after_tabs_has_deterministic_column() {
    let error = parse_error("\t\t@bad_directive\n");
    assert!(
        error.column() >= 1,
        "column must be >= 1 even after tab indentation; got {}",
        error.column()
    );
}

#[test]
fn iter3_multiline_quoted_advances_line_counter() {
    let error = parse_error("@title \"line1\nline2\"\n@invalid_after\n");
    assert!(
        error.line() >= 2,
        "post-multiline-title error must be reported beyond line 1; got line={}",
        error.line()
    );
}

#[test]
fn iter3_crlf_counts_as_single_newline() {
    let error = parse_error("@title \"T\"\r\n@bad\r\n");
    assert_eq!(
        error.line(),
        2,
        "CRLF must count as one newline; got line={}",
        error.line()
    );
}

#[test]
fn iter3_lone_cr_line_handling_is_deterministic() {
    let outcome = parse("@title T\r@bad\r");
    if let Err(error) = outcome {
        assert!(error.line() >= 1, "line must be >= 1; got {}", error.line());
    }
}

#[test]
fn iter3_multibyte_chars_column_unit_is_deterministic() {
    let error = parse_error("\u{65E5}\u{672C}\u{8A9E} _~ @bad_directive\n");
    assert!(
        error.column() >= 1 && error.line() >= 1,
        "error position must be reported; got {error:?}"
    );
}

#[test]
fn iter3_trailing_whitespace_then_eof_token() {
    let error = parse_error("A _~   \n@bad_directive\n");
    assert_eq!(
        error.line(),
        2,
        "error must report on the directive line, not the previous trailing space; got {error:?}"
    );
}

#[test]
fn iter3_first_error_on_line_with_two_bad_directives() {
    let error = parse_error("@bad1 @bad2\n");
    assert_eq!(
        error.line(),
        1,
        "two errors on one line: only first reported; got {error:?}"
    );
}

#[test]
fn iter3_eof_during_directive_argument() {
    let outcome = parse("@title");
    match outcome {
        Ok(_) => {}
        Err(error) => {
            assert_eq!(error.line(), 1, "EOF mid-directive: line 1; got {error:?}");
        }
    }
}

#[test]
fn iter3_scale_very_small_boundary() {
    let outcome = parse("@scale 0.0001\nA _\n");
    if let Ok(document) = outcome {
        assert_eq!(count_signal_lines(&document), 1);
    }
}

#[test]
fn iter3_scale_exponential_notation() {
    let outcome = parse("@scale 1e10\nA _\n");
    match outcome {
        Ok(document) => assert_eq!(count_signal_lines(&document), 1),
        Err(error) => assert!(
            matches!(
                error.kind(),
                ParseErrorKind::InvalidLength(_)
                    | ParseErrorKind::NumericNotParseable(_, _)
                    | ParseErrorKind::NumericOverflow(_, _, _)
                    | ParseErrorKind::NumericNotPositive(_, _)
                    | ParseErrorKind::NumericNotNonNegative(_, _)
                    | ParseErrorKind::InvalidTitleAlign(_)
                    | ParseErrorKind::TitleRequiresArgument
            ),
            "rejected exponential literal must surface a known error; got {error:?}"
        ),
    }
}

#[test]
fn iter3_step_zero_is_rejected() {
    let error = parse_error("@step 0\nA _\n");
    assert!(
        matches!(
            error.kind(),
            ParseErrorKind::InvalidLength(_)
                | ParseErrorKind::NumericNotParseable(_, _)
                | ParseErrorKind::NumericOverflow(_, _, _)
                | ParseErrorKind::NumericNotPositive(_, _)
                | ParseErrorKind::NumericNotNonNegative(_, _)
                | ParseErrorKind::InvalidTitleAlign(_)
                | ParseErrorKind::TitleRequiresArgument
        ),
        "step=0 must be a length error; got {error:?}"
    );
}

#[test]
fn iter3_step_negative_is_rejected() {
    let error = parse_error("@step -1\nA _\n");
    assert!(
        matches!(
            error.kind(),
            ParseErrorKind::InvalidLength(_)
                | ParseErrorKind::NumericNotParseable(_, _)
                | ParseErrorKind::NumericOverflow(_, _, _)
                | ParseErrorKind::NumericNotPositive(_, _)
                | ParseErrorKind::NumericNotNonNegative(_, _)
                | ParseErrorKind::InvalidTitleAlign(_)
                | ParseErrorKind::TitleRequiresArgument
        ),
        "negative step must be rejected; got {error:?}"
    );
}

#[test]
fn iter3_slant_negative_value_is_deterministic() {
    let outcome = parse("@slant -0.5\nA _~\n");
    match outcome {
        Ok(document) => assert_eq!(count_signal_lines(&document), 1),
        Err(error) => assert!(
            matches!(
                error.kind(),
                ParseErrorKind::InvalidLength(_)
                    | ParseErrorKind::NumericNotParseable(_, _)
                    | ParseErrorKind::NumericOverflow(_, _, _)
                    | ParseErrorKind::NumericNotPositive(_, _)
                    | ParseErrorKind::NumericNotNonNegative(_, _)
                    | ParseErrorKind::InvalidTitleAlign(_)
                    | ParseErrorKind::TitleRequiresArgument
            ),
            "if slant rejects negatives, must use length error; got {error:?}"
        ),
    }
}

#[test]
fn overline_directive_alias_accepted() {
    let doc = parse_or_panic("@overline\nSig _\n");
    let row = match &doc.lines[0].content {
        LineContent::Signal(row) => row,
        other => panic!("expected Signal, got {other:?}"),
    };
    assert!(
        row.decorations().is_name_overline(),
        "@overline alias must mark following row as overline"
    );
}

#[test]
fn overline_directive_followed_by_quoted_name() {
    let doc = parse_or_panic("@overline\n\"sig name\" _\n");
    let row = match &doc.lines[0].content {
        LineContent::Signal(row) => row,
        other => panic!("expected Signal, got {other:?}"),
    };
    assert!(row.decorations().is_name_overline());
    assert_eq!(row.name().as_str(), "sig name");
}

#[test]
fn overline_directive_rejects_argument() {
    let error = parse_error("@overline foo\nSig _\n");
    assert!(
        matches!(error.kind(), ParseErrorKind::InvalidOverlineSyntax(_)),
        "@overline with an argument must produce InvalidOverlineSyntax; got {error:?}"
    );
}

#[test]
fn overline_directive_then_signal_attribute_combines() {
    let doc = parse_or_panic("@overline\nA _\n@signal(overline)\nB _\n");
    let first = match &doc.lines[0].content {
        LineContent::Signal(row) => row,
        other => panic!("expected Signal, got {other:?}"),
    };
    let second = match &doc.lines[1].content {
        LineContent::Signal(row) => row,
        other => panic!("expected Signal, got {other:?}"),
    };
    assert!(first.decorations().is_name_overline());
    assert!(second.decorations().is_name_overline());

    if let Ok(document) = parse("@overline\n@signal(overline)\nSig _\n") {
        match &document.lines[0].content {
            LineContent::Signal(row) => {
                assert!(
                    row.decorations().is_name_overline(),
                    "if stacking succeeds, overline must still be set"
                );
            }
            other => panic!("expected Signal, got {other:?}"),
        }
    }
}

#[test]
fn auto_clamp_slant_chain_of_decreasing_step() {
    let cases: &[(&str, Px)] = &[
        ("@step 12\nA __\n", px(5.0)),
        ("@step 10\nA __\n", px(5.0)),
        ("@step 8\nA __\n", px(5.0)),
        ("@step 6\nA __\n", px(5.0)),
        ("@step 5\nA __\n", px(2.5)),
        ("@step 4\nA __\n", px(2.0)),
        ("@step 3\nA __\n", px(1.5)),
        ("@step 2\nA __\n", px(1.0)),
        ("@step 1\nA __\n", px(0.5)),
    ];
    for (input, expected_slant) in cases {
        let doc = parse_or_panic(input);
        assert_eq!(
            doc.style.layout().slant(),
            *expected_slant,
            "input={input:?}: expected slant={expected_slant:?}"
        );
    }
}

#[test]
fn auto_clamp_does_not_fire_when_slant_explicit() {
    for step in ["10", "4", "1"] {
        let source = format!("@slant 0\n@step {step}\nA __\n");
        let doc = parse_or_panic(&source);
        assert_eq!(
            doc.style.layout().slant(),
            px(0.0),
            "after `@slant 0` + `@step {step}`, slant must stay 0"
        );
    }
}

#[test]
fn auto_clamp_explicit_slant_then_smaller_step_errors() {
    let error = parse_error("@slant 8\n@step 4\nA __\n");
    assert!(matches!(
        error.kind(),
        ParseErrorKind::InvalidStepSlant(_, _)
    ));
}

#[test]
fn auto_clamp_does_not_fire_when_step_larger_than_slant() {
    let doc = parse_or_panic("@step 100\nA __\n");
    assert_eq!(doc.style.layout().slant(), px(5.0));
}

#[test]
fn ruler_default_is_on() {
    let doc = parse_or_panic("A _~_~\n");
    let line = doc.lines.first().expect("one line");
    assert!(!line.ruler_contributions.is_empty());
}

#[test]
fn ruler_on_switches_state() {
    let doc = parse_or_panic("@ruler on\nA _~\n");
    let line = doc.lines.first().expect("one line");
    assert!(!line.ruler_contributions.is_empty());
}

#[test]
fn ruler_off_switches_state() {
    let doc = parse_or_panic("@ruler on\nA _~\n@ruler off\nB _~\n");
    assert!(!doc.lines[0].ruler_contributions.is_empty());
    assert!(doc.lines[1].ruler_contributions.is_empty());
}

#[test]
fn ruler_invalid_argument_errors() {
    let error = parse_error("@ruler maybe\n");
    assert!(matches!(error.kind(), ParseErrorKind::InvalidRulerValue(_)));
}

#[test]
fn ruler_missing_argument_errors() {
    let error = parse_error("@ruler\n");
    let _ = error.kind();
}

#[test]
fn ruler_color_invalid_format_errors() {
    let error = parse_error("@ruler_color not-a-color\n");
    assert!(matches!(error.kind(), ParseErrorKind::InvalidColor(_)));
}

#[test]
fn ruler_color_default_is_a0a0a0() {
    let doc = parse_or_panic("@ruler on\nA _~\n");
    let expected = Color::parse_str("#a0a0a0").expect("color");
    let contributions = &doc.lines[0].ruler_contributions;
    assert!(!contributions.is_empty());
    for contribution in contributions {
        assert_eq!(contribution.color, expected);
    }
}

#[test]
fn ruler_signal_row_contribution_count_and_positions() {
    let doc = parse_or_panic("@step 10\n@ruler on\nA _~_~_~\n");
    let contributions = &doc.lines[0].ruler_contributions;
    let xs: Vec<f32> = contributions
        .iter()
        .map(|contribution| px_value(contribution.x))
        .collect();
    assert_eq!(xs, vec![0.0, 10.0, 20.0, 30.0, 40.0, 50.0, 60.0]);
}

#[test]
fn ruler_skip_row_contributes() {
    let doc = parse_or_panic("@step 10\n@ruler on\n@skip(3)\n");
    let contributions = &doc.lines[0].ruler_contributions;
    let xs: Vec<f32> = contributions
        .iter()
        .map(|contribution| px_value(contribution.x))
        .collect();
    assert_eq!(xs, vec![0.0, 10.0, 20.0, 30.0]);
}

#[test]
fn ruler_skip_zero_contributes_single_line() {
    let doc = parse_or_panic("@step 10\n@ruler on\nA\n");
    let contributions = &doc.lines[0].ruler_contributions;
    let xs: Vec<f32> = contributions
        .iter()
        .map(|contribution| px_value(contribution.x))
        .collect();
    assert_eq!(xs, vec![0.0]);
}

#[test]
fn ruler_off_rows_have_empty_sidecar() {
    let doc = parse_or_panic("@step 10\n@ruler on\nA _~_~\n@ruler off\nB _~_~\n");
    assert!(!doc.lines[0].ruler_contributions.is_empty());
    assert!(doc.lines[1].ruler_contributions.is_empty());
}

#[test]
fn ruler_title_row_does_not_contribute() {
    let doc = parse_or_panic("@ruler on\n@title \"Section\"\nA _~\n");
    let title = doc.lines.first().expect("title");
    assert!(title.content.is_title());
    assert!(title.ruler_contributions.is_empty());
    let signal = doc.lines.get(1).expect("signal");
    assert!(!signal.ruler_contributions.is_empty());
}

#[test]
fn ruler_color_snapshot_independent_per_row() {
    let doc =
        parse_or_panic("@step 10\n@ruler on\n@ruler_color #aaa\nA _~\n@ruler_color #bbb\nB _~\n");
    let color_aaa = Color::parse_str("#aaa").expect("color");
    let color_bbb = Color::parse_str("#bbb").expect("color");
    assert!(
        doc.lines[0]
            .ruler_contributions
            .iter()
            .all(|contribution| contribution.color == color_aaa)
    );
    assert!(
        doc.lines[1]
            .ruler_contributions
            .iter()
            .all(|contribution| contribution.color == color_bbb)
    );
}

#[test]
fn ruler_step_snapshot_per_row() {
    let doc = parse_or_panic("@ruler on\n@step 10\nA _~_~\n@step 25\nB _~_~\n");
    let xs_a: Vec<f32> = doc.lines[0]
        .ruler_contributions
        .iter()
        .map(|contribution| px_value(contribution.x))
        .collect();
    let xs_b: Vec<f32> = doc.lines[1]
        .ruler_contributions
        .iter()
        .map(|contribution| px_value(contribution.x))
        .collect();
    assert_eq!(xs_a, vec![0.0, 10.0, 20.0, 30.0, 40.0]);
    assert_eq!(xs_b, vec![0.0, 25.0, 50.0, 75.0, 100.0]);
}

#[test]
fn ruler_units_match_signal_row_units() {
    let doc = parse_or_panic("@step 10\n@ruler on\nA _~_~\nB _~_~_~_~\n");
    assert_eq!(doc.lines[0].ruler_contributions.len(), 5);
    assert_eq!(doc.lines[1].ruler_contributions.len(), 9);
}

#[test]
fn ruler_color_change_during_off_applies_to_next_on_row() {
    let doc = parse_or_panic(
        "@ruler on\n@ruler_color #aaa\nA _~\n@ruler off\n@ruler_color #bbb\n@ruler on\nB _~\n",
    );
    let color_aaa = Color::parse_str("#aaa").expect("color");
    let color_bbb = Color::parse_str("#bbb").expect("color");
    assert!(
        doc.lines[0]
            .ruler_contributions
            .iter()
            .all(|contribution| contribution.color == color_aaa)
    );
    assert!(!doc.lines[1].ruler_contributions.is_empty());
    assert!(
        doc.lines[1]
            .ruler_contributions
            .iter()
            .all(|contribution| contribution.color == color_bbb)
    );
}

#[test]
fn ruler_toggle_independent_per_row() {
    let doc = parse_or_panic("@ruler on\nA _~\n@ruler off\nB _~\n@ruler on\nC _~\n");
    assert!(!doc.lines[0].ruler_contributions.is_empty());
    assert!(doc.lines[1].ruler_contributions.is_empty());
    assert!(!doc.lines[2].ruler_contributions.is_empty());
}

#[test]
fn ruler_all_off_explicit_means_all_empty() {
    let doc = parse_or_panic("@ruler off\nA _~\nB _~\nC _~\n@skip(2)\n");
    for line in &doc.lines {
        assert!(line.ruler_contributions.is_empty());
    }
}

#[test]
fn ruler_contribution_x_values_are_ascending() {
    let contributions = ruler_contributions_for("@step 10\n@ruler on\nA _~_~_~\n", 0);
    let xs: Vec<f32> = contributions
        .iter()
        .map(|contribution| px_value(contribution.x))
        .collect();
    let mut sorted = xs.clone();
    sorted.sort_by(|left, right| left.partial_cmp(right).expect("finite"));
    assert_eq!(xs, sorted);
}
