use tchart_core::style::{ChartStyle, SignalRowStyle, SignalStyle};
use tchart_core::units::Px;

fn px(value: f64) -> Px {
    Px { micros: (value * 1_000_000.0).round() as i64 }
}

#[test]
fn chart_style_default_constructs() {
    let style = ChartStyle::default();
    assert!(!style.default_signal_style().color().is_none());
}

#[test]
fn chart_style_default_line_height_matches_ratio() {
    let style = ChartStyle::default();
    assert_eq!(style.canvas().line_height(), px(14.0 * 1.2));
}

#[test]
fn signal_row_style_constructs() {
    let signal = SignalStyle::default();
    let label = ChartStyle::default().default_label_style().clone();
    let row = SignalRowStyle::new(signal.clone(), label.clone());
    assert_eq!(row.signal(), &signal);
    assert_eq!(row.label(), &label);
}

#[test]
fn background_default_stripe_is_none() {
    let style = ChartStyle::default();
    assert!(style.stripe_for_signal_index(0).is_none());
    assert!(style.stripe_for_signal_index(1).is_none());
}

#[test]
fn canvas_style_can_be_cloned() {
    let style = ChartStyle::default();
    let canvas = style.canvas().clone();
    assert_eq!(canvas.line_height(), px(14.0 * 1.2));
}

#[test]
fn default_label_padding_is_8px() {
    let style = ChartStyle::default();
    assert_eq!(style.default_label_style().padding(), px(8.0));
}
