//! TCML (Timing Chart Markup Language) parser: turns TCML text into a
//! timing-chart document model.

pub mod chars;
pub mod number;
pub mod units;
pub mod errors;
pub mod message;
pub mod text;
pub mod color;
pub mod anchor;
pub mod defaults;
pub mod style;
pub mod clock;
pub mod line;
pub mod arrow;
pub mod document;
pub mod parser;
pub mod svg_parts;
pub use parser::parse;
