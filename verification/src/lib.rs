//! Detection and conversion of identifier casing styles.
//!
//! The library classifies a token as snake_case, CamelCase or kebab-case,
//! splits it into word pieces according to the detected style, and rejoins
//! the pieces in a requested target style. Classification and conversion
//! are total: text that matches no style is treated as a single opaque
//! piece and passes through the join step unchanged apart from the target
//! style's case mapping.

pub mod chars;
pub mod pattern;
pub mod engine;
pub mod laws;
pub mod segment;

pub use chars::lower_char;
pub use chars::upper_char;
pub use engine::CaseManipulator;
pub use engine::Cases;
