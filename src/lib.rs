//! A reverse-Polish-notation line evaluator: lines of whitespace-separated
//! integers and operators are checked, evaluated on a bounded stack and
//! reported one by one, each line independently of the others.
pub mod laws;
pub mod numeral;
pub mod report;
pub mod rpn;
pub mod text;
