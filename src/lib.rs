//! An incremental scientific-calculator expression editor.
//!
//! The editor keeps an evaluator-bound expression and a display string in
//! step as keys are pressed, rewrites the expression into plain infix text
//! when a result is asked for, and records the results in a bounded history.
pub mod text;
pub mod normalize;
pub mod calculator;
pub mod laws;
