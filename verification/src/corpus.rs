//! Decision patterns the engine is validated against.
//!
//! Each pattern is a small function whose compiled form has a shape that the
//! walk recovers, or declines. The first group holds the basic shapes, the
//! second decisions as they occur in safety-critical code.

pub mod closure_with_capture;
pub mod enum_match_no_binding;
pub mod if_let_some;
pub mod inline_comparison;
pub mod match_int_literal;
pub mod match_with_downstream_and;
pub mod nested_and_or;
pub mod not_and;
pub mod simple_and;
pub mod simple_or;
pub mod try_with_and;

pub mod alarm_hysteresis;
pub mod command_validation;
pub mod safety_interlock;
