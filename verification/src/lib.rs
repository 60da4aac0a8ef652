//! Front end of a small programming language: a tokenizer, the syntax tree it
//! feeds, and a recursive-descent parser, each function verified against a
//! mathematical model of what it computes.

pub mod box_utils;
pub mod enum_utils;
pub mod front_end;
pub mod string_utils;
pub mod compiler;
