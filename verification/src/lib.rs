//! A minimal scripting-language front end: statements are classified as
//! comments or expressions, and expressions are recognized and evaluated in
//! one fused recursive pass over the raw text, against a mutable variable
//! environment.  The whole evaluator is specified by a recursive spec-level
//! interpreter (`model::eval_expr`) and the executable code is proved to
//! follow it exactly.

pub mod text;
pub mod grammar;
pub mod number;
pub mod value;
pub mod model;
pub mod interp;
pub mod laws;
