//! The planner of physical expressions for a lazy query engine on polars columns.
//!
//! A query's logical expressions stand in an [`arena`]. The [`planner`] converts them, in the
//! context of a group-by or of whole columns, to the [`physical`] expressions that are run. What it
//! makes of an expression is stated in [`plan`] as a function of the expression, the context, the
//! schema and the [`state`] of the conversion; what holds of every conversion is proved in
//! [`laws`], and what comes of each kind of expression in [`conversions`]. The functions that the
//! planner puts into a plan itself are in [`udf`], what they answer in [`answers`], and how some of
//! them split their work over threads in [`parallel`]. What is asked of a column before that is in
//! [`columns`]. Everything that polars computes for them goes through [`series`], whose contracts
//! are trusted.
pub mod answers;
pub mod arena;
pub mod columns;
pub mod conversions;
pub mod expr;
pub mod integers;
pub mod laws;
pub mod names;
pub mod parallel;
pub mod physical;
pub mod plan;
pub mod planner;
pub mod series;
pub mod state;
pub mod udf;
