//! Exact allocation of discounts over the lines of a cart, under a cap for
//! each discount and a cap for the whole cart.
//!
//! - [`natural`] and [`money`] hold the arithmetic: arbitrary-precision
//!   naturals, and amounts of money as exact fractions.
//! - [`decimal`] reads amounts and caps from decimal text.
//! - [`data`] holds the values that go in and come out, each with its view.
//! - [`model`] says, over those views, what an allocation is.
//! - [`amounts`] and [`engine`] compute it, and [`invocation`] runs a whole
//!   request, caps as text included.
//! - [`laws`] proves what holds of every allocation.
//! - [`rules`] holds the flat percentage rules that stand beside the engine.

pub mod amounts;
pub mod data;
pub mod decimal;
pub mod engine;
pub mod invocation;
pub mod laws;
pub mod model;
pub mod money;
pub mod natural;
pub mod rules;
