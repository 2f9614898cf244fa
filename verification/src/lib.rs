//! The deploy engine of kuadrat: what a deploy decides, step by step, without
//! performing any of the work itself.
//!
//! A [`deployment::Deployment`] and a [`reconciliation::Reconciliation`] hand
//! out one [`protocol::Request`] at a time and take the [`protocol::Reply`] to
//! it. [`store::Store`] says what every request to the store means. [`run`]
//! puts them together, and [`laws`] says what holds of the whole.

pub mod cli;
pub mod ctx;
pub mod deployment;
pub mod laws;
pub mod model;
pub mod protocol;
pub mod reconciliation;
pub mod reservation;
pub mod run;
pub mod spec;
pub mod store;
pub mod text;
pub mod unwind;
