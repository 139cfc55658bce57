//! Platform-tag algebra and resolver planning rules for interpreter bundles
//! and pre-built wheels.
//!
//! The first half is about platform tags: their grammar, their expansion,
//! their compatibility groups, and the ordered sets that score them. The
//! second half is about a resolve: which versions are offered, what the
//! solver is told, and what a blueprint pins.

pub mod text;
pub mod tag_grammar;
pub mod expand;
pub mod compat;
pub mod platform;
pub mod builders;
pub mod theorems;
pub mod model;
pub mod ranges;
pub mod specifiers;
pub mod resolve;
pub mod selector;
pub mod cache;
pub mod adapter;
pub mod failure;
pub mod blueprint;
pub mod seek_slice;
