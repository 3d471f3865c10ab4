//! How an I/O handle treats errors.
use vstd::prelude::*;

verus! {

/// Errors are returned.
#[derive(Copy, Clone)]
pub struct Result;

/// Errors panic.
#[derive(Copy, Clone)]
pub struct Panic;

/// Errors are ignored.
#[derive(Copy, Clone)]
pub struct Ignore;

} // verus!
