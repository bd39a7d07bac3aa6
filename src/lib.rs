//! Verified core of a test-transformation engine: a small configuration
//! language for test functions, its expansion into test instances, and the
//! decisions that run each instance in an isolated child process.

pub mod text;
pub mod duration;
pub mod product;
pub mod token;
pub mod ident;
pub mod config;
pub mod resolve;
pub mod output;
pub mod dispatch;

use vstd::prelude::*;

verus! {

/// The bridge that runs an asynchronous test body to completion on the
/// current thread.
pub struct Runtime;

} // verus!
