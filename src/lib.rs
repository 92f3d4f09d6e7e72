//! Typed access to a document store's REST wire format: the typed-value and
//! document codecs, the structured-query compiler, the decoder of streamed
//! query results, and the normalisation of resource names.

use vstd::prelude::*;

pub mod envelope;
pub mod error;
pub mod join;
pub mod path;
pub mod query;
pub mod results;
pub mod timestamp;
pub mod value;

verus! {

} // verus!
