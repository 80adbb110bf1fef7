//! A small line-search library: scan a body of text for the lines that
//! contain a literal pattern and write them, in order, to an output sink.

use vstd::prelude::*;

pub mod laws;
pub mod lines;
pub mod matcher;
pub mod sink;
pub mod ticker;

pub use matcher::find_matches;
pub use sink::CappedSink;
pub use sink::Sink;
pub use sink::SinkError;
pub use sink::StringSink;
pub use sink::SunkText;
pub use ticker::idle_step;
pub use ticker::IdleAction;
pub use ticker::IdleEvent;

verus! {

/// The example answer used by the surrounding program's smoke test.
pub fn answer() -> (r: i32)
    ensures
        r == 42,
{
    42
}

} // verus!
