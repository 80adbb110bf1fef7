//! The output sink: an append-only destination for matched lines.
//!
//! The matcher owns no part of a sink's lifecycle; it only appends
//! newline-terminated lines and stops at the first failure. The trait is the
//! capability "accept a line of text, fallibly"; implementors range from the
//! in-memory [`StringSink`] to standard-output handles outside this crate.

use vstd::prelude::*;

verus! {

/// A write to a sink was rejected.
#[derive(Clone, Copy, Debug)]
pub struct SinkError;

/// The ghost contents of a sink, as a sequence of characters. Unverified
/// implementors of [`Sink`] outside this crate name the type through this
/// alias; their `sunk` is never called at runtime.
pub type SunkText = Seq<char>;

/// An append-only destination for text, fallible on write.
pub trait Sink {
    /// The text the sink has accepted so far.
    spec fn sunk(&self) -> Seq<char>;

    /// The sink never rejects a write. A caller holding a sink with this
    /// capability is owed success.
    spec fn infallible(&self) -> bool;

    /// Append `line` followed by exactly one newline, or report failure
    /// having appended nothing.
    fn write_line(&mut self, line: &str) -> (r: Result<(), SinkError>)
        ensures
            final(self).infallible() == old(self).infallible(),
            old(self).infallible() ==> r is Ok,
            r is Ok ==> final(self).sunk() == old(self).sunk() + line@.push('\n'),
            r is Err ==> final(self).sunk() == old(self).sunk(),
    ;
}

/// An in-memory sink that never fails: it collects everything written to it
/// into a `String`. It carries the [`Sink::infallible`] capability, so a
/// caller is owed success on every write.
pub struct StringSink {
    out: String,
}

impl StringSink {
    /// An empty sink.
    pub fn new() -> (s: StringSink)
        ensures
            s.sunk() == Seq::<char>::empty(),
            s.infallible(),
    {
        StringSink { out: String::new() }
    }

    /// The text accepted so far.
    pub fn as_text(&self) -> (r: &str)
        ensures
            r@ == self.sunk(),
    {
        self.out.as_str()
    }
}

impl Sink for StringSink {
    closed spec fn sunk(&self) -> Seq<char> {
        self.out@
    }

    closed spec fn infallible(&self) -> bool {
        true
    }

    fn write_line(&mut self, line: &str) -> (r: Result<(), SinkError>) {
        self.out.append(line);
        self.out.append("\n");
        proof {
            reveal_strlit("\n");
            assert(self.out@ =~= old(self).out@ + line@.push('\n'));
        }
        Ok(())
    }
}

/// An in-memory sink that accepts a fixed number of lines and rejects every
/// write after that: the smallest model of a destination that fails part-way
/// through, as a broken pipe or a full disk would.
pub struct CappedSink {
    out: String,
    room: usize,
}

impl CappedSink {
    /// How many more writes the sink will accept.
    pub closed spec fn room(&self) -> int {
        self.room as int
    }

    /// An empty sink that will accept `room` writes.
    pub fn with_room(room: usize) -> (s: CappedSink)
        ensures
            s.sunk() == Seq::<char>::empty(),
            s.room() == room,
    {
        CappedSink { out: String::new(), room }
    }

    /// The text accepted so far.
    pub fn as_text(&self) -> (r: &str)
        ensures
            r@ == self.sunk(),
    {
        self.out.as_str()
    }
}

impl Sink for CappedSink {
    closed spec fn sunk(&self) -> Seq<char> {
        self.out@
    }

    closed spec fn infallible(&self) -> bool {
        false
    }

    fn write_line(&mut self, line: &str) -> (r: Result<(), SinkError>)
        ensures
            old(self).room() > 0 ==> r is Ok && final(self).room() == old(self).room() - 1,
            old(self).room() == 0 ==> r is Err && final(self).room() == 0,
    {
        if self.room > 0 {
            self.room -= 1;
            self.out.append(line);
            self.out.append("\n");
            proof {
                reveal_strlit("\n");
                assert(self.out@ =~= old(self).out@ + line@.push('\n'));
            }
            Ok(())
        } else {
            Err(SinkError)
        }
    }
}

} // verus!
