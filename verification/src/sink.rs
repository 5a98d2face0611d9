//! The output sink: anything that accepts a stream of characters in order
//! and can report failure on a write.

use vstd::prelude::*;
use vstd::string::StringExecFns;

verus! {

/// The failure a sink reports on a write; the serializer propagates it
/// verbatim and writes nothing further.
#[derive(Clone, Copy, Debug, PartialEq, Eq, Structural)]
pub struct WriteError {
    pub code: usize,
}

/// A destination for rendered text. Implementations promise that a
/// successful write appends exactly the given characters to what was
/// already written, and that a failed write leaves it unchanged.
pub trait Sink {
    /// Everything the sink has accepted so far, in order.
    spec fn written(&self) -> Seq<char>;

    /// Writes the characters of `s`, in order, after everything written
    /// before; on failure the sink accepts nothing.
    fn write_str(&mut self, s: &str) -> (r: Result<(), WriteError>)
        ensures
            r is Ok ==> final(self).written() == old(self).written() + s@,
            r is Err ==> final(self).written() == old(self).written(),
    ;
}

/// A sink that accepts every write into an owned string.
pub struct StringSink {
    out: String,
}

impl StringSink {
    /// An empty sink.
    pub fn new() -> (s: StringSink)
        ensures
            s.written() == Seq::<char>::empty(),
    {
        StringSink { out: String::new() }
    }

    /// Everything written so far.
    pub fn text(&self) -> (s: &String)
        ensures
            s@ == self.written(),
    {
        &self.out
    }
}

impl Sink for StringSink {
    closed spec fn written(&self) -> Seq<char> {
        self.out@
    }

    fn write_str(&mut self, s: &str) -> (r: Result<(), WriteError>) {
        self.out.append(s);
        Ok(())
    }
}

/// A sink that accepts a fixed number of writes and fails on every write
/// after that, reporting a fixed error; failed writes change nothing.
pub struct FailingSink {
    out: String,
    successes_left: usize,
    error_code: usize,
}

impl FailingSink {
    /// A sink that will accept `successes` writes and then fail each
    /// further write with the given code.
    pub fn new(successes: usize, error_code: usize) -> (s: FailingSink)
        ensures
            s.written() == Seq::<char>::empty(),
    {
        FailingSink { out: String::new(), successes_left: successes, error_code }
    }

    /// Everything written so far.
    pub fn text(&self) -> (s: &String)
        ensures
            s@ == self.written(),
    {
        &self.out
    }
}

impl Sink for FailingSink {
    closed spec fn written(&self) -> Seq<char> {
        self.out@
    }

    fn write_str(&mut self, s: &str) -> (r: Result<(), WriteError>) {
        if self.successes_left == 0 {
            Err(WriteError { code: self.error_code })
        } else {
            self.successes_left = self.successes_left - 1;
            self.out.append(s);
            Ok(())
        }
    }
}

} // verus!
