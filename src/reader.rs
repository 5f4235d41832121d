//! Framing of the request line: bytes accumulate in a bounded buffer until
//! they end with CRLF, the stream closes, or the buffer is full.

use vstd::prelude::*;
use crate::error::RequestError;

verus! {

/// Room for 1024 bytes of request and the two-byte terminator.
pub const REQUEST_CAPACITY: usize = 1026;

/// Whether `s` ends with the two bytes CR LF.
pub open spec fn ends_with_crlf(s: Seq<u8>) -> bool {
    s.len() >= 2 && s[s.len() - 2] == 13u8 && s[s.len() - 1] == 10u8
}

/// What one read from the stream led to.
#[derive(Debug)]
pub enum ReadStep {
    /// The full request line, without its terminator.
    Line(Vec<u8>),
    /// No terminator yet: read again, at most `room()` bytes.
    More,
    /// The request cannot be framed; the connection is dropped without a response.
    Failed(RequestError),
}

/// Accumulates the bytes of one request line.
pub struct RequestReader {
    buf: Vec<u8>,
}

impl View for RequestReader {
    type V = Seq<u8>;

    closed spec fn view(&self) -> Seq<u8> {
        self.buf@
    }
}

impl RequestReader {
    /// A reader that still waits for its line: below capacity, no terminator yet.
    pub open spec fn wf(&self) -> bool {
        self@.len() < REQUEST_CAPACITY && !ends_with_crlf(self@)
    }

    pub fn new() -> (r: Self)
        ensures
            r@ == Seq::<u8>::empty(),
            r.wf(),
    {
        RequestReader { buf: Vec::new() }
    }

    /// How many more bytes the buffer can take.
    pub fn room(&self) -> (r: usize)
        requires
            self.wf(),
        ensures
            r == REQUEST_CAPACITY - self@.len(),
    {
        REQUEST_CAPACITY - self.buf.len()
    }

    /// Takes the bytes of one read; an empty `chunk` means the stream closed.
    pub fn feed(&mut self, chunk: &[u8]) -> (r: ReadStep)
        requires
            old(self).wf(),
        ensures
            ({
                let all = old(self)@ + chunk@;
                if all.len() <= REQUEST_CAPACITY && ends_with_crlf(all) {
                    r is Line && r->Line_0@ == all.take(all.len() - 2)
                } else if all.len() >= REQUEST_CAPACITY || chunk@.len() == 0 {
                    r is Failed && r->Failed_0 == RequestError::UnexpectedClose
                } else {
                    r is More && final(self)@ == all && final(self).wf()
                }
            }),
    {
        if chunk.len() > REQUEST_CAPACITY - self.buf.len() {
            return ReadStep::Failed(RequestError::UnexpectedClose);
        }
        let ghost before = self.buf@;
        let mut i: usize = 0;
        while i < chunk.len()
            invariant
                i <= chunk@.len(),
                before.len() + chunk@.len() <= REQUEST_CAPACITY,
                self.buf@ == before + chunk@.take(i as int),
            decreases chunk.len() - i,
        {
            self.buf.push(chunk[i]);
            i = i + 1;
            proof {
                assert(chunk@.take(i as int) == chunk@.take(i - 1) + seq![chunk@[i - 1]]);
            }
        }
        proof {
            assert(chunk@.take(chunk@.len() as int) == chunk@);
        }
        let n = self.buf.len();
        if n >= 2 && self.buf[n - 2] == 13u8 && self.buf[n - 1] == 10u8 {
            let mut line: Vec<u8> = Vec::new();
            let mut j: usize = 0;
            while j < n - 2
                invariant
                    n == self.buf@.len(),
                    n >= 2,
                    j <= n - 2,
                    line@ == self.buf@.take(j as int),
                decreases n - 2 - j,
            {
                line.push(self.buf[j]);
                j = j + 1;
                proof {
                    assert(self.buf@.take(j as int) == self.buf@.take(j - 1) + seq![self.buf@[j - 1]]);
                }
            }
            ReadStep::Line(line)
        } else if n >= REQUEST_CAPACITY || chunk.len() == 0 {
            ReadStep::Failed(RequestError::UnexpectedClose)
        } else {
            ReadStep::More
        }
    }
}

} // verus!
