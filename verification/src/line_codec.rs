//! Newline-delimited framing over a raw byte stream.
//!
//! The control endpoint (and the listener endpoint, in deployments without
//! WebSocket framing) speaks text lines terminated by a line feed. The codec
//! accumulates raw bytes as they arrive and splits complete lines off; the
//! embedding transport decodes the split-off bytes as UTF-8 text.

use vstd::prelude::*;
use vstd::string::*;

verus! {

/// The line terminator.
pub open spec fn line_feed() -> u8 {
    10u8
}

/// `i` is the position of the first line terminator in `s`.
pub open spec fn is_first_newline(s: Seq<u8>, i: int) -> bool {
    &&& 0 <= i < s.len()
    &&& s[i] == line_feed()
    &&& forall|j: int| 0 <= j < i ==> s[j] != line_feed()
}

/// Splits a byte stream into newline-terminated lines.
pub struct LineCodec {
    /// Bytes received and not yet split off as a complete line.
    pub buf: Vec<u8>,
}

impl LineCodec {
    /// An empty codec.
    pub fn new() -> (r: LineCodec)
        ensures
            r.buf@ == Seq::<u8>::empty(),
    {
        LineCodec { buf: Vec::new() }
    }

    /// Append freshly received bytes to the buffer.
    pub fn feed(&mut self, bytes: &[u8])
        ensures
            final(self).buf@ == old(self).buf@ + bytes@,
    {
        let n = bytes.len();
        let mut i: usize = 0;
        while i < n
            invariant
                i <= n,
                n == bytes@.len(),
                self.buf@ == old(self).buf@ + bytes@.subrange(0, i as int),
            decreases n - i,
        {
            self.buf.push(bytes[i]);
            proof {
                assert(self.buf@ =~= old(self).buf@ + bytes@.subrange(0, i + 1));
            }
            i += 1;
        }
        proof {
            assert(self.buf@ =~= old(self).buf@ + bytes@);
        }
    }

    /// Split off the first complete line, without its terminator, leaving the
    /// bytes after the terminator buffered. Returns nothing when no complete
    /// line has arrived yet, leaving the buffer untouched.
    pub fn decode(&mut self) -> (r: Option<Vec<u8>>)
        ensures
            r is Some <==> exists|i: int| is_first_newline(old(self).buf@, i),
            forall|i: int| is_first_newline(old(self).buf@, i) ==> {
                &&& r matches Some(line) && line@ == old(self).buf@.subrange(0, i)
                &&& final(self).buf@ == old(self).buf@.subrange(i + 1, old(self).buf@.len() as int)
            },
            r is None ==> *final(self) == *old(self),
    {
        let n = self.buf.len();
        let mut k: usize = 0;
        while k < n
            invariant
                k <= n,
                n == self.buf@.len(),
                *self == *old(self),
                forall|j: int| 0 <= j < k ==> self.buf@[j] != line_feed(),
            decreases n - k,
        {
            if self.buf[k] == 10u8 {
                let mut rest = self.buf.split_off(k + 1);
                core::mem::swap(&mut self.buf, &mut rest);
                rest.pop();
                proof {
                    assert(is_first_newline(old(self).buf@, k as int));
                    assert(rest@ =~= old(self).buf@.subrange(0, k as int));
                    assert forall|i: int| is_first_newline(old(self).buf@, i) implies i == k by {
                        if i < k {
                            assert(old(self).buf@[i] != line_feed());
                        }
                        if k < i {
                            assert(old(self).buf@[k as int] != line_feed());
                        }
                    }
                }
                return Some(rest);
            }
            k += 1;
        }
        proof {
            assert forall|i: int| !is_first_newline(old(self).buf@, i) by {
                if 0 <= i < old(self).buf@.len() {
                    assert(old(self).buf@[i] != line_feed());
                }
            }
        }
        None
    }
}

/// Render `line` on the wire: its UTF-8 bytes followed by the terminator.
pub fn encode_line(line: &str) -> (r: Vec<u8>)
    ensures
        r@ == line.spec_bytes().push(line_feed()),
{
    let mut bytes = line.as_bytes_vec();
    bytes.push(10u8);
    bytes
}

} // verus!
