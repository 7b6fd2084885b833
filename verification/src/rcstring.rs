//! The leaf storage unit: an immutable, cheaply shareable span of text
//! bytes.  Several ropes may share one storage unit by reference; a
//! substring allocates a fresh unit.

use vstd::prelude::*;
use std::rc::Rc;
use crate::text::{newlines, lemma_skip_one, lemma_newlines_le_len, line_start_of, NL};

verus! {

/// A reference-counted, immutable span of text bytes.
#[derive(Debug)]
pub struct RcString {
    bytes: Rc<Vec<u8>>,
}

impl View for RcString {
    type V = Seq<u8>;

    closed spec fn view(&self) -> Seq<u8> {
        self.bytes@
    }
}

impl Clone for RcString {
    /// Cloning shares the same bytes; no text is copied.
    fn clone(&self) -> (r: Self)
        ensures
            r == *self,
    {
        RcString { bytes: self.bytes.clone() }
    }
}

impl RcString {
    /// Wraps a byte buffer as a storage unit.
    pub fn new(v: Vec<u8>) -> (r: Self)
        ensures
            r@ == v@,
    {
        RcString { bytes: Rc::new(v) }
    }

    /// Borrowed view of the full text.
    pub fn as_bytes(&self) -> (r: &Vec<u8>)
        ensures
            r@ == self@,
    {
        &*self.bytes
    }

    /// Total byte length.
    pub fn len(&self) -> (r: usize)
        ensures
            r == self@.len(),
    {
        self.bytes.len()
    }

    /// The byte at offset `i`.
    pub fn byte_at(&self, i: usize) -> (r: u8)
        requires
            i < self@.len(),
        ensures
            r == self@[i as int],
    {
        self.bytes[i]
    }

    /// Count of newline bytes contained in the text.
    pub fn lenlines(&self) -> (r: usize)
        ensures
            r == newlines(self@),
    {
        let mut count: usize = 0;
        let mut i: usize = 0;
        proof {
            lemma_newlines_le_len(self@);
            assert(self@.skip(0) =~= self@);
        }
        while i < self.bytes.len()
            invariant
                i <= self@.len(),
                count <= i,
                count + newlines(self@.skip(i as int)) == newlines(self@),
            decreases self@.len() - i,
        {
            proof {
                lemma_skip_one(self@, i as int);
            }
            if self.bytes[i] == NL {
                count += 1;
            }
            i += 1;
        }
        count
    }

    /// Extracts the `n`-byte substring starting at `idx` as a new
    /// storage unit.
    pub fn substr(&self, idx: usize, n: usize) -> (r: Self)
        requires
            idx + n <= self@.len(),
        ensures
            r@ == self@.subrange(idx as int, idx + n),
    {
        let mut out: Vec<u8> = Vec::new();
        let mut i: usize = 0;
        let total: usize = self.bytes.len();
        while i < n
            invariant
                i <= n,
                idx + n <= total == self@.len(),
                out@ == self@.subrange(idx as int, idx + i),
            decreases n - i,
        {
            out.push(self.bytes[idx + i]);
            proof {
                assert(out@ =~= self@.subrange(idx as int, idx + i + 1));
            }
            i += 1;
        }
        RcString::new(out)
    }
}

} // verus!
