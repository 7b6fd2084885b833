//! Algebraic laws of the rope operations, stated against the same
//! views and spec functions that the operations' contracts use.

use vstd::prelude::*;
use vstd::string::StringSliceAdditionalSpecFns;
use crate::rope::Rope;

verus! {

/// Identity: concatenation with an empty rope preserves content.
/// Together with `Rope::concat`'s contract — the result's content is
/// the operands' contents joined — this pins `concat(empty, r) == r`
/// and `concat(r, empty) == r` under content equality.
pub proof fn lemma_concat_identity(e: Rope, r: Rope)
    requires
        e@.len() == 0,
    ensures
        e@ + r@ == r@,
        r@ + e@ == r@,
{
    assert(e@ + r@ =~= r@);
    assert(r@ + e@ =~= r@);
}

/// Slice decomposition: splitting a rope at any two offsets
/// `0 <= i <= j <= len` and concatenating the three slices restores the
/// original content.  `Rope::char_slice` returns exactly the subranges
/// below, and `Rope::concat` joins them.
pub proof fn lemma_slice_decomposition(r: Rope, i: int, j: int)
    requires
        0 <= i <= j <= r@.len(),
    ensures
        r@.subrange(0, i) + (r@.subrange(i, j) + r@.subrange(j, r@.len() as int)) == r@,
{
    assert(r@.subrange(0, i) + (r@.subrange(i, j) + r@.subrange(j, r@.len() as int)) =~= r@);
}

/// Insert/delete round trip: inserting `s` at `idx` and deleting the
/// range `idx..idx + s.len()` yields the original content back.  The
/// first seq below is `Rope::insert`'s result, the whole equation
/// `Rope::delete`'s result on it.
pub proof fn lemma_insert_delete_roundtrip(r: Rope, s: Rope, idx: int)
    requires
        0 <= idx <= r@.len(),
    ensures
        ({
            let t = r@.subrange(0, idx) + s@ + r@.subrange(idx, r@.len() as int);
            t.subrange(0, idx) + t.subrange(idx + s@.len(), t.len() as int) == r@
        }),
{
    let t = r@.subrange(0, idx) + s@ + r@.subrange(idx, r@.len() as int);
    assert(t.subrange(0, idx) + t.subrange(idx + s@.len(), t.len() as int) =~= r@);
}

/// Construction idempotence: a rope built from a text always compares
/// equal to that text under cross-type equality.
pub fn built_rope_matches_text(t: &str) -> (b: bool)
    ensures
        b,
{
    let r = Rope::from_str(t);
    r.eq_str(t)
}

/// Length additivity: the lengths of all chunks visited by the chunk
/// traversal sum to the rope's total length.
pub fn chunk_lengths_sum(r: &Rope) -> (total: usize)
    requires
        r.wf(),
    ensures
        total == r@.len(),
{
    let n: usize = r.len();
    let mut it = r.str_iter();
    let mut total: usize = 0;
    loop
        invariant
            total + it.rest().len() == r@.len(),
            r@.len() <= usize::MAX,
        decreases it.weight(),
    {
        match it.next() {
            Some(chunk) => {
                total = total + chunk.len();
            },
            None => {
                return total;
            },
        }
    }
}

/// Line reconstruction: concatenating every line yielded by the line
/// traversal rebuilds the rope's content exactly.
pub fn concat_all_lines(r: &Rope) -> (out: Rope)
    requires
        r.wf(),
    ensures
        out.wf(),
        out@ == r@,
{
    let n: usize = r.len();
    let mut it = r.line_iter();
    let mut acc = Rope::from_bytes(Vec::new());
    proof {
        assert(acc@ + it.rest() =~= r@);
    }
    loop
        invariant
            it.wf(),
            acc.wf(),
            acc@ + it.rest() == r@,
            r@.len() <= usize::MAX,
        decreases it.rest().len(),
    {
        match it.next() {
            Some(line) => {
                proof {
                    assert(acc@.len() + line@.len() + it.rest().len() == r@.len());
                }
                acc = Rope::concat(&acc, &line);
                proof {
                    assert(acc@ + it.rest() =~= r@);
                }
            },
            None => {
                proof {
                    assert(acc@ =~= r@);
                }
                return acc;
            },
        }
    }
}

} // verus!
