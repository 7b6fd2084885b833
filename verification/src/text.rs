//! The mathematical model of a text buffer: a sequence of bytes, the
//! count of newline bytes in it, and the byte offset at which a given
//! logical line begins.

use vstd::prelude::*;

verus! {

/// The byte value of the newline character.
pub const NL: u8 = 10;

/// Number of newline bytes contained in `s`.  A trailing span without a
/// terminating newline is not counted.
pub open spec fn newlines(s: Seq<u8>) -> nat
    decreases s.len(),
{
    if s.len() == 0 {
        0
    } else {
        (if s[0] == NL {
            1nat
        } else {
            0nat
        }) + newlines(s.skip(1))
    }
}

/// Byte offset where logical line `lnum` begins in `s`: the position
/// right after the `lnum`-th newline, clamped to `s.len()` when fewer
/// newlines exist.  Line numbers are zero-based.
pub open spec fn line_start_of(s: Seq<u8>, lnum: nat) -> nat
    decreases s.len(),
{
    if lnum == 0 || s.len() == 0 {
        0
    } else if s[0] == NL {
        1 + line_start_of(s.skip(1), (lnum - 1) as nat)
    } else {
        1 + line_start_of(s.skip(1), lnum)
    }
}

/// Skipping one more element of a sequence advances the front by one.
pub proof fn lemma_skip_one(s: Seq<u8>, i: int)
    requires
        0 <= i < s.len(),
    ensures
        s.skip(i).skip(1) == s.skip(i + 1),
{
    assert(s.skip(i).skip(1) =~= s.skip(i + 1));
}

/// A sequence holds no more newlines than bytes.
pub proof fn lemma_newlines_le_len(s: Seq<u8>)
    ensures
        newlines(s) <= s.len(),
    decreases s.len(),
{
    if s.len() > 0 {
        lemma_newlines_le_len(s.skip(1));
    }
}

/// Newline counts add up across concatenation.
pub proof fn lemma_newlines_concat(a: Seq<u8>, b: Seq<u8>)
    ensures
        newlines(a + b) == newlines(a) + newlines(b),
    decreases a.len(),
{
    if a.len() == 0 {
        assert(a + b =~= b);
    } else {
        assert((a + b).skip(1) =~= a.skip(1) + b);
        lemma_newlines_concat(a.skip(1), b);
    }
}

/// A line start offset never exceeds the length of the text.
pub proof fn lemma_line_start_le_len(s: Seq<u8>, lnum: nat)
    ensures
        line_start_of(s, lnum) <= s.len(),
    decreases s.len(),
{
    if lnum != 0 && s.len() != 0 {
        if s[0] == NL {
            lemma_line_start_le_len(s.skip(1), (lnum - 1) as nat);
        } else {
            lemma_line_start_le_len(s.skip(1), lnum);
        }
    }
}

/// A line that begins within the left part of a concatenation begins at
/// the same offset as it does in the left part alone.
pub proof fn lemma_line_start_concat_left(a: Seq<u8>, b: Seq<u8>, lnum: nat)
    requires
        lnum <= newlines(a),
    ensures
        line_start_of(a + b, lnum) == line_start_of(a, lnum),
    decreases a.len(),
{
    if lnum == 0 {
    } else if a.len() == 0 {
    } else {
        assert((a + b).len() > 0);
        assert((a + b)[0] == a[0]);
        assert((a + b).skip(1) =~= a.skip(1) + b);
        if a[0] == NL {
            lemma_line_start_concat_left(a.skip(1), b, (lnum - 1) as nat);
        } else {
            lemma_line_start_concat_left(a.skip(1), b, lnum);
        }
    }
}

/// A line that begins past the left part of a concatenation begins in
/// the right part, offset by the left part's length.
pub proof fn lemma_line_start_concat_right(a: Seq<u8>, b: Seq<u8>, lnum: nat)
    requires
        lnum > newlines(a),
    ensures
        line_start_of(a + b, lnum) == a.len() + line_start_of(b, (lnum - newlines(a)) as nat),
    decreases a.len(),
{
    if a.len() == 0 {
        assert(a + b =~= b);
    } else {
        assert((a + b)[0] == a[0]);
        assert((a + b).skip(1) =~= a.skip(1) + b);
        if a[0] == NL {
            lemma_line_start_concat_right(a.skip(1), b, (lnum - 1) as nat);
        } else {
            lemma_line_start_concat_right(a.skip(1), b, lnum);
        }
    }
}

/// Line start offsets grow with the line number.
pub proof fn lemma_line_start_monotone(s: Seq<u8>, l1: nat, l2: nat)
    requires
        l1 <= l2,
    ensures
        line_start_of(s, l1) <= line_start_of(s, l2),
    decreases s.len(),
{
    if l1 == 0 || s.len() == 0 {
    } else if s[0] == NL {
        lemma_line_start_monotone(s.skip(1), (l1 - 1) as nat, (l2 - 1) as nat);
    } else {
        lemma_line_start_monotone(s.skip(1), l1, l2);
    }
}

/// In a nonempty text every line but the first begins past offset zero.
pub proof fn lemma_line_start_pos(s: Seq<u8>, lnum: nat)
    requires
        s.len() > 0,
        lnum > 0,
    ensures
        line_start_of(s, lnum) >= 1,
{
}

} // verus!
