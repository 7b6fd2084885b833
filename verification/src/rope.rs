//! The rope tree: a value that is either a leaf wrapping a storage unit
//! or an internal node concatenating two child ropes, with the left
//! subtree's byte and newline counts cached at construction.  Every
//! operation returns a brand-new immutable value; prior values stay
//! valid, so subtrees are shared rather than copied.

use vstd::prelude::*;
use vstd::string::StringSliceAdditionalSpecFns;
use std::rc::Rc;
use crate::rcstring::RcString;
use crate::text::{
    newlines, line_start_of, lemma_newlines_concat, lemma_newlines_le_len,
    lemma_line_start_concat_left, lemma_line_start_concat_right, lemma_line_start_le_len,
    lemma_line_start_monotone, lemma_line_start_pos, lemma_skip_one, NL,
};

verus! {

/// An internal node: the concatenation of a left and a right subtree,
/// caching the left subtree's total byte count and newline count.
#[derive(Debug)]
pub struct Node {
    /// number of bytes in the left subtree
    leftn: usize,
    /// number of newlines in the left subtree
    leftnnl: usize,
    /// the left subtree
    left: Rope,
    /// the right subtree
    right: Rope,
}

/// An immutable rope representing a byte string.  Cloning is cheap and
/// shares structure; every edit builds a new rope in O(log n) extra
/// memory while old values remain valid.
#[derive(Debug)]
pub enum Rope {
    Node(Rc<Node>),
    Leaf(RcString),
}

/// One end of a character-offset or line-number range.
#[derive(Clone, Copy, Debug)]
pub enum Bound {
    /// the end is at this position, which belongs to the range
    Included(usize),
    /// the end is at this position, which lies outside the range
    Excluded(usize),
    /// the range extends to the edge of the rope
    Unbounded,
}

/// First offset selected by a range whose start is `b`.
pub open spec fn slice_start(b: Bound) -> int {
    match b {
        Bound::Included(i) => i as int,
        Bound::Excluded(i) => i + 1,
        Bound::Unbounded => 0,
    }
}

/// First offset past a range whose end is `b`, in a rope of length `len`.
pub open spec fn slice_end(b: Bound, len: int) -> int {
    match b {
        Bound::Included(i) => i + 1,
        Bound::Excluded(i) => i as int,
        Bound::Unbounded => len,
    }
}

/// The range `(start, end)` selects a well-formed slice of a rope of
/// length `len`.  An inclusive end must lie at or past the start, so
/// the slice length computation cannot underflow.
pub open spec fn slice_ok(start: Bound, end: Bound, len: int) -> bool {
    &&& slice_end(end, len) <= len
    &&& match end {
        Bound::Included(i) => slice_start(start) <= i,
        Bound::Excluded(i) => slice_start(start) <= i,
        Bound::Unbounded => slice_start(start) <= len,
    }
}

impl View for Rope {
    type V = Seq<u8>;

    /// The byte string a rope represents: leaves in left-to-right order.
    closed spec fn view(&self) -> Seq<u8>
        decreases self,
    {
        match self {
            Rope::Leaf(rcs) => rcs@,
            Rope::Node(nd) => nd.left@ + nd.right@,
        }
    }
}

impl Rope {
    /// Well-formedness: cached counters agree with the subtrees they
    /// summarize, and the whole text fits in a machine word.  Every
    /// rope the public operations build is well formed.
    pub closed spec fn wf(self) -> bool
        decreases self,
    {
        match self {
            Rope::Leaf(rcs) => rcs@.len() <= usize::MAX,
            Rope::Node(nd) => {
                &&& nd.left.wf()
                &&& nd.right.wf()
                &&& nd.leftn == nd.left@.len()
                &&& nd.leftnnl == newlines(nd.left@)
                &&& nd.left@.len() + nd.right@.len() <= usize::MAX
            },
        }
    }

    /// Builds a rope from a byte buffer, as a single leaf.
    pub fn from_bytes(v: Vec<u8>) -> (r: Self)
        ensures
            r.wf(),
            r@ == v@,
    {
        proof {
            vstd::std_specs::vec::axiom_spec_len(&v);
        }
        Rope::Leaf(RcString::new(v))
    }

    /// Concatenates two ropes; the result represents `r1` followed by
    /// `r2`.  An empty operand is never wrapped in a node: the other
    /// side is returned as-is (shared, not copied).
    pub fn concat(r1: &Self, r2: &Self) -> (r: Self)
        requires
            r1.wf(),
            r2.wf(),
            r1@.len() + r2@.len() <= usize::MAX,
        ensures
            r.wf(),
            r@ == r1@ + r2@,
    {
        if r1.len() == 0 {
            proof {
                assert(r1@ + r2@ =~= r2@);
            }
            r2.clone()
        } else if r2.len() == 0 {
            proof {
                assert(r1@ + r2@ =~= r1@);
            }
            r1.clone()
        } else {
            let leftn: usize = r1.len();
            let leftnnl: usize = r1.lenlines();
            Rope::Node(Rc::new(Node { leftn, leftnnl, left: r1.clone(), right: r2.clone() }))
        }
    }

    /// Total length of the rope in bytes, read off the cached counters
    /// along the right spine.
    pub fn len(&self) -> (r: usize)
        requires
            self.wf(),
        ensures
            r == self@.len(),
        decreases self,
    {
        match self {
            Rope::Node(nd) => nd.leftn + nd.right.len(),
            Rope::Leaf(rcs) => rcs.len(),
        }
    }

    /// Number of newline bytes in the rope.  A trailing span without a
    /// terminating newline is not counted.
    pub fn lenlines(&self) -> (r: usize)
        requires
            self.wf(),
        ensures
            r == newlines(self@),
        decreases self,
    {
        match self {
            Rope::Node(nd) => {
                proof {
                    lemma_newlines_concat(nd.left@, nd.right@);
                    lemma_newlines_le_len(nd.left@);
                    lemma_newlines_le_len(nd.right@);
                }
                nd.leftnnl + nd.right.lenlines()
            },
            Rope::Leaf(rcs) => rcs.lenlines(),
        }
    }
}

/// Start of the span a delete range removes.
pub open spec fn del_start(b: Bound) -> int {
    match b {
        Bound::Included(i) => i as int,
        Bound::Excluded(_) => 0,
        Bound::Unbounded => 0,
    }
}

/// First offset past the span a delete range removes, in a rope of
/// length `len`.
pub open spec fn del_end(b: Bound, len: int) -> int {
    match b {
        Bound::Included(i) => i + 1,
        Bound::Excluded(i) => i as int,
        Bound::Unbounded => len,
    }
}

/// First line selected by a line range whose start is `b`.
pub open spec fn line_lo(b: Bound) -> int {
    match b {
        Bound::Included(i) => i as int,
        Bound::Excluded(i) => i + 1,
        Bound::Unbounded => 0,
    }
}

/// First line past a line range whose bounded end is `b`.
pub open spec fn line_hi(b: Bound) -> int {
    match b {
        Bound::Included(i) => i + 1,
        Bound::Excluded(i) => i as int,
        Bound::Unbounded => 0,
    }
}

/// Scans `s` for the byte offset where logical line `lnum` begins,
/// clamping to the end of the text when fewer newlines exist.
fn nth_line_idx(s: &Vec<u8>, lnum: usize) -> (r: usize)
    ensures
        r == line_start_of(s@, lnum as nat),
{
    let mut n: usize = lnum;
    let mut i: usize = 0;
    proof {
        assert(s@.skip(0) =~= s@);
    }
    while i < s.len()
        invariant
            i <= s@.len(),
            line_start_of(s@, lnum as nat) == i + line_start_of(s@.skip(i as int), n as nat),
        decreases s@.len() - i,
    {
        if n == 0 {
            return i;
        }
        proof {
            lemma_skip_one(s@, i as int);
        }
        if s[i] == NL {
            n -= 1;
        }
        i += 1;
    }
    i
}

impl Rope {
    /// A new rope holding the `n`-byte span of this one that starts at
    /// offset `idx`.  Descends only into the subtrees that contain the
    /// requested span, sharing untouched leaves.
    pub fn char_substr(&self, idx: usize, n: usize) -> (r: Self)
        requires
            self.wf(),
            idx + n <= self@.len(),
        ensures
            r.wf(),
            r@ == self@.subrange(idx as int, idx + n),
        decreases self,
    {
        match self {
            Rope::Leaf(rcs) => Rope::Leaf(rcs.substr(idx, n)),
            Rope::Node(nd) => {
                if idx >= nd.leftn {
                    let r = nd.right.char_substr(idx - nd.leftn, n);
                    proof {
                        assert(nd.right@.subrange(idx - nd.leftn, idx - nd.leftn + n) =~= self@
                            .subrange(idx as int, idx + n));
                    }
                    r
                } else if idx + n <= nd.leftn {
                    let r = nd.left.char_substr(idx, n);
                    proof {
                        assert(nd.left@.subrange(idx as int, idx + n) =~= self@.subrange(
                            idx as int,
                            idx + n,
                        ));
                    }
                    r
                } else {
                    let r = Rope::concat(
                        &nd.left.char_substr(idx, nd.leftn - idx),
                        &nd.right.char_substr(0, n - (nd.leftn - idx)),
                    );
                    proof {
                        assert(nd.left@.subrange(idx as int, nd.leftn as int) + nd.right@.subrange(
                            0,
                            idx + n - nd.leftn,
                        ) =~= self@.subrange(idx as int, idx + n));
                    }
                    r
                }
            },
        }
    }

    /// A new rope holding the slice of this one bounded by `start` and
    /// `end`, measured in byte offsets.
    pub fn char_slice(&self, start: Bound, end: Bound) -> (r: Self)
        requires
            self.wf(),
            slice_ok(start, end, self@.len() as int),
        ensures
            r.wf(),
            r@ == self@.subrange(slice_start(start), slice_end(end, self@.len() as int)),
    {
        let s: usize = match start {
            Bound::Included(b) => b,
            Bound::Excluded(b) => b + 1,
            Bound::Unbounded => 0,
        };
        let n: usize = match end {
            Bound::Included(b) => (b - s) + 1,
            Bound::Excluded(b) => b - s,
            Bound::Unbounded => self.len() - s,
        };
        self.char_substr(s, n)
    }

    /// Byte offset where logical line `lnum` begins.  Line indices past
    /// the last newline resolve to the length of the rope.
    pub fn line_start(&self, lnum: usize) -> (r: usize)
        requires
            self.wf(),
        ensures
            r == line_start_of(self@, lnum as nat),
        decreases self,
    {
        match self {
            Rope::Leaf(rcs) => nth_line_idx(rcs.as_bytes(), lnum),
            Rope::Node(nd) => {
                if lnum <= nd.leftnnl {
                    proof {
                        lemma_line_start_concat_left(nd.left@, nd.right@, lnum as nat);
                    }
                    nd.left.line_start(lnum)
                } else {
                    proof {
                        lemma_line_start_concat_right(nd.left@, nd.right@, lnum as nat);
                        lemma_line_start_le_len(nd.right@, (lnum - nd.leftnnl) as nat);
                    }
                    nd.right.line_start(lnum - nd.leftnnl) + nd.leftn
                }
            },
        }
    }

    /// A new rope holding the slice of this one bounded by `start` and
    /// `end`, measured in line numbers.  The terminating newline of the
    /// last requested line is included when it exists.
    pub fn line_slice(&self, start: Bound, end: Bound) -> (r: Self)
        requires
            self.wf(),
            (start matches Bound::Excluded(i) ==> i < usize::MAX),
            (match end {
                Bound::Included(i) => i < usize::MAX && line_lo(start) <= i + 1,
                Bound::Excluded(i) => line_lo(start) <= i as int,
                Bound::Unbounded => true,
            }),
        ensures
            r.wf(),
            r@ == self@.subrange(
                line_start_of(self@, line_lo(start) as nat) as int,
                match end {
                    Bound::Unbounded => self@.len() as int,
                    _ => line_start_of(self@, line_hi(end) as nat) as int,
                },
            ),
    {
        let s: usize = match start {
            Bound::Included(b) => self.line_start(b),
            Bound::Excluded(b) => self.line_start(b + 1),
            Bound::Unbounded => 0,
        };
        proof {
            lemma_line_start_le_len(self@, line_lo(start) as nat);
        }
        match end {
            Bound::Included(b) => {
                proof {
                    lemma_line_start_monotone(self@, line_lo(start) as nat, (b + 1) as nat);
                    lemma_line_start_le_len(self@, (b + 1) as nat);
                }
                let e: usize = self.line_start(b + 1);
                self.char_slice(Bound::Included(s), Bound::Excluded(e))
            },
            Bound::Excluded(b) => {
                proof {
                    lemma_line_start_monotone(self@, line_lo(start) as nat, b as nat);
                    lemma_line_start_le_len(self@, b as nat);
                }
                let e: usize = self.line_start(b);
                self.char_slice(Bound::Included(s), Bound::Excluded(e))
            },
            Bound::Unbounded => self.char_slice(Bound::Included(s), Bound::Unbounded),
        }
    }

    /// A new rope holding `n` logical lines starting at line `idx`,
    /// including the trailing newline of the last one when it exists.
    pub fn line_substr(&self, idx: usize, n: usize) -> (r: Self)
        requires
            self.wf(),
            idx + n <= usize::MAX,
        ensures
            r.wf(),
            r@ == self@.subrange(
                line_start_of(self@, idx as nat) as int,
                line_start_of(self@, (idx + n) as nat) as int,
            ),
    {
        self.line_slice(Bound::Included(idx), Bound::Excluded(idx + n))
    }

    /// A new rope with `rope` inserted at byte offset `idx`.  The two
    /// surrounding slices share structure with this rope; the shorter
    /// side is kept as the outer operand to bias toward shallower trees.
    pub fn insert(&self, idx: usize, rope: Self) -> (r: Self)
        requires
            self.wf(),
            rope.wf(),
            idx <= self@.len(),
            self@.len() + rope@.len() <= usize::MAX,
        ensures
            r.wf(),
            r@ == self@.subrange(0, idx as int) + rope@ + self@.subrange(
                idx as int,
                self@.len() as int,
            ),
    {
        let left = self.char_slice(Bound::Unbounded, Bound::Excluded(idx));
        let right = self.char_slice(Bound::Included(idx), Bound::Unbounded);
        let r = if left.len() > right.len() {
            Rope::concat(&left, &Rope::concat(&rope, &right))
        } else {
            Rope::concat(&Rope::concat(&left, &rope), &right)
        };
        proof {
            assert(r@ =~= self@.subrange(0, idx as int) + rope@ + self@.subrange(
                idx as int,
                self@.len() as int,
            ));
        }
        r
    }

    /// A new rope with the span selected by `start` and `end` removed.
    /// An excluded start bound is an unsupported range form and is
    /// ruled out by contract.
    pub fn delete(&self, start: Bound, end: Bound) -> (r: Self)
        requires
            self.wf(),
            !(start is Excluded),
            del_start(start) <= del_end(end, self@.len() as int),
            del_end(end, self@.len() as int) <= self@.len(),
        ensures
            r.wf(),
            r@ == self@.subrange(0, del_start(start)) + self@.subrange(
                del_end(end, self@.len() as int),
                self@.len() as int,
            ),
    {
        let r = match (start, end) {
            (Bound::Unbounded, Bound::Unbounded) => Rope::from_bytes(Vec::new()),
            (Bound::Unbounded, Bound::Included(hi)) => self.char_slice(
                Bound::Included(hi + 1),
                Bound::Unbounded,
            ),
            (Bound::Unbounded, Bound::Excluded(hi)) => self.char_slice(
                Bound::Included(hi),
                Bound::Unbounded,
            ),
            (Bound::Included(lo), Bound::Unbounded) => self.char_slice(
                Bound::Unbounded,
                Bound::Excluded(lo),
            ),
            (Bound::Included(lo), Bound::Included(hi)) => Rope::concat(
                &self.char_slice(Bound::Unbounded, Bound::Excluded(lo)),
                &self.char_slice(Bound::Included(hi + 1), Bound::Unbounded),
            ),
            (Bound::Included(lo), Bound::Excluded(hi)) => Rope::concat(
                &self.char_slice(Bound::Unbounded, Bound::Excluded(lo)),
                &self.char_slice(Bound::Included(hi), Bound::Unbounded),
            ),
            (Bound::Excluded(_), _) => vstd::pervasive::unreached(),
        };
        proof {
            assert(r@ =~= self@.subrange(0, del_start(start)) + self@.subrange(
                del_end(end, self@.len() as int),
                self@.len() as int,
            ));
        }
        r
    }
}

impl Clone for Rope {
    /// Cloning shares the whole tree; no text is copied.
    fn clone(&self) -> (r: Self)
        ensures
            r == *self,
    {
        match self {
            Rope::Node(nd) => Rope::Node(nd.clone()),
            Rope::Leaf(rcs) => Rope::Leaf(rcs.clone()),
        }
    }
}

/// How a leaf's content is unpacked during traversal: as one whole
/// chunk, or byte by byte.
pub trait LeafIter: Sized {
    /// The kind of element the unpacking yields.
    type Item;

    /// Bytes not yet yielded from the current leaf.
    spec fn rest(&self) -> Seq<u8>;

    /// Upper bound on the number of `next` calls still to come.
    spec fn pending(&self) -> nat;

    /// The bytes an element stands for.
    spec fn item_bytes(item: Self::Item) -> Seq<u8>;

    /// Starts unpacking the given leaf content.
    fn from(s: &RcString) -> (r: Self)
        ensures
            r.rest() == s@,
            r.pending() <= s@.len() + 1,
    ;

    /// Yields the next element, or `None` once the leaf is drained.
    fn next(&mut self) -> (r: Option<Self::Item>)
        ensures
            match r {
                Some(item) => old(self).rest() == Self::item_bytes(item) + final(self).rest()
                    && final(self).pending() < old(self).pending(),
                None => final(self).rest() == old(self).rest() && final(self).rest().len() == 0
                    && final(self).pending() == old(self).pending(),
            },
    ;
}

/// Unpacks a leaf as one whole chunk.
pub struct StrIter {
    s: Option<RcString>,
}

impl LeafIter for StrIter {
    type Item = RcString;

    closed spec fn rest(&self) -> Seq<u8> {
        match self.s {
            Some(rcs) => rcs@,
            None => Seq::empty(),
        }
    }

    closed spec fn pending(&self) -> nat {
        match self.s {
            Some(_) => 1nat,
            None => 0nat,
        }
    }

    open spec fn item_bytes(item: RcString) -> Seq<u8> {
        item@
    }

    fn from(s: &RcString) -> (r: Self) {
        StrIter { s: Some(s.clone()) }
    }

    fn next(&mut self) -> (r: Option<RcString>) {
        match &self.s {
            Some(rcs) => {
                let out = rcs.clone();
                self.s = None;
                proof {
                    assert(out@ + Seq::<u8>::empty() =~= out@);
                }
                Some(out)
            },
            None => None,
        }
    }
}

/// Unpacks a leaf byte by byte.
pub struct CharIter {
    s: RcString,
    pos: usize,
}

impl LeafIter for CharIter {
    type Item = u8;

    closed spec fn rest(&self) -> Seq<u8> {
        if self.pos <= self.s@.len() {
            self.s@.skip(self.pos as int)
        } else {
            Seq::empty()
        }
    }

    closed spec fn pending(&self) -> nat {
        self.rest().len()
    }

    open spec fn item_bytes(item: u8) -> Seq<u8> {
        seq![item]
    }

    fn from(s: &RcString) -> (r: Self) {
        let r = CharIter { s: s.clone(), pos: 0 };
        proof {
            assert(r.s@.skip(0) =~= r.s@);
        }
        r
    }

    fn next(&mut self) -> (r: Option<u8>) {
        let ghost pre = *self;
        if self.pos < self.s.len() {
            let b: u8 = self.s.byte_at(self.pos);
            self.pos = self.pos + 1;
            proof {
                assert(pre.rest() =~= Self::item_bytes(b) + self.rest());
            }
            Some(b)
        } else {
            None
        }
    }
}

/// Bytes of a stack of subtrees, topmost (= last pushed) first.
spec fn stack_text(s: Seq<Rope>) -> Seq<u8>
    decreases s.len(),
{
    if s.len() == 0 {
        Seq::empty()
    } else {
        s.last()@ + stack_text(s.drop_last())
    }
}

/// Size measure of a rope: leaves weigh their length plus a constant,
/// nodes one more than their subtrees together.
spec fn rope_weight(r: Rope) -> nat
    decreases r,
{
    match r {
        Rope::Leaf(rcs) => rcs@.len() + 2,
        Rope::Node(nd) => 1 + rope_weight(nd.left) + rope_weight(nd.right),
    }
}

/// Total weight of a stack of subtrees.
spec fn stack_weight(s: Seq<Rope>) -> nat
    decreases s.len(),
{
    if s.len() == 0 {
        0
    } else {
        rope_weight(s.last()) + stack_weight(s.drop_last())
    }
}

proof fn lemma_stack_text_push(s: Seq<Rope>, r: Rope)
    ensures
        stack_text(s.push(r)) == r@ + stack_text(s),
        stack_weight(s.push(r)) == rope_weight(r) + stack_weight(s),
{
    assert(s.push(r).last() == r);
    assert(s.push(r).drop_last() =~= s);
}

/// Depth-first pre-order traversal over a rope: an explicit stack of
/// pending subtrees, plus the unpacking of the current leaf, which is
/// fully drained before the stack resumes.
pub struct RopeIter<T: LeafIter> {
    stack: Vec<Rope>,
    curriter: Option<T>,
}

spec fn curr_rest<T: LeafIter>(c: Option<T>) -> Seq<u8> {
    match c {
        Some(it) => it.rest(),
        None => Seq::empty(),
    }
}

spec fn curr_pending<T: LeafIter>(c: Option<T>) -> nat {
    match c {
        Some(it) => it.pending(),
        None => 0nat,
    }
}

impl<T: LeafIter> RopeIter<T> {
    /// Bytes the traversal has not yet yielded.
    pub closed spec fn rest(&self) -> Seq<u8> {
        curr_rest(self.curriter) + stack_text(self.stack@)
    }

    /// Decreasing measure of the traversal work left.
    pub closed spec fn weight(&self) -> nat {
        curr_pending(self.curriter) + stack_weight(self.stack@)
    }

    /// Yields the next element in document order, or `None` once the
    /// whole rope has been traversed.
    pub fn next(&mut self) -> (r: Option<T::Item>)
        ensures
            match r {
                Some(item) => old(self).rest() == T::item_bytes(item) + final(self).rest()
                    && final(self).weight() < old(self).weight(),
                None => old(self).rest().len() == 0 && final(self).rest().len() == 0,
            },
    {
        loop
            invariant
                self.rest() == old(self).rest(),
                self.weight() <= old(self).weight(),
            decreases self.weight(),
        {
            let ghost at_top = *self;
            let got = match &mut self.curriter {
                Some(it) => it.next(),
                None => None,
            };
            match got {
                Some(item) => {
                    proof {
                        assert(at_top.rest() =~= T::item_bytes(item) + self.rest());
                    }
                    return Some(item);
                },
                None => {
                    self.curriter = None;
                    proof {
                        assert(self.rest() =~= at_top.rest());
                    }
                    let ghost cleared = *self;
                    match self.stack.pop() {
                        None => {
                            return None;
                        },
                        Some(top) => {
                            proof {
                                assert(cleared.stack@.drop_last() =~= self.stack@);
                                assert(cleared.stack@.last() == top);
                            }
                            let ghost popped = *self;
                            match top {
                                Rope::Node(nd) => {
                                    self.stack.push(nd.right.clone());
                                    let ghost mid = *self;
                                    self.stack.push(nd.left.clone());
                                    proof {
                                        lemma_stack_text_push(popped.stack@, mid.stack@.last());
                                        lemma_stack_text_push(mid.stack@, self.stack@.last());
                                        assert(self.rest() =~= at_top.rest());
                                    }
                                },
                                Rope::Leaf(rcs) => {
                                    self.curriter = Some(T::from(&rcs));
                                    proof {
                                        assert(self.rest() =~= at_top.rest());
                                    }
                                },
                            }
                        },
                    }
                },
            }
        }
    }
}

impl Rope {
    /// Traversal over the leaf chunks of the rope in document order.
    pub fn str_iter(&self) -> (r: RopeIter<StrIter>)
        ensures
            r.rest() == self@,
    {
        let mut stack: Vec<Rope> = Vec::new();
        stack.push(self.clone());
        proof {
            lemma_stack_text_push(Seq::empty(), *self);
            assert(Seq::<u8>::empty() + (self@ + Seq::<u8>::empty()) =~= self@);
        }
        RopeIter { stack, curriter: None }
    }

    /// Traversal over the bytes of the rope in document order.
    pub fn char_iter(&self) -> (r: RopeIter<CharIter>)
        ensures
            r.rest() == self@,
    {
        let mut stack: Vec<Rope> = Vec::new();
        stack.push(self.clone());
        proof {
            lemma_stack_text_push(Seq::empty(), *self);
            assert(Seq::<u8>::empty() + (self@ + Seq::<u8>::empty()) =~= self@);
        }
        RopeIter { stack, curriter: None }
    }

    /// Traversal over the logical lines of the rope.  Newlines are line
    /// terminators and are included in the yielded lines.
    pub fn line_iter(&self) -> (r: LineIter)
        requires
            self.wf(),
        ensures
            r.wf(),
            r.rest() == self@,
    {
        LineIter::from_rope(self.clone())
    }
}

impl Rope {
    /// Builds a rope from a text slice, copying its bytes into one leaf.
    pub fn from_str(s: &str) -> (r: Self)
        ensures
            r.wf(),
            r@ == s.spec_bytes(),
    {
        Rope::from_bytes(vstd::slice::slice_to_vec(s.as_bytes()))
    }

    /// Content equality against a raw text view: true exactly when the
    /// rope's bytes are the text's bytes.
    pub fn eq_str(&self, other: &str) -> (r: bool)
        ensures
            r == (self@ == other.spec_bytes()),
    {
        let bytes = other.as_bytes();
        let mut it = self.char_iter();
        let mut i: usize = 0;
        proof {
            assert(self@.take(0) =~= Seq::<u8>::empty());
            assert(Seq::<u8>::empty() + self@ =~= self@);
            assert(bytes@.take(0) =~= Seq::<u8>::empty());
        }
        loop
            invariant
                i <= bytes@.len(),
                i <= self@.len(),
                bytes@ == other.spec_bytes(),
                self@.take(i as int) == bytes@.take(i as int),
                self@ == self@.take(i as int) + it.rest(),
            decreases it.weight(),
        {
            let ghost pre = it;
            match it.next() {
                Some(x) => {
                    proof {
                        assert(self@[i as int] == pre.rest()[0]);
                        assert(pre.rest()[0] == x);
                    }
                    if i >= bytes.len() {
                        proof {
                            assert(self@.len() > bytes@.len());
                        }
                        return false;
                    }
                    if x != bytes[i] {
                        proof {
                            assert(self@[i as int] != bytes@[i as int]);
                        }
                        return false;
                    }
                    proof {
                        assert(self@.take(i + 1) =~= bytes@.take(i + 1));
                        assert(self@ =~= self@.take(i + 1) + it.rest());
                    }
                    i += 1;
                },
                None => {
                    proof {
                        assert(self@ =~= self@.take(i as int));
                    }
                    if i == bytes.len() {
                        proof {
                            assert(self@ =~= bytes@);
                        }
                        return true;
                    } else {
                        proof {
                            assert(self@.len() != bytes@.len());
                        }
                        return false;
                    }
                },
            }
        }
    }
}

impl PartialEq for Rope {
    /// Ropes are equal exactly when they hold the same bytes, whatever
    /// their tree shapes: character sequences are compared under
    /// parallel traversal, never inferred from structure.
    fn eq(&self, other: &Self) -> (r: bool) {
        let mut it1 = self.char_iter();
        let mut it2 = other.char_iter();
        let ghost mut done: Seq<u8> = Seq::empty();
        proof {
            assert(Seq::<u8>::empty() + self@ =~= self@);
            assert(Seq::<u8>::empty() + other@ =~= other@);
        }
        loop
            invariant
                done + it1.rest() == self@,
                done + it2.rest() == other@,
            decreases it1.weight(),
        {
            let ghost pre1 = it1;
            let ghost pre2 = it2;
            let a = it1.next();
            let b = it2.next();
            match (a, b) {
                (Some(x), Some(y)) => {
                    proof {
                        assert(self@[done.len() as int] == pre1.rest()[0] == x);
                        assert(other@[done.len() as int] == pre2.rest()[0] == y);
                    }
                    if x != y {
                        return false;
                    }
                    proof {
                        done = done + seq![x];
                        assert(done + it1.rest() =~= self@);
                        assert(done + it2.rest() =~= other@);
                    }
                },
                (None, None) => {
                    proof {
                        assert(self@ =~= done);
                        assert(other@ =~= done);
                    }
                    return true;
                },
                (Some(x), None) => {
                    proof {
                        assert(self@.len() > done.len());
                        assert(other@.len() == done.len());
                    }
                    return false;
                },
                (None, Some(y)) => {
                    proof {
                        assert(other@.len() > done.len());
                        assert(self@.len() == done.len());
                    }
                    return false;
                },
            }
        }
    }
}

impl vstd::std_specs::cmp::PartialEqSpecImpl for Rope {
    open spec fn obeys_eq_spec() -> bool {
        true
    }

    open spec fn eq_spec(&self, other: &Rope) -> bool {
        self@ == other@
    }
}

impl PartialEq<str> for Rope {
    /// Equality against a raw text view, defined by content.
    fn eq(&self, other: &str) -> (r: bool) {
        self.eq_str(other)
    }
}

impl vstd::std_specs::cmp::PartialEqSpecImpl<str> for Rope {
    open spec fn obeys_eq_spec() -> bool {
        true
    }

    open spec fn eq_spec(&self, other: &str) -> bool {
        self@ == other.spec_bytes()
    }
}

impl PartialEq<Rope> for str {
    /// Equality of a raw text view against a rope, defined by content.
    fn eq(&self, other: &Rope) -> (r: bool) {
        other.eq_str(self)
    }
}

impl vstd::std_specs::cmp::PartialEqSpecImpl<Rope> for str {
    open spec fn obeys_eq_spec() -> bool {
        true
    }

    open spec fn eq_spec(&self, other: &Rope) -> bool {
        self.spec_bytes() == other@
    }
}

/// Traversal over the logical lines of a rope: repeatedly slices the
/// first line off a shrinking view until nothing remains.
pub struct LineIter {
    slice: Rope,
}

impl LineIter {
    /// The remaining view is a well-formed rope.
    pub closed spec fn wf(&self) -> bool {
        self.slice.wf()
    }

    /// Bytes of the lines not yet yielded.
    pub closed spec fn rest(&self) -> Seq<u8> {
        self.slice@
    }

    /// Starts a line traversal over the given rope.
    pub fn from_rope(rope: Rope) -> (r: Self)
        requires
            rope.wf(),
        ensures
            r.wf(),
            r.rest() == rope@,
    {
        LineIter { slice: rope }
    }

    /// Yields the next logical line as a rope — including its
    /// terminating newline when it has one — or `None` once the
    /// remaining view is empty.
    pub fn next(&mut self) -> (r: Option<Rope>)
        requires
            old(self).wf(),
        ensures
            final(self).wf(),
            match r {
                Some(line) => {
                    &&& line.wf()
                    &&& line@.len() > 0
                    &&& line@ == old(self).rest().subrange(
                        0,
                        line_start_of(old(self).rest(), 1) as int,
                    )
                    &&& old(self).rest() == line@ + final(self).rest()
                },
                None => old(self).rest().len() == 0 && final(self).rest() == old(self).rest(),
            },
    {
        if self.slice.len() == 0 {
            return None;
        }
        let line = self.slice.line_slice(Bound::Included(0), Bound::Excluded(1));
        let rest = self.slice.line_slice(Bound::Included(1), Bound::Unbounded);
        proof {
            lemma_line_start_pos(self.slice@, 1);
            lemma_line_start_le_len(self.slice@, 1);
            assert(self.slice@.subrange(0, line_start_of(self.slice@, 1) as int) + self.slice@
                .subrange(
                line_start_of(self.slice@, 1) as int,
                self.slice@.len() as int,
            ) =~= self.slice@);
        }
        self.slice = rest;
        Some(line)
    }
}

} // verus!
