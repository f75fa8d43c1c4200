//! The input abstraction: a passive, immutable description of a token
//! stream, and the cursor that tracks a position within one stream for the
//! duration of a single parse.

use vstd::prelude::*;

verus! {

/// A source of tokens. Given an offset it produces the next token and the
/// offset following it; it can slice a view between two offsets; and it
/// reports its starting offset. A source is read-only for the whole parse.
///
/// Offsets are plain indices into the token sequence `tokens()`; they are
/// meaningful only for the source that produced them.
pub trait Input {
    /// The atomic unit read from the source; cheap to copy.
    type Token: Copy;

    /// A cheap, copyable view spanning two offsets of this source.
    type Slice: Copy;

    /// The mathematical content of the source: its tokens, in order.
    spec fn tokens(&self) -> Seq<Self::Token>;

    /// The mathematical content of a slice produced by this source.
    spec fn slice_model(s: Self::Slice) -> Seq<Self::Token>;

    /// Produce the token at `offset` together with the offset that follows
    /// it. At or past the end of the stream this returns the same offset and
    /// no token, so repeated queries never move past the end.
    fn next(&self, offset: usize) -> (r: (usize, Option<Self::Token>))
        ensures
            offset < self.tokens().len() ==> r.0 == offset + 1 && r.1 == Some(
                self.tokens()[offset as int],
            ),
            offset >= self.tokens().len() ==> r.0 == offset && r.1 is None,
    ;

    /// The view spanning `start` (inclusive) to `end` (exclusive). Both
    /// offsets must have been produced by this source, so they are in range.
    fn slice(&self, start: usize, end: usize) -> (r: Self::Slice)
        requires
            start <= end <= self.tokens().len(),
        ensures
            Self::slice_model(r) == self.tokens().subrange(start as int, end as int),
    ;

    /// The minimum offset of the source.
    fn start(&self) -> (r: usize)
        ensures
            r == 0,
    ;

    /// Decide equality of two tokens of this source.
    fn token_eq(a: Self::Token, b: Self::Token) -> (r: bool)
        ensures
            r == (a == b),
    ;
}

/// A text-scalar stream: tokens are Unicode scalar values held in a slice,
/// offsets are scalar indices, slices are sub-slices of the backing store.
impl<'input> Input for &'input [char] {
    type Token = char;

    type Slice = &'input [char];

    open spec fn tokens(&self) -> Seq<char> {
        (*self)@
    }

    open spec fn slice_model(s: &'input [char]) -> Seq<char> {
        s@
    }

    fn next(&self, offset: usize) -> (r: (usize, Option<char>)) {
        if offset < self.len() {
            (offset + 1, Some(*vstd::slice::slice_index_get(*self, offset)))
        } else {
            (offset, None)
        }
    }

    fn slice(&self, start: usize, end: usize) -> (r: &'input [char]) {
        vstd::slice::slice_subrange(*self, start, end)
    }

    fn start(&self) -> (r: usize) {
        0
    }

    fn token_eq(a: char, b: char) -> (r: bool) {
        a == b
    }
}

/// A raw-byte stream: tokens are individual bytes, offsets are byte indices,
/// slices are byte sub-slices.
impl<'input> Input for &'input [u8] {
    type Token = u8;

    type Slice = &'input [u8];

    open spec fn tokens(&self) -> Seq<u8> {
        (*self)@
    }

    open spec fn slice_model(s: &'input [u8]) -> Seq<u8> {
        s@
    }

    fn next(&self, offset: usize) -> (r: (usize, Option<u8>)) {
        if offset < self.len() {
            (offset + 1, Some(*vstd::slice::slice_index_get(*self, offset)))
        } else {
            (offset, None)
        }
    }

    fn slice(&self, start: usize, end: usize) -> (r: &'input [u8]) {
        vstd::slice::slice_subrange(*self, start, end)
    }

    fn start(&self) -> (r: usize) {
        0
    }

    fn token_eq(a: u8, b: u8) -> (r: bool) {
        a == b
    }
}

/// The cursor: the single mutable position tracker of a parse, bound to one
/// source which it borrows read-only. Its offset changes only through an
/// explicit advance or an explicit rewind.
pub struct InputRef<'parse, I> where I: Input {
    input: &'parse I,
    offset: usize,
}

impl<'parse, I> InputRef<'parse, I> where I: Input {
    /// The tokens of the source this cursor reads.
    pub closed spec fn src(&self) -> Seq<I::Token> {
        self.input.tokens()
    }

    /// The tracked offset, as a mathematical integer.
    pub closed spec fn off(&self) -> int {
        self.offset as int
    }

    /// The cursor never stands past the end of its source. Every offset this
    /// cursor hands out satisfies this bound, and `rewind` only accepts
    /// offsets previously observed from the same source.
    pub open spec fn inv(&self) -> bool {
        0 <= self.off() <= self.src().len()
    }

    /// Build a cursor standing at the start of `input`.
    pub fn new(input: &'parse I) -> (r: Self)
        ensures
            r.src() == input.tokens(),
            r.off() == 0,
            r.inv(),
    {
        Self { input, offset: input.start() }
    }

    /// Advance past the current token, returning the new offset and the token
    /// consumed; at the end of the stream the offset is unchanged and no
    /// token is returned.
    pub fn next(&mut self) -> (r: (usize, Option<I::Token>))
        requires
            old(self).inv(),
        ensures
            final(self).inv(),
            final(self).src() == old(self).src(),
            r.0 == final(self).off(),
            old(self).off() < old(self).src().len() ==> final(self).off() == old(self).off() + 1
                && r.1 == Some(old(self).src()[old(self).off()]),
            old(self).off() >= old(self).src().len() ==> final(self).off() == old(self).off()
                && r.1 is None,
    {
        let (next_offset, next) = self.input.next(self.offset);
        self.offset = next_offset;
        (self.offset, next)
    }

    /// Advance and return only the new offset.
    pub fn next_offset(&mut self) -> (r: usize)
        requires
            old(self).inv(),
        ensures
            final(self).inv(),
            final(self).src() == old(self).src(),
            r == final(self).off(),
            old(self).off() < old(self).src().len() ==> final(self).off() == old(self).off() + 1,
            old(self).off() >= old(self).src().len() ==> final(self).off() == old(self).off(),
    {
        self.next().0
    }

    /// Advance and return only the token consumed.
    pub fn next_token(&mut self) -> (r: Option<I::Token>)
        requires
            old(self).inv(),
        ensures
            final(self).inv(),
            final(self).src() == old(self).src(),
            old(self).off() < old(self).src().len() ==> final(self).off() == old(self).off() + 1
                && r == Some(old(self).src()[old(self).off()]),
            old(self).off() >= old(self).src().len() ==> final(self).off() == old(self).off()
                && r is None,
    {
        self.next().1
    }

    /// Compute what `next` would return, without moving the cursor.
    pub fn peek(&self) -> (r: (usize, Option<I::Token>))
        ensures
            self.off() < self.src().len() ==> r.0 == self.off() + 1 && r.1 == Some(
                self.src()[self.off()],
            ),
            self.off() >= self.src().len() ==> r.0 == self.off() && r.1 is None,
    {
        self.input.next(self.offset)
    }

    /// The token `next` would consume, without moving the cursor.
    pub fn peek_token(&self) -> (r: Option<I::Token>)
        ensures
            self.off() < self.src().len() ==> r == Some(self.src()[self.off()]),
            self.off() >= self.src().len() ==> r is None,
    {
        self.peek().1
    }

    /// Set the tracked offset to a caller-supplied value. The caller must
    /// only pass offsets previously observed from this same source, which is
    /// what the precondition records.
    pub fn rewind(&mut self, offset: usize)
        requires
            offset <= old(self).src().len(),
        ensures
            final(self).inv(),
            final(self).src() == old(self).src(),
            final(self).off() == offset,
    {
        self.offset = offset;
    }

    /// The minimum offset of the backing source.
    pub fn start(&self) -> (r: usize)
        ensures
            r == 0,
    {
        self.input.start()
    }

    /// The tracked offset.
    pub fn offset(&self) -> (r: usize)
        ensures
            r == self.off(),
    {
        self.offset
    }

    /// The view of the source between two offsets, delegated to the source.
    pub fn slice(&self, start: usize, end: usize) -> (r: I::Slice)
        requires
            start <= end <= self.src().len(),
        ensures
            I::slice_model(r) == self.src().subrange(start as int, end as int),
    {
        self.input.slice(start, end)
    }
}

} // verus!
