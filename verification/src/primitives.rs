//! The primitive parsers: literal match, any-token, end-of-input, and
//! first-match-of a set of candidate literals.

use core::marker::PhantomData;
use vstd::prelude::*;

use crate::input::{Input, InputRef};
use crate::parser::{ParseError, ParseResult, Parser};
use crate::sequence::OrderedSequence;

verus! {

/// The literal `lit` occurs in `src` at offset `start`.
pub open spec fn matches_at<T>(src: Seq<T>, start: int, lit: Seq<T>) -> bool {
    &&& 0 <= start
    &&& start + lit.len() <= src.len()
    &&& forall|j: int| 0 <= j < lit.len() ==> src[start + j] == lit[j]
}

/// How many leading tokens of `lit` occur in order in `src` from `start`
/// before the first mismatch or the end of `src`.
pub open spec fn match_len<T>(src: Seq<T>, start: int, lit: Seq<T>) -> int
    decreases lit.len(),
{
    if lit.len() <= 0 {
        0
    } else if 0 <= start < src.len() && src[start] == lit[0] {
        1 + match_len(src, start + 1, lit.subrange(1, lit.len() as int))
    } else {
        0
    }
}

/// The matched prefix is never negative and never longer than the literal.
pub proof fn lemma_match_len_bounds<T>(src: Seq<T>, start: int, lit: Seq<T>)
    ensures
        0 <= match_len(src, start, lit) <= lit.len(),
    decreases lit.len(),
{
    if lit.len() > 0 && 0 <= start < src.len() && src[start] == lit[0] {
        lemma_match_len_bounds(src, start + 1, lit.subrange(1, lit.len() as int));
    }
}

/// `match_len` equals `stop` whenever the first `stop` tokens match and,
/// unless the whole literal is covered, the very next comparison fails.
pub proof fn lemma_match_len_stops<T>(src: Seq<T>, start: int, lit: Seq<T>, stop: int)
    requires
        0 <= start,
        0 <= stop <= lit.len(),
        start + stop <= src.len(),
        forall|j: int| 0 <= j < stop ==> src[start + j] == lit[j],
        stop < lit.len() ==> (start + stop == src.len() || src[start + stop] != lit[stop]),
    ensures
        match_len(src, start, lit) == stop,
    decreases stop,
{
    if stop == 0 {
        if lit.len() > 0 && 0 <= start < src.len() && src[start] == lit[0] {
            assert(src[start + 0] == lit[0]);
        }
    } else {
        let tail = lit.subrange(1, lit.len() as int);
        assert(src[start + 0] == lit[0]);
        assert(forall|j: int| 0 <= j < stop - 1 ==> src[start + 1 + j] == #[trigger] tail[j]);
        lemma_match_len_stops(src, start + 1, tail, stop - 1);
    }
}

/// Walk the cursor forward over `literal`. On a full match the cursor ends
/// just past the literal; on the first mismatch it is left at the mismatch
/// point, with no self-restore.
#[verifier::loop_isolation(false)]
fn advance_matching<I, S>(input_ref: &mut InputRef<'_, I>, literal: &S) -> (r: bool) where
    I: Input,
    S: OrderedSequence<Token = I::Token>,

    requires
        old(input_ref).inv(),
    ensures
        final(input_ref).inv(),
        final(input_ref).src() == old(input_ref).src(),
        r ==> matches_at(old(input_ref).src(), old(input_ref).off(), literal.seq_model())
            && final(input_ref).off() == old(input_ref).off() + literal.seq_model().len(),
        !r ==> match_len(old(input_ref).src(), old(input_ref).off(), literal.seq_model())
            < literal.seq_model().len() && final(input_ref).off() == old(input_ref).off()
            + match_len(old(input_ref).src(), old(input_ref).off(), literal.seq_model()),
{
    let ghost src = input_ref.src();
    let ghost start = input_ref.off();
    let ghost lit = literal.seq_model();
    let n = literal.length();
    let mut i: usize = 0;
    while i < n
        invariant
            i <= n,
            n == lit.len(),
            lit == literal.seq_model(),
            input_ref.inv(),
            input_ref.src() == src,
            input_ref.off() == start + i,
            start + i <= src.len(),
            forall|j: int| 0 <= j < i ==> src[start + j] == lit[j],
        decreases n - i,
    {
        let t = literal.token_at(i);
        match input_ref.peek_token() {
            Some(tok) => {
                if I::token_eq(t, tok) {
                    let _ = input_ref.next_token();
                    i = i + 1;
                } else {
                    proof {
                        lemma_match_len_stops(src, start, lit, i as int);
                    }
                    return false;
                }
            },
            None => {
                proof {
                    lemma_match_len_stops(src, start, lit, i as int);
                }
                return false;
            },
        }
    }
    true
}

/// The literal-match primitive: compares the source's upcoming tokens
/// one-by-one against a fixed ordered sequence. On a full match it succeeds
/// with the slice spanning the consumed span; on the first mismatch it fails
/// leaving the cursor at the mismatch point (no self-restore — wrap in an
/// alternative for backtracking past a partial match).
#[derive(Clone, Copy)]
pub struct Exact<I, T> {
    pub literal: T,
    pub phantom: PhantomData<I>,
}

/// Build a literal-match parser for `literal`.
pub fn exact<I, T>(literal: T) -> (r: Exact<I, T>) where
    I: Input,
    T: OrderedSequence<Token = I::Token>,

    ensures
        r.literal == literal,
{
    Exact { literal, phantom: PhantomData }
}

impl<I, T> Parser<I, <I as Input>::Slice> for Exact<I, T> where
    I: Input,
    T: OrderedSequence<Token = I::Token>,
 {
    open spec fn wf(&self) -> bool {
        true
    }

    open spec fn ok(&self, src: Seq<I::Token>, start: int, end: int, o: I::Slice) -> bool {
        &&& matches_at(src, start, self.literal.seq_model())
        &&& end == start + self.literal.seq_model().len()
        &&& I::slice_model(o) == self.literal.seq_model()
    }

    open spec fn bad(&self, src: Seq<I::Token>, start: int, end: int) -> bool {
        &&& match_len(src, start, self.literal.seq_model()) < self.literal.seq_model().len()
        &&& end == start + match_len(src, start, self.literal.seq_model())
    }

    open spec fn same_out(&self, o1: I::Slice, o2: I::Slice) -> bool {
        I::slice_model(o1) == I::slice_model(o2)
    }

    fn go(&self, input_ref: &mut InputRef<'_, I>) -> (r: ParseResult<I::Slice>) {
        let start = input_ref.offset();
        if advance_matching(input_ref, &self.literal) {
            let stop = input_ref.offset();
            let out = input_ref.slice(start, stop);
            proof {
                assert(I::slice_model(out) =~= self.literal.seq_model());
            }
            Ok(out)
        } else {
            proof {
                lemma_match_len_bounds(
                    old(input_ref).src(),
                    old(input_ref).off(),
                    self.literal.seq_model(),
                );
            }
            Err(ParseError::SyntaxError)
        }
    }

    proof fn lemma_deterministic(
        &self,
        src: Seq<I::Token>,
        start: int,
        e1: int,
        e2: int,
        o1: I::Slice,
        o2: I::Slice,
    ) {
        let lit = self.literal.seq_model();
        if matches_at(src, start, lit) {
            lemma_match_len_stops(src, start, lit, lit.len() as int);
        }
    }
}

/// The end-of-input primitive: succeeds consuming nothing only when no
/// further token is available; fails consuming nothing otherwise.
#[derive(Clone, Copy)]
pub struct End<I> {
    pub phantom: PhantomData<I>,
}

/// Build an end-of-input parser.
pub fn end<I>() -> (r: End<I>) where I: Input {
    End { phantom: PhantomData }
}

impl<I> Parser<I, ()> for End<I> where I: Input {
    open spec fn wf(&self) -> bool {
        true
    }

    open spec fn ok(&self, src: Seq<I::Token>, start: int, end: int, o: ()) -> bool {
        start >= src.len() && end == start
    }

    open spec fn bad(&self, src: Seq<I::Token>, start: int, end: int) -> bool {
        start < src.len() && end == start
    }

    fn go(&self, input_ref: &mut InputRef<'_, I>) -> (r: ParseResult<()>) {
        if input_ref.peek_token().is_some() {
            Err(ParseError::SyntaxError)
        } else {
            Ok(())
        }
    }

    proof fn lemma_deterministic(
        &self,
        src: Seq<I::Token>,
        start: int,
        e1: int,
        e2: int,
        o1: (),
        o2: (),
    ) {
    }
}

/// The any-token primitive: succeeds consuming exactly one token if one is
/// available; fails without moving the cursor if the source is exhausted.
#[derive(Clone, Copy)]
pub struct Any<I> {
    pub phantom: PhantomData<I>,
}

/// Build an any-token parser.
pub fn any<I>() -> (r: Any<I>) where I: Input {
    Any { phantom: PhantomData }
}

impl<I> Parser<I, <I as Input>::Token> for Any<I> where I: Input {
    open spec fn wf(&self) -> bool {
        true
    }

    open spec fn ok(&self, src: Seq<I::Token>, start: int, end: int, o: I::Token) -> bool {
        &&& 0 <= start < src.len()
        &&& end == start + 1
        &&& o == src[start]
    }

    open spec fn bad(&self, src: Seq<I::Token>, start: int, end: int) -> bool {
        start >= src.len() && end == start
    }

    fn go(&self, input_ref: &mut InputRef<'_, I>) -> (r: ParseResult<I::Token>) {
        match input_ref.peek_token() {
            Some(_) => {
                let t = input_ref.next_token();
                Ok(t.unwrap())
            },
            None => Err(ParseError::SyntaxError),
        }
    }

    proof fn lemma_deterministic(
        &self,
        src: Seq<I::Token>,
        start: int,
        e1: int,
        e2: int,
        o1: I::Token,
        o2: I::Token,
    ) {
    }
}

/// The first-match-of primitive: tries each candidate literal in listed
/// order, rewinding the cursor to the pre-attempt offset between candidates;
/// succeeds with the first candidate that fully matches; fails with the
/// cursor restored to the original offset only if every candidate fails.
#[derive(Clone)]
pub struct OneOf<I, S> {
    pub container: Vec<S>,
    pub phantom: PhantomData<I>,
}

/// Build a first-match-of parser over `container`.
pub fn one_of<I, S>(container: Vec<S>) -> (r: OneOf<I, S>) where
    I: Input,
    S: OrderedSequence<Token = I::Token>,

    ensures
        r.container == container,
{
    OneOf { container, phantom: PhantomData }
}

impl<I, S> OneOf<I, S> where I: Input, S: OrderedSequence<Token = I::Token> {
    /// The candidate literals, in listed order.
    pub open spec fn lits(&self) -> Seq<Seq<I::Token>> {
        self.container@.map_values(|s: S| s.seq_model())
    }
}

impl<I, S> Parser<I, <I as Input>::Slice> for OneOf<I, S> where
    I: Input,
    S: OrderedSequence<Token = I::Token>,
 {
    open spec fn wf(&self) -> bool {
        true
    }

    open spec fn ok(&self, src: Seq<I::Token>, start: int, end: int, o: I::Slice) -> bool {
        exists|i: int|
            {
                &&& 0 <= i < self.lits().len()
                &&& matches_at(src, start, self.lits()[i])
                &&& forall|j: int| 0 <= j < i ==> !matches_at(src, start, self.lits()[j])
                &&& end == start + self.lits()[i].len()
                &&& I::slice_model(o) == self.lits()[i]
            }
    }

    open spec fn bad(&self, src: Seq<I::Token>, start: int, end: int) -> bool {
        &&& forall|i: int| 0 <= i < self.lits().len() ==> !matches_at(src, start, self.lits()[i])
        &&& end == start
    }

    open spec fn same_out(&self, o1: I::Slice, o2: I::Slice) -> bool {
        I::slice_model(o1) == I::slice_model(o2)
    }

    #[verifier::loop_isolation(false)]
    fn go(&self, input_ref: &mut InputRef<'_, I>) -> (r: ParseResult<I::Slice>) {
        let ghost src = input_ref.src();
        let start_offset = input_ref.offset();
        let n = self.container.len();
        let mut idx: usize = 0;
        while idx < n
            invariant
                idx <= n,
                n == self.lits().len(),
                input_ref.inv(),
                input_ref.src() == src,
                input_ref.off() == start_offset,
                start_offset <= src.len(),
                forall|j: int| 0 <= j < idx ==> !matches_at(src, start_offset as int, self.lits()[j]),
            decreases n - idx,
        {
            let cand: &S = &self.container[idx];
            if advance_matching(input_ref, cand) {
                let stop = input_ref.offset();
                let out = input_ref.slice(start_offset, stop);
                proof {
                    assert(I::slice_model(out) =~= self.lits()[idx as int]);
                }
                return Ok(out);
            } else {
                proof {
                    let lit = self.lits()[idx as int];
                    if matches_at(src, start_offset as int, lit) {
                        lemma_match_len_stops(src, start_offset as int, lit, lit.len() as int);
                    }
                }
                input_ref.rewind(start_offset);
            }
            idx = idx + 1;
        }
        Err(ParseError::SyntaxError)
    }

    proof fn lemma_deterministic(
        &self,
        src: Seq<I::Token>,
        start: int,
        e1: int,
        e2: int,
        o1: I::Slice,
        o2: I::Slice,
    ) {
    }
}

} // verus!
