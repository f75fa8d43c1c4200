//! The composable-parser abstraction. A parser is an immutable, reusable
//! description of a parsing step; all mutable state lives in the cursor
//! passed at call time.

use core::marker::PhantomData;
use vstd::prelude::*;

use crate::combinators::{And, Bind, Filter, LeftBind, Mapped, Or, Padded, RightBind};
use crate::input::{Input, InputRef};
use crate::repeat::{Repeated, RepeatedRange};

verus! {

/// Relies on `Clone` for `core::marker::PhantomData`: the type is a unit
/// marker, so cloning returns its only value.
pub assume_specification<T: core::marker::PointeeSized>[ <core::marker::PhantomData<T> as Clone>::clone ](
    m: &core::marker::PhantomData<T>,
) -> (r: core::marker::PhantomData<T>)
    ensures
        r == *m,
;

/// The single failure signal of the algebra, carrying no positional or
/// contextual payload. Propagation is purely by result-passing.
#[derive(Debug, PartialEq, Eq, Structural)]
pub enum ParseError {
    SyntaxError,
}

/// What one attempt returns: a success value, or the failure signal.
pub type ParseResult<O> = Result<O, ParseError>;

/// A parser over a source type `I` producing outputs of type `O`.
///
/// The behaviour of an attempt is pinned by two relations over the source's
/// token sequence: `ok` describes the successful outcomes (entry offset,
/// exit offset, output) and `bad` the failing ones (entry offset, exit
/// offset). `go` is the one core operation: every outcome it produces lies
/// in the corresponding relation, and `lemma_deterministic` shows that the
/// relations allow at most one outcome per entry state, so repeated attempts
/// from the same cursor state are identical.
pub trait Parser<I, O> where I: Input {
    /// Well-formedness of this parser value: what must hold of captured
    /// functions (totality, determinism) for the contracts to apply.
    /// Parsers built without function parameters are unconditionally
    /// well-formed.
    spec fn wf(&self) -> bool;

    /// From `src` at offset `start`, an attempt may succeed leaving the
    /// cursor at `end` with output `o`.
    spec fn ok(&self, src: Seq<I::Token>, start: int, end: int, o: O) -> bool;

    /// From `src` at offset `start`, an attempt may fail leaving the cursor
    /// at `end`.
    spec fn bad(&self, src: Seq<I::Token>, start: int, end: int) -> bool;

    /// When two outputs count as the same outcome. By default, plain
    /// equality; parsers whose outputs are collections observed only through
    /// an abstract model compare the models instead.
    open spec fn same_out(&self, o1: O, o2: O) -> bool {
        o1 == o2
    }

    /// The core operation: attempt this parser against the cursor. On
    /// success the cursor is left just past the consumed span, never before
    /// its entry offset; on failure it is left where the specific parser
    /// documents through `bad`.
    fn go(&self, input_ref: &mut InputRef<'_, I>) -> (r: ParseResult<O>)
        requires
            self.wf(),
            old(input_ref).inv(),
        ensures
            final(input_ref).inv(),
            final(input_ref).src() == old(input_ref).src(),
            final(input_ref).off() >= old(input_ref).off(),
            match r {
                Ok(o) => self.ok(
                    old(input_ref).src(),
                    old(input_ref).off(),
                    final(input_ref).off(),
                    o,
                ),
                Err(e) => self.bad(
                    old(input_ref).src(),
                    old(input_ref).off(),
                    final(input_ref).off(),
                ) && e == ParseError::SyntaxError,
            },
    ;

    /// Determinism: from one entry state the relations allow at most one
    /// outcome, so running the same parser from the same cursor state always
    /// yields the same (outcome, final-offset) pair.
    proof fn lemma_deterministic(
        &self,
        src: Seq<I::Token>,
        start: int,
        e1: int,
        e2: int,
        o1: O,
        o2: O,
    )
        requires
            self.wf(),
        ensures
            self.ok(src, start, e1, o1) && self.ok(src, start, e2, o2) ==> e1 == e2
                && self.same_out(o1, o2),
            !(self.ok(src, start, e1, o1) && self.bad(src, start, e2)),
            self.bad(src, start, e1) && self.bad(src, start, e2) ==> e1 == e2,
    ;

    /// The top-level run entry: build a fresh cursor at the source's start
    /// offset and perform exactly one attempt. Full consumption of the
    /// source is not required; compose with the end-of-input primitive for
    /// that.
    fn parse(&self, input: I) -> (r: ParseResult<O>) where Self: Sized
        requires
            self.wf(),
        ensures
            match r {
                Ok(o) => exists|e: int| self.ok(input.tokens(), 0, e, o),
                Err(_) => exists|e: int| self.bad(input.tokens(), 0, e),
            },
    {
        let mut input_ref = InputRef::new(&input);
        self.go(&mut input_ref)
    }

    /// The transform operator: apply a pure function to this parser's
    /// output, as `map` does on iterators.
    fn map<U, F>(self, mapper: F) -> (r: Mapped<I, Self, O, F, U>) where
        F: Fn(O) -> U,
        Self: Sized,

        ensures
            r.parser == self,
            r.mapper == mapper,
    {
        Mapped { mapper, parser: self, phantom: PhantomData }
    }

    /// The sequence-keep-second operator: run this parser, then
    /// `second_parser`, keeping only the second output.
    fn right_bind<P2, OP2>(self, second_parser: P2) -> (r: RightBind<I, Self, O, P2, OP2>) where Self: Sized
        ensures
            r.0.first_parser == self,
            r.0.second_parser == second_parser,
    {
        RightBind(Bind { first_parser: self, second_parser, phantom: PhantomData })
    }

    /// The sequence-keep-first operator: run this parser, then
    /// `second_parser`, keeping only the first output.
    fn left_bind<P2, OP2>(self, second_parser: P2) -> (r: LeftBind<I, Self, O, P2, OP2>) where Self: Sized
        ensures
            r.0.first_parser == self,
            r.0.second_parser == second_parser,
    {
        LeftBind(Bind { first_parser: self, second_parser, phantom: PhantomData })
    }

    /// The sequence-both operator: run this parser, then `second_parser`,
    /// pairing both outputs.
    fn and<P2, OP2>(self, second_parser: P2) -> (r: And<I, Self, O, P2, OP2>) where Self: Sized
        ensures
            r.0.first_parser == self,
            r.0.second_parser == second_parser,
    {
        And(Bind { first_parser: self, second_parser, phantom: PhantomData })
    }

    /// The repetition operator: parse the same pattern several times, with
    /// the floor and ceiling refined afterwards. The initial range demands
    /// at least one match.
    fn repeated(self) -> (r: Repeated<I, Self, O>) where Self: Sized
        ensures
            r.parser == self,
            r.range == RepeatedRange::AtLeast(1usize),
    {
        Repeated { parser: self, range: RepeatedRange::AtLeast(1), phantom: PhantomData }
    }

    /// The predicate-filter operator: reject outputs the predicate refuses,
    /// restoring the offset on rejection.
    fn filter<F>(self, filter_func: F) -> (r: Filter<I, Self, O, F>) where
        F: Fn(&O) -> bool,
        Self: Sized,

        ensures
            r.parser == self,
            r.filter_func == filter_func,
    {
        Filter { parser: self, filter_func, phantom: PhantomData }
    }

    /// The surrounding operator: run `padded_by` before and after this
    /// parser, ignoring its outcome both times.
    fn padded<P2, OP2>(self, padded_by: P2) -> (r: Padded<I, Self, O, P2, OP2>) where Self: Sized
        ensures
            r.parser == self,
            r.padded_by == padded_by,
    {
        Padded { parser: self, padded_by, phantom: PhantomData }
    }

    /// The alternative operator: try this parser, and on failure rewind and
    /// try `second_parser` from the same offset.
    fn or<P2>(self, second_parser: P2) -> (r: Or<Self, P2>) where Self: Sized
        ensures
            r.first_parser == self,
            r.second_parser == second_parser,
    {
        Or { first_parser: self, second_parser }
    }
}

} // verus!
