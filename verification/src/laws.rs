//! Laws of the combinator algebra that relate several parsers, stated over
//! the same relations the parsers' contracts use.

use vstd::prelude::*;

use crate::combinators::Or;
use crate::input::Input;
use crate::parser::Parser;
use crate::primitives::{lemma_match_len_stops, matches_at, End, Exact};
use crate::sequence::OrderedSequence;

verus! {

/// Alternative independence: whenever the first branch of an alternative
/// fails from some entry offset — however much input that attempt consumed
/// before failing — the alternative's outcomes from that offset are exactly
/// the second branch's outcomes run alone from the original offset, both on
/// success (same output, same final offset) and on failure.
pub proof fn lemma_alternative_independence<I, P1, P2, OP>(
    alt: Or<P1, P2>,
    src: Seq<I::Token>,
    start: int,
    fail_end: int,
    end: int,
    o: OP,
) where I: Input, P1: Parser<I, OP>, P2: Parser<I, OP>
    requires
        alt.wf(),
        alt.first_parser.bad(src, start, fail_end),
    ensures
        alt.ok(src, start, end, o) <==> alt.second_parser.ok(src, start, end, o),
        alt.bad(src, start, end) <==> alt.second_parser.bad(src, start, end),
{
    if alt.first_parser.ok(src, start, end, o) {
        alt.first_parser.lemma_deterministic(src, start, end, fail_end, o, o);
    }
}

/// Round-trip: for any literal sequence and a source exactly equal to it,
/// the literal-match parser cannot fail, and it succeeds precisely by
/// consuming the whole source and returning a slice whose content is the
/// literal itself.
pub proof fn lemma_literal_round_trip<I, T>(p: Exact<I, T>, end: int, o: I::Slice) where
    I: Input,
    T: OrderedSequence<Token = I::Token>,

    ensures
        !p.bad(p.literal.seq_model(), 0, end),
        p.ok(p.literal.seq_model(), 0, end, o) <==> (end == p.literal.seq_model().len()
            && I::slice_model(o) == p.literal.seq_model()),
{
    let lit = p.literal.seq_model();
    assert(matches_at(lit, 0, lit));
    lemma_match_len_stops(lit, 0, lit, lit.len() as int);
}

/// Zero-consumption: the end-of-input primitive moves the cursor on
/// neither success nor failure, so a successful attempt of it leaves the
/// offset exactly unchanged.
pub proof fn lemma_end_consumes_nothing<I>(p: End<I>, src: Seq<I::Token>, start: int, end: int) where
    I: Input,

    ensures
        p.ok(src, start, end, ()) ==> end == start,
        p.bad(src, start, end) ==> end == start,
{
}

} // verus!

