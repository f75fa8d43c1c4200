//! The bounded-repetition combinator: run one parser again and again,
//! collecting its outputs into an accumulator. The mandatory floor of
//! attempts must all succeed; after it is met, attempts continue up to the
//! ceiling (or unboundedly), and the first failing optional attempt is
//! absorbed rather than propagated.

use core::marker::PhantomData;
use vstd::prelude::*;

use crate::input::{Input, InputRef};
use crate::parser::{ParseError, ParseResult, Parser};
use crate::sequence::Container;

verus! {

/// How often a repeated parser must and may match.
#[derive(Debug, Clone, Copy)]
pub enum RepeatedRange {
    /// A floor and no ceiling.
    AtLeast(usize),
    /// A floor and a ceiling.
    Between(usize, usize),
    /// Floor and ceiling coincide.
    Exactly(usize),
}

impl RepeatedRange {
    /// The mandatory number of matches.
    pub open spec fn start_spec(&self) -> usize {
        match self {
            RepeatedRange::AtLeast(start) => *start,
            RepeatedRange::Between(start, _end) => *start,
            RepeatedRange::Exactly(count) => *count,
        }
    }

    /// The ceiling on matches, if there is one.
    pub open spec fn end_spec(&self) -> Option<usize> {
        match self {
            RepeatedRange::AtLeast(_start) => None,
            RepeatedRange::Between(_start, end) => Some(*end),
            RepeatedRange::Exactly(count) => Some(*count),
        }
    }

    /// The mandatory number of matches.
    pub fn start(&self) -> (r: usize)
        ensures
            r == self.start_spec(),
    {
        match self {
            RepeatedRange::AtLeast(start) => *start,
            RepeatedRange::Between(start, _end) => *start,
            RepeatedRange::Exactly(count) => *count,
        }
    }

    /// The ceiling on matches, if there is one.
    pub fn end(&self) -> (r: Option<usize>)
        ensures
            r == self.end_spec(),
    {
        match self {
            RepeatedRange::AtLeast(_start) => None,
            RepeatedRange::Between(_start, end) => Some(*end),
            RepeatedRange::Exactly(count) => Some(*count),
        }
    }
}

/// A repetition being built; `at_least`, `exactly` and `at_most` refine the
/// range before `collect` chooses the accumulator.
#[derive(Clone, Copy)]
pub struct Repeated<I, P, OP> {
    pub parser: P,
    pub range: RepeatedRange,
    pub phantom: PhantomData<(I, OP)>,
}

/// A repetition with a floor and no ceiling.
#[derive(Clone, Copy)]
pub struct AtLeast<I, P, OP>(pub Repeated<I, P, OP>);

/// A repetition whose floor and ceiling coincide.
#[derive(Clone, Copy)]
pub struct Exactly<I, P, OP>(pub Repeated<I, P, OP>);

/// A repetition with a floor and a ceiling.
#[derive(Clone, Copy)]
pub struct AtMost<I, P, OP>(pub Repeated<I, P, OP>);

impl<I, P, OP> Repeated<I, P, OP> {
    /// Demand at least `at_least` matches, with no ceiling.
    pub fn at_least(self, at_least: usize) -> (r: AtLeast<I, P, OP>)
        ensures
            r.0.parser == self.parser,
            r.0.range == RepeatedRange::AtLeast(at_least),
    {
        AtLeast(
            Repeated {
                range: RepeatedRange::AtLeast(at_least),
                parser: self.parser,
                phantom: PhantomData,
            },
        )
    }

    /// Demand exactly `count` matches.
    pub fn exactly(self, count: usize) -> (r: Exactly<I, P, OP>)
        ensures
            r.0.parser == self.parser,
            r.0.range == RepeatedRange::Exactly(count),
    {
        Exactly(
            Repeated {
                range: RepeatedRange::Exactly(count),
                parser: self.parser,
                phantom: PhantomData,
            },
        )
    }
}

impl<I, P, OP> AtLeast<I, P, OP> {
    /// Add a ceiling of `at_most` matches to the floor already set.
    pub fn at_most(self, at_most: usize) -> (r: AtMost<I, P, OP>)
        ensures
            r.0.parser == self.0.parser,
            r.0.range == RepeatedRange::Between(self.0.range.start_spec(), at_most),
    {
        let at_least = self.0.range.start();
        AtMost(
            Repeated {
                range: RepeatedRange::Between(at_least, at_most),
                parser: self.0.parser,
                phantom: PhantomData,
            },
        )
    }

    /// Choose the accumulator the outputs are collected into.
    pub fn collect<C: Container>(self) -> (r: Collect<I, P, OP, C>)
        ensures
            r.parser == self.0.parser,
            r.range == self.0.range,
    {
        Collect { parser: self.0.parser, range: self.0.range, phantom: PhantomData }
    }
}

impl<I, P, OP> AtMost<I, P, OP> {
    /// Choose the accumulator the outputs are collected into.
    pub fn collect<C: Container>(self) -> (r: Collect<I, P, OP, C>)
        ensures
            r.parser == self.0.parser,
            r.range == self.0.range,
    {
        Collect { parser: self.0.parser, range: self.0.range, phantom: PhantomData }
    }
}

impl<I, P, OP> Exactly<I, P, OP> {
    /// Choose the accumulator the outputs are collected into.
    pub fn collect<C: Container>(self) -> (r: Collect<I, P, OP, C>)
        ensures
            r.parser == self.0.parser,
            r.range == self.0.range,
    {
        Collect { parser: self.0.parser, range: self.0.range, phantom: PhantomData }
    }
}

/// The runnable repetition: parser, range, and choice of accumulator.
#[derive(Clone, Copy)]
pub struct Collect<I, P, OP, C> {
    pub parser: P,
    pub range: RepeatedRange,
    pub phantom: PhantomData<(I, OP, C)>,
}

/// From `src` at `start`, `outs.len()` consecutive successful attempts of
/// `p` produce the outputs `outs` in order and leave the cursor at `end`.
pub open spec fn reps<I, OP, P>(p: P, src: Seq<I::Token>, start: int, outs: Seq<OP>, end: int) -> bool where
    I: Input,
    P: Parser<I, OP>,

    decreases outs.len(),
{
    if outs.len() <= 0 {
        end == start
    } else {
        exists|m: int|
            p.ok(src, start, m, outs[0]) && reps(p, src, m, outs.subrange(1, outs.len() as int), end)
    }
}

/// The abstract contents of an accumulator after pushing `outs` in order
/// into an empty one.
pub open spec fn filled<C: Container>(outs: Seq<C::Item>) -> C::Model
    decreases outs.len(),
{
    if outs.len() <= 0 {
        C::empty_model()
    } else {
        C::push_model(filled::<C>(outs.drop_last()), outs.last())
    }
}

/// `a` and `b` are outputs of the same length that the inner parser counts
/// as the same, position by position.
pub open spec fn pointwise_same<I, OP, P>(p: P, a: Seq<OP>, b: Seq<OP>) -> bool where
    I: Input,
    P: Parser<I, OP>,
 {
    a.len() == b.len() && forall|k: int| 0 <= k < a.len() ==> p.same_out(a[k], b[k])
}

/// Extending a chain of successes by one more success.
proof fn lemma_reps_push<I, OP, P>(
    p: P,
    src: Seq<I::Token>,
    start: int,
    outs: Seq<OP>,
    mid: int,
    o: OP,
    end: int,
) where I: Input, P: Parser<I, OP>
    requires
        reps(p, src, start, outs, mid),
        p.ok(src, mid, end, o),
    ensures
        reps(p, src, start, outs.push(o), end),
    decreases outs.len(),
{
    let pushed = outs.push(o);
    let tail = pushed.subrange(1, pushed.len() as int);
    if outs.len() == 0 {
        assert(mid == start);
        assert(pushed[0] == o);
        assert(tail =~= Seq::<OP>::empty());
        assert(reps(p, src, end, tail, end));
        assert(p.ok(src, start, end, pushed[0]) && reps(p, src, end, tail, end));
        assert(reps(p, src, start, pushed, end));
    } else {
        let m = choose|m: int|
            p.ok(src, start, m, outs[0]) && reps(
                p,
                src,
                m,
                outs.subrange(1, outs.len() as int),
                mid,
            );
        lemma_reps_push(p, src, m, outs.subrange(1, outs.len() as int), mid, o, end);
        assert(outs.subrange(1, outs.len() as int).push(o) =~= tail);
        assert(reps(p, src, m, tail, end));
        assert(pushed[0] == outs[0]);
        assert(p.ok(src, start, m, pushed[0]));
        assert(reps(p, src, start, pushed, end));
    }
}

/// Two chains of successes of a well-formed parser from one entry state
/// agree on their common prefix, both in offsets and (up to `same_out`) in
/// outputs, and the longer chain continues from where the shorter ended.
proof fn lemma_reps_prefix<I, OP, P>(
    p: P,
    src: Seq<I::Token>,
    start: int,
    outs1: Seq<OP>,
    e1: int,
    outs2: Seq<OP>,
    e2: int,
) where I: Input, P: Parser<I, OP>
    requires
        p.wf(),
        reps(p, src, start, outs1, e1),
        reps(p, src, start, outs2, e2),
        outs1.len() <= outs2.len(),
    ensures
        reps(p, src, e1, outs2.subrange(outs1.len() as int, outs2.len() as int), e2),
        forall|k: int| 0 <= k < outs1.len() ==> p.same_out(outs1[k], outs2[k]),
    decreases outs1.len(),
{
    if outs1.len() == 0 {
        assert(outs2.subrange(0, outs2.len() as int) =~= outs2);
    } else {
        let t1 = outs1.subrange(1, outs1.len() as int);
        let t2 = outs2.subrange(1, outs2.len() as int);
        let m1 = choose|m: int|
            p.ok(src, start, m, outs1[0]) && reps(
                p,
                src,
                m,
                outs1.subrange(1, outs1.len() as int),
                e1,
            );
        let m2 = choose|m: int|
            p.ok(src, start, m, outs2[0]) && reps(
                p,
                src,
                m,
                outs2.subrange(1, outs2.len() as int),
                e2,
            );
        p.lemma_deterministic(src, start, m1, m2, outs1[0], outs2[0]);
        assert(m1 == m2);
        lemma_reps_prefix(p, src, m1, t1, e1, t2, e2);
        assert(t2.subrange(t1.len() as int, t2.len() as int) =~= outs2.subrange(
            outs1.len() as int,
            outs2.len() as int,
        ));
        assert forall|k: int| 0 <= k < outs1.len() implies p.same_out(outs1[k], outs2[k]) by {
            if k > 0 {
                assert(outs1[k] == t1[k - 1]);
                assert(outs2[k] == t2[k - 1]);
                assert(p.same_out(t1[k - 1], t2[k - 1]));
            }
        }
    }
}

impl<I, P, OP, C> Collect<I, P, OP, C> where
    I: Input,
    P: Parser<I, OP>,
    C: Container<Item = OP>,
 {
    /// The mandatory number of matches.
    pub open spec fn floor(&self) -> int {
        self.range.start_spec() as int
    }

    /// How many attempts the repetition makes at most: the ceiling where one
    /// is set and reaches the floor, the floor where the ceiling falls short
    /// of it, and the largest representable count where none is set.
    pub open spec fn limit(&self) -> int {
        let c = match self.range.end_spec() {
            Some(m) => m as int,
            None => usize::MAX as int,
        };
        if c >= self.floor() {
            c
        } else {
            self.floor()
        }
    }
}

impl<I, P, OP, C> Parser<I, C> for Collect<I, P, OP, C> where
    I: Input,
    P: Parser<I, OP>,
    C: Container<Item = OP>,
 {
    open spec fn wf(&self) -> bool {
        self.parser.wf()
    }

    open spec fn ok(&self, src: Seq<I::Token>, start: int, end: int, c: C) -> bool {
        exists|outs: Seq<OP>, m: int|
            {
                &&& self.floor() <= outs.len() <= self.limit()
                &&& reps(self.parser, src, start, outs, m)
                &&& if outs.len() < self.limit() {
                    self.parser.bad(src, m, end)
                } else {
                    end == m
                }
                &&& C::reliable() ==> c.model() == filled::<C>(outs)
            }
    }

    open spec fn bad(&self, src: Seq<I::Token>, start: int, end: int) -> bool {
        exists|outs: Seq<OP>, m: int|
            {
                &&& outs.len() < self.floor()
                &&& reps(self.parser, src, start, outs, m)
                &&& self.parser.bad(src, m, end)
            }
    }

    open spec fn same_out(&self, c1: C, c2: C) -> bool {
        C::reliable() ==> exists|a: Seq<OP>, b: Seq<OP>|
            {
                &&& pointwise_same(self.parser, a, b)
                &&& c1.model() == filled::<C>(a)
                &&& c2.model() == filled::<C>(b)
            }
    }

    #[verifier::loop_isolation(false)]
    fn go(&self, input_ref: &mut InputRef<'_, I>) -> (r: ParseResult<C>) {
        let ghost src = input_ref.src();
        let ghost s0 = input_ref.off();
        let at_least = self.range.start();
        let at_most = self.range.end();

        let mut ret = C::empty();
        let ghost mut outs: Seq<OP> = Seq::empty();
        let mut i: usize = 0;
        while i < at_least
            invariant
                i <= at_least,
                outs.len() == i,
                input_ref.inv(),
                input_ref.src() == src,
                input_ref.off() >= s0,
                reps(self.parser, src, s0, outs, input_ref.off()),
                C::reliable() ==> ret.model() == filled::<C>(outs),
            decreases at_least - i,
        {
            let ghost prev = input_ref.off();
            match self.parser.go(input_ref) {
                Ok(o) => {
                    proof {
                        lemma_reps_push(self.parser, src, s0, outs, prev, o, input_ref.off());
                        let prev_outs = outs;
                        outs = prev_outs.push(o);
                        assert(outs.drop_last() =~= prev_outs);
                        assert(outs.last() == o);
                    }
                    ret.push(o);
                    i = i + 1;
                },
                Err(e) => {
                    return Err(e);
                },
            }
        }
        let lim = match at_most {
            Some(m) => m,
            None => usize::MAX,
        };
        while i < lim
            invariant
                at_least <= i,
                i <= lim || i == at_least,
                outs.len() == i,
                input_ref.inv(),
                input_ref.src() == src,
                input_ref.off() >= s0,
                reps(self.parser, src, s0, outs, input_ref.off()),
                C::reliable() ==> ret.model() == filled::<C>(outs),
            decreases lim - i,
        {
            let ghost prev = input_ref.off();
            match self.parser.go(input_ref) {
                Ok(o) => {
                    proof {
                        lemma_reps_push(self.parser, src, s0, outs, prev, o, input_ref.off());
                        let prev_outs = outs;
                        outs = prev_outs.push(o);
                        assert(outs.drop_last() =~= prev_outs);
                        assert(outs.last() == o);
                    }
                    ret.push(o);
                    i = i + 1;
                },
                Err(_) => {
                    proof {
                        assert(outs.len() < self.limit());
                        assert(self.ok(src, s0, input_ref.off(), ret));
                    }
                    return Ok(ret);
                },
            }
        }
        proof {
            assert(outs.len() == self.limit());
            assert(self.ok(src, s0, input_ref.off(), ret));
        }
        Ok(ret)
    }

    proof fn lemma_deterministic(
        &self,
        src: Seq<I::Token>,
        start: int,
        e1: int,
        e2: int,
        c1: C,
        c2: C,
    ) {
        if self.wf() {
            if self.ok(src, start, e1, c1) && self.ok(src, start, e2, c2) {
                let (outs1, m1) = choose|outs: Seq<OP>, m: int|
                    {
                        &&& self.floor() <= outs.len() <= self.limit()
                        &&& reps(self.parser, src, start, outs, m)
                        &&& if outs.len() < self.limit() {
                            self.parser.bad(src, m, e1)
                        } else {
                            e1 == m
                        }
                        &&& C::reliable() ==> c1.model() == filled::<C>(outs)
                    };
                let (outs2, m2) = choose|outs: Seq<OP>, m: int|
                    {
                        &&& self.floor() <= outs.len() <= self.limit()
                        &&& reps(self.parser, src, start, outs, m)
                        &&& if outs.len() < self.limit() {
                            self.parser.bad(src, m, e2)
                        } else {
                            e2 == m
                        }
                        &&& C::reliable() ==> c2.model() == filled::<C>(outs)
                    };
                if outs1.len() <= outs2.len() {
                    self.lemma_stop_agree(src, start, outs1, m1, e1, outs2, m2, e2);
                } else {
                    self.lemma_stop_agree(src, start, outs2, m2, e2, outs1, m1, e1);
                }
                assert(pointwise_same(self.parser, outs1, outs2));
            }
            if self.ok(src, start, e1, c1) && self.bad(src, start, e2) {
                let (outs1, m1) = choose|outs: Seq<OP>, m: int|
                    {
                        &&& self.floor() <= outs.len() <= self.limit()
                        &&& reps(self.parser, src, start, outs, m)
                        &&& if outs.len() < self.limit() {
                            self.parser.bad(src, m, e1)
                        } else {
                            e1 == m
                        }
                        &&& C::reliable() ==> c1.model() == filled::<C>(outs)
                    };
                let (outs2, m2) = choose|outs: Seq<OP>, m: int|
                    {
                        &&& outs.len() < self.floor()
                        &&& reps(self.parser, src, start, outs, m)
                        &&& self.parser.bad(src, m, e2)
                    };
                lemma_reps_prefix(self.parser, src, start, outs2, m2, outs1, m1);
                let rest = outs1.subrange(outs2.len() as int, outs1.len() as int);
                assert(rest.len() > 0);
                let mm = choose|m: int|
                    self.parser.ok(src, m2, m, rest[0]) && reps(
                        self.parser,
                        src,
                        m,
                        rest.subrange(1, rest.len() as int),
                        m1,
                    );
                self.parser.lemma_deterministic(src, m2, mm, e2, rest[0], rest[0]);
            }
            if self.bad(src, start, e1) && self.bad(src, start, e2) {
                let (outs1, m1) = choose|outs: Seq<OP>, m: int|
                    {
                        &&& outs.len() < self.floor()
                        &&& reps(self.parser, src, start, outs, m)
                        &&& self.parser.bad(src, m, e1)
                    };
                let (outs2, m2) = choose|outs: Seq<OP>, m: int|
                    {
                        &&& outs.len() < self.floor()
                        &&& reps(self.parser, src, start, outs, m)
                        &&& self.parser.bad(src, m, e2)
                    };
                if outs1.len() <= outs2.len() {
                    self.lemma_chains_joined(src, start, outs1, m1, e1, outs2, m2, e2);
                } else {
                    self.lemma_chains_joined(src, start, outs2, m2, e2, outs1, m1, e1);
                }
            }
        }
    }
}

impl<I, P, OP, C> Collect<I, P, OP, C> where
    I: Input,
    P: Parser<I, OP>,
    C: Container<Item = OP>,
 {
    /// Two chains that both end in a failing attempt are the same chain, so
    /// their failures end at the same offset.
    proof fn lemma_chains_joined(
        &self,
        src: Seq<I::Token>,
        start: int,
        outs1: Seq<OP>,
        m1: int,
        e1: int,
        outs2: Seq<OP>,
        m2: int,
        e2: int,
    )
        requires
            self.parser.wf(),
            outs1.len() <= outs2.len(),
            reps(self.parser, src, start, outs1, m1),
            reps(self.parser, src, start, outs2, m2),
            self.parser.bad(src, m1, e1),
            self.parser.bad(src, m2, e2),
        ensures
            outs1.len() == outs2.len(),
            m1 == m2,
            e1 == e2,
            pointwise_same(self.parser, outs1, outs2),
    {
        lemma_reps_prefix(self.parser, src, start, outs1, m1, outs2, m2);
        let rest = outs2.subrange(outs1.len() as int, outs2.len() as int);
        if rest.len() > 0 {
            let mm = choose|m: int|
                self.parser.ok(src, m1, m, rest[0]) && reps(
                    self.parser,
                    src,
                    m,
                    rest.subrange(1, rest.len() as int),
                    m2,
                );
            self.parser.lemma_deterministic(src, m1, mm, e1, rest[0], rest[0]);
        }
        self.parser.lemma_deterministic(
            src,
            m1,
            e1,
            e2,
            vstd::pervasive::arbitrary(),
            vstd::pervasive::arbitrary(),
        );
    }

    /// Two successful repetition runs agree: same number of matches, same
    /// chain end, same final offset, equivalent outputs.
    proof fn lemma_stop_agree(
        &self,
        src: Seq<I::Token>,
        start: int,
        outs1: Seq<OP>,
        m1: int,
        e1: int,
        outs2: Seq<OP>,
        m2: int,
        e2: int,
    )
        requires
            self.parser.wf(),
            outs1.len() <= outs2.len(),
            self.floor() <= outs1.len() <= self.limit(),
            self.floor() <= outs2.len() <= self.limit(),
            reps(self.parser, src, start, outs1, m1),
            reps(self.parser, src, start, outs2, m2),
            if outs1.len() < self.limit() {
                self.parser.bad(src, m1, e1)
            } else {
                e1 == m1
            },
            if outs2.len() < self.limit() {
                self.parser.bad(src, m2, e2)
            } else {
                e2 == m2
            },
        ensures
            outs1.len() == outs2.len(),
            e1 == e2,
            pointwise_same(self.parser, outs1, outs2),
    {
        lemma_reps_prefix(self.parser, src, start, outs1, m1, outs2, m2);
        let rest = outs2.subrange(outs1.len() as int, outs2.len() as int);
        if rest.len() > 0 {
            assert(outs1.len() < outs2.len() <= self.limit());
            let mm = choose|m: int|
                self.parser.ok(src, m1, m, rest[0]) && reps(
                    self.parser,
                    src,
                    m,
                    rest.subrange(1, rest.len() as int),
                    m2,
                );
            self.parser.lemma_deterministic(src, m1, mm, e1, rest[0], rest[0]);
        }
        if outs1.len() < self.limit() {
            self.parser.lemma_deterministic(
                src,
                m1,
                e1,
                e2,
                vstd::pervasive::arbitrary(),
                vstd::pervasive::arbitrary(),
            );
        }
    }
}

} // verus!
